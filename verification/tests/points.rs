//! Points, and the buffers that they are gathered in.

use std::cmp::Ordering;

use tabulon::drawing_types::{Vec2, Vec2BufBuilder, Vec3};
use tabulon::number::Real;

fn num(x: f64) -> Real {
    Real::from_bits(x.to_bits())
}

fn point(x: f64, y: f64) -> Vec2 {
    Vec2 { x: num(x), y: num(y) }
}

#[test]
fn points_are_ordered_by_x_then_y() {
    assert_eq!(point(1.0, 5.0).cmp(&point(2.0, -5.0)), Ordering::Less);
    assert_eq!(point(1.0, 5.0).cmp(&point(1.0, 4.0)), Ordering::Greater);
    assert_eq!(point(1.0, 5.0).cmp(&point(1.0, 5.0)), Ordering::Equal);
    assert!(point(-0.0, 0.0) < point(0.0, 0.0));
    assert!(point(0.0, 0.0) != point(-0.0, 0.0));
}

#[test]
fn solid_points_are_ordered_by_x_y_z() {
    let p = |x: f64, y: f64, z: f64| Vec3 { x: num(x), y: num(y), z: num(z) };
    assert!(p(1.0, 2.0, 3.0) < p(1.0, 2.0, 4.0));
    assert!(p(1.0, 2.0, 3.0) < p(1.0, 3.0, 0.0));
    assert!(p(2.0, 2.0, 3.0) > p(1.0, 3.0, 9.0));
    assert_eq!(p(1.0, 2.0, f64::NAN), p(1.0, 2.0, f64::NAN));
    assert_eq!(p(1.0, 2.0, 3.0).cmp(&p(1.0, 2.0, 3.0)), Ordering::Equal);
}

#[test]
fn keys_are_ordered_as_points() {
    let points = [
        point(f64::NEG_INFINITY, 3.0),
        point(-0.0, 1.0),
        point(0.0, -1.0),
        point(0.0, 7.0),
        point(5.0, f64::NAN),
    ];
    for a in points {
        for b in points {
            assert_eq!(a.key().cmp(&b.key()), a.cmp(&b));
        }
    }
}

#[test]
fn equal_points_share_a_handle() {
    let mut builder = Vec2BufBuilder::new();
    assert_eq!(builder.handle(point(1.0, 2.0)), 0);
    assert_eq!(builder.handle(point(3.0, 4.0)), 1);
    assert_eq!(builder.handle(point(1.0, 2.0)), 0);
    assert_eq!(builder.handle(point(-0.0, 0.0)), 2);
    assert_eq!(builder.handle(point(0.0, 0.0)), 3);
    assert_eq!(builder.handle(point(f64::NAN, 0.0)), 4);
    assert_eq!(builder.handle(point(f64::NAN, 0.0)), 4);
    assert_eq!(builder.handle(point(3.0, 4.0)), 1);
}

#[test]
fn handles_lead_back_to_points() {
    let mut builder = Vec2BufBuilder::default();
    let h = builder.handle(point(8.0, 9.0));
    let g = builder.handle(point(9.0, 8.0));
    assert_eq!(builder.get(h), point(8.0, 9.0));
    assert_eq!(builder.get(g), point(9.0, 8.0));
    assert_eq!(builder.point_count(), 2);
}

#[test]
fn consumed_points_come_in_order() {
    let mut builder = Vec2BufBuilder::new();
    builder.handle(point(5.0, 5.0));
    builder.handle(point(1.0, 1.0));
    builder.handle(point(5.0, 5.0));
    builder.handle(point(3.0, 3.0));
    assert_eq!(builder.consume(), vec![point(5.0, 5.0), point(1.0, 1.0), point(3.0, 3.0)]);
    assert_eq!(Vec2BufBuilder::new().consume(), vec![]);
}
