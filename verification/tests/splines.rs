//! The index work behind splines.

use tabulon::number::Real;
use tabulon::spline::{
    blend_steps, derivative_control_points, eval_spline, unique_knots, Blend, Difference,
    SplinePoint,
};

fn nums(xs: &[f64]) -> Vec<Real> {
    xs.iter().map(|x| Real::from_bits(x.to_bits())).collect()
}

fn num(x: f64) -> Real {
    Real::from_bits(x.to_bits())
}

/// Blend the control points of a spline as [`eval_spline`] and [`blend_steps`] say.
fn evaluate(degree: usize, points: &[f64], knots: &[f64], u: f64) -> f64 {
    match eval_spline(degree, points.len(), &nums(knots), num(u)) {
        SplinePoint::Control(i) => points[i],
        SplinePoint::Span(k) => {
            let mut d = points[k - degree..=k].to_vec();
            for b in blend_steps(degree, k) {
                let a = (u - knots[b.low_knot]) / (knots[b.high_knot] - knots[b.low_knot]);
                d[b.target] = (1.0 - a) * d[b.target - 1] + a * d[b.target];
            }
            d[degree]
        }
    }
}

#[test]
fn spans_are_found() {
    let knots = nums(&[0.0, 0.0, 0.0, 1.0, 2.0, 2.0, 2.0]);
    assert_eq!(eval_spline(2, 4, &knots, num(0.0)), SplinePoint::Span(2));
    assert_eq!(eval_spline(2, 4, &knots, num(0.5)), SplinePoint::Span(2));
    assert_eq!(eval_spline(2, 4, &knots, num(1.0)), SplinePoint::Span(3));
    assert_eq!(eval_spline(2, 4, &knots, num(1.5)), SplinePoint::Span(3));
}

#[test]
fn ends_are_control_points() {
    let knots = nums(&[0.0, 0.0, 0.0, 1.0, 2.0, 2.0, 2.0]);
    assert_eq!(eval_spline(2, 4, &knots, num(2.0)), SplinePoint::Control(3));
    assert_eq!(eval_spline(2, 4, &knots, num(9.0)), SplinePoint::Control(3));
    assert_eq!(eval_spline(2, 4, &knots, num(-1.0)), SplinePoint::Control(0));
    assert_eq!(eval_spline(2, 4, &knots, num(f64::NAN)), SplinePoint::Control(3));
}

#[test]
fn blends_follow_de_boor() {
    assert_eq!(
        blend_steps(2, 3),
        vec![
            Blend { target: 2, low_knot: 3, high_knot: 5 },
            Blend { target: 1, low_knot: 2, high_knot: 4 },
            Blend { target: 2, low_knot: 3, high_knot: 4 },
        ]
    );
    assert_eq!(blend_steps(0, 4), vec![]);
    assert_eq!(blend_steps(1, 1), vec![Blend { target: 1, low_knot: 1, high_knot: 2 }]);
    assert_eq!(blend_steps(3, 5).len(), 6);
}

#[test]
fn a_line_is_evaluated_exactly() {
    let knots = [0.0, 0.0, 1.0, 3.0, 3.0];
    let points = [10.0, 20.0, 40.0];
    assert_eq!(evaluate(1, &points, &knots, 0.0), 10.0);
    assert_eq!(evaluate(1, &points, &knots, 0.5), 15.0);
    assert_eq!(evaluate(1, &points, &knots, 1.0), 20.0);
    assert_eq!(evaluate(1, &points, &knots, 2.0), 30.0);
    assert_eq!(evaluate(1, &points, &knots, 3.0), 40.0);
}

#[test]
fn a_bezier_curve_is_evaluated_exactly() {
    let knots = [0.0, 0.0, 0.0, 0.0, 1.0, 1.0, 1.0, 1.0];
    let points = [0.0, 8.0, 8.0, 16.0];
    assert_eq!(evaluate(3, &points, &knots, 0.5), 8.0);
    assert_eq!(evaluate(3, &points, &knots, 0.25), 4.75);
}

#[test]
fn derivatives_take_differences() {
    let d = derivative_control_points(2, 3, &nums(&[0.0, 0.0, 0.0, 1.0, 1.0, 1.0]));
    assert_eq!(d.degree, 1);
    assert_eq!(
        d.control_points,
        vec![
            Difference { from: 0, to: 1, low_knot: 1, high_knot: 3 },
            Difference { from: 1, to: 2, low_knot: 2, high_knot: 4 },
        ]
    );
    assert_eq!(d.knots, nums(&[0.0, 0.0, 1.0, 1.0]));
}

#[test]
fn points_have_no_derivative() {
    let d = derivative_control_points(0, 3, &nums(&[0.0, 1.0, 2.0, 3.0]));
    assert_eq!(d.degree, 0);
    assert_eq!(d.control_points, vec![]);
    assert_eq!(d.knots, nums(&[0.0, 1.0, 2.0, 3.0]));
    let single = derivative_control_points(2, 1, &nums(&[5.0]));
    assert_eq!(single.control_points, vec![]);
    assert_eq!(single.knots, nums(&[5.0]));
}

#[test]
fn knots_are_sorted_and_told_apart() {
    let knots = nums(&[9.0, 2.0, 1.0, 2.0, -0.0, 0.0, 1.0, 7.0]);
    assert_eq!(unique_knots(&knots, 1, 7), nums(&[-0.0, 0.0, 1.0, 2.0]));
    assert_eq!(unique_knots(&knots, 0, 8), nums(&[-0.0, 0.0, 1.0, 2.0, 7.0, 9.0]));
    assert_eq!(unique_knots(&knots, 3, 3), vec![]);
}
