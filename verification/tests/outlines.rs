//! Outlines of entities.

use dxf::Color;
use tabulon::drawing_types::Vec2;
use tabulon::dxf_file::{
    dxf_entity_type_name, Arc, Circle, DxfEntity, DxfPoint, Ellipse, EntityCommon, EntityType,
    Line, LwPolyline, Polyline, PolylineVertex, Solid, Spline,
};
use tabulon::number::Real;
use tabulon::path::{
    add_poly_segment, is_facing_viewer, is_traceable, path_from_entity, point_from_dxf_point,
    EntityPath, PathStep, SplineSpan,
};
use tabulon::spline::SplinePoint;

fn num(x: f64) -> Real {
    Real::from_bits(x.to_bits())
}

fn at(x: f64, y: f64) -> DxfPoint {
    DxfPoint { x: num(x), y: num(y), z: num(0.0) }
}

fn up() -> DxfPoint {
    DxfPoint { x: num(0.0), y: num(0.0), z: num(1.0) }
}

fn down() -> DxfPoint {
    DxfPoint { x: num(0.0), y: num(0.0), z: num(-1.0) }
}

fn to(x: f64, y: f64) -> Vec2 {
    Vec2 { x: num(x), y: num(y) }
}

fn entity(specific: EntityType) -> DxfEntity {
    DxfEntity {
        common: EntityCommon {
            handle: 1,
            layer: String::from("0"),
            is_visible: true,
            lineweight_enum_value: -2,
            color: Color::by_layer(),
            color_24_bit: 0,
            transparency: 0,
        },
        specific,
        arcs_vanish: false,
    }
}

fn steps(specific: EntityType) -> Option<Vec<PathStep>> {
    match path_from_entity(&entity(specific)) {
        Some(EntityPath::Steps(s)) => Some(s),
        Some(EntityPath::Spline(_)) => panic!("no spline was asked for"),
        None => None,
    }
}

fn vertex(x: f64, y: f64, bulge: f64) -> PolylineVertex {
    PolylineVertex { x: num(x), y: num(y), bulge: num(bulge) }
}

fn spline(degree: i32, points: &[(f64, f64)], knots: &[f64]) -> Spline {
    Spline {
        normal: up(),
        degree_of_curve: degree,
        control_points: points.iter().map(|p| at(p.0, p.1)).collect(),
        knot_values: knots.iter().map(|k| num(*k)).collect(),
        is_closed: false,
    }
}

#[test]
fn points_are_turned_upside_down() {
    assert_eq!(point_from_dxf_point(&at(3.0, 4.0)), to(3.0, -4.0));
    assert_eq!(point_from_dxf_point(&at(-3.0, -4.0)), to(-3.0, 4.0));
    assert_eq!(point_from_dxf_point(&at(0.0, 0.0)), to(0.0, -0.0));
}

#[test]
fn viewers_look_from_above() {
    assert!(is_facing_viewer(&up()));
    assert!(!is_facing_viewer(&down()));
    assert!(!is_facing_viewer(&at(0.0, 1.0)));
}

#[test]
fn lines_lead_from_point_to_point() {
    let line = |normal: DxfPoint| {
        EntityType::Line(Line { p1: at(1.0, 2.0), p2: at(3.0, -4.0), extrusion_direction: normal })
    };
    assert_eq!(
        steps(line(up())),
        Some(vec![PathStep::MoveTo(to(1.0, -2.0)), PathStep::LineTo(to(3.0, 4.0))])
    );
    assert_eq!(steps(line(down())), None);
}

#[test]
fn arcs_keep_their_angles() {
    let arc = |normal: DxfPoint| {
        EntityType::Arc(Arc {
            center: at(1.0, 2.0),
            radius: num(5.0),
            normal,
            start_angle: num(30.0),
            end_angle: num(90.0),
        })
    };
    assert_eq!(
        steps(arc(up())),
        Some(vec![PathStep::Arc {
            center: to(1.0, -2.0),
            radius: num(5.0),
            start_angle: num(30.0),
            end_angle: num(90.0),
        }])
    );
    assert_eq!(steps(arc(down())), None);
}

#[test]
fn circles_are_whole() {
    let circle = |normal: DxfPoint| {
        EntityType::Circle(Circle { center: at(1.0, 2.0), radius: num(5.0), normal })
    };
    assert_eq!(
        steps(circle(up())),
        Some(vec![PathStep::Circle { center: to(1.0, -2.0), radius: num(5.0) }])
    );
    assert_eq!(steps(circle(down())), None);
}

#[test]
fn ellipses_turn_their_axis() {
    let ellipse = |normal: DxfPoint| {
        EntityType::Ellipse(Ellipse {
            center: at(1.0, 2.0),
            major_axis: at(6.0, 8.0),
            normal,
            minor_axis_ratio: num(0.5),
            start_parameter: num(0.0),
            end_parameter: num(3.0),
        })
    };
    assert_eq!(
        steps(ellipse(up())),
        Some(vec![PathStep::EllipticalArc {
            center: to(1.0, -2.0),
            major_axis: to(6.0, -8.0),
            minor_axis_ratio: num(0.5),
            start_parameter: num(0.0),
            end_parameter: num(3.0),
        }])
    );
    assert_eq!(steps(ellipse(down())), None);
}

#[test]
fn segments_are_straight_without_bulge() {
    let mut got = Vec::new();
    add_poly_segment(&mut got, to(0.0, 0.0), to(1.0, 0.0), num(0.0));
    add_poly_segment(&mut got, to(1.0, 0.0), to(2.0, 0.0), num(-0.0));
    add_poly_segment(&mut got, to(2.0, 0.0), to(3.0, 0.0), num(0.5));
    assert_eq!(
        got,
        vec![
            PathStep::LineTo(to(1.0, 0.0)),
            PathStep::LineTo(to(2.0, 0.0)),
            PathStep::BulgeTo { start: to(2.0, 0.0), end: to(3.0, 0.0), bulge: num(0.5) },
        ]
    );
}

#[test]
fn light_polylines_turn_their_bulges() {
    let poly = EntityType::LwPolyline(LwPolyline {
        extrusion_direction: up(),
        vertices: vec![vertex(0.0, 0.0, 0.0), vertex(1.0, 1.0, 0.5), vertex(2.0, 0.0, 1.0)],
        is_closed: true,
    });
    assert_eq!(
        steps(poly),
        Some(vec![
            PathStep::MoveTo(to(0.0, -0.0)),
            PathStep::LineTo(to(1.0, -1.0)),
            PathStep::BulgeTo { start: to(1.0, -1.0), end: to(2.0, -0.0), bulge: num(-0.5) },
            PathStep::ClosePath,
        ])
    );
}

#[test]
fn polylines_need_two_vertices() {
    let light = |vertices: Vec<PolylineVertex>, normal: DxfPoint| {
        steps(EntityType::LwPolyline(LwPolyline {
            extrusion_direction: normal,
            vertices,
            is_closed: false,
        }))
    };
    assert_eq!(light(vec![], up()), None);
    assert_eq!(light(vec![vertex(0.0, 0.0, 0.0)], up()), None);
    assert_eq!(light(vec![vertex(0.0, 0.0, 0.0), vertex(1.0, 0.0, 0.0)], down()), None);
    let two = light(vec![vertex(0.0, 0.0, 0.0), vertex(1.0, 0.0, 0.0)], up());
    assert_eq!(two.map(|s| s.len()), Some(2));
}

#[test]
fn meshes_are_no_polylines() {
    let heavy = |face: bool, polygon: bool, normal: DxfPoint| {
        steps(EntityType::Polyline(Polyline {
            normal,
            is_polyface_mesh: face,
            is_3d_polygon_mesh: polygon,
            vertices: vec![vertex(0.0, 1.0, 0.0), vertex(5.0, 1.0, 0.0)],
            is_closed: false,
        }))
    };
    assert_eq!(
        heavy(false, false, up()),
        Some(vec![PathStep::MoveTo(to(0.0, -1.0)), PathStep::LineTo(to(5.0, -1.0))])
    );
    assert_eq!(heavy(true, false, up()), None);
    assert_eq!(heavy(false, true, up()), None);
    assert_eq!(heavy(false, false, down()), None);
}

#[test]
fn solids_go_around_their_corners() {
    let solid = |third: DxfPoint, fourth: DxfPoint, normal: DxfPoint| {
        steps(EntityType::Solid(Solid {
            first_corner: at(0.0, 1.0),
            second_corner: at(1.0, 1.0),
            third_corner: third,
            fourth_corner: fourth,
            extrusion_direction: normal,
        }))
    };
    assert_eq!(
        solid(at(0.0, 2.0), at(1.0, 2.0), up()),
        Some(vec![
            PathStep::MoveTo(to(0.0, -1.0)),
            PathStep::LineTo(to(0.0, -2.0)),
            PathStep::LineTo(to(1.0, -2.0)),
            PathStep::LineTo(to(1.0, -1.0)),
            PathStep::ClosePath,
        ])
    );
    assert_eq!(
        solid(at(0.0, 2.0), at(-0.0, 2.0), up()),
        Some(vec![
            PathStep::MoveTo(to(0.0, -1.0)),
            PathStep::LineTo(to(0.0, -2.0)),
            PathStep::LineTo(to(1.0, -1.0)),
            PathStep::ClosePath,
        ])
    );
    assert_eq!(solid(at(0.0, 2.0), at(1.0, 2.0), down()), None);
}

#[test]
fn splines_have_a_piece_for_every_span() {
    let s = spline(
        2,
        &[(0.0, 0.0), (1.0, 1.0), (2.0, 0.0), (3.0, 1.0)],
        &[0.0, 0.0, 0.0, 1.0, 2.0, 2.0, 2.0],
    );
    let e = entity(EntityType::Spline(s));
    let Some(EntityPath::Spline(path)) = path_from_entity(&e) else {
        panic!("a spline has an outline");
    };
    assert_eq!(path.degree, 2);
    assert_eq!(path.control_points[1], to(1.0, -1.0));
    assert_eq!((path.u_start, path.start), (num(0.0), SplinePoint::Span(2)));
    assert_eq!(
        path.spans,
        vec![
            SplineSpan::Quadratic {
                u0: num(0.0),
                u1: num(1.0),
                end: SplinePoint::Span(3),
                tangent0: SplinePoint::Span(1),
                tangent1: SplinePoint::Span(2),
            },
            SplineSpan::Quadratic {
                u0: num(1.0),
                u1: num(2.0),
                end: SplinePoint::Control(3),
                tangent0: SplinePoint::Span(2),
                tangent1: SplinePoint::Control(2),
            },
        ]
    );
    assert_eq!(path.derivative.map(|d| d.control_points.len()), Some(3));
    assert!(!path.is_closed);
}

#[test]
fn splines_of_degree_one_are_straight() {
    let s = spline(1, &[(0.0, 0.0), (1.0, 1.0)], &[0.0, 0.0, 4.0, 4.0]);
    let Some(EntityPath::Spline(path)) = path_from_entity(&entity(EntityType::Spline(s))) else {
        panic!("a spline has an outline");
    };
    assert_eq!(path.spans, vec![SplineSpan::Line { u1: num(4.0), end: SplinePoint::Control(1) }]);
    assert!(path.derivative.is_none());
}

#[test]
fn cubic_splines_know_their_parameters() {
    let s = spline(
        3,
        &[(0.0, 0.0), (1.0, 1.0), (2.0, 1.0), (3.0, 0.0)],
        &[2.0, 2.0, 2.0, 2.0, 5.0, 5.0, 5.0, 5.0],
    );
    let Some(EntityPath::Spline(path)) = path_from_entity(&entity(EntityType::Spline(s))) else {
        panic!("a spline has an outline");
    };
    assert_eq!(
        path.spans,
        vec![SplineSpan::Cubic {
            u0: num(2.0),
            u1: num(5.0),
            end: SplinePoint::Control(3),
            tangent0: SplinePoint::Span(2),
            tangent1: SplinePoint::Control(2),
        }]
    );
}

#[test]
fn incomplete_splines_have_no_outline() {
    let none = |s: Spline| path_from_entity(&entity(EntityType::Spline(s))).is_none();
    assert!(none(spline(4, &[(0.0, 0.0); 5], &[0.0; 10])));
    assert!(none(spline(-1, &[(0.0, 0.0); 5], &[0.0; 10])));
    assert!(none(spline(2, &[(0.0, 0.0); 2], &[0.0; 10])));
    assert!(none(spline(2, &[(0.0, 0.0); 3], &[0.0; 5])));
    let mut turned = spline(2, &[(0.0, 0.0); 3], &[0.0; 6]);
    turned.normal = down();
    assert!(none(turned));
    assert!(!none(spline(2, &[(0.0, 0.0); 3], &[0.0; 6])));
}

#[test]
fn splines_of_degree_zero_have_one_knot() {
    let one = entity(EntityType::Spline(spline(0, &[(1.0, 2.0)], &[3.0, 3.0])));
    assert!(is_traceable(&one));
    let Some(EntityPath::Spline(path)) = path_from_entity(&one) else {
        panic!("a spline has an outline");
    };
    assert_eq!(path.spans, vec![]);
    let two = entity(EntityType::Spline(spline(0, &[(1.0, 2.0)], &[3.0, 4.0])));
    assert!(!is_traceable(&two));
}

#[test]
fn marks_depend_on_arcs() {
    let circle = EntityType::Circle(Circle { center: at(1.0, 2.0), radius: num(5.0), normal: up() });
    let path = path_from_entity(&entity(circle)).unwrap();
    assert!(path.has_segments(false));
    assert!(!path.has_segments(true));
    let line = EntityType::Line(Line {
        p1: at(1.0, 2.0),
        p2: at(1.0, 2.0),
        extrusion_direction: up(),
    });
    let path = path_from_entity(&entity(line)).unwrap();
    assert!(path.has_segments(true));
    let point = entity(EntityType::Spline(spline(0, &[(1.0, 2.0)], &[3.0, 3.0])));
    assert!(!path_from_entity(&point).unwrap().has_segments(false));
}

#[test]
fn other_kinds_have_names_but_no_outline() {
    assert_eq!(steps(EntityType::Leader), None);
    assert_eq!(dxf_entity_type_name(&EntityType::Leader), "Leader");
    assert_eq!(dxf_entity_type_name(&EntityType::Face3D), "Face3D");
    assert_eq!(dxf_entity_type_name(&EntityType::XLine), "XLine");
    let line = EntityType::Line(Line {
        p1: at(1.0, 2.0),
        p2: at(1.0, 2.0),
        extrusion_direction: up(),
    });
    assert_eq!(dxf_entity_type_name(&line), "Line");
}
