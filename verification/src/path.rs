//! Outlines of entities.
//!
//! An outline is a recipe: which pieces follow one another, and which coordinates
//! each is made of. Coordinates are turned to a y axis that points down. Flattening
//! arcs and evaluating splines is left to whoever draws the outline.

use vstd::prelude::*;

use crate::drawing_types::Vec2;
use crate::dxf_file::{DxfEntity, DxfPoint, EntityType, PolylineVertex, Solid, Spline};
use crate::number::{Real, ONE, POSITIVE_ZERO};
use crate::spline::{
    copy_range, derivative_control_points, eval_spline, unique_knots, Derivative, SplinePoint,
};
#[allow(unused_imports)]
use crate::spline::DerivativeView;

verus! {

/// A piece of an outline.
#[derive(Debug, Clone, Copy, PartialEq, Eq, Structural)]
pub enum PathStep {
    /// Start anew at a point.
    MoveTo(Vec2),
    /// A straight line to a point.
    LineTo(Vec2),
    /// Back to where the current part started.
    ClosePath,
    /// A circular arc by itself. Angles are in degrees, and counterclockwise where y
    /// points up.
    Arc { center: Vec2, radius: Real, start_angle: Real, end_angle: Real },
    /// A circle by itself.
    Circle { center: Vec2, radius: Real },
    /// An elliptical arc by itself. Parameters are in radians, and counterclockwise
    /// where y points up.
    EllipticalArc {
        center: Vec2,
        major_axis: Vec2,
        minor_axis_ratio: Real,
        start_parameter: Real,
        end_parameter: Real,
    },
    /// A circular arc from the current point `start` to `end`. The tangent of a
    /// quarter of the angle that it sweeps is `bulge`, which is not zero.
    BulgeTo { start: Vec2, end: Vec2, bulge: Real },
}

/// A piece of a spline.
#[derive(Debug, Clone, Copy, PartialEq, Eq, Structural)]
pub enum SplineSpan {
    /// A straight line to `end`, which is where the spline is at parameter `u1`.
    Line { u1: Real, end: SplinePoint },
    /// A quadratic curve to `end` from parameter `u0` to `u1`, with the tangents that
    /// the derivative has there; a straight line where these are parallel.
    Quadratic {
        u0: Real,
        u1: Real,
        end: SplinePoint,
        tangent0: SplinePoint,
        tangent1: SplinePoint,
    },
    /// A cubic curve to `end` from parameter `u0` to `u1`, with the tangents that the
    /// derivative has there.
    Cubic { u0: Real, u1: Real, end: SplinePoint, tangent0: SplinePoint, tangent1: SplinePoint },
}

/// The outline of a spline.
#[derive(Debug)]
pub struct SplinePath {
    pub degree: usize,
    pub control_points: Vec<Vec2>,
    pub knots: Vec<Real>,
    /// The derivative, where the pieces have tangents.
    pub derivative: Option<Derivative>,
    /// The parameter that the outline starts at.
    pub u_start: Real,
    /// Where the spline is at that parameter.
    pub start: SplinePoint,
    pub spans: Vec<SplineSpan>,
    pub is_closed: bool,
}

/// The model of a [`SplinePath`].
pub struct SplineView {
    pub degree: int,
    pub control_points: Seq<Vec2>,
    pub knots: Seq<Real>,
    pub derivative: Option<DerivativeView>,
    pub u_start: Real,
    pub start: SplinePoint,
    pub spans: Seq<SplineSpan>,
    pub is_closed: bool,
}

impl View for SplinePath {
    type V = SplineView;

    open spec fn view(&self) -> SplineView {
        SplineView {
            degree: self.degree as int,
            control_points: self.control_points@,
            knots: self.knots@,
            derivative: match self.derivative {
                Some(d) => Some(d@),
                None => None,
            },
            u_start: self.u_start,
            start: self.start,
            spans: self.spans@,
            is_closed: self.is_closed,
        }
    }
}

/// The outline of an entity.
#[derive(Debug)]
pub enum EntityPath {
    Steps(Vec<PathStep>),
    Spline(SplinePath),
}

/// The model of an [`EntityPath`].
pub enum PathView {
    Steps(Seq<PathStep>),
    Spline(SplineView),
}

impl View for EntityPath {
    type V = PathView;

    open spec fn view(&self) -> PathView {
        match self {
            EntityPath::Steps(steps) => PathView::Steps(steps@),
            EntityPath::Spline(spline) => PathView::Spline(spline@),
        }
    }
}

impl PathStep {
    /// Whether this piece is made of circular arcs.
    pub open spec fn is_circular(self) -> bool {
        self is Arc || self is Circle || self is EllipticalArc || self is BulgeTo
    }

    /// Whether this piece leaves a mark, given whether circular arcs flatten to nothing.
    pub open spec fn leaves_mark(self, arcs_vanish: bool) -> bool {
        self is LineTo || (self.is_circular() && !arcs_vanish)
    }
}

impl PathView {
    /// Whether any piece leaves a mark, given whether circular arcs flatten to nothing.
    pub open spec fn leaves_mark(self, arcs_vanish: bool) -> bool {
        match self {
            PathView::Steps(steps) => exists|i: int|
                0 <= i < steps.len() && (#[trigger] steps[i]).leaves_mark(arcs_vanish),
            PathView::Spline(spline) => spline.spans.len() > 0,
        }
    }
}

impl EntityPath {
    /// Whether any piece leaves a mark, given whether circular arcs flatten to nothing.
    pub fn has_segments(&self, arcs_vanish: bool) -> (r: bool)
        ensures
            r == self@.leaves_mark(arcs_vanish),
    {
        match self {
            EntityPath::Steps(steps) => {
                let mut i: usize = 0;
                while i < steps.len()
                    invariant
                        i <= steps@.len(),
                        self@ == PathView::Steps(steps@),
                        forall|j: int|
                            0 <= j < i ==> !(#[trigger] steps@[j]).leaves_mark(arcs_vanish),
                    decreases steps@.len() - i,
                {
                    let marks: bool = match steps[i] {
                        PathStep::LineTo(_) => true,
                        PathStep::MoveTo(_) | PathStep::ClosePath => false,
                        _ => !arcs_vanish,
                    };
                    if marks {
                        assert(self@->Steps_0[i as int].leaves_mark(arcs_vanish));
                        return true;
                    }
                    i = i + 1;
                }
                false
            },
            EntityPath::Spline(spline) => spline.spans.len() > 0,
        }
    }
}

/// The point with the x and y of a file's point, turned to a y axis that points down.
pub open spec fn point_of(p: DxfPoint) -> Vec2 {
    Vec2 { x: p.x, y: p.y.negated() }
}

/// Make a point from the x and y of a file's point.
pub fn point_from_dxf_point(p: &DxfPoint) -> (r: Vec2)
    ensures
        r == point_of(*p),
{
    Vec2 { x: p.x, y: p.y.neg() }
}

/// The point of a vertex, turned to a y axis that points down.
pub open spec fn vertex_point(v: PolylineVertex) -> Vec2 {
    Vec2 { x: v.x, y: v.y.negated() }
}

fn point_from_vertex(v: &PolylineVertex) -> (r: Vec2)
    ensures
        r == vertex_point(*v),
{
    Vec2 { x: v.x, y: v.y.neg() }
}

/// Whether a plane with this normal faces the viewer, who looks from +Z.
pub open spec fn faces_viewer(normal: DxfPoint) -> bool {
    normal.z.equals(Real { place: ONE })
}

/// Whether a plane with this normal faces the viewer, who looks from +Z.
pub fn is_facing_viewer(normal: &DxfPoint) -> (r: bool)
    ensures
        r == faces_viewer(*normal),
{
    normal.z.is_one()
}

/// Whether two points of a file are equal in every coordinate.
pub open spec fn points_equal(a: DxfPoint, b: DxfPoint) -> bool {
    a.x.equals(b.x) && a.y.equals(b.y) && a.z.equals(b.z)
}

fn same_point(a: &DxfPoint, b: &DxfPoint) -> (r: bool)
    ensures
        r == points_equal(*a, *b),
{
    a.x.same_number(b.x) && a.y.same_number(b.y) && a.z.same_number(b.z)
}

/// A polyline segment: straight without bulge, else an arc.
pub open spec fn poly_segment(start: Vec2, end: Vec2, bulge: Real) -> PathStep {
    if bulge.equals(Real { place: POSITIVE_ZERO }) {
        PathStep::LineTo(end)
    } else {
        PathStep::BulgeTo { start, end, bulge }
    }
}

/// Add a polyline segment to an outline, taking bulge into account.
pub fn add_poly_segment(steps: &mut Vec<PathStep>, start: Vec2, end: Vec2, bulge: Real)
    ensures
        final(steps)@ == old(steps)@.push(poly_segment(start, end, bulge)),
{
    if bulge.is_zero() {
        steps.push(PathStep::LineTo(end));
    } else {
        steps.push(PathStep::BulgeTo { start, end, bulge });
    }
}

/// The outline of a polyline. Bulges change sign with the y axis.
pub open spec fn polyline_steps(vertices: Seq<PolylineVertex>, is_closed: bool) -> Seq<PathStep> {
    let open = seq![PathStep::MoveTo(vertex_point(vertices[0]))] + Seq::new(
        (vertices.len() - 1) as nat,
        |i: int|
            poly_segment(
                vertex_point(vertices[i]),
                vertex_point(vertices[i + 1]),
                vertices[i].bulge.negated(),
            ),
    );
    if is_closed {
        open.push(PathStep::ClosePath)
    } else {
        open
    }
}

fn trace_polyline(vertices: &Vec<PolylineVertex>, is_closed: bool) -> (path: Option<EntityPath>)
    ensures
        path is Some <==> vertices@.len() >= 2,
        path is Some ==> path->0@ == PathView::Steps(polyline_steps(vertices@, is_closed)),
{
    if vertices.len() < 2 {
        return None;
    }
    let ghost open = polyline_steps(vertices@, false);
    let mut steps: Vec<PathStep> = Vec::new();
    steps.push(PathStep::MoveTo(point_from_vertex(&vertices[0])));
    assert(steps@ =~= open.take(1));
    let mut i: usize = 0;
    while i < vertices.len() - 1
        invariant
            2 <= vertices@.len(),
            i <= vertices@.len() - 1,
            open == polyline_steps(vertices@, false),
            steps@ == open.take(i + 1),
        decreases vertices@.len() - i,
    {
        let start: Vec2 = point_from_vertex(&vertices[i]);
        let end: Vec2 = point_from_vertex(&vertices[i + 1]);
        let bulge: Real = vertices[i].bulge.neg();
        add_poly_segment(&mut steps, start, end, bulge);
        i = i + 1;
        assert(steps@ =~= open.take(i + 1));
    }
    assert(open.take(vertices@.len() as int) =~= open);
    if is_closed {
        steps.push(PathStep::ClosePath);
    }
    Some(EntityPath::Steps(steps))
}

/// The outline of a solid. Its corners go around as first, third, fourth, second; the
/// fourth is left out where it is the third again.
pub open spec fn solid_steps(s: Solid) -> Seq<PathStep> {
    let start = seq![
        PathStep::MoveTo(point_of(s.first_corner)),
        PathStep::LineTo(point_of(s.third_corner)),
    ];
    let middle = if points_equal(s.third_corner, s.fourth_corner) {
        start
    } else {
        start.push(PathStep::LineTo(point_of(s.fourth_corner)))
    };
    middle.push(PathStep::LineTo(point_of(s.second_corner))).push(PathStep::ClosePath)
}

fn trace_solid(s: &Solid) -> (steps: Vec<PathStep>)
    ensures
        steps@ == solid_steps(*s),
{
    let mut steps: Vec<PathStep> = Vec::new();
    steps.push(PathStep::MoveTo(point_from_dxf_point(&s.first_corner)));
    steps.push(PathStep::LineTo(point_from_dxf_point(&s.third_corner)));
    if !same_point(&s.third_corner, &s.fourth_corner) {
        steps.push(PathStep::LineTo(point_from_dxf_point(&s.fourth_corner)));
    }
    steps.push(PathStep::LineTo(point_from_dxf_point(&s.second_corner)));
    steps.push(PathStep::ClosePath);
    assert(steps@ =~= solid_steps(*s));
    steps
}

/// Whether a spline has a degree that can be drawn, and the control points and knots
/// that the degree asks for.
pub open spec fn spline_is_complete(s: Spline) -> bool {
    &&& 0 <= s.degree_of_curve <= 3
    &&& s.degree_of_curve + 1 <= s.control_points@.len()
    &&& s.control_points@.len() + s.degree_of_curve + 1 <= s.knot_values@.len()
}

/// The distinct knots within the valid range of a spline, in increasing order.
pub open spec fn spline_knots(s: Spline) -> Seq<Real> {
    distinct_knots(s.knot_values@, s.degree_of_curve as int)
}

/// The distinct knots that are left when `degree` are taken off either end.
pub open spec fn distinct_knots(knots: Seq<Real>, degree: int) -> Seq<Real> {
    crate::spline::distinct_sorted(knots.subrange(degree, knots.len() - degree))
}

/// The point of a spline's derivative at `u`.
pub open spec fn tangent_point(degree: int, count: int, knots: Seq<Real>, u: Real) -> SplinePoint {
    let d = crate::spline::derivative_spec(degree, count, knots);
    crate::spline::spline_point(d.degree, d.control_points.len() as int, d.knots, u)
}

/// The piece of a spline between the knots `u0` and `u1`.
pub open spec fn spline_span(
    degree: int,
    count: int,
    knots: Seq<Real>,
    u0: Real,
    u1: Real,
) -> SplineSpan {
    let end = crate::spline::spline_point(degree, count, knots, u1);
    if degree == 1 {
        SplineSpan::Line { u1, end }
    } else if degree == 2 {
        SplineSpan::Quadratic {
            u0,
            u1,
            end,
            tangent0: tangent_point(degree, count, knots, u0),
            tangent1: tangent_point(degree, count, knots, u1),
        }
    } else {
        SplineSpan::Cubic {
            u0,
            u1,
            end,
            tangent0: tangent_point(degree, count, knots, u0),
            tangent1: tangent_point(degree, count, knots, u1),
        }
    }
}

/// The outline of a spline: one piece between every two neighboring distinct knots.
pub open spec fn spline_outline(s: Spline) -> SplineView {
    let degree = s.degree_of_curve as int;
    let count = s.control_points@.len() as int;
    let us = spline_knots(s);
    SplineView {
        degree,
        control_points: s.control_points@.map_values(|p: DxfPoint| point_of(p)),
        knots: s.knot_values@,
        derivative: if degree >= 2 {
            Some(crate::spline::derivative_spec(degree, count, s.knot_values@))
        } else {
            None
        },
        u_start: us[0],
        start: crate::spline::spline_point(degree, count, s.knot_values@, us[0]),
        spans: Seq::new(
            (us.len() - 1) as nat,
            |i: int| spline_span(degree, count, s.knot_values@, us[i], us[i + 1]),
        ),
        is_closed: s.is_closed,
    }
}

/// Whether an entity can be asked for its outline. A spline of degree zero must not
/// have more than one distinct knot, for no piece could lead from one to the next.
pub open spec fn traceable(t: EntityType) -> bool {
    match t {
        EntityType::Spline(s) => faces_viewer(s.normal) && spline_is_complete(s)
            && s.degree_of_curve == 0 ==> spline_knots(s).len() <= 1,
        _ => true,
    }
}

/// The outline of an entity, if it has one.
///
/// Only what faces the viewer is drawn. Polylines need two vertices and must not be
/// meshes; splines must be complete.
pub open spec fn outline(t: EntityType) -> Option<PathView> {
    match t {
        EntityType::Arc(a) => if faces_viewer(a.normal) {
            Some(
                PathView::Steps(
                    seq![
                        PathStep::Arc {
                            center: point_of(a.center),
                            radius: a.radius,
                            start_angle: a.start_angle,
                            end_angle: a.end_angle,
                        },
                    ],
                ),
            )
        } else {
            None
        },
        EntityType::Line(l) => if faces_viewer(l.extrusion_direction) {
            Some(
                PathView::Steps(
                    seq![PathStep::MoveTo(point_of(l.p1)), PathStep::LineTo(point_of(l.p2))],
                ),
            )
        } else {
            None
        },
        EntityType::Circle(c) => if faces_viewer(c.normal) {
            Some(
                PathView::Steps(
                    seq![PathStep::Circle { center: point_of(c.center), radius: c.radius }],
                ),
            )
        } else {
            None
        },
        EntityType::Ellipse(e) => if faces_viewer(e.normal) {
            Some(
                PathView::Steps(
                    seq![
                        PathStep::EllipticalArc {
                            center: point_of(e.center),
                            major_axis: point_of(e.major_axis),
                            minor_axis_ratio: e.minor_axis_ratio,
                            start_parameter: e.start_parameter,
                            end_parameter: e.end_parameter,
                        },
                    ],
                ),
            )
        } else {
            None
        },
        EntityType::LwPolyline(p) => if faces_viewer(p.extrusion_direction) && p.vertices@.len()
            >= 2 {
            Some(PathView::Steps(polyline_steps(p.vertices@, p.is_closed)))
        } else {
            None
        },
        EntityType::Polyline(p) => if faces_viewer(p.normal) && !p.is_polyface_mesh
            && !p.is_3d_polygon_mesh && p.vertices@.len() >= 2 {
            Some(PathView::Steps(polyline_steps(p.vertices@, p.is_closed)))
        } else {
            None
        },
        EntityType::Spline(s) => if faces_viewer(s.normal) && spline_is_complete(s) {
            Some(PathView::Spline(spline_outline(s)))
        } else {
            None
        },
        EntityType::Solid(s) => if faces_viewer(s.extrusion_direction) {
            Some(PathView::Steps(solid_steps(s)))
        } else {
            None
        },
        _ => None,
    }
}

fn is_complete_spline(s: &Spline) -> (r: bool)
    ensures
        r == spline_is_complete(*s),
{
    if s.degree_of_curve < 0 || s.degree_of_curve > 3 {
        return false;
    }
    let degree: usize = s.degree_of_curve as usize;
    let count: usize = s.control_points.len();
    let knots: usize = s.knot_values.len();
    count > degree && knots > degree && knots - degree > count
}

fn trace_spline(s: &Spline) -> (path: SplinePath)
    requires
        spline_is_complete(*s),
        s.degree_of_curve == 0 ==> spline_knots(*s).len() <= 1,
    ensures
        path@ == spline_outline(*s),
{
    let degree: usize = s.degree_of_curve as usize;
    let count: usize = s.control_points.len();
    let knots: &Vec<Real> = &s.knot_values;
    let total: usize = knots.len();
    let us: Vec<Real> = unique_knots(knots, degree, total - degree);
    proof {
        let range = knots@.subrange(degree as int, total - degree);
        assert(range.contains(range[0]));
        assert(us@.to_set().contains(range[0]));
    }
    let mut control_points: Vec<Vec2> = Vec::new();
    let ghost turned = s.control_points@.map_values(|p: DxfPoint| point_of(p));
    let mut i: usize = 0;
    while i < count
        invariant
            i <= count == s.control_points@.len(),
            turned == s.control_points@.map_values(|p: DxfPoint| point_of(p)),
            control_points@ == turned.take(i as int),
        decreases count - i,
    {
        control_points.push(point_from_dxf_point(&s.control_points[i]));
        i = i + 1;
        assert(control_points@ =~= turned.take(i as int));
    }
    assert(turned.take(count as int) =~= turned);
    let start: SplinePoint = eval_spline(degree, count, knots, us[0]);
    let derivative: Derivative = derivative_control_points(degree, count, knots);
    let ghost d = crate::spline::derivative_spec(degree as int, count as int, knots@);
    let ghost expected = spline_outline(*s).spans;
    let mut spans: Vec<SplineSpan> = Vec::new();
    let mut w: usize = 0;
    while w < us.len() - 1
        invariant
            spline_is_complete(*s),
            s.degree_of_curve == 0 ==> us@.len() <= 1,
            degree == s.degree_of_curve,
            count == s.control_points@.len(),
            *knots == s.knot_values,
            us@ == spline_knots(*s),
            1 <= us@.len(),
            w <= us@.len() - 1,
            derivative@ == d,
            d == crate::spline::derivative_spec(degree as int, count as int, knots@),
            expected == spline_outline(*s).spans,
            spans@ == expected.take(w as int),
        decreases us@.len() - w,
    {
        let u0: Real = us[w];
        let u1: Real = us[w + 1];
        let end: SplinePoint = eval_spline(degree, count, knots, u1);
        if degree == 1 {
            spans.push(SplineSpan::Line { u1, end });
        } else {
            let d_count: usize = derivative.control_points.len();
            let tangent0: SplinePoint = eval_spline(
                derivative.degree,
                d_count,
                &derivative.knots,
                u0,
            );
            let tangent1: SplinePoint = eval_spline(
                derivative.degree,
                d_count,
                &derivative.knots,
                u1,
            );
            if degree == 2 {
                spans.push(SplineSpan::Quadratic { u0, u1, end, tangent0, tangent1 });
            } else {
                spans.push(SplineSpan::Cubic { u0, u1, end, tangent0, tangent1 });
            }
        }
        w = w + 1;
        assert(spans@ =~= expected.take(w as int));
    }
    assert(expected.take(us@.len() - 1) =~= expected);
    let all_knots: Vec<Real> = copy_range(knots, 0, total);
    assert(all_knots@ =~= knots@);
    SplinePath {
        degree,
        control_points,
        knots: all_knots,
        derivative: if degree >= 2 {
            Some(derivative)
        } else {
            None
        },
        u_start: us[0],
        start,
        spans,
        is_closed: s.is_closed,
    }
}

/// Whether an entity can be asked for its outline.
pub fn is_traceable(e: &DxfEntity) -> (r: bool)
    ensures
        r == traceable(e.specific),
{
    match &e.specific {
        EntityType::Spline(s) => {
            if !is_facing_viewer(&s.normal) || !is_complete_spline(s) || s.degree_of_curve != 0 {
                true
            } else {
                unique_knots(&s.knot_values, 0, s.knot_values.len()).len() <= 1
            }
        },
        _ => true,
    }
}

/// Convert an entity to its outline.
pub fn path_from_entity(e: &DxfEntity) -> (path: Option<EntityPath>)
    requires
        traceable(e.specific),
    ensures
        path is Some <==> outline(e.specific) is Some,
        path is Some ==> path->0@ == outline(e.specific)->0,
{
    match &e.specific {
        EntityType::Arc(a) => {
            if !is_facing_viewer(&a.normal) {
                return None;
            }
            let mut steps: Vec<PathStep> = Vec::new();
            steps.push(
                PathStep::Arc {
                    center: point_from_dxf_point(&a.center),
                    radius: a.radius,
                    start_angle: a.start_angle,
                    end_angle: a.end_angle,
                },
            );
            let path: EntityPath = EntityPath::Steps(steps);
            assert(path@->Steps_0 =~= outline(e.specific)->0->Steps_0);
            Some(path)
        },
        EntityType::Line(l) => {
            if !is_facing_viewer(&l.extrusion_direction) {
                return None;
            }
            let mut steps: Vec<PathStep> = Vec::new();
            steps.push(PathStep::MoveTo(point_from_dxf_point(&l.p1)));
            steps.push(PathStep::LineTo(point_from_dxf_point(&l.p2)));
            let path: EntityPath = EntityPath::Steps(steps);
            assert(path@->Steps_0 =~= outline(e.specific)->0->Steps_0);
            Some(path)
        },
        EntityType::Circle(c) => {
            if !is_facing_viewer(&c.normal) {
                return None;
            }
            let mut steps: Vec<PathStep> = Vec::new();
            steps.push(
                PathStep::Circle { center: point_from_dxf_point(&c.center), radius: c.radius },
            );
            let path: EntityPath = EntityPath::Steps(steps);
            assert(path@->Steps_0 =~= outline(e.specific)->0->Steps_0);
            Some(path)
        },
        EntityType::Ellipse(el) => {
            if !is_facing_viewer(&el.normal) {
                return None;
            }
            let mut steps: Vec<PathStep> = Vec::new();
            steps.push(
                PathStep::EllipticalArc {
                    center: point_from_dxf_point(&el.center),
                    major_axis: point_from_dxf_point(&el.major_axis),
                    minor_axis_ratio: el.minor_axis_ratio,
                    start_parameter: el.start_parameter,
                    end_parameter: el.end_parameter,
                },
            );
            let path: EntityPath = EntityPath::Steps(steps);
            assert(path@->Steps_0 =~= outline(e.specific)->0->Steps_0);
            Some(path)
        },
        EntityType::LwPolyline(p) => {
            if !is_facing_viewer(&p.extrusion_direction) {
                return None;
            }
            trace_polyline(&p.vertices, p.is_closed)
        },
        EntityType::Polyline(p) => {
            if !is_facing_viewer(&p.normal) || p.is_polyface_mesh || p.is_3d_polygon_mesh {
                return None;
            }
            trace_polyline(&p.vertices, p.is_closed)
        },
        EntityType::Spline(s) => {
            if !is_facing_viewer(&s.normal) || !is_complete_spline(s) {
                return None;
            }
            Some(EntityPath::Spline(trace_spline(s)))
        },
        EntityType::Solid(s) => {
            if !is_facing_viewer(&s.extrusion_direction) {
                return None;
            }
            Some(EntityPath::Steps(trace_solid(s)))
        },
        _ => None,
    }
}

/// The normal of the plane that an entity lies in, of the kinds that have outlines.
pub open spec fn plane_of(t: EntityType) -> Option<DxfPoint> {
    match t {
        EntityType::Arc(a) => Some(a.normal),
        EntityType::Line(l) => Some(l.extrusion_direction),
        EntityType::Circle(c) => Some(c.normal),
        EntityType::Ellipse(e) => Some(e.normal),
        EntityType::LwPolyline(p) => Some(p.extrusion_direction),
        EntityType::Polyline(p) => Some(p.normal),
        EntityType::Spline(s) => Some(s.normal),
        EntityType::Solid(s) => Some(s.extrusion_direction),
        _ => None,
    }
}

/// Only what faces the viewer has an outline.
pub proof fn law_outlines_face_the_viewer(t: EntityType)
    requires
        outline(t) is Some,
    ensures
        plane_of(t) is Some && faces_viewer(plane_of(t)->0),
{
}

/// Where a piece of a polyline ends.
pub open spec fn end_of(step: PathStep) -> Vec2 {
    match step {
        PathStep::MoveTo(p) => p,
        PathStep::LineTo(p) => p,
        PathStep::BulgeTo { end, .. } => end,
        _ => arbitrary(),
    }
}

/// The outline of a polyline visits every vertex in order, each arc starts where the
/// piece before it ends, and it is closed exactly if the polyline is.
pub proof fn law_polylines_visit_their_vertices(vertices: Seq<PolylineVertex>, is_closed: bool)
    requires
        vertices.len() >= 2,
    ensures
        ({
            let steps = polyline_steps(vertices, is_closed);
            &&& steps.len() == vertices.len() + if is_closed {
                1int
            } else {
                0int
            }
            &&& steps[0] is MoveTo
            &&& forall|i: int|
                0 <= i < vertices.len() ==> #[trigger] end_of(steps[i]) == vertex_point(vertices[i])
            &&& forall|i: int|
                1 <= i < vertices.len() ==> ((#[trigger] steps[i]) matches PathStep::BulgeTo {
                    start,
                    ..
                } ==> start == end_of(steps[i - 1]))
            &&& is_closed <==> steps.last() is ClosePath
        }),
{
}

/// Reversing the y axis turns the bulges around with the points: a polyline with all
/// signs of y and bulge flipped is the outline in the file's own coordinates.
pub proof fn law_polylines_are_mirrored(
    vertices: Seq<PolylineVertex>,
    mirrored: Seq<PolylineVertex>,
    i: int,
)
    requires
        vertices.len() >= 2,
        mirrored == vertices.map_values(
            |v: PolylineVertex|
                PolylineVertex { x: v.x, y: v.y.negated(), bulge: v.bulge.negated() },
        ),
        1 <= i < vertices.len(),
    ensures
        polyline_steps(mirrored, false)[i] == poly_segment(
            Vec2 { x: vertices[i - 1].x, y: vertices[i - 1].y },
            Vec2 { x: vertices[i].x, y: vertices[i].y },
            vertices[i - 1].bulge,
        ),
{
}

/// Lines and solids leave a mark, whatever becomes of circular arcs.
pub proof fn law_straight_outlines_leave_marks(t: EntityType, arcs_vanish: bool)
    requires
        t is Line || t is Solid,
        outline(t) is Some,
    ensures
        outline(t)->0.leaves_mark(arcs_vanish),
{
    let steps = outline(t)->0->Steps_0;
    assert(steps[1].leaves_mark(arcs_vanish));
}

/// The outline of a spline has one piece less than the spline has distinct knots, and
/// every piece ends where the spline is at the knot that ends it.
pub proof fn law_splines_pass_through_their_knots(s: Spline, i: int)
    requires
        spline_is_complete(s),
        0 <= i < spline_outline(s).spans.len(),
    ensures
        spline_outline(s).spans.len() == spline_knots(s).len() - 1,
        ({
            let (u1, end) = match spline_outline(s).spans[i] {
                SplineSpan::Line { u1, end } => (u1, end),
                SplineSpan::Quadratic { u1, end, .. } => (u1, end),
                SplineSpan::Cubic { u1, end, .. } => (u1, end),
            };
            u1 == spline_knots(s)[i + 1] && end == crate::spline::spline_point(
                s.degree_of_curve as int,
                s.control_points@.len() as int,
                s.knot_values@,
                u1,
            )
        }),
{
    let range = s.knot_values@.subrange(
        s.degree_of_curve as int,
        s.knot_values@.len() - s.degree_of_curve,
    );
    crate::spline::law_distinct_knots(range);
}

} // verus!
