//! What outlines are made of, kind by kind.

use vstd::prelude::*;

#[allow(unused_imports)]
use crate::drawing_types::Vec2;
#[allow(unused_imports)]
use crate::dxf_file::{
    Arc, Circle, DxfPoint, Ellipse, EntityType, Line, LwPolyline, Polyline, PolylineVertex, Solid,
    Spline,
};
#[allow(unused_imports)]
use crate::number::Real;
#[allow(unused_imports)]
use crate::path::{
    outline, points_equal, spline_is_complete, spline_knots, traceable, PathStep, PathView,
    SplineSpan, SplineView,
};
#[allow(unused_imports)]
use crate::spline::{derivative_spec, distinct_sorted, law_distinct_knots, spline_point};

verus! {

/// Whether the z of a normal is one, as it is where the viewer looks at a plane from the
/// front.
pub open spec fn is_front(normal: DxfPoint) -> bool {
    normal.z.place == 0xBFF0_0000_0000_0000
}

/// Whether a point is where a file's point with these coordinates is, seen with a y axis
/// that points down.
pub open spec fn lies_at(p: Vec2, x: Real, y: Real) -> bool {
    p.x == x && p.y.place + y.place == u64::MAX
}

/// Whether a number is one of the two zeros.
pub open spec fn is_a_zero(r: Real) -> bool {
    r.place == 0x8000_0000_0000_0000 || r.place == 0x7FFF_FFFF_FFFF_FFFF
}

/// Whether a piece leads from one vertex of a polyline to the next: straight if the first
/// has no bulge, else with the opposite of that bulge.
pub open spec fn leads(step: PathStep, from: PolylineVertex, to: PolylineVertex) -> bool {
    if is_a_zero(from.bulge) {
        step matches PathStep::LineTo(p) && lies_at(p, to.x, to.y)
    } else {
        step matches PathStep::BulgeTo { start, end, bulge } && lies_at(start, from.x, from.y)
            && lies_at(end, to.x, to.y) && bulge.place + from.bulge.place == u64::MAX
    }
}

/// Whether these steps go along the vertices of a polyline, and back to the start exactly
/// if it is closed.
pub open spec fn goes_along(
    steps: Seq<PathStep>,
    vertices: Seq<PolylineVertex>,
    is_closed: bool,
) -> bool {
    &&& steps.len() == vertices.len() + if is_closed {
        1int
    } else {
        0int
    }
    &&& steps[0] matches PathStep::MoveTo(p) && lies_at(p, vertices[0].x, vertices[0].y)
    &&& forall|i: int|
        1 <= i < vertices.len() ==> leads(#[trigger] steps[i], vertices[i - 1], vertices[i])
    &&& is_closed ==> steps[vertices.len() as int] is ClosePath
}

/// The steps of an outline.
pub open spec fn steps_of(t: EntityType) -> Seq<PathStep> {
    outline(t)->0->Steps_0
}

/// An `LWPOLYLINE` that faces the viewer and has a segment goes along its vertices, and is
/// closed exactly if the entity is.
pub proof fn law_lwpolylines_go_along_their_vertices(p: LwPolyline)
    ensures
        outline(EntityType::LwPolyline(p)) is Some <==> is_front(p.extrusion_direction)
            && p.vertices@.len() >= 2,
        is_front(p.extrusion_direction) && p.vertices@.len() >= 2 ==> outline(
            EntityType::LwPolyline(p),
        )->0 is Steps && goes_along(
            steps_of(EntityType::LwPolyline(p)),
            p.vertices@,
            p.is_closed,
        ) && (steps_of(EntityType::LwPolyline(p)).last() is ClosePath <==> p.is_closed),
{
}

/// A `POLYLINE` that faces the viewer, is no mesh and has a segment goes along its
/// vertices, and is closed exactly if the entity is.
pub proof fn law_polylines_go_along_their_vertices(p: Polyline)
    ensures
        outline(EntityType::Polyline(p)) is Some <==> is_front(p.normal) && !p.is_polyface_mesh
            && !p.is_3d_polygon_mesh && p.vertices@.len() >= 2,
        is_front(p.normal) && !p.is_polyface_mesh && !p.is_3d_polygon_mesh && p.vertices@.len()
            >= 2 ==> outline(EntityType::Polyline(p))->0 is Steps && goes_along(
            steps_of(EntityType::Polyline(p)),
            p.vertices@,
            p.is_closed,
        ) && (steps_of(EntityType::Polyline(p)).last() is ClosePath <==> p.is_closed),
{
}

/// A `POLYLINE` has the outline of the `LWPOLYLINE` with the same vertices that is closed
/// where it is, if both face the viewer and it is no mesh.
pub proof fn law_polylines_agree(p: Polyline, q: LwPolyline)
    requires
        p.vertices@ == q.vertices@,
        p.is_closed == q.is_closed,
        is_front(p.normal),
        is_front(q.extrusion_direction),
        !p.is_polyface_mesh,
        !p.is_3d_polygon_mesh,
    ensures
        outline(EntityType::Polyline(p)) == outline(EntityType::LwPolyline(q)),
{
}

/// A `LINE` that faces the viewer goes from its first point to its second.
pub proof fn law_lines_join_their_ends(l: Line)
    ensures
        outline(EntityType::Line(l)) is Some <==> is_front(l.extrusion_direction),
        is_front(l.extrusion_direction) ==> {
            let steps = steps_of(EntityType::Line(l));
            &&& outline(EntityType::Line(l))->0 is Steps
            &&& steps.len() == 2
            &&& steps[0] matches PathStep::MoveTo(p) && lies_at(p, l.p1.x, l.p1.y)
            &&& steps[1] matches PathStep::LineTo(p) && lies_at(p, l.p2.x, l.p2.y)
        },
{
}

/// An `ARC` that faces the viewer is drawn about its center, with its radius and angles.
pub proof fn law_arcs_keep_their_shape(a: Arc)
    ensures
        outline(EntityType::Arc(a)) is Some <==> is_front(a.normal),
        is_front(a.normal) ==> {
            let steps = steps_of(EntityType::Arc(a));
            &&& outline(EntityType::Arc(a))->0 is Steps
            &&& steps.len() == 1
            &&& steps[0] matches PathStep::Arc { center, radius, start_angle, end_angle }
                && lies_at(center, a.center.x, a.center.y) && radius == a.radius && start_angle
                == a.start_angle && end_angle == a.end_angle
        },
{
}

/// A `CIRCLE` that faces the viewer is drawn about its center, with its radius.
pub proof fn law_circles_keep_their_shape(c: Circle)
    ensures
        outline(EntityType::Circle(c)) is Some <==> is_front(c.normal),
        is_front(c.normal) ==> {
            let steps = steps_of(EntityType::Circle(c));
            &&& outline(EntityType::Circle(c))->0 is Steps
            &&& steps.len() == 1
            &&& steps[0] matches PathStep::Circle { center, radius } && lies_at(
                center,
                c.center.x,
                c.center.y,
            ) && radius == c.radius
        },
{
}

/// An `ELLIPSE` that faces the viewer is drawn about its center, with its axes and
/// parameters.
pub proof fn law_ellipses_keep_their_shape(e: Ellipse)
    ensures
        outline(EntityType::Ellipse(e)) is Some <==> is_front(e.normal),
        is_front(e.normal) ==> {
            let steps = steps_of(EntityType::Ellipse(e));
            &&& outline(EntityType::Ellipse(e))->0 is Steps
            &&& steps.len() == 1
            &&& steps[0] matches PathStep::EllipticalArc {
                center,
                major_axis,
                minor_axis_ratio,
                start_parameter,
                end_parameter,
            } && lies_at(center, e.center.x, e.center.y) && lies_at(
                major_axis,
                e.major_axis.x,
                e.major_axis.y,
            ) && minor_axis_ratio == e.minor_axis_ratio && start_parameter == e.start_parameter
                && end_parameter == e.end_parameter
        },
{
}

/// Whether two numbers are the same: neither is a NaN, and they have one place or are both
/// a zero.
pub open spec fn are_same(a: Real, b: Real) -> bool {
    &&& 0x000F_FFFF_FFFF_FFFF <= a.place <= 0xFFF0_0000_0000_0000
    &&& a == b || (is_a_zero(a) && is_a_zero(b))
}

/// A `SOLID` that faces the viewer is a closed outline through its first, third, fourth and
/// second corner, or a triangle where the third and the fourth are one in every coordinate.
pub proof fn law_solids_go_around_their_corners(s: Solid)
    ensures
        outline(EntityType::Solid(s)) is Some <==> is_front(s.extrusion_direction),
        is_front(s.extrusion_direction) ==> {
            let steps = steps_of(EntityType::Solid(s));
            let n = steps.len();
            &&& outline(EntityType::Solid(s))->0 is Steps
            &&& n == if are_same(s.third_corner.x, s.fourth_corner.x) && are_same(
                s.third_corner.y,
                s.fourth_corner.y,
            ) && are_same(s.third_corner.z, s.fourth_corner.z) {
                4nat
            } else {
                5nat
            }
            &&& steps[0] matches PathStep::MoveTo(p) && lies_at(
                p,
                s.first_corner.x,
                s.first_corner.y,
            )
            &&& steps[1] matches PathStep::LineTo(p) && lies_at(
                p,
                s.third_corner.x,
                s.third_corner.y,
            )
            &&& n == 5 ==> (steps[2] matches PathStep::LineTo(p) && lies_at(
                p,
                s.fourth_corner.x,
                s.fourth_corner.y,
            ))
            &&& steps[n - 2] matches PathStep::LineTo(p) && lies_at(
                p,
                s.second_corner.x,
                s.second_corner.y,
            )
            &&& steps[n - 1] is ClosePath
        },
{
}

/// Only eight kinds of entities have outlines.
pub proof fn law_other_kinds_have_no_outline(t: EntityType)
    requires
        !(t is Line),
        !(t is Arc),
        !(t is Circle),
        !(t is Ellipse),
        !(t is LwPolyline),
        !(t is Polyline),
        !(t is Spline),
        !(t is Solid),
    ensures
        outline(t) is None,
{
}

/// A `SPLINE` has an outline exactly if it faces the viewer, is of degree three at most, and
/// has more control points than its degree and, for each of them and one more than the
/// degree, a knot.
pub proof fn law_splines_are_drawn_if_complete(s: Spline)
    ensures
        outline(EntityType::Spline(s)) is Some <==> is_front(s.normal) && 0 <= s.degree_of_curve
            <= 3 && s.control_points@.len() > s.degree_of_curve && s.knot_values@.len()
            > s.control_points@.len() + s.degree_of_curve,
        outline(EntityType::Spline(s)) is Some ==> outline(EntityType::Spline(s))->0 is Spline,
{
}

/// The outline of a spline.
pub open spec fn curve_of(s: Spline) -> SplineView {
    outline(EntityType::Spline(s))->0->Spline_0
}

/// The outline of a spline keeps its degree, its knots and whether it is closed, and has
/// its control points with the y axis pointing down; it has a derivative from degree two on.
pub proof fn law_splines_keep_their_shape(s: Spline)
    requires
        outline(EntityType::Spline(s)) is Some,
    ensures
        curve_of(s).degree == s.degree_of_curve,
        curve_of(s).knots == s.knot_values@,
        curve_of(s).is_closed == s.is_closed,
        curve_of(s).control_points.len() == s.control_points@.len(),
        forall|i: int|
            0 <= i < s.control_points@.len() ==> lies_at(
                #[trigger] curve_of(s).control_points[i],
                s.control_points@[i].x,
                s.control_points@[i].y,
            ),
        curve_of(s).derivative is Some <==> s.degree_of_curve >= 2,
        s.degree_of_curve >= 2 ==> curve_of(s).derivative->0 == derivative_spec(
            s.degree_of_curve as int,
            s.control_points@.len() as int,
            s.knot_values@,
        ),
{
}

/// Where a curve is at a parameter.
pub open spec fn curve_at(s: Spline, u: Real) -> crate::spline::SplinePoint {
    spline_point(
        s.degree_of_curve as int,
        s.control_points@.len() as int,
        s.knot_values@,
        u,
    )
}

/// Where the derivative of a curve is at a parameter.
pub open spec fn slope_at(s: Spline, u: Real) -> crate::spline::SplinePoint {
    let d = derivative_spec(
        s.degree_of_curve as int,
        s.control_points@.len() as int,
        s.knot_values@,
    );
    spline_point(d.degree, d.control_points.len() as int, d.knots, u)
}

/// The outline of a spline starts at its first distinct knot, and has a piece less than it
/// has distinct knots.
pub proof fn law_splines_start_at_their_first_knot(s: Spline)
    requires
        outline(EntityType::Spline(s)) is Some,
    ensures
        curve_of(s).u_start == spline_knots(s)[0],
        curve_of(s).start == curve_at(s, spline_knots(s)[0]),
        curve_of(s).spans.len() == spline_knots(s).len() - 1,
{
    law_distinct_knots_are_in_range(s, s.knot_values@[0], 0, 0);
}

/// The outline of a spline has a piece between each two distinct knots that follow each
/// other: a line, a quadratic or a cubic, as its degree says, that ends where the curve is
/// at the second of them. The tangents of a curved piece are those of the curve at the two
/// knots.
pub proof fn law_splines_have_a_piece_between_knots(s: Spline, i: int)
    requires
        outline(EntityType::Spline(s)) is Some,
        0 <= i < spline_knots(s).len() - 1,
    ensures
        i < curve_of(s).spans.len(),
        s.degree_of_curve == 1 ==> curve_of(s).spans[i] == (SplineSpan::Line {
            u1: spline_knots(s)[i + 1],
            end: curve_at(s, spline_knots(s)[i + 1]),
        }),
        s.degree_of_curve == 2 ==> curve_of(s).spans[i] == (SplineSpan::Quadratic {
            u0: spline_knots(s)[i],
            u1: spline_knots(s)[i + 1],
            end: curve_at(s, spline_knots(s)[i + 1]),
            tangent0: slope_at(s, spline_knots(s)[i]),
            tangent1: slope_at(s, spline_knots(s)[i + 1]),
        }),
        s.degree_of_curve == 3 ==> curve_of(s).spans[i] == (SplineSpan::Cubic {
            u0: spline_knots(s)[i],
            u1: spline_knots(s)[i + 1],
            end: curve_at(s, spline_knots(s)[i + 1]),
            tangent0: slope_at(s, spline_knots(s)[i]),
            tangent1: slope_at(s, spline_knots(s)[i + 1]),
        }),
{
}

/// The distinct knots of a spline are those that are left when as many as its degree are
/// taken off either end, each once, from the lowest to the highest.
pub proof fn law_distinct_knots_are_in_range(s: Spline, u: Real, i: int, j: int)
    requires
        outline(EntityType::Spline(s)) is Some,
    ensures
        spline_knots(s).len() > 0,
        spline_knots(s).contains(u) <==> exists|k: int|
            s.degree_of_curve <= k < s.knot_values@.len() - s.degree_of_curve
                && #[trigger] s.knot_values@[k] == u,
        0 <= i < j < spline_knots(s).len() ==> spline_knots(s)[i].place < spline_knots(s)[j].place,
{
    let degree = s.degree_of_curve as int;
    let range = s.knot_values@.subrange(degree, s.knot_values@.len() - degree);
    law_distinct_knots(range);
    if range.contains(u) {
        let k = choose|k: int| 0 <= k < range.len() && range[k] == u;
        assert(s.knot_values@[k + degree] == u);
    }
    if exists|k: int|
        degree <= k < s.knot_values@.len() - degree && #[trigger] s.knot_values@[k] == u {
        let k = choose|k: int|
            degree <= k < s.knot_values@.len() - degree && #[trigger] s.knot_values@[k] == u;
        assert(range[k - degree] == u);
    }
}

/// Lines and solids leave a mark. Arcs, circles and ellipses leave one exactly if circular
/// arcs do not vanish, and a spline exactly if it has two distinct knots.
pub proof fn law_marks_by_kind(t: EntityType, arcs_vanish: bool)
    requires
        outline(t) is Some,
    ensures
        t is Line || t is Solid ==> outline(t)->0.leaves_mark(arcs_vanish),
        t is Arc || t is Circle || t is Ellipse ==> (outline(t)->0.leaves_mark(arcs_vanish)
            <==> !arcs_vanish),
        t matches EntityType::Spline(s) ==> (outline(t)->0.leaves_mark(arcs_vanish)
            <==> spline_knots(s).len() > 1),
{
    match t {
        EntityType::Spline(s) => {
            law_distinct_knots_are_in_range(s, s.knot_values@[0], 0, 0);
        },
        _ => {
            let steps = steps_of(t);
            if t is Line || t is Solid {
                assert(steps[1].leaves_mark(arcs_vanish));
            } else if t is Arc || t is Circle || t is Ellipse {
                assert(steps[0].leaves_mark(arcs_vanish) == !arcs_vanish);
            }
        },
    }
}

/// A polyline leaves a mark exactly if it has a straight segment or circular arcs do not
/// vanish.
pub proof fn law_polylines_leave_marks(p: LwPolyline, arcs_vanish: bool)
    requires
        outline(EntityType::LwPolyline(p)) is Some,
    ensures
        outline(EntityType::LwPolyline(p))->0.leaves_mark(arcs_vanish) <==> !arcs_vanish || exists|
            i: int,
        |
            0 <= i < p.vertices@.len() - 1 && is_a_zero((#[trigger] p.vertices@[i]).bulge),
{
    let steps = steps_of(EntityType::LwPolyline(p));
    let n = p.vertices@.len() as int;
    assert(goes_along(steps, p.vertices@, p.is_closed));
    if !arcs_vanish {
        assert(leads(steps[1], p.vertices@[0], p.vertices@[1]));
        assert(steps[1].leaves_mark(arcs_vanish));
    }
    if exists|i: int| 0 <= i < n - 1 && is_a_zero((#[trigger] p.vertices@[i]).bulge) {
        let i = choose|i: int| 0 <= i < n - 1 && is_a_zero((#[trigger] p.vertices@[i]).bulge);
        assert(leads(steps[i + 1], p.vertices@[i], p.vertices@[i + 1]));
        assert(steps[i + 1].leaves_mark(arcs_vanish));
    }
    if arcs_vanish && outline(EntityType::LwPolyline(p))->0.leaves_mark(arcs_vanish) {
        let k = choose|k: int|
            0 <= k < steps.len() && (#[trigger] steps[k]).leaves_mark(arcs_vanish);
        assert(1 <= k < n);
        assert(leads(steps[k], p.vertices@[k - 1], p.vertices@[k]));
        assert(is_a_zero(p.vertices@[k - 1].bulge));
    }
}

/// Every entity can be asked for its outline, but a spline of degree zero that would be
/// drawn and has two distinct knots.
pub proof fn law_what_can_be_traced(t: EntityType)
    ensures
        !traceable(t) <==> (t matches EntityType::Spline(s) && outline(t) is Some
            && s.degree_of_curve == 0 && spline_knots(s).len() > 1),
{
}

} // verus!
