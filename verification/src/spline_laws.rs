//! What holds of splines, in terms of their knots and control points.

use vstd::prelude::*;

use crate::number::Real;
#[allow(unused_imports)]
use crate::spline::{
    blend_round, blend_rounds, derivative_spec, distinct_sorted, first_above_from, knot_span,
    law_distinct_knots, spline_point, SplinePoint,
};

verus! {

/// Control point `i` of the derivative is the step from control point `i` to the next,
/// over a distance of exactly as many knots as the degree, which starts at knot
/// `i + 1`. The derivative has one degree and one control point less, and its knots
/// are those between the first and the last.
pub proof fn law_differences_span_the_degree(
    degree: int,
    count: int,
    knots: Seq<Real>,
    i: int,
    j: int,
)
    requires
        1 <= degree,
        2 <= count,
        count + degree <= knots.len() <= usize::MAX,
        0 <= i < count - 1,
        0 <= j < knots.len() - 2,
    ensures
        ({
            let d = derivative_spec(degree, count, knots);
            &&& d.degree + 1 == degree
            &&& d.control_points.len() + 1 == count
            &&& d.control_points[i].from == i
            &&& d.control_points[i].to == i + 1
            &&& d.control_points[i].low_knot == i + 1
            &&& d.control_points[i].high_knot - d.control_points[i].low_knot == degree
            &&& d.knots.len() + 2 == knots.len()
            &&& d.knots[j] == knots[j + 1]
        }),
{
}

/// On a clamped knot vector without inner knots, every difference is taken over the
/// whole range, from its one end to the other.
pub proof fn law_clamped_differences_span_the_range(
    degree: int,
    knots: Seq<Real>,
    low: Real,
    high: Real,
    i: int,
)
    requires
        1 <= degree,
        knots.len() == 2 * (degree + 1),
        knots.len() <= usize::MAX,
        forall|j: int| 0 <= j <= degree ==> knots[j] == low,
        forall|j: int| degree < j < knots.len() ==> knots[j] == high,
        0 <= i < degree,
    ensures
        ({
            let d = derivative_spec(degree, degree + 1, knots);
            &&& d.control_points.len() == degree
            &&& knots[d.control_points[i].low_knot as int] == low
            &&& knots[d.control_points[i].high_knot as int] == high
        }),
{
}

/// The sum of `n` values from index `from` on.
pub open spec fn window_sum(t: spec_fn(int) -> int, from: int, n: int) -> int
    decreases n,
{
    if n <= 0 {
        0
    } else {
        window_sum(t, from, n - 1) + t(from + n - 1)
    }
}

proof fn lemma_window_slides(t: spec_fn(int) -> int, from: int, n: int)
    requires
        0 <= n,
    ensures
        window_sum(t, from + 1, n) - window_sum(t, from, n) == t(from + n) - t(from),
    decreases n,
{
    if n > 0 {
        lemma_window_slides(t, from, n - 1);
    }
}

/// A spline whose control points are the averages of the knots that they depend on is
/// the parameter itself, so its slope is one: the step between two control points,
/// times the degree, is the distance between the two knots of the difference.
pub proof fn law_slope_of_the_parameter_is_one(
    degree: int,
    count: int,
    knots: Seq<Real>,
    t: spec_fn(int) -> int,
    i: int,
)
    requires
        1 <= degree,
        2 <= count,
        count + degree <= knots.len() <= usize::MAX,
        0 <= i < count - 1,
    ensures
        ({
            let d = derivative_spec(degree, count, knots).control_points[i];
            t(d.high_knot as int) - t(d.low_knot as int) == window_sum(t, d.to + 1, degree)
                - window_sum(t, d.from + 1, degree)
        }),
{
    lemma_window_slides(t, i + 1, degree);
}

/// Without a degree, or with a single control point, there is no derivative.
pub proof fn law_points_have_no_slope(degree: int, count: int, knots: Seq<Real>)
    requires
        degree == 0 || count == 1,
    ensures
        derivative_spec(degree, count, knots).degree == 0,
        derivative_spec(degree, count, knots).control_points.len() == 0,
        derivative_spec(degree, count, knots).knots == knots,
{
}

proof fn lemma_first_above(knots: Seq<Real>, u: Real, i: int)
    requires
        0 <= i <= knots.len(),
        0 < knots.len(),
    ensures
        ({
            let f = first_above_from(knots, u, i);
            ||| i <= f < knots.len() && u.less(knots[f]) && forall|j: int|
                i <= j < f ==> !u.less(knots[j])
            ||| f == knots.len() - 1 && forall|j: int|
                i <= j < knots.len() ==> !u.less(knots[j])
        }),
    decreases knots.len() - i,
{
    if i < knots.len() && !u.less(knots[i]) {
        lemma_first_above(knots, u, i + 1);
    }
}

/// A point that is blended in span `k` has its parameter there: no knot up to `k` lies
/// above the parameter, and the next one does, unless it is the last of all.
pub proof fn law_spans_hold_their_parameter(
    degree: int,
    count: int,
    knots: Seq<Real>,
    u: Real,
    k: usize,
)
    requires
        0 <= degree,
        1 <= count,
        count + degree + 1 <= knots.len() <= usize::MAX,
        spline_point(degree, count, knots, u) == SplinePoint::Span(k),
    ensures
        degree <= k < count,
        forall|j: int| 1 <= j <= k ==> !u.less(#[trigger] knots[j]),
        k >= 1 ==> !u.less(knots[0]),
        k >= 1 ==> u.less(knots[k + 1]) || k + 2 == knots.len(),
{
    lemma_first_above(knots, u, 0);
}

/// A parameter between two neighboring knots of the valid range, with no knot before
/// above it, is blended in the span between these.
pub proof fn law_parameters_find_their_span(
    degree: int,
    count: int,
    knots: Seq<Real>,
    u: Real,
    k: int,
)
    requires
        0 <= degree <= k < count,
        count + degree + 1 <= knots.len() <= usize::MAX,
        forall|j: int| 0 <= j <= k ==> !u.less(#[trigger] knots[j]),
        u.less(knots[k + 1]),
    ensures
        spline_point(degree, count, knots, u) == SplinePoint::Span(k as usize),
{
    lemma_first_above(knots, u, 0);
}

/// A parameter that has no knot above it, or the first one too early, is no point of a
/// span: below the valid range it is the first control point, else the last.
pub proof fn law_parameters_beyond_take_the_ends(
    degree: int,
    count: int,
    knots: Seq<Real>,
    u: Real,
    f: int,
)
    requires
        0 <= degree,
        1 <= count,
        count + degree + 1 <= knots.len() <= usize::MAX,
        0 <= f < knots.len(),
        forall|j: int| 0 <= j < f ==> !u.less(#[trigger] knots[j]),
        u.less(knots[f]) || f == knots.len() - 1,
        f <= degree || count < f,
        0 < f,
    ensures
        u.less(knots[degree]) ==> spline_point(degree, count, knots, u) == SplinePoint::Control(
            0,
        ),
        !u.less(knots[degree]) ==> spline_point(degree, count, knots, u) == SplinePoint::Control(
            (count - 1) as usize,
        ),
{
    lemma_first_above(knots, u, 0);
}

/// A parameter below the first knot is the first control point, or, without a degree, in
/// the first span.
pub proof fn law_parameters_before_the_first_knot(
    degree: int,
    count: int,
    knots: Seq<Real>,
    u: Real,
)
    requires
        0 <= degree,
        1 <= count,
        count + degree + 1 <= knots.len() <= usize::MAX,
        u.less(knots[0]),
    ensures
        degree == 0 ==> spline_point(degree, count, knots, u) == SplinePoint::Span(0),
        degree > 0 && u.less(knots[degree]) ==> spline_point(degree, count, knots, u)
            == SplinePoint::Control(0),
{
}

/// How many blends the first `rounds` rounds have.
pub open spec fn blends_before(degree: int, rounds: int) -> int
    decreases rounds,
{
    if rounds <= 0 {
        0
    } else {
        blends_before(degree, rounds - 1) + (degree - rounds + 1)
    }
}

proof fn lemma_blend_count(degree: int, k: int, rounds: int)
    requires
        0 <= rounds <= degree,
    ensures
        blend_rounds(degree, k, rounds).len() == blends_before(degree, rounds),
        2 * blends_before(degree, rounds) == rounds * (2 * degree - rounds + 1),
    decreases rounds,
{
    if rounds > 0 {
        lemma_blend_count(degree, k, rounds - 1);
        assert(rounds * (2 * degree - rounds + 1) == (rounds - 1) * (2 * degree - (rounds - 1) + 1)
            + 2 * (degree - rounds + 1)) by (nonlinear_arith);
    } else {
        assert(rounds * (2 * degree - rounds + 1) == 0) by (nonlinear_arith)
            requires
                rounds == 0,
        ;
    }
}

proof fn lemma_blend_at(degree: int, k: int, rounds: int, r: int, j: int)
    requires
        1 <= r <= rounds <= degree <= k,
        k + degree <= usize::MAX,
        0 <= j <= degree - r,
    ensures
        blends_before(degree, r - 1) + j < blend_rounds(degree, k, rounds).len(),
        ({
            let b = blend_rounds(degree, k, rounds)[blends_before(degree, r - 1) + j];
            &&& b.target == degree - j
            &&& b.low_knot == k - j
            &&& b.high_knot - b.low_knot == degree - r + 1
        }),
    decreases rounds,
{
    lemma_blend_count(degree, k, rounds);
    lemma_blend_count(degree, k, rounds - 1);
    lemma_blend_count(degree, k, r - 1);
    if r < rounds {
        lemma_blend_at(degree, k, rounds - 1, r, j);
    } else {
        assert(blend_rounds(degree, k, rounds)[blends_before(degree, r - 1) + j]
            == blend_round(degree, k, rounds)[j]);
    }
}

/// Round `r` of de Boor's algorithm goes from the last point of the span down to point
/// `r`. It weighs a point over a distance of `degree - r + 1` knots, which covers the
/// span, and whose first knot moves down with the point.
pub proof fn law_rounds_narrow_down(degree: int, k: int, r: int, j: int)
    requires
        1 <= r <= degree <= k,
        k + degree <= usize::MAX,
        0 <= j <= degree - r,
    ensures
        ({
            let all = blend_rounds(degree, k, degree);
            let b = all[blends_before(degree, r - 1) + j];
            &&& 2 * all.len() == degree * (degree + 1)
            &&& b.target == degree - j
            &&& b.low_knot + j == k
            &&& b.high_knot - b.low_knot == degree - r + 1
            &&& b.low_knot <= k < b.high_knot
        }),
{
    lemma_blend_at(degree, k, degree, r, j);
    lemma_blend_count(degree, k, degree);
}

/// The distinct knots are in strictly increasing order, and are the knots.
pub proof fn law_distinct_knots_increase(values: Seq<Real>, i: int, j: int)
    requires
        0 <= i < j < distinct_sorted(values).len(),
    ensures
        distinct_sorted(values)[i].place < distinct_sorted(values)[j].place,
        values.contains(distinct_sorted(values)[i]),
{
    law_distinct_knots(values);
    assert(distinct_sorted(values).contains(distinct_sorted(values)[i]));
}

} // verus!
