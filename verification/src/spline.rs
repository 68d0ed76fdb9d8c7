//! The index work behind evaluating a B-spline.
//!
//! De Boor's algorithm blends control points by weights that come from the knots.
//! Which control points and which knots take part is worked out here; the blending
//! is left to whoever has the coordinates.

use std::collections::BTreeSet;
use vstd::prelude::*;

use crate::number::Real;

verus! {

/// Where a point of a spline comes from.
#[derive(Debug, Clone, Copy, PartialEq, Eq, Structural)]
pub enum SplinePoint {
    /// It is the control point with this index.
    Control(usize),
    /// It is blended in the knot span with this index, from the control point
    /// `degree` below the index up to that with the index, by [`blend_steps`].
    Span(usize),
}

/// One blend of de Boor's algorithm on the points of a knot span.
///
/// Point `target` becomes `(1 - a)` of point `target - 1` and `a` of itself, where
/// `a` is the position of the parameter between knots `low_knot` and `high_knot`.
#[derive(Debug, Clone, Copy, PartialEq, Eq, Structural)]
pub struct Blend {
    pub target: usize,
    pub low_knot: usize,
    pub high_knot: usize,
}

/// One control point of the derivative of a spline.
///
/// It is the step from control point `from` to `to`, times the degree of the spline,
/// divided by the distance from knot `low_knot` to `high_knot`.
#[derive(Debug, Clone, Copy, PartialEq, Eq, Structural)]
pub struct Difference {
    pub from: usize,
    pub to: usize,
    pub low_knot: usize,
    pub high_knot: usize,
}

/// The derivative of a spline, which is itself a spline.
#[derive(Debug, Clone)]
pub struct Derivative {
    pub degree: usize,
    pub control_points: Vec<Difference>,
    pub knots: Vec<Real>,
}

/// The model of a [`Derivative`].
pub struct DerivativeView {
    pub degree: int,
    pub control_points: Seq<Difference>,
    pub knots: Seq<Real>,
}

impl View for Derivative {
    type V = DerivativeView;

    open spec fn view(&self) -> DerivativeView {
        DerivativeView {
            degree: self.degree as int,
            control_points: self.control_points@,
            knots: self.knots@,
        }
    }
}

/// The index of the first knot from `i` on that lies above `u`, or the last index
/// where there is none.
pub open spec fn first_above_from(knots: Seq<Real>, u: Real, i: int) -> int
    decreases knots.len() - i,
{
    if i >= knots.len() {
        knots.len() - 1
    } else if u.less(knots[i]) {
        i
    } else {
        first_above_from(knots, u, i + 1)
    }
}

/// The index of the knot span that `u` falls into: one below the first knot above it.
pub open spec fn knot_span(knots: Seq<Real>, u: Real) -> int {
    if first_above_from(knots, u, 0) <= 0 {
        0
    } else {
        first_above_from(knots, u, 0) - 1
    }
}

/// Where the point at `u` comes from on a spline with `count` control points.
///
/// A parameter outside the spans that have enough control points takes the first
/// control point below the valid range, and the last one otherwise.
pub open spec fn spline_point(degree: int, count: int, knots: Seq<Real>, u: Real) -> SplinePoint {
    let k = knot_span(knots, u);
    if degree <= k < count {
        SplinePoint::Span(k as usize)
    } else if u.less(knots[degree]) {
        SplinePoint::Control(0)
    } else {
        SplinePoint::Control((count - 1) as usize)
    }
}

/// Evaluate a B-spline with `count` control points at `u`.
pub fn eval_spline(degree: usize, count: usize, knots: &Vec<Real>, u: Real) -> (p: SplinePoint)
    requires
        1 <= count,
        degree < knots@.len(),
    ensures
        p == spline_point(degree as int, count as int, knots@, u),
{
    let mut i: usize = 0;
    while i < knots.len() && !u.is_less(knots[i])
        invariant
            i <= knots@.len(),
            first_above_from(knots@, u, 0) == first_above_from(knots@, u, i as int),
        decreases knots@.len() - i,
    {
        i = i + 1;
    }
    let above: usize = if i < knots.len() {
        i
    } else {
        knots.len() - 1
    };
    let k: usize = if above == 0 {
        0
    } else {
        above - 1
    };
    if degree <= k && k < count {
        SplinePoint::Span(k)
    } else if u.is_less(knots[degree]) {
        SplinePoint::Control(0)
    } else {
        SplinePoint::Control(count - 1)
    }
}

/// Round `r` of de Boor's algorithm in knot span `k`, from the last point down.
pub open spec fn blend_round(degree: int, k: int, r: int) -> Seq<Blend> {
    Seq::new(
        (degree - r + 1) as nat,
        |j: int|
            Blend {
                target: (degree - j) as usize,
                low_knot: (k - j) as usize,
                high_knot: (k + degree - j - r + 1) as usize,
            },
    )
}

/// The first `rounds` rounds of de Boor's algorithm in knot span `k`.
pub open spec fn blend_rounds(degree: int, k: int, rounds: int) -> Seq<Blend>
    decreases rounds,
{
    if rounds <= 0 {
        Seq::empty()
    } else {
        blend_rounds(degree, k, rounds - 1) + blend_round(degree, k, rounds)
    }
}

/// The blends that lead to the point in knot span `k`, in order. The point is then
/// the last of the `degree + 1` points of the span.
pub fn blend_steps(degree: usize, k: usize) -> (steps: Vec<Blend>)
    requires
        degree <= k,
        k + degree <= usize::MAX,
    ensures
        steps@ == blend_rounds(degree as int, k as int, degree as int),
{
    let mut steps: Vec<Blend> = Vec::new();
    let mut r: usize = 0;
    while r < degree
        invariant
            r <= degree <= k,
            k + degree <= usize::MAX,
            steps@ == blend_rounds(degree as int, k as int, r as int),
        decreases degree - r,
    {
        let ghost before = steps@;
        r = r + 1;
        let mut i: usize = degree;
        while i >= r
            invariant
                1 <= r <= degree <= k,
                r - 1 <= i <= degree,
                k + degree <= usize::MAX,
                steps@ == before + blend_round(degree as int, k as int, r as int).take(degree - i),
            decreases i,
        {
            let ghost row = blend_round(degree as int, k as int, r as int);
            let low: usize = k - (degree - i);
            steps.push(Blend { target: i, low_knot: low, high_knot: k + (i - r) + 1 });
            assert(row.take(degree - i + 1) =~= row.take(degree - i).push(row[degree - i]));
            assert(steps@ =~= before + row.take(degree - i + 1));
            i = i - 1;
        }
        assert(blend_round(degree as int, k as int, r as int).take(degree - r + 1) =~= blend_round(
            degree as int,
            k as int,
            r as int,
        ));
    }
    steps
}

/// The derivative of a spline with `count` control points.
///
/// A spline without degree, or with a single control point, has none to speak of.
pub open spec fn derivative_spec(degree: int, count: int, knots: Seq<Real>) -> DerivativeView {
    if degree == 0 || count <= 1 {
        DerivativeView { degree: 0, control_points: Seq::empty(), knots }
    } else {
        DerivativeView {
            degree: degree - 1,
            control_points: Seq::new(
                (count - 1) as nat,
                |i: int|
                    Difference {
                        from: i as usize,
                        to: (i + 1) as usize,
                        low_knot: (i + 1) as usize,
                        high_knot: (i + degree + 1) as usize,
                    },
            ),
            knots: knots.subrange(1, knots.len() - 1),
        }
    }
}

/// A copy of the values from index `from` up to, not including, index `to`.
pub(crate) fn copy_range(values: &Vec<Real>, from: usize, to: usize) -> (out: Vec<Real>)
    requires
        from <= to <= values@.len(),
    ensures
        out@ == values@.subrange(from as int, to as int),
{
    let mut out: Vec<Real> = Vec::new();
    let mut i: usize = from;
    while i < to
        invariant
            from <= i <= to <= values@.len(),
            out@ == values@.subrange(from as int, i as int),
        decreases to - i,
    {
        out.push(values[i]);
        i = i + 1;
        assert(out@ =~= values@.subrange(from as int, i as int));
    }
    out
}

/// Compute derivative control points and knots.
pub fn derivative_control_points(degree: usize, count: usize, knots: &Vec<Real>) -> (d: Derivative)
    requires
        1 <= count,
        degree >= 1 && count >= 2 ==> count + degree <= knots@.len(),
    ensures
        d@ == derivative_spec(degree as int, count as int, knots@),
{
    if degree == 0 || count == 1 {
        let all: Vec<Real> = copy_range(knots, 0, knots.len());
        assert(all@ =~= knots@);
        return Derivative { degree: 0, control_points: Vec::new(), knots: all };
    }
    let total: usize = knots.len();
    let mut control_points: Vec<Difference> = Vec::new();
    let ghost expected = derivative_spec(degree as int, count as int, knots@).control_points;
    let mut i: usize = 0;
    while i < count - 1
        invariant
            i <= count - 1,
            1 <= degree,
            2 <= count,
            count + degree <= total,
            total == knots@.len(),
            expected == derivative_spec(degree as int, count as int, knots@).control_points,
            control_points@ == expected.take(i as int),
        decreases count - i,
    {
        control_points.push(
            Difference { from: i, to: i + 1, low_knot: i + 1, high_knot: i + degree + 1 },
        );
        i = i + 1;
        assert(control_points@ =~= expected.take(i as int));
    }
    assert(expected.take(count - 1) =~= expected);
    Derivative {
        degree: degree - 1,
        control_points,
        knots: copy_range(knots, 1, knots.len() - 1),
    }
}

/// Whether `out` holds the values of `values`, each once, in increasing order.
pub open spec fn is_distinct_sorted(out: Seq<Real>, values: Seq<Real>) -> bool {
    &&& forall|i: int, j: int| 0 <= i < j < out.len() ==> out[i].place < out[j].place
    &&& out.to_set() == values.to_set()
}

/// The values of `values`, each once, in increasing order.
pub open spec fn distinct_sorted(values: Seq<Real>) -> Seq<Real> {
    choose|out: Seq<Real>| is_distinct_sorted(out, values)
}

/// Two increasing sequences of the same values are the same.
proof fn lemma_distinct_sorted_is_unique(a: Seq<Real>, b: Seq<Real>, values: Seq<Real>)
    requires
        is_distinct_sorted(a, values),
        is_distinct_sorted(b, values),
    ensures
        a == b,
{
    assert forall|x: Real| a.contains(x) <==> b.contains(x) by {
        assert(a.to_set().contains(x) <==> b.to_set().contains(x));
    }
    lemma_increasing_same_values(a, b);
}

proof fn lemma_increasing_same_values(a: Seq<Real>, b: Seq<Real>)
    requires
        forall|i: int, j: int| 0 <= i < j < a.len() ==> a[i].place < a[j].place,
        forall|i: int, j: int| 0 <= i < j < b.len() ==> b[i].place < b[j].place,
        forall|x: Real| a.contains(x) <==> b.contains(x),
    ensures
        a == b,
    decreases a.len(),
{
    if a.len() == 0 {
        if b.len() > 0 {
            assert(b.contains(b[0]));
        }
        assert(a =~= b);
    } else {
        assert(a.contains(a.last()));
        assert(b.len() > 0);
        assert(b.contains(b.last()));
        let i = choose|i: int| 0 <= i < b.len() && b[i] == a.last();
        let j = choose|j: int| 0 <= j < a.len() && a[j] == b.last();
        assert(a.last() == b.last());
        let ra = a.drop_last();
        let rb = b.drop_last();
        assert forall|x: Real| ra.contains(x) <==> rb.contains(x) by {
            if ra.contains(x) {
                let p = choose|p: int| 0 <= p < ra.len() && ra[p] == x;
                assert(a[p] == x);
                assert(a.contains(x));
                let q = choose|q: int| 0 <= q < b.len() && b[q] == x;
                assert(rb[q] == x);
            }
            if rb.contains(x) {
                let p = choose|p: int| 0 <= p < rb.len() && rb[p] == x;
                assert(b[p] == x);
                assert(b.contains(x));
                let q = choose|q: int| 0 <= q < a.len() && a[q] == x;
                assert(ra[q] == x);
            }
        }
        lemma_increasing_same_values(ra, rb);
        assert(a =~= ra.push(a.last()));
        assert(b =~= rb.push(b.last()));
    }
}

/// What an increasing iteration over references to integers says of the integers.
pub(crate) proof fn lemma_increasing_places(seq: Seq<&u64>)
    requires
        vstd::std_specs::btree::increasing_seq(seq),
    ensures
        forall|i: int, j: int| 0 <= i < j < seq.len() ==> *seq[i] < *seq[j],
{
    broadcast use vstd::laws_cmp::lemma_ref_obeys_cmp_spec;

    vstd::std_specs::btree::axiom_increasing_seq_meaning::<&u64>(seq);
    assert forall|i: int, j: int| 0 <= i < j < seq.len() implies *seq[i] < *seq[j] by {
        assert(vstd::std_specs::cmp::OrdSpec::cmp_spec(&seq[i], &seq[j]) is Less);
    }
}

/// The distinct values from index `from` up to, not including, index `to`, in
/// increasing order.
pub fn unique_knots(knots: &Vec<Real>, from: usize, to: usize) -> (out: Vec<Real>)
    requires
        from <= to <= knots@.len(),
    ensures
        is_distinct_sorted(out@, knots@.subrange(from as int, to as int)),
        out@ == distinct_sorted(knots@.subrange(from as int, to as int)),
{
    let ghost values = knots@.subrange(from as int, to as int);
    let mut places: BTreeSet<u64> = BTreeSet::new();
    let mut i: usize = from;
    while i < to
        invariant
            from <= i <= to <= knots@.len(),
            forall|p: u64|
                places@.contains(p) <==> exists|j: int|
                    from <= j < i && (#[trigger] knots@[j]).place == p,
        decreases to - i,
    {
        let ghost before = places@;
        let place: u64 = knots[i].place;
        places.insert(place);
        assert forall|p: u64|
            places@.contains(p) <==> exists|j: int|
                from <= j < i + 1 && (#[trigger] knots@[j]).place == p by {
            if p == place {
                assert(knots@[i as int].place == p);
            } else {
                assert(before.contains(p) == places@.contains(p));
                if before.contains(p) {
                    let j = choose|j: int| from <= j < i && (#[trigger] knots@[j]).place == p;
                    assert(from <= j < i + 1 && knots@[j].place == p);
                }
            }
        }
        i = i + 1;
    }
    let mut out: Vec<Real> = Vec::new();
    for p in it: places.iter()
        invariant
            out@.len() == it.index(),
            forall|j: int| 0 <= j < out@.len() ==> (#[trigger] out@[j]).place == *it.seq()[j],
    {
        out.push(Real { place: *p });
    }
    proof {
        let seq = vstd::std_specs::iter::IteratorSpec::remaining(
            &vstd::std_specs::btree::spec_btree_keys_iter(&places),
        );
        assert(seq.unref().to_set() == places@);
        assert(out@.len() == seq.len());
        assert(forall|j: int| 0 <= j < out@.len() ==> (#[trigger] out@[j]).place == *seq[j]);
        lemma_increasing_places(seq);
        assert forall|a: int, b: int| 0 <= a < b < out@.len() implies out@[a].place
            < out@[b].place by {
            assert(out@[a].place == *seq[a]);
            assert(out@[b].place == *seq[b]);
        }
        assert forall|x: Real| out@.to_set().contains(x) <==> values.to_set().contains(x) by {
            if out@.contains(x) {
                let j = choose|j: int| 0 <= j < out@.len() && out@[j] == x;
                assert(seq.unref()[j] == x.place);
                assert(seq.unref().to_set().contains(x.place));
                let q = choose|q: int| from <= q < to && (#[trigger] knots@[q]).place == x.place;
                assert(values[q - from] == x);
            }
            if values.contains(x) {
                let j = choose|j: int| 0 <= j < values.len() && values[j] == x;
                assert(knots@[j + from].place == x.place);
                assert(places@.contains(x.place));
                assert(seq.unref().to_set().contains(x.place));
                let q = choose|q: int| 0 <= q < seq.unref().len() && seq.unref()[q] == x.place;
                assert(out@[q].place == x.place);
                assert(out@[q] == x);
            }
        }
        assert(out@.to_set() =~= values.to_set());
        assert(is_distinct_sorted(out@, values));
        lemma_distinct_sorted_is_unique(out@, distinct_sorted(values), values);
    }
    out
}

/// Every blend of a span stays inside the knots and inside the points of the span,
/// so long as the span has its control points and the knots are complete.
pub proof fn law_blends_stay_in_bounds(
    degree: int,
    count: int,
    knots: Seq<Real>,
    u: Real,
    rounds: int,
    i: int,
)
    requires
        0 <= rounds <= degree,
        1 <= count,
        count + degree + 1 <= knots.len() <= usize::MAX,
        spline_point(degree, count, knots, u) is Span,
        0 <= i < blend_rounds(degree, knot_span(knots, u), rounds).len(),
    ensures
        ({
            let b = blend_rounds(degree, knot_span(knots, u), rounds)[i];
            &&& 1 <= b.target <= degree
            &&& b.low_knot < b.high_knot < knots.len()
            &&& degree <= knot_span(knots, u) < count
        }),
    decreases rounds,
{
    let k = knot_span(knots, u);
    let earlier = blend_rounds(degree, k, rounds - 1);
    if i < earlier.len() {
        law_blends_stay_in_bounds(degree, count, knots, u, rounds - 1, i);
    } else {
        let row = blend_round(degree, k, rounds);
        assert(blend_rounds(degree, k, rounds)[i] == row[i - earlier.len()]);
    }
}

/// The derivative of a complete spline is complete: its control points refer to
/// control points and knots that exist, and it has the knots that it needs itself.
pub proof fn law_derivative_is_complete(degree: int, count: int, knots: Seq<Real>, i: int)
    requires
        1 <= degree < count,
        count + degree + 1 <= knots.len() <= usize::MAX,
    ensures
        ({
            let d = derivative_spec(degree, count, knots);
            &&& d.degree < d.control_points.len()
            &&& d.control_points.len() + d.degree + 1 <= d.knots.len()
            &&& 0 <= i < d.control_points.len() ==> {
                &&& d.control_points[i].from < d.control_points[i].to < count
                &&& d.control_points[i].low_knot < d.control_points[i].high_knot < knots.len()
            }
        }),
{
}

/// How many of the increasing values of `sorted` come before `x`.
proof fn lemma_place_among(sorted: Seq<Real>, x: Real) -> (p: int)
    requires
        forall|i: int, j: int| 0 <= i < j < sorted.len() ==> sorted[i].place < sorted[j].place,
        !sorted.contains(x),
    ensures
        0 <= p <= sorted.len(),
        forall|i: int| 0 <= i < p ==> sorted[i].place < x.place,
        forall|i: int| p <= i < sorted.len() ==> x.place < sorted[i].place,
    decreases sorted.len(),
{
    if sorted.len() == 0 {
        0
    } else {
        let last = sorted.last();
        assert(sorted.contains(last));
        assert(last.place != x.place);
        if last.place < x.place {
            assert forall|i: int| 0 <= i < sorted.len() implies sorted[i].place < x.place by {
                if i < sorted.len() - 1 {
                    assert(sorted[i].place < sorted[sorted.len() - 1].place);
                }
            }
            sorted.len() as int
        } else {
            let rest = sorted.drop_last();
            assert forall|i: int| 0 <= i < rest.len() implies rest[i] != x by {
                assert(sorted.contains(sorted[i]));
            }
            let p = lemma_place_among(rest, x);
            assert forall|i: int| p <= i < sorted.len() implies x.place < sorted[i].place by {
                if i < rest.len() {
                    assert(rest[i] == sorted[i]);
                }
            }
            assert forall|i: int| 0 <= i < p implies sorted[i].place < x.place by {
                assert(rest[i] == sorted[i]);
            }
            p
        }
    }
}

/// There is exactly one increasing sequence of the values of `values`: it holds each
/// of them, and nothing else.
pub proof fn law_distinct_knots(values: Seq<Real>)
    ensures
        is_distinct_sorted(distinct_sorted(values), values),
        forall|x: Real| #[trigger] distinct_sorted(values).contains(x) <==> values.contains(x),
        values.len() > 0 ==> distinct_sorted(values).len() > 0,
        forall|other: Seq<Real>| #[trigger]
            is_distinct_sorted(other, values) ==> other == distinct_sorted(values),
    decreases values.len(),
{
    if values.len() == 0 {
        assert(is_distinct_sorted(values, values));
    } else {
        let before = values.drop_last();
        law_distinct_knots(before);
        let sorted = distinct_sorted(before);
        let x = values.last();
        assert forall|y: Real| values.contains(y) <==> before.contains(y) || y == x by {
            if values.contains(y) && y != x {
                let k = choose|k: int| 0 <= k < values.len() && values[k] == y;
                assert(before[k] == y);
            }
            if before.contains(y) {
                let k = choose|k: int| 0 <= k < before.len() && before[k] == y;
                assert(values[k] == y);
            }
            if y == x {
                assert(values[values.len() - 1] == y);
            }
        }
        if !sorted.contains(x) {
            let p = lemma_place_among(sorted, x);
            let grown = sorted.insert(p, x);
            assert forall|y: Real| grown.contains(y) <==> sorted.contains(y) || y == x by {
                if grown.contains(y) && y != x {
                    let k = choose|k: int| 0 <= k < grown.len() && grown[k] == y;
                    assert(sorted[if k < p { k } else { k - 1 }] == y);
                }
                if sorted.contains(y) {
                    let k = choose|k: int| 0 <= k < sorted.len() && sorted[k] == y;
                    assert(grown[if k < p { k } else { k + 1 }] == y);
                }
                if y == x {
                    assert(grown[p] == y);
                }
            }
            assert(grown.to_set() =~= values.to_set());
            assert(is_distinct_sorted(grown, values));
        }
        assert(exists|out: Seq<Real>| is_distinct_sorted(out, values)) by {
            if sorted.contains(x) {
                assert(sorted.to_set() =~= values.to_set());
                assert(is_distinct_sorted(sorted, values));
            }
        }
    }
    let all = distinct_sorted(values);
    assert(is_distinct_sorted(all, values));
    assert forall|x: Real| #[trigger] all.contains(x) <==> values.contains(x) by {
        assert(all.to_set().contains(x) <==> values.to_set().contains(x));
    }
    if values.len() > 0 {
        assert(values.contains(values[0]));
        assert(all.contains(values[0]));
    }
    assert forall|other: Seq<Real>| #[trigger] is_distinct_sorted(other, values) implies other
        == all by {
        lemma_distinct_sorted_is_unique(other, all, values);
    }
}

} // verus!
