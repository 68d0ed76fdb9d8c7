//! What handles lead to, and how points and paints are told apart.

use vstd::prelude::*;

#[allow(unused_imports)]
use vstd::std_specs::cmp::PartialOrdSpec;
#[allow(unused_imports)]
use vstd::std_specs::convert::{FromSpec, TryFromSpec};

#[allow(unused_imports)]
use crate::drawing_types::{handle_of, with_point, Vec2, Vec3};
#[allow(unused_imports)]
use crate::dxf_file::{DxfDrawing, DxfEntity, EntityCommon};
#[allow(unused_imports)]
use crate::graphics::PaintHandle;
#[allow(unused_imports)]
use crate::handles::{first_entity_with, leads_to_entity, EntityHandle};
#[allow(unused_imports)]
use crate::number::Real;
#[allow(unused_imports)]
use crate::paints::RestrokePaint;

verus! {

proof fn lemma_first_with(entities: Seq<DxfEntity>, handle: u64, from: int, i: int)
    requires
        0 <= from <= i < entities.len(),
        entities[i].common.handle == handle,
        forall|j: int| from <= j < i ==> (#[trigger] entities[j]).common.handle != handle,
    ensures
        first_entity_with(entities, handle, from) == Some(i),
    decreases i - from,
{
    if from < i {
        lemma_first_with(entities, handle, from + 1, i);
    }
}

/// A handle leads to the first entity that has it.
pub proof fn law_handles_lead_to_the_first(entities: Seq<DxfEntity>, handle: u64, i: int)
    requires
        0 <= i < entities.len(),
        entities[i].common.handle == handle,
        forall|j: int| 0 <= j < i ==> (#[trigger] entities[j]).common.handle != handle,
    ensures
        first_entity_with(entities, handle, 0) == Some(i),
{
    lemma_first_with(entities, handle, 0, i);
}

/// A handle leads to an entity if one has it and nothing else does, and to none if no
/// entity has it or something else does.
pub proof fn law_handles_may_be_hidden(d: DxfDrawing, i: int, k: int, handle: u64)
    ensures
        0 <= k < d.other_handles@.len() ==> !leads_to_entity(d, d.other_handles@[k]),
        0 <= i < d.entities@.len() && !d.other_handles@.contains(d.entities@[i].common.handle)
            ==> leads_to_entity(d, d.entities@[i].common.handle),
        (forall|j: int| 0 <= j < d.entities@.len() ==> (#[trigger] d.entities@[j]).common.handle
            != handle) ==> !leads_to_entity(d, handle),
{
    if 0 <= k < d.other_handles@.len() {
        assert(d.other_handles@.contains(d.other_handles@[k]));
    }
}

/// An entity has a handle exactly if its number is not zero, and the handle is that number.
pub proof fn law_entities_have_their_handles(c: &EntityCommon)
    ensures
        c.handle == 0 ==> <EntityHandle as TryFromSpec<&EntityCommon>>::try_from_spec(c) is Err,
        c.handle != 0 ==> (<EntityHandle as TryFromSpec<&EntityCommon>>::try_from_spec(
            c,
        ) matches Ok(h) && h@ == c.handle),
{
    if c.handle != 0 {
        let h = EntityHandle::numbered(c.handle);
        h.law_handles_are_numbers(c.handle);
    }
}

/// A weight and a paint stay what they are together.
pub proof fn law_restroke_paints_are_pairs(weight: u64, handle: PaintHandle)
    ensures
        <RestrokePaint as FromSpec<(u64, PaintHandle)>>::from_spec((weight, handle)).weight
            == weight,
        <RestrokePaint as FromSpec<(u64, PaintHandle)>>::from_spec((weight, handle)).handle
            == handle,
{
}

/// Points are ordered by x first and then by y, from the lowest place to the highest.
pub proof fn law_points_are_ordered_by_x_first(a: Vec2, b: Vec2)
    ensures
        a.x.place < b.x.place ==> a.before(b) && !b.before(a),
        a.x.place == b.x.place ==> (a.before(b) <==> a.y.place < b.y.place),
{
}

/// Points in space are ordered by x first, then by y, and then by z.
pub proof fn law_points_in_space_are_ordered_by_x_first(a: Vec3, b: Vec3)
    ensures
        a.x.place < b.x.place ==> a.before(b) && !b.before(a),
        a.x.place == b.x.place && a.y.place < b.y.place ==> a.before(b) && !b.before(a),
        a.x.place == b.x.place && a.y.place == b.y.place ==> (a.before(b) <==> a.z.place
            < b.z.place),
{
}

/// A point that is new joins at the end of the buffer, and its handle is the number of
/// points before it; a point that is there has the number of points before it as its handle.
pub proof fn law_handles_count_points(points: Seq<Vec2>, v: Vec2, i: int)
    requires
        points.no_duplicates(),
        points.len() < 0x1_0000_0000,
    ensures
        !points.contains(v) ==> with_point(points, v).len() == points.len() + 1 && with_point(
            points,
            v,
        ).last() == v && handle_of(with_point(points, v), v) == points.len(),
        0 <= i < points.len() ==> handle_of(with_point(points, points[i]), points[i]) == i,
{
    if !points.contains(v) {
        let grown = with_point(points, v);
        assert(grown[points.len() as int] == v);
        assert(grown.contains(v));
        let j = grown.index_of(v);
        assert(grown[j] == v);
        if j < points.len() {
            assert(points[j] == v);
        }
    }
    if 0 <= i < points.len() {
        assert(points.contains(points[i]));
        let j = points.index_of(points[i]);
        assert(points[j] == points[i]);
    }
}

/// Numbers and points compare as they are ordered, and every two of them can be compared.
pub proof fn law_comparisons_follow_the_order(
    a: Real,
    b: Real,
    p: Vec2,
    q: Vec2,
    v: Vec3,
    w: Vec3,
)
    ensures
        a.partial_cmp_spec(&b) == Some(core::cmp::Ordering::Less) <==> a.place < b.place,
        a.partial_cmp_spec(&b) == Some(core::cmp::Ordering::Equal) <==> a.place == b.place,
        a.partial_cmp_spec(&b) == Some(core::cmp::Ordering::Greater) <==> a.place > b.place,
        p.partial_cmp_spec(&q) == Some(core::cmp::Ordering::Less) <==> p.x.place < q.x.place || (
        p.x.place == q.x.place && p.y.place < q.y.place),
        p.partial_cmp_spec(&q) == Some(core::cmp::Ordering::Equal) <==> p == q,
        p.partial_cmp_spec(&q) == Some(core::cmp::Ordering::Greater) <==> q.partial_cmp_spec(&p)
            == Some(core::cmp::Ordering::Less),
        v.partial_cmp_spec(&w) == Some(core::cmp::Ordering::Less) <==> v.x.place < w.x.place || (
        v.x.place == w.x.place && v.y.place < w.y.place) || (v.x.place == w.x.place && v.y.place
            == w.y.place && v.z.place < w.z.place),
        v.partial_cmp_spec(&w) == Some(core::cmp::Ordering::Equal) <==> v == w,
        v.partial_cmp_spec(&w) == Some(core::cmp::Ordering::Greater) <==> w.partial_cmp_spec(&v)
            == Some(core::cmp::Ordering::Less),
{
}

} // verus!
