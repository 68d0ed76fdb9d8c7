//! The paints of a drawing: one for each color and line width, and one for each color
//! that fills.

use std::collections::BTreeMap;

use vstd::prelude::*;

use crate::color::{resolve_color, resolve_line_width, unpack_color, WEIGHT_SOLID};
#[allow(unused_imports)]
use crate::color::{line_width, packed_color, unpacked, Rgba8};
use crate::dxf_file::{EntityCommon, Layer};
#[allow(unused_imports)]
use crate::graphics::{fill_of, stroke_of, BagView};
use crate::graphics::{FatPaint, GraphicsBag, PaintHandle, Stroke};
use crate::number::Real;

verus! {

/// The key of a stroke: its packed color, then its width.
pub open spec fn stroke_key(color: u32, width: u64) -> u128 {
    (color * 0x1_0000_0000_0000_0000 + width) as u128
}

/// The packed color in the key of a stroke.
pub open spec fn key_color(key: u128) -> u32 {
    (key / 0x1_0000_0000_0000_0000) as u32
}

/// The width in the key of a stroke.
pub open spec fn key_width(key: u128) -> u64 {
    (key % 0x1_0000_0000_0000_0000) as u64
}

fn make_stroke_key(color: u32, width: u64) -> (key: u128)
    ensures
        key == stroke_key(color, width),
{
    color as u128 * 0x1_0000_0000_0000_0000 + width as u128
}

/// Keys tell strokes apart, by color first and then by width.
pub proof fn law_stroke_keys(color: u32, width: u64, other_color: u32, other_width: u64)
    ensures
        key_color(stroke_key(color, width)) == color,
        key_width(stroke_key(color, width)) == width,
        stroke_key(color, width) < stroke_key(other_color, other_width) <==> color < other_color
            || (color == other_color && width < other_width),
{
}

/// The paints that were registered, with the stroke of each key and the fill of each
/// color.
#[verifier::ext_equal]
pub struct PaintState {
    pub paints: Seq<FatPaint>,
    pub strokes: Map<u128, PaintHandle>,
    pub fills: Map<u32, PaintHandle>,
}

/// The stroke for a color and a width, registered if it is new.
pub open spec fn stroke_paint(st: PaintState, color: u32, width: u64) -> (PaintState, PaintHandle) {
    let key = stroke_key(color, width);
    if st.strokes.contains_key(key) {
        (st, st.strokes[key])
    } else {
        let h = PaintHandle { index: st.paints.len() as usize };
        (
            PaintState {
                paints: st.paints.push(stroke_of(unpacked(color))),
                strokes: st.strokes.insert(key, h),
                fills: st.fills,
            },
            h,
        )
    }
}

/// The fill for a color, registered if it is new.
pub open spec fn fill_paint(st: PaintState, color: u32) -> (PaintState, PaintHandle) {
    if st.fills.contains_key(color) {
        (st, st.fills[color])
    } else {
        let h = PaintHandle { index: st.paints.len() as usize };
        (
            PaintState {
                paints: st.paints.push(fill_of(unpacked(color))),
                strokes: st.strokes,
                fills: st.fills.insert(color, h),
            },
            h,
        )
    }
}

/// The paint for line weight `lw` and color number `c` of an entity: a fill for the
/// weight of solids, else a stroke.
pub open spec fn paint_for(
    st: PaintState,
    entity: EntityCommon,
    layer: Layer,
    aci: Seq<u32>,
    lw: i16,
    c: i16,
) -> (PaintState, PaintHandle) {
    let color = packed_color(entity, layer, aci, c) as u32;
    if lw == WEIGHT_SOLID {
        fill_paint(st, color)
    } else {
        stroke_paint(st, color, line_width(layer, lw) as u64)
    }
}

/// The paints that a drawing starts with: black, which is the default.
pub open spec fn first_paints() -> PaintState {
    PaintState {
        paints: seq![stroke_of(Rgba8 { r: 0, g: 0, b: 0, a: 255 })],
        strokes: Map::empty(),
        fills: Map::empty(),
    }
}

/// Whether paint `i` is the stroke of a key or the fill of a color.
pub open spec fn is_registered(st: PaintState, i: int) -> bool {
    ||| exists|k: u128| #[trigger] st.strokes.contains_key(k) && st.strokes[k].index == i
    ||| exists|c: u32| #[trigger] st.fills.contains_key(c) && st.fills[c].index == i
}

/// What every table of paints keeps: the default comes first, every other paint is the
/// stroke of one key or the fill of one color, and looks like that.
pub open spec fn paints_consistent(st: PaintState) -> bool {
    &&& st.paints.len() >= 1
    &&& st.paints[0] == stroke_of(Rgba8 { r: 0, g: 0, b: 0, a: 255 })
    &&& forall|k: u128| #[trigger]
        st.strokes.contains_key(k) ==> 1 <= st.strokes[k].index < st.paints.len()
            && st.paints[st.strokes[k].index as int] == stroke_of(unpacked(key_color(k))) && k
            == stroke_key(key_color(k), key_width(k))
    &&& forall|c: u32| #[trigger]
        st.fills.contains_key(c) ==> 1 <= st.fills[c].index < st.paints.len()
            && st.paints[st.fills[c].index as int] == fill_of(unpacked(c))
    &&& forall|k: u128, l: u128| #[trigger]
        st.strokes.contains_key(k) && #[trigger] st.strokes.contains_key(l) && st.strokes[k]
            == st.strokes[l] ==> k == l
    &&& forall|c: u32, d: u32| #[trigger]
        st.fills.contains_key(c) && #[trigger] st.fills.contains_key(d) && st.fills[c]
            == st.fills[d] ==> c == d
    &&& forall|i: int| 1 <= i < st.paints.len() ==> #[trigger] is_registered(st, i)
}

/// A drawing starts with a consistent table of paints.
pub proof fn law_first_paints_are_consistent()
    ensures
        paints_consistent(first_paints()),
{
}

/// Whether `next` has every paint of `st`, for the same key or color.
pub open spec fn paints_grow(st: PaintState, next: PaintState) -> bool {
    &&& st.paints.is_prefix_of(next.paints)
    &&& st.strokes.submap_of(next.strokes)
    &&& st.fills.submap_of(next.fills)
}

/// Whether `h` is the paint for line weight `lw` and color number `c` of an entity.
pub open spec fn is_paint_for(
    st: PaintState,
    h: PaintHandle,
    entity: EntityCommon,
    layer: Layer,
    aci: Seq<u32>,
    lw: i16,
    c: i16,
) -> bool {
    let color = packed_color(entity, layer, aci, c) as u32;
    if lw == WEIGHT_SOLID {
        st.fills.contains_key(color) && st.fills[color] == h
    } else {
        let key = stroke_key(color, line_width(layer, lw) as u64);
        st.strokes.contains_key(key) && st.strokes[key] == h
    }
}

/// Asking for a paint keeps the table consistent, keeps every paint that was there,
/// and gives one that is in the table: a fill in the color asked for, or a stroke.
pub proof fn law_paint_for_keeps_paints(
    st: PaintState,
    entity: EntityCommon,
    layer: Layer,
    aci: Seq<u32>,
    lw: i16,
    c: i16,
)
    requires
        paints_consistent(st),
        paint_for(st, entity, layer, aci, lw, c).0.paints.len() <= usize::MAX,
    ensures
        ({
            let (next, h) = paint_for(st, entity, layer, aci, lw, c);
            let color = unpacked(packed_color(entity, layer, aci, c) as u32);
            &&& paints_consistent(next)
            &&& paints_grow(st, next)
            &&& is_paint_for(next, h, entity, layer, aci, lw, c)
            &&& 1 <= h.index < next.paints.len()
            &&& next.paints[h.index as int] == if lw == WEIGHT_SOLID {
                fill_of(color)
            } else {
                stroke_of(color)
            }
        }),
{
    let color = packed_color(entity, layer, aci, c) as u32;
    let width = line_width(layer, lw) as u64;
    let key = stroke_key(color, width);
    law_stroke_keys(color, width, color, width);
    let (next, h) = paint_for(st, entity, layer, aci, lw, c);
    assert(forall|i: int|
        0 <= i < st.paints.len() ==> #[trigger] next.paints[i] == st.paints[i]);
    assert(st.paints.is_prefix_of(next.paints)) by {
        assert(st.paints =~= next.paints.subrange(0, st.paints.len() as int));
    }
    let fresh = st.paints.len() as int;
    assert forall|i: int| 1 <= i < next.paints.len() implies #[trigger] is_registered(
        next,
        i,
    ) by {
        if i == fresh {
            if lw == WEIGHT_SOLID {
                assert(next.fills.contains_key(color) && next.fills[color].index == i);
            } else {
                assert(next.strokes.contains_key(key) && next.strokes[key].index == i);
            }
        } else {
            assert(is_registered(st, i));
            if exists|k: u128| #[trigger] st.strokes.contains_key(k) && st.strokes[k].index == i {
                let k = choose|k: u128| #[trigger]
                    st.strokes.contains_key(k) && st.strokes[k].index == i;
                assert(next.strokes.contains_key(k) && next.strokes[k].index == i);
            } else {
                let d = choose|d: u32| #[trigger]
                    st.fills.contains_key(d) && st.fills[d].index == i;
                assert(next.fills.contains_key(d) && next.fills[d].index == i);
            }
        }
    }
}

/// Asking for the same paint again gives the same paint, and changes nothing.
pub proof fn law_paints_are_shared(
    st: PaintState,
    entity: EntityCommon,
    layer: Layer,
    aci: Seq<u32>,
    lw: i16,
    c: i16,
)
    ensures
        ({
            let (next, h) = paint_for(st, entity, layer, aci, lw, c);
            paint_for(next, entity, layer, aci, lw, c) == (next, h)
        }),
{
}

/// Adapt line weights to [`FatPaint`] strokes for rendering.
#[derive(Debug, Clone, Copy, PartialEq, Eq, Structural)]
pub struct RestrokePaint {
    /// Physical line weight in iota.
    pub weight: u64,
    /// The paint to adapt.
    pub handle: PaintHandle,
}

/// What there is to adapt of the stroke with this key.
pub open spec fn restroke(key: u128, handle: PaintHandle) -> RestrokePaint {
    RestrokePaint { weight: key_width(key), handle }
}

/// Whether `list` holds the strokes in the order of their keys, which are `keys`.
pub open spec fn lists_strokes(
    list: Seq<RestrokePaint>,
    strokes: Map<u128, PaintHandle>,
    keys: Seq<u128>,
) -> bool {
    &&& forall|i: int, j: int| 0 <= i < j < keys.len() ==> keys[i] < keys[j]
    &&& keys.to_set() == strokes.dom()
    &&& list == keys.map_values(|k: u128| restroke(k, strokes[k]))
}

/// What an increasing iteration over references to keys says of the keys.
proof fn lemma_increasing_keys(seq: Seq<&u128>)
    requires
        vstd::std_specs::btree::increasing_seq(seq),
    ensures
        forall|i: int, j: int| 0 <= i < j < seq.len() ==> *seq[i] < *seq[j],
{
    broadcast use vstd::laws_cmp::lemma_ref_obeys_cmp_spec;

    vstd::std_specs::btree::axiom_increasing_seq_meaning::<&u128>(seq);
    assert forall|i: int, j: int| 0 <= i < j < seq.len() implies *seq[i] < *seq[j] by {
        assert(vstd::std_specs::cmp::OrdSpec::cmp_spec(&seq[i], &seq[j]) is Less);
    }
}

/// The paints of the drawing that is being loaded.
#[derive(Debug)]
pub struct PaintTable {
    strokes: BTreeMap<u128, PaintHandle>,
    fills: BTreeMap<u32, PaintHandle>,
}

impl PaintTable {
    /// The strokes by key.
    pub closed spec fn strokes_spec(&self) -> Map<u128, PaintHandle> {
        self.strokes@
    }

    /// What this table and the bag that it registers with make up.
    pub closed spec fn state(&self, bag: BagView) -> PaintState {
        PaintState { paints: bag.paints, strokes: self.strokes@, fills: self.fills@ }
    }

    /// A table that knows no paint.
    pub fn new() -> (t: PaintTable)
        ensures
            forall|bag: BagView| #[trigger]
                t.state(bag) == (PaintState {
                    paints: bag.paints,
                    strokes: Map::empty(),
                    fills: Map::empty(),
                }),
    {
        PaintTable { strokes: BTreeMap::new(), fills: BTreeMap::new() }
    }

    /// What depends on the paints of a bag alone.
    pub proof fn lemma_state(&self, a: BagView, b: BagView)
        requires
            a.paints == b.paints,
        ensures
            self.state(a) == self.state(b),
            self.state(a).paints == a.paints,
            self.state(a).strokes == self.strokes_spec(),
    {
    }

    /// Get or create the paint for line weight `lw` and color number `c` of an entity.
    ///
    /// * `aci` is the color index palette.
    pub fn resolve_paint(
        &mut self,
        bag: &mut GraphicsBag,
        entity: &EntityCommon,
        layer: &Layer,
        aci: &[u32; 256],
        lw: i16,
        c: i16,
    ) -> (h: PaintHandle)
        ensures
            (final(self).state(final(bag)@), h) == paint_for(
                old(self).state(old(bag)@),
                *entity,
                *layer,
                aci@,
                lw,
                c,
            ),
            final(bag)@.items == old(bag)@.items,
            final(bag)@.transforms == old(bag)@.transforms,
    {
        let color: u32 = resolve_color(entity, layer, aci, c);
        if lw == WEIGHT_SOLID {
            // Reserved for solid fills.
            if let Some(found) = self.fills.get(&color) {
                return *found;
            }
            let h: PaintHandle = bag.register_paint(FatPaint::filling(unpack_color(color)));
            self.fills.insert(color, h);
            h
        } else {
            let width: u64 = resolve_line_width(layer, lw);
            let key: u128 = make_stroke_key(color, width);
            if let Some(found) = self.strokes.get(&key) {
                return *found;
            }
            // At first these do not have stroke width, this needs to be set afterward.
            let h: PaintHandle = bag.register_paint(FatPaint::stroking(unpack_color(color)));
            self.strokes.insert(key, h);
            h
        }
    }

    /// The strokes, in the order of their keys, with their widths as weights.
    pub fn restroke_paints(&self) -> (out: Vec<RestrokePaint>)
        ensures
            exists|keys: Seq<u128>| lists_strokes(out@, self.strokes_spec(), keys),
    {
        let mut out: Vec<RestrokePaint> = Vec::new();
        for key in it: self.strokes.keys()
            invariant
                out@.len() == it.index(),
                it.seq().unref().to_set() == self.strokes@.dom(),
                forall|j: int|
                    0 <= j < out@.len() ==> #[trigger] out@[j] == restroke(
                        *it.seq()[j],
                        self.strokes@[*it.seq()[j]],
                    ),
        {
            assert(it.seq().unref()[it.index()] == *key);
            assert(it.seq().unref().to_set().contains(*key));
            if let Some(handle) = self.strokes.get(key) {
                let weight: u64 = (*key % 0x1_0000_0000_0000_0000) as u64;
                out.push(RestrokePaint { weight, handle: *handle });
            }
        }
        proof {
            let seq = vstd::std_specs::iter::IteratorSpec::remaining(
                &vstd::std_specs::btree::spec_keys_iter(&self.strokes),
            );
            let keys = seq.unref();
            lemma_increasing_keys(seq);
            assert forall|i: int, j: int| 0 <= i < j < keys.len() implies keys[i] < keys[j] by {
                assert(*seq[i] < *seq[j]);
            }
            assert(out@ =~= keys.map_values(|k: u128| restroke(k, self.strokes@[k])));
            assert(lists_strokes(out@, self.strokes_spec(), keys));
        }
        out
    }
}

impl RestrokePaint {
    /// The width of a line on the device, in its pixels, from the ratio of line weight
    /// and pixel pitch.
    ///
    /// For legacy reasons many lines in drawings are 0 weight. The expectation of
    /// interactive applications is that lines with 0 weight are displayed as one
    /// display pixel wide, and although ambiguous, it seems that all lines are expected
    /// to be displayed at least one display pixel wide.
    ///
    /// * `min_stroke` — minimum stroke width, typically 1 device pixel.
    /// * `max_stroke` — maximum stroke width, useful for plotters.
    pub fn pixel_width(ratio: Real, min_stroke: Real, max_stroke: Real) -> (width: Real)
        requires
            min_stroke.less(max_stroke) || min_stroke.equals(max_stroke),
        ensures
            ratio.less(min_stroke) ==> width == min_stroke,
            max_stroke.less(ratio) ==> width == max_stroke,
            !ratio.less(min_stroke) && !max_stroke.less(ratio) ==> width == ratio,
            width == ratio.clamped(min_stroke, max_stroke),
    {
        ratio.clamp_between(min_stroke, max_stroke)
    }

    /// Adapt the line width of the paint to a device.
    ///
    /// * `graphics` — the [`GraphicsBag`] that contains the paint to be updated.
    /// * `width` — the width of the line in the drawing.
    pub fn adapt(&self, graphics: &mut GraphicsBag, width: Real)
        requires
            self.handle.index < old(graphics)@.paints.len(),
        ensures
            final(graphics)@ == restroked(old(graphics)@, *self, width),
    {
        let paint: &mut FatPaint = graphics.get_paint_mut(self.handle);
        paint.stroke = Stroke::new(width);
    }
}

/// A bag in which one paint strokes with a new width.
pub open spec fn restroked(bag: BagView, r: RestrokePaint, width: Real) -> BagView {
    let paint = bag.paints[r.handle.index as int];
    BagView {
        paints: bag.paints.update(
            r.handle.index as int,
            FatPaint { stroke: Stroke { width }, ..paint },
        ),
        ..bag
    }
}

impl From<(u64, PaintHandle)> for RestrokePaint {
    fn from(pair: (u64, PaintHandle)) -> (r: RestrokePaint) {
        RestrokePaint { weight: pair.0, handle: pair.1 }
    }
}

impl vstd::std_specs::convert::FromSpecImpl<(u64, PaintHandle)> for RestrokePaint {
    open spec fn obeys_from_spec() -> bool {
        true
    }

    open spec fn from_spec(pair: (u64, PaintHandle)) -> RestrokePaint {
        RestrokePaint { weight: pair.0, handle: pair.1 }
    }
}

/// The paints to adapt are exactly the strokes but for the default: each is in the
/// list once, and no fill is.
pub proof fn law_strokes_are_restroked(
    st: PaintState,
    list: Seq<RestrokePaint>,
    keys: Seq<u128>,
    i: int,
)
    requires
        paints_consistent(st),
        lists_strokes(list, st.strokes, keys),
        1 <= i < st.paints.len(),
    ensures
        st.paints[i].stroke_paint is Some <==> exists|j: int|
            0 <= j < list.len() && (#[trigger] list[j]).handle.index == i,
        forall|j: int|
            0 <= j < list.len() ==> 1 <= (#[trigger] list[j]).handle.index < st.paints.len(),
        forall|j: int, k: int|
            0 <= j < k < list.len() ==> (#[trigger] list[j]).handle != (#[trigger] list[k]).handle,
{
    assert forall|j: int| 0 <= j < list.len() implies list[j] == restroke(
        keys[j],
        st.strokes[keys[j]],
    ) && #[trigger] st.strokes.contains_key(keys[j]) by {
        assert(keys.to_set().contains(keys[j]));
    }
    assert forall|j: int| 0 <= j < list.len() implies 1 <= (#[trigger] list[j]).handle.index
        < st.paints.len() && st.paints[list[j].handle.index as int].stroke_paint is Some by {
        assert(st.strokes.contains_key(keys[j]));
    }
    assert forall|j: int, k: int| 0 <= j < k < list.len() implies (#[trigger] list[j]).handle != (
    #[trigger] list[k]).handle by {
        assert(st.strokes.contains_key(keys[j]));
        assert(st.strokes.contains_key(keys[k]));
        assert(keys[j] < keys[k]);
    }
    if st.paints[i].stroke_paint is Some {
        assert(is_registered(st, i));
        let key = choose|key: u128| #[trigger]
            st.strokes.contains_key(key) && st.strokes[key].index == i;
        assert(keys.to_set().contains(key));
        let j = choose|j: int| 0 <= j < keys.len() && keys[j] == key;
        assert(list[j].handle.index == i);
    }
}

/// Adapting a paint changes its width alone, and no other paint; adapting different
/// paints can be done in any order, and of two widths for one paint the last counts.
pub proof fn law_restroking_changes_one_width(
    bag: BagView,
    a: RestrokePaint,
    b: RestrokePaint,
    width: Real,
    other: Real,
)
    requires
        a.handle.index < bag.paints.len(),
        b.handle.index < bag.paints.len(),
    ensures
        restroked(bag, a, width).items == bag.items,
        restroked(bag, a, width).transforms == bag.transforms,
        restroked(bag, a, width).paints.len() == bag.paints.len(),
        forall|i: int|
            0 <= i < bag.paints.len() ==> {
                let paint = #[trigger] restroked(bag, a, width).paints[i];
                &&& paint.stroke_paint == bag.paints[i].stroke_paint
                &&& paint.fill_paint == bag.paints[i].fill_paint
                &&& paint.stroke.width == if i == a.handle.index {
                    width
                } else {
                    bag.paints[i].stroke.width
                }
            },
        a.handle != b.handle ==> restroked(restroked(bag, a, width), b, other) == restroked(
            restroked(bag, b, other),
            a,
            width,
        ),
        a.handle == b.handle ==> restroked(restroked(bag, a, width), b, other) == restroked(
            bag,
            b,
            other,
        ),
{
    assert(restroked(restroked(bag, a, width), b, other).paints =~= if a.handle == b.handle {
        restroked(bag, b, other).paints
    } else {
        restroked(restroked(bag, b, other), a, width).paints
    });
}

} // verus!
