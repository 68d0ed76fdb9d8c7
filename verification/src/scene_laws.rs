//! What is drawn for each item, and which items are drawn.

use vstd::prelude::*;

#[allow(unused_imports)]
use crate::graphics::{BagView, FatPaint, ItemHandle, ItemView, Transform};
#[allow(unused_imports)]
use crate::scene::{
    cached_items, is_complete, item_ops, layer_ops, taken_width, texts_among, DrawOp, LayoutCache,
};
#[allow(unused_imports)]
use crate::number::Real;

verus! {

/// The item that a handle names.
pub open spec fn item_at(bag: BagView, h: ItemHandle) -> ItemView {
    bag.items[h.index as int]
}

/// The paint of the item that a handle names.
pub open spec fn paint_at(bag: BagView, h: ItemHandle) -> FatPaint {
    match item_at(bag, h) {
        ItemView::Shape { paint, .. } => bag.paints[paint.index as int],
        ItemView::Text { paint, .. } => bag.paints[paint.index as int],
    }
}

/// The transform of the item that a handle names.
pub open spec fn transform_at(bag: BagView, h: ItemHandle) -> Transform {
    match item_at(bag, h) {
        ItemView::Shape { transform, .. } => bag.transforms[transform.index as int],
        ItemView::Text { transform, .. } => bag.transforms[transform.index as int],
    }
}

/// A shape is filled if its paint fills, and then stroked if its paint strokes, with the
/// brushes and the stroke of the paint, under the transform of the shape.
pub proof fn law_shapes_are_filled_then_stroked(bag: BagView, h: ItemHandle, cached: bool)
    requires
        item_at(bag, h) is Shape,
    ensures
        ({
            let ops = item_ops(bag, h, cached);
            let fills = paint_at(bag, h).fill_paint is Some;
            let strokes = paint_at(bag, h).stroke_paint is Some;
            &&& ops.len() == (if fills {
                1int
            } else {
                0int
            }) + if strokes {
                1int
            } else {
                0int
            }
            &&& fills ==> ops[0] == (DrawOp::FillPath {
                item: h,
                transform: transform_at(bag, h),
                brush: paint_at(bag, h).fill_paint->0,
            })
            &&& strokes ==> ops.last() == (DrawOp::StrokePath {
                item: h,
                transform: transform_at(bag, h),
                stroke: paint_at(bag, h).stroke,
                brush: paint_at(bag, h).stroke_paint->0,
            })
        }),
{
}

/// A text is drawn once if its paint fills, with the brush of the fill under the transform of
/// the text, from a layout that was made before if there is one; else it is not drawn.
pub proof fn law_texts_are_filled(bag: BagView, h: ItemHandle)
    requires
        item_at(bag, h) is Text,
    ensures
        paint_at(bag, h).fill_paint is None ==> item_ops(bag, h, true).len() == 0 && item_ops(
            bag,
            h,
            false,
        ).len() == 0,
        paint_at(bag, h).fill_paint matches Some(fill) ==> {
            &&& item_ops(bag, h, true).len() == 1
            &&& item_ops(bag, h, true)[0] == (DrawOp::DrawCachedText {
                item: h,
                transform: transform_at(bag, h),
                brush: fill,
            })
            &&& item_ops(bag, h, false).len() == 1
            &&& item_ops(bag, h, false)[0] == (DrawOp::DrawText {
                item: h,
                transform: transform_at(bag, h),
                brush: fill,
            })
        },
{
}

/// A layer of one item draws that item, and uses its layout if there is one.
///
/// With [`law_later_items_are_on_top`](crate::scene::law_later_items_are_on_top) this says
/// what every layer draws.
pub proof fn law_layers_draw_their_items(bag: BagView, h: ItemHandle, cached: Set<usize>)
    ensures
        cached.contains(h.index) ==> layer_ops(bag, seq![h], cached, 1) == item_ops(bag, h, true),
        !cached.contains(h.index) ==> layer_ops(bag, seq![h], cached, 1) == item_ops(
            bag,
            h,
            false,
        ),
{
    assert(layer_ops(bag, seq![h], cached, 0) == Seq::<DrawOp>::empty());
    assert(layer_ops(bag, seq![h], cached, 1) =~= item_ops(bag, h, cached.contains(h.index)));
}

/// Layouts are used for the items that they were made for, and without any there are none.
pub proof fn law_layouts_belong_to_items<L>(cache: &LayoutCache<L>, index: usize)
    ensures
        cached_items(Some(cache)).contains(index) <==> cache@.contains_key(index),
        !cached_items::<L>(None).contains(index),
{
}

/// The texts of one layer after another are those of the first and then those of the second.
pub proof fn law_texts_keep_their_order(
    bag: BagView,
    below: Seq<ItemHandle>,
    above: Seq<ItemHandle>,
)
    ensures
        texts_among(bag, below + above, (below.len() + above.len()) as int) == texts_among(
            bag,
            below,
            below.len() as int,
        ) + texts_among(bag, above, above.len() as int),
{
    lemma_texts_of_prefix(bag, below, above, below.len() as int);
    lemma_texts_of_suffix(bag, below, above, above.len() as int);
}

proof fn lemma_texts_of_prefix(
    bag: BagView,
    below: Seq<ItemHandle>,
    above: Seq<ItemHandle>,
    n: int,
)
    requires
        0 <= n <= below.len(),
    ensures
        texts_among(bag, below + above, n) == texts_among(bag, below, n),
    decreases n,
{
    if n > 0 {
        lemma_texts_of_prefix(bag, below, above, n - 1);
        assert((below + above)[n - 1] == below[n - 1]);
    }
}

proof fn lemma_texts_of_suffix(
    bag: BagView,
    below: Seq<ItemHandle>,
    above: Seq<ItemHandle>,
    n: int,
)
    requires
        0 <= n <= above.len(),
    ensures
        texts_among(bag, below + above, below.len() + n) == texts_among(
            bag,
            below + above,
            below.len() as int,
        ) + texts_among(bag, above, n),
    decreases n,
{
    if n > 0 {
        lemma_texts_of_suffix(bag, below, above, n - 1);
        assert((below + above)[below.len() + n - 1] == above[n - 1]);
    }
    assert(texts_among(bag, below + above, below.len() + n) =~= texts_among(
        bag,
        below + above,
        below.len() as int,
    ) + texts_among(bag, above, n));
}

/// An item by itself is among the texts exactly if it is one.
pub proof fn law_texts_are_text_items(bag: BagView, h: ItemHandle)
    ensures
        item_at(bag, h) is Text ==> texts_among(bag, seq![h], 1) == seq![h],
        item_at(bag, h) is Shape ==> texts_among(bag, seq![h], 1).len() == 0,
{
    assert(texts_among(bag, seq![h], 0) == Seq::<ItemHandle>::empty());
    if item_at(bag, h) is Text {
        assert(texts_among(bag, seq![h], 1) =~= seq![h]);
    }
}

/// A layer is complete exactly if each of its handles names an item whose paint and
/// transform exist.
pub proof fn law_complete_layers(bag: BagView, indices: Seq<ItemHandle>, k: int)
    requires
        0 <= k < indices.len(),
    ensures
        is_complete(bag, indices) ==> is_complete(bag, seq![indices[k]]),
        is_complete(bag, seq![indices[k]]) <==> indices[k].index < bag.items.len() && (match item_at(
            bag,
            indices[k],
        ) {
            ItemView::Shape { paint, transform, .. } => paint.index < bag.paints.len()
                && transform.index < bag.transforms.len(),
            ItemView::Text { paint, transform, .. } => paint.index < bag.paints.len()
                && transform.index < bag.transforms.len(),
        }),
        (forall|j: int| 0 <= j < indices.len() ==> is_complete(bag, seq![#[trigger] indices[j]]))
            ==> is_complete(bag, indices),
{
    assert(seq![indices[k]][0] == indices[k]);
    if forall|j: int| 0 <= j < indices.len() ==> is_complete(bag, seq![#[trigger] indices[j]]) {
        assert forall|j: int| 0 <= j < indices.len() implies ({
            let index = (#[trigger] indices[j]).index as int;
            index < bag.items.len() && bag.items[index].paint().index < bag.paints.len()
                && bag.items[index].transform().index < bag.transforms.len()
        }) by {
            assert(is_complete(bag, seq![indices[j]]));
            assert(seq![indices[j]][0] == indices[j]);
        }
    }
}

/// A text with lines that are broken takes up the width that they are broken at, whatever
/// its layout came to; every other text takes up what its layout came to.
pub proof fn law_broken_texts_take_their_width(size: Real, width: Real, other: Real)
    ensures
        taken_width(Some(size), width) == size,
        taken_width(Some(size), width) == taken_width(Some(size), other),
        taken_width(None, width) == width,
{
}

} // verus!
