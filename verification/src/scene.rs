//! What a renderer has to do to show a layer.

use std::collections::BTreeMap;

use vstd::prelude::*;

#[allow(unused_imports)]
use crate::graphics::{BagView, ItemView};
use crate::graphics::{
    FatPaint, GraphicsBag, GraphicsItem, ItemHandle, PaintBrush, RenderLayer, Stroke, Transform,
};
use crate::number::Real;
use crate::text_style::TextAttachment;

verus! {

/// Layouts of text items that were made before, by the index of the item.
pub type LayoutCache<L> = BTreeMap<usize, L>;

/// One thing to draw.
#[derive(Debug, Clone, Copy, PartialEq, Eq, Structural)]
pub enum DrawOp {
    /// Fill the path of a shape.
    FillPath { item: ItemHandle, transform: Transform, brush: PaintBrush },
    /// Stroke the path of a shape.
    StrokePath { item: ItemHandle, transform: Transform, stroke: Stroke, brush: PaintBrush },
    /// Draw a text with the layout that was made before.
    DrawCachedText { item: ItemHandle, transform: Transform, brush: PaintBrush },
    /// Lay a text out, and draw it.
    DrawText { item: ItemHandle, transform: Transform, brush: PaintBrush },
}

impl DrawOp {
    /// The item that is drawn.
    pub open spec fn item(self) -> ItemHandle {
        match self {
            DrawOp::FillPath { item, .. } => item,
            DrawOp::StrokePath { item, .. } => item,
            DrawOp::DrawCachedText { item, .. } => item,
            DrawOp::DrawText { item, .. } => item,
        }
    }
}

/// Whether all handles of a layer name items of a bag, with their paints and transforms.
pub open spec fn is_complete(bag: BagView, indices: Seq<ItemHandle>) -> bool {
    forall|k: int|
        0 <= k < indices.len() ==> {
            let index = (#[trigger] indices[k]).index as int;
            index < bag.items.len() && bag.items[index].paint().index < bag.paints.len()
                && bag.items[index].transform().index < bag.transforms.len()
        }
}

/// Whether all handles of a layer name items of a bag, with their paints and transforms.
pub fn layer_is_complete(graphics: &GraphicsBag, render_layer: &RenderLayer) -> (r: bool)
    ensures
        r == is_complete(graphics@, render_layer.indices@),
{
    let mut k: usize = 0;
    while k < render_layer.indices.len()
        invariant
            k <= render_layer.indices@.len(),
            is_complete(graphics@, render_layer.indices@.take(k as int)),
        decreases render_layer.indices@.len() - k,
    {
        let h: ItemHandle = render_layer.indices[k];
        if h.index >= graphics.items.len() {
            assert(render_layer.indices@[k as int] == h);
            return false;
        }
        let complete: bool = match graphics.get(h) {
            GraphicsItem::FatShape(shape) => shape.paint.index < graphics.paints.len()
                && shape.transform.index < graphics.transforms.len(),
            GraphicsItem::FatText(text) => text.paint.index < graphics.paints.len()
                && text.transform.index < graphics.transforms.len(),
        };
        if !complete {
            assert(render_layer.indices@[k as int] == h);
            return false;
        }
        proof {
            let less = render_layer.indices@.take(k as int);
            let more = render_layer.indices@.take(k + 1);
            assert forall|j: int| 0 <= j < more.len() implies ({
                let index = (#[trigger] more[j]).index as int;
                index < graphics@.items.len() && graphics@.items[index].paint().index
                    < graphics@.paints.len() && graphics@.items[index].transform().index
                    < graphics@.transforms.len()
            }) by {
                if j < k {
                    assert(less[j] == more[j]);
                }
            }
        }
        k = k + 1;
    }
    assert(render_layer.indices@.take(k as int) =~= render_layer.indices@);
    true
}

/// What to draw for an item: a shape is filled first and then stroked, as far as its
/// paint says; a text is filled.
pub open spec fn item_ops(bag: BagView, h: ItemHandle, cached: bool) -> Seq<DrawOp> {
    let item = bag.items[h.index as int];
    let paint = bag.paints[item.paint().index as int];
    let transform = bag.transforms[item.transform().index as int];
    match item {
        ItemView::Shape { .. } => {
            let filled = match paint.fill_paint {
                Some(brush) => seq![DrawOp::FillPath { item: h, transform, brush }],
                None => Seq::empty(),
            };
            match paint.stroke_paint {
                Some(brush) => filled.push(
                    DrawOp::StrokePath { item: h, transform, stroke: paint.stroke, brush },
                ),
                None => filled,
            }
        },
        ItemView::Text { .. } => match paint.fill_paint {
            Some(brush) => seq![
                if cached {
                    DrawOp::DrawCachedText { item: h, transform, brush }
                } else {
                    DrawOp::DrawText { item: h, transform, brush }
                },
            ],
            None => Seq::empty(),
        },
    }
}

/// What to draw for the first `n` handles of a layer, in order. `cached` are the items
/// with a layout.
pub open spec fn layer_ops(
    bag: BagView,
    indices: Seq<ItemHandle>,
    cached: Set<usize>,
    n: int,
) -> Seq<DrawOp>
    decreases n,
{
    if n <= 0 {
        Seq::empty()
    } else {
        layer_ops(bag, indices, cached, n - 1) + item_ops(
            bag,
            indices[n - 1],
            cached.contains(indices[n - 1].index),
        )
    }
}

/// The items with a layout.
pub open spec fn cached_items<L>(cache: Option<&LayoutCache<L>>) -> Set<usize> {
    match cache {
        Some(layouts) => layouts@.dom(),
        None => Set::empty(),
    }
}

fn push_item_ops(ops: &mut Vec<DrawOp>, graphics: &GraphicsBag, h: ItemHandle, cached: bool)
    requires
        is_complete(graphics@, seq![h]),
    ensures
        final(ops)@ == old(ops)@ + item_ops(graphics@, h, cached),
{
    proof {
        assert(seq![h][0] == h);
        assert(h.index < graphics@.items.len());
    }
    let ghost before = ops@;
    match graphics.get(h) {
        GraphicsItem::FatShape(shape) => {
            let transform: Transform = graphics.get_transform(shape.transform);
            let paint: FatPaint = *graphics.get_paint(shape.paint);
            if let Some(brush) = paint.fill_paint {
                ops.push(DrawOp::FillPath { item: h, transform, brush });
            }
            if let Some(brush) = paint.stroke_paint {
                ops.push(DrawOp::StrokePath { item: h, transform, stroke: paint.stroke, brush });
            }
        },
        GraphicsItem::FatText(text) => {
            let transform: Transform = graphics.get_transform(text.transform);
            if let Some(brush) = graphics.get_paint(text.paint).fill_paint {
                if cached {
                    ops.push(DrawOp::DrawCachedText { item: h, transform, brush });
                } else {
                    ops.push(DrawOp::DrawText { item: h, transform, brush });
                }
            }
        },
    }
    assert(ops@ =~= before + item_ops(graphics@, h, cached));
}

/// What to draw to show a [`RenderLayer`], in order.
pub fn render_layer_ops<L>(
    graphics: &GraphicsBag,
    render_layer: &RenderLayer,
    layout_cache: Option<&LayoutCache<L>>,
) -> (ops: Vec<DrawOp>)
    requires
        is_complete(graphics@, render_layer.indices@),
    ensures
        ops@ == layer_ops(
            graphics@,
            render_layer.indices@,
            cached_items(layout_cache),
            render_layer.indices@.len() as int,
        ),
{
    let mut ops: Vec<DrawOp> = Vec::new();
    let mut k: usize = 0;
    while k < render_layer.indices.len()
        invariant
            k <= render_layer.indices@.len(),
            is_complete(graphics@, render_layer.indices@),
            ops@ == layer_ops(
                graphics@,
                render_layer.indices@,
                cached_items(layout_cache),
                k as int,
            ),
        decreases render_layer.indices@.len() - k,
    {
        let h: ItemHandle = render_layer.indices[k];
        let cached: bool = match layout_cache {
            Some(layouts) => layouts.contains_key(&h.index),
            None => false,
        };
        assert(is_complete(graphics@, seq![h])) by {
            assert(render_layer.indices@[k as int] == h);
        }
        push_item_ops(&mut ops, graphics, h, cached);
        k = k + 1;
    }
    ops
}

/// The text items among the first `n` handles of a layer, in order.
pub open spec fn texts_among(bag: BagView, indices: Seq<ItemHandle>, n: int) -> Seq<ItemHandle>
    decreases n,
{
    if n <= 0 {
        Seq::empty()
    } else if bag.items[indices[n - 1].index as int] is Text {
        texts_among(bag, indices, n - 1).push(indices[n - 1])
    } else {
        texts_among(bag, indices, n - 1)
    }
}

/// The text items of a [`RenderLayer`], which are the ones to lay out and to measure.
pub fn text_items(graphics: &GraphicsBag, render_layer: &RenderLayer) -> (items: Vec<ItemHandle>)
    requires
        forall|k: int|
            0 <= k < render_layer.indices@.len() ==> (
            #[trigger] render_layer.indices@[k]).index < graphics@.items.len(),
    ensures
        items@ == texts_among(
            graphics@,
            render_layer.indices@,
            render_layer.indices@.len() as int,
        ),
{
    let mut items: Vec<ItemHandle> = Vec::new();
    let mut k: usize = 0;
    while k < render_layer.indices.len()
        invariant
            k <= render_layer.indices@.len(),
            forall|j: int|
                0 <= j < render_layer.indices@.len() ==> (
                #[trigger] render_layer.indices@[j]).index < graphics@.items.len(),
            items@ == texts_among(graphics@, render_layer.indices@, k as int),
        decreases render_layer.indices@.len() - k,
    {
        let h: ItemHandle = render_layer.indices[k];
        if let GraphicsItem::FatText(_) = graphics.get(h) {
            items.push(h);
        }
        k = k + 1;
    }
    items
}

/// The width that a laid out text takes up: the one that its lines are broken at, if
/// there is one, else the one that the layout came to.
pub open spec fn taken_width(max_inline_size: Option<Real>, width: Real) -> Real {
    match max_inline_size {
        Some(size) => size,
        None => width,
    }
}

/// The width that a laid out text takes up: the one that its lines are broken at, if
/// there is one, else the one that the layout came to.
pub fn layout_width(max_inline_size: Option<Real>, width: Real) -> (r: Real)
    ensures
        r == taken_width(max_inline_size, width),
        r == match max_inline_size {
            Some(size) => size,
            None => width,
        },
{
    match max_inline_size {
        Some(size) => size,
        None => width,
    }
}

/// Where an attachment point is on a text, in halves of its width and of its height
/// from the top left.
pub open spec fn attachment_halves(p: TextAttachment) -> (u8, u8) {
    match p {
        TextAttachment::TopLeft => (0, 0),
        TextAttachment::TopCenter => (1, 0),
        TextAttachment::TopRight => (2, 0),
        TextAttachment::MiddleLeft => (0, 1),
        TextAttachment::MiddleCenter => (1, 1),
        TextAttachment::MiddleRight => (2, 1),
        TextAttachment::BottomLeft => (0, 2),
        TextAttachment::BottomCenter => (1, 2),
        TextAttachment::BottomRight => (2, 2),
    }
}

/// Where an attachment point is on a text, in halves of its width and of its height
/// from the top left.
pub fn halves_of_attachment(p: TextAttachment) -> (r: (u8, u8))
    ensures
        r == attachment_halves(p),
{
    match p {
        TextAttachment::TopLeft => (0, 0),
        TextAttachment::TopCenter => (1, 0),
        TextAttachment::TopRight => (2, 0),
        TextAttachment::MiddleLeft => (0, 1),
        TextAttachment::MiddleCenter => (1, 1),
        TextAttachment::MiddleRight => (2, 1),
        TextAttachment::BottomLeft => (0, 2),
        TextAttachment::BottomCenter => (1, 2),
        TextAttachment::BottomRight => (2, 2),
    }
}

/// A layer is drawn from its first item to its last: showing one layer after another
/// is showing the items of the first and then those of the second.
pub proof fn law_later_items_are_on_top(
    bag: BagView,
    below: Seq<ItemHandle>,
    above: Seq<ItemHandle>,
    cached: Set<usize>,
)
    ensures
        layer_ops(bag, below + above, cached, (below.len() + above.len()) as int) == layer_ops(
            bag,
            below,
            cached,
            below.len() as int,
        ) + layer_ops(bag, above, cached, above.len() as int),
{
    lemma_ops_of_prefix(bag, below, above, cached, below.len() as int);
    lemma_ops_of_suffix(bag, below, above, cached, above.len() as int);
}

proof fn lemma_ops_of_prefix(
    bag: BagView,
    below: Seq<ItemHandle>,
    above: Seq<ItemHandle>,
    cached: Set<usize>,
    n: int,
)
    requires
        0 <= n <= below.len(),
    ensures
        layer_ops(bag, below + above, cached, n) == layer_ops(bag, below, cached, n),
    decreases n,
{
    if n > 0 {
        lemma_ops_of_prefix(bag, below, above, cached, n - 1);
    }
}

proof fn lemma_ops_of_suffix(
    bag: BagView,
    below: Seq<ItemHandle>,
    above: Seq<ItemHandle>,
    cached: Set<usize>,
    n: int,
)
    requires
        0 <= n <= above.len(),
    ensures
        layer_ops(bag, below + above, cached, below.len() + n) == layer_ops(
            bag,
            below + above,
            cached,
            below.len() as int,
        ) + layer_ops(bag, above, cached, n),
    decreases n,
{
    if n > 0 {
        lemma_ops_of_suffix(bag, below, above, cached, n - 1);
        assert((below + above)[below.len() + n - 1] == above[n - 1]);
    }
    assert(layer_ops(bag, below + above, cached, below.len() + n) =~= layer_ops(
        bag,
        below + above,
        cached,
        below.len() as int,
    ) + layer_ops(bag, above, cached, n));
}

/// A thing to draw, without regard to where its layout comes from.
pub open spec fn without_cache(op: DrawOp) -> DrawOp {
    match op {
        DrawOp::DrawCachedText { item, transform, brush } => DrawOp::DrawText {
            item,
            transform,
            brush,
        },
        other => other,
    }
}

/// Layouts that were made before change where layouts come from, and nothing else of
/// what is drawn.
pub proof fn law_cache_changes_no_picture(
    bag: BagView,
    indices: Seq<ItemHandle>,
    cached: Set<usize>,
    other: Set<usize>,
    n: int,
)
    requires
        0 <= n <= indices.len(),
    ensures
        layer_ops(bag, indices, cached, n).map_values(|op: DrawOp| without_cache(op)) == layer_ops(
            bag,
            indices,
            other,
            n,
        ).map_values(|op: DrawOp| without_cache(op)),
    decreases n,
{
    let strip = |op: DrawOp| without_cache(op);
    let a = layer_ops(bag, indices, cached, n);
    let b = layer_ops(bag, indices, other, n);
    if n > 0 {
        law_cache_changes_no_picture(bag, indices, cached, other, n - 1);
        let h = indices[n - 1];
        let a1 = layer_ops(bag, indices, cached, n - 1);
        let b1 = layer_ops(bag, indices, other, n - 1);
        let a2 = item_ops(bag, h, cached.contains(h.index));
        let b2 = item_ops(bag, h, other.contains(h.index));
        assert(a2.map_values(strip) =~= b2.map_values(strip));
        assert(a.map_values(strip) =~= a1.map_values(strip) + a2.map_values(strip));
        assert(b.map_values(strip) =~= b1.map_values(strip) + b2.map_values(strip));
    }
    assert(a.map_values(strip) =~= b.map_values(strip));
}

/// Whatever is drawn is an item of the layer.
pub proof fn law_only_the_layer_is_drawn(
    bag: BagView,
    indices: Seq<ItemHandle>,
    cached: Set<usize>,
    n: int,
    j: int,
)
    requires
        0 <= n <= indices.len(),
        0 <= j < layer_ops(bag, indices, cached, n).len(),
    ensures
        indices.take(n).contains(layer_ops(bag, indices, cached, n)[j].item()),
    decreases n,
{
    let before = layer_ops(bag, indices, cached, n - 1);
    if j < before.len() {
        law_only_the_layer_is_drawn(bag, indices, cached, n - 1, j);
        let h = before[j].item();
        let less = indices.take(n - 1);
        let k = choose|k: int| 0 <= k < less.len() && less[k] == h;
        assert(indices.take(n)[k] == h);
    } else {
        assert(indices.take(n)[n - 1] == indices[n - 1]);
    }
}

} // verus!
