//! What is drawn: shapes and text with their paints, and the order they come in.

use vstd::prelude::*;

use crate::blocks::PathPart;
#[allow(unused_imports)]
use crate::blocks::{part_views, PartView};
use crate::color::Rgba8;
use crate::drawing_types::Vec2;
use crate::number::{Real, ONE, POSITIVE_ZERO};
use crate::text_style::{Alignment, TextAttachment, TextStyle};

verus! {

/// Names a paint of a [`GraphicsBag`].
#[derive(Debug, Clone, Copy, PartialEq, Eq, Structural, PartialOrd, Ord, Hash)]
pub struct PaintHandle {
    pub index: usize,
}

/// Names an item of a [`GraphicsBag`].
#[derive(Debug, Clone, Copy, PartialEq, Eq, Structural, PartialOrd, Ord, Hash)]
pub struct ItemHandle {
    pub index: usize,
}

/// Names a transform of a [`GraphicsBag`].
#[derive(Debug, Clone, Copy, PartialEq, Eq, Structural, PartialOrd, Ord, Hash)]
pub struct TransformHandle {
    pub index: usize,
}

impl Default for TransformHandle {
    /// The identity.
    fn default() -> (h: TransformHandle)
        ensures
            h.index == 0,
    {
        TransformHandle { index: 0 }
    }
}

/// An affine transform: `x` goes to `xx * x + xy * y + dx`, `y` to `yx * x + yy * y + dy`.
#[derive(Debug, Clone, Copy, PartialEq, Eq, Structural)]
pub struct Transform {
    pub xx: Real,
    pub yx: Real,
    pub xy: Real,
    pub yy: Real,
    pub dx: Real,
    pub dy: Real,
}

/// The transform that changes nothing.
pub open spec fn identity_transform() -> Transform {
    let zero = Real { place: POSITIVE_ZERO };
    let one = Real { place: ONE };
    Transform { xx: one, yx: zero, xy: zero, yy: one, dx: zero, dy: zero }
}

/// How lines are stroked.
#[derive(Debug, Clone, Copy, PartialEq, Eq, Structural)]
pub struct Stroke {
    pub width: Real,
}

impl Stroke {
    /// A stroke of this width.
    pub fn new(width: Real) -> (s: Stroke)
        ensures
            s.width == width,
    {
        Stroke { width }
    }
}

impl Default for Stroke {
    /// A stroke of width one.
    fn default() -> (s: Stroke)
        ensures
            s.width.place == ONE,
    {
        Stroke { width: Real { place: ONE } }
    }
}

/// What an area is filled with.
#[derive(Debug, Clone, Copy, PartialEq, Eq, Structural)]
pub enum PaintBrush {
    Solid(Rgba8),
    /// A gradient that the renderer knows by this number.
    Gradient(u32),
    /// An image that the renderer knows by this number.
    Image(u32),
}

/// How an item is painted.
#[derive(Debug, Clone, Copy, PartialEq, Eq, Structural)]
pub struct FatPaint {
    pub stroke: Stroke,
    /// What the stroke is painted with; nothing is stroked without.
    pub stroke_paint: Option<PaintBrush>,
    /// What the inside is painted with; nothing is filled without.
    pub fill_paint: Option<PaintBrush>,
}

/// A paint that strokes in one color, at the default width.
pub open spec fn stroke_of(color: Rgba8) -> FatPaint {
    FatPaint {
        stroke: Stroke { width: Real { place: ONE } },
        stroke_paint: Some(PaintBrush::Solid(color)),
        fill_paint: None,
    }
}

/// A paint that fills in one color.
pub open spec fn fill_of(color: Rgba8) -> FatPaint {
    FatPaint {
        stroke: Stroke { width: Real { place: ONE } },
        stroke_paint: None,
        fill_paint: Some(PaintBrush::Solid(color)),
    }
}

impl FatPaint {
    /// A paint that strokes in one color, at the default width.
    pub fn stroking(color: Rgba8) -> (p: FatPaint)
        ensures
            p == stroke_of(color),
    {
        FatPaint {
            stroke: Stroke::default(),
            stroke_paint: Some(PaintBrush::Solid(color)),
            fill_paint: None,
        }
    }

    /// A paint that fills in one color.
    pub fn filling(color: Rgba8) -> (p: FatPaint)
        ensures
            p == fill_of(color),
    {
        FatPaint {
            stroke: Stroke::default(),
            stroke_paint: None,
            fill_paint: Some(PaintBrush::Solid(color)),
        }
    }
}

/// A path to draw.
#[derive(Debug)]
pub struct FatShape {
    /// The outlines that make up the path, in order.
    pub path: Vec<PathPart>,
    pub transform: TransformHandle,
    pub paint: PaintHandle,
}

/// Where a text stands, and how it is turned.
#[derive(Debug, Clone, Copy, PartialEq, Eq, Structural)]
pub struct TextInsertion {
    /// Counterclockwise rotation in degrees.
    pub rotation_angle: Real,
    /// Direction of the lines before that rotation; along the x axis if `None`.
    pub x_axis: Option<Vec2>,
    /// Where the attachment point goes.
    pub location: Vec2,
}

/// A text to draw.
#[derive(Debug)]
pub struct FatText {
    pub transform: TransformHandle,
    pub paint: PaintHandle,
    pub text: String,
    pub style: TextStyle,
    pub alignment: Alignment,
    pub insertion: TextInsertion,
    /// Width to break lines at, if any.
    pub max_inline_size: Option<Real>,
    pub attachment_point: TextAttachment,
}

/// Something to draw.
#[derive(Debug)]
pub enum GraphicsItem {
    FatShape(FatShape),
    FatText(FatText),
}

/// The model of a [`GraphicsItem`].
#[verifier::ext_equal]
pub enum ItemView {
    Shape { path: Seq<PartView>, transform: TransformHandle, paint: PaintHandle },
    Text {
        transform: TransformHandle,
        paint: PaintHandle,
        text: Seq<char>,
        style: TextStyle,
        alignment: Alignment,
        insertion: TextInsertion,
        max_inline_size: Option<Real>,
        attachment_point: TextAttachment,
    },
}

impl ItemView {
    /// The paint of the item.
    pub open spec fn paint(self) -> PaintHandle {
        match self {
            ItemView::Shape { paint, .. } => paint,
            ItemView::Text { paint, .. } => paint,
        }
    }

    /// The transform of the item.
    pub open spec fn transform(self) -> TransformHandle {
        match self {
            ItemView::Shape { transform, .. } => transform,
            ItemView::Text { transform, .. } => transform,
        }
    }
}

impl View for GraphicsItem {
    type V = ItemView;

    open spec fn view(&self) -> ItemView {
        match *self {
            GraphicsItem::FatShape(shape) => ItemView::Shape {
                path: part_views(shape.path@),
                transform: shape.transform,
                paint: shape.paint,
            },
            GraphicsItem::FatText(text) => ItemView::Text {
                transform: text.transform,
                paint: text.paint,
                text: text.text@,
                style: text.style,
                alignment: text.alignment,
                insertion: text.insertion,
                max_inline_size: text.max_inline_size,
                attachment_point: text.attachment_point,
            },
        }
    }
}

/// The models of items.
pub open spec fn item_views(items: Seq<GraphicsItem>) -> Seq<ItemView> {
    items.map_values(|item: GraphicsItem| item@)
}

/// Items with the paints and transforms that they use.
#[derive(Debug)]
pub struct GraphicsBag {
    pub items: Vec<GraphicsItem>,
    pub paints: Vec<FatPaint>,
    /// The identity comes first.
    pub transforms: Vec<Transform>,
}

/// The model of a [`GraphicsBag`].
#[verifier::ext_equal]
pub struct BagView {
    pub items: Seq<ItemView>,
    pub paints: Seq<FatPaint>,
    pub transforms: Seq<Transform>,
}

impl BagView {
    /// Whether every item has its paint and its transform in the bag.
    pub open spec fn closed_under_use(self) -> bool {
        forall|i: int|
            0 <= i < self.items.len() ==> (#[trigger] self.items[i]).paint().index
                < self.paints.len() && self.items[i].transform().index < self.transforms.len()
    }
}

impl View for GraphicsBag {
    type V = BagView;

    open spec fn view(&self) -> BagView {
        BagView {
            items: item_views(self.items@),
            paints: self.paints@,
            transforms: self.transforms@,
        }
    }
}

impl Default for GraphicsBag {
    /// A bag with nothing to draw.
    fn default() -> (bag: GraphicsBag)
        ensures
            bag@ == (BagView {
                items: Seq::empty(),
                paints: Seq::empty(),
                transforms: seq![identity_transform()],
            }),
    {
        let zero: Real = Real { place: POSITIVE_ZERO };
        let one: Real = Real { place: ONE };
        let mut transforms: Vec<Transform> = Vec::new();
        transforms.push(Transform { xx: one, yx: zero, xy: zero, yy: one, dx: zero, dy: zero });
        let bag: GraphicsBag = GraphicsBag { items: Vec::new(), paints: Vec::new(), transforms };
        assert(bag@.items =~= Seq::<ItemView>::empty());
        assert(bag@.transforms =~= seq![identity_transform()]);
        bag
    }
}

impl GraphicsBag {
    /// Add a paint.
    pub fn register_paint(&mut self, paint: FatPaint) -> (h: PaintHandle)
        ensures
            h.index == old(self)@.paints.len(),
            final(self)@ == (BagView { paints: old(self)@.paints.push(paint), ..old(self)@ }),
    {
        let index: usize = self.paints.len();
        self.paints.push(paint);
        PaintHandle { index }
    }

    /// Add an item.
    pub fn push(&mut self, item: GraphicsItem) -> (h: ItemHandle)
        ensures
            h.index == old(self)@.items.len(),
            final(self)@ == (BagView { items: old(self)@.items.push(item@), ..old(self)@ }),
    {
        let index: usize = self.items.len();
        let ghost view = item@;
        let ghost before = self.items@;
        self.items.push(item);
        assert(item_views(self.items@) =~= item_views(before).push(view));
        ItemHandle { index }
    }

    /// The item that a handle names.
    pub fn get(&self, h: ItemHandle) -> (item: &GraphicsItem)
        requires
            h.index < self@.items.len(),
        ensures
            item@ == self@.items[h.index as int],
    {
        &self.items[h.index]
    }

    /// The paint that a handle names.
    pub fn get_paint(&self, h: PaintHandle) -> (paint: &FatPaint)
        requires
            h.index < self@.paints.len(),
        ensures
            *paint == self@.paints[h.index as int],
    {
        &self.paints[h.index]
    }

    /// The paint that a handle names, to be changed.
    pub fn get_paint_mut(&mut self, h: PaintHandle) -> (paint: &mut FatPaint)
        requires
            h.index < old(self)@.paints.len(),
        ensures
            *paint == old(self)@.paints[h.index as int],
            final(self)@ == (BagView {
                paints: old(self)@.paints.update(h.index as int, *final(paint)),
                ..old(self)@
            }),
    {
        &mut self.paints[h.index]
    }

    /// The transform that a handle names.
    pub fn get_transform(&self, h: TransformHandle) -> (transform: Transform)
        requires
            h.index < self@.transforms.len(),
        ensures
            transform == self@.transforms[h.index as int],
    {
        self.transforms[h.index]
    }
}

/// Items in drawing order.
#[derive(Debug)]
pub struct RenderLayer {
    pub indices: Vec<ItemHandle>,
}

impl Default for RenderLayer {
    /// A layer that shows nothing.
    fn default() -> (layer: RenderLayer)
        ensures
            layer.indices@ == Seq::<ItemHandle>::empty(),
    {
        RenderLayer { indices: Vec::new() }
    }
}

impl RenderLayer {
    /// Add an item to a bag, and show it on top of this layer.
    pub fn push_with_bag(&mut self, bag: &mut GraphicsBag, item: GraphicsItem) -> (h: ItemHandle)
        ensures
            h.index == old(bag)@.items.len(),
            final(bag)@ == (BagView { items: old(bag)@.items.push(item@), ..old(bag)@ }),
            final(self).indices@ == old(self).indices@.push(h),
    {
        let h: ItemHandle = bag.push(item);
        self.indices.push(h);
        h
    }
}

} // verus!
