//! What is drawn for a layer.

use tabulon::color::Rgba8;
use tabulon::drawing_types::Vec2;
use tabulon::graphics::{
    FatPaint, FatShape, FatText, GraphicsBag, GraphicsItem, ItemHandle, PaintBrush, PaintHandle,
    RenderLayer, Stroke, TextInsertion, TransformHandle,
};
use tabulon::number::Real;
use tabulon::scene::{layer_is_complete, render_layer_ops, text_items, DrawOp, LayoutCache};
use tabulon::text_style::{Alignment, TextAttachment, TextStyle};

fn num(x: f64) -> Real {
    Real::from_bits(x.to_bits())
}

fn red() -> Rgba8 {
    Rgba8 { r: 255, g: 0, b: 0, a: 255 }
}

fn blue() -> Rgba8 {
    Rgba8 { r: 0, g: 0, b: 255, a: 255 }
}

fn shape(paint: PaintHandle) -> GraphicsItem {
    GraphicsItem::FatShape(FatShape {
        path: vec![],
        transform: TransformHandle::default(),
        paint,
    })
}

fn text(paint: PaintHandle) -> GraphicsItem {
    GraphicsItem::FatText(FatText {
        transform: TransformHandle::default(),
        paint,
        text: String::from("text"),
        style: TextStyle {
            size: num(1.0),
            solid_lines: false,
            width: None,
            slant: None,
            weight: None,
            family: None,
        },
        alignment: Alignment::Start,
        insertion: TextInsertion {
            rotation_angle: num(0.0),
            x_axis: None,
            location: Vec2 { x: num(0.0), y: num(0.0) },
        },
        max_inline_size: None,
        attachment_point: TextAttachment::TopLeft,
    })
}

/// A bag with a stroke, a fill, a paint that does both and one that does nothing.
fn bag() -> (GraphicsBag, [PaintHandle; 4]) {
    let mut bag = GraphicsBag::default();
    let stroke = bag.register_paint(FatPaint::stroking(red()));
    let fill = bag.register_paint(FatPaint::filling(blue()));
    let both = bag.register_paint(FatPaint {
        stroke: Stroke::new(num(3.0)),
        stroke_paint: Some(PaintBrush::Solid(red())),
        fill_paint: Some(PaintBrush::Image(4)),
    });
    let nothing = bag.register_paint(FatPaint {
        stroke: Stroke::default(),
        stroke_paint: None,
        fill_paint: None,
    });
    (bag, [stroke, fill, both, nothing])
}

#[test]
fn shapes_are_filled_before_they_are_stroked() {
    let (mut bag, [stroke, fill, both, nothing]) = bag();
    let mut layer = RenderLayer::default();
    let handles: Vec<ItemHandle> = [stroke, fill, both, nothing]
        .into_iter()
        .map(|p| layer.push_with_bag(&mut bag, shape(p)))
        .collect();
    let transform = bag.get_transform(TransformHandle::default());
    let ops = render_layer_ops::<u8>(&bag, &layer, None);
    assert_eq!(
        ops,
        vec![
            DrawOp::StrokePath {
                item: handles[0],
                transform,
                stroke: Stroke::new(num(1.0)),
                brush: PaintBrush::Solid(red()),
            },
            DrawOp::FillPath { item: handles[1], transform, brush: PaintBrush::Solid(blue()) },
            DrawOp::FillPath { item: handles[2], transform, brush: PaintBrush::Image(4) },
            DrawOp::StrokePath {
                item: handles[2],
                transform,
                stroke: Stroke::new(num(3.0)),
                brush: PaintBrush::Solid(red()),
            },
        ]
    );
}

#[test]
fn texts_are_only_filled() {
    let (mut bag, [stroke, fill, both, _]) = bag();
    let mut layer = RenderLayer::default();
    layer.push_with_bag(&mut bag, text(stroke));
    let filled = layer.push_with_bag(&mut bag, text(fill));
    let painted = layer.push_with_bag(&mut bag, text(both));
    let transform = bag.get_transform(TransformHandle::default());
    assert_eq!(
        render_layer_ops::<u8>(&bag, &layer, None),
        vec![
            DrawOp::DrawText { item: filled, transform, brush: PaintBrush::Solid(blue()) },
            DrawOp::DrawText { item: painted, transform, brush: PaintBrush::Image(4) },
        ]
    );
}

#[test]
fn layouts_are_taken_from_the_cache() {
    let (mut bag, [_, fill, _, _]) = bag();
    let mut layer = RenderLayer::default();
    let a = layer.push_with_bag(&mut bag, text(fill));
    let b = layer.push_with_bag(&mut bag, text(fill));
    let mut cache: LayoutCache<&str> = LayoutCache::new();
    cache.insert(b.index, "layout");
    let transform = bag.get_transform(TransformHandle::default());
    let brush = PaintBrush::Solid(blue());
    assert_eq!(
        render_layer_ops(&bag, &layer, Some(&cache)),
        vec![
            DrawOp::DrawText { item: a, transform, brush },
            DrawOp::DrawCachedText { item: b, transform, brush },
        ]
    );
}

#[test]
fn layers_decide_on_order() {
    let (mut bag, [_, fill, _, _]) = bag();
    let a = bag.push(shape(fill));
    let b = bag.push(shape(fill));
    let item = |op: &DrawOp| match *op {
        DrawOp::FillPath { item, .. } => item,
        _ => panic!("only fills were asked for"),
    };
    let drawn = |indices: Vec<ItemHandle>| -> Vec<ItemHandle> {
        render_layer_ops::<u8>(&bag, &RenderLayer { indices }, None).iter().map(item).collect()
    };
    assert_eq!(drawn(vec![b, a]), vec![b, a]);
    assert_eq!(drawn(vec![a, b, a]), vec![a, b, a]);
    assert_eq!(drawn(vec![]), vec![]);
}

#[test]
fn texts_are_picked_out() {
    let (mut bag, [stroke, fill, _, _]) = bag();
    let mut layer = RenderLayer::default();
    layer.push_with_bag(&mut bag, shape(fill));
    let a = layer.push_with_bag(&mut bag, text(fill));
    layer.push_with_bag(&mut bag, shape(stroke));
    // A text is measured even if it is not drawn.
    let b = layer.push_with_bag(&mut bag, text(stroke));
    assert_eq!(text_items(&bag, &layer), vec![a, b]);
    assert_eq!(text_items(&bag, &RenderLayer::default()), vec![]);
}

#[test]
fn the_first_transform_is_the_identity() {
    let bag = GraphicsBag::default();
    let t = bag.get_transform(TransformHandle::default());
    assert_eq!((t.xx, t.yy), (num(1.0), num(1.0)));
    assert_eq!((t.yx, t.xy, t.dx, t.dy), (num(0.0), num(0.0), num(0.0), num(0.0)));
}

#[test]
fn incomplete_layers_are_told() {
    let (mut bag, [_, fill, _, _]) = bag();
    let a = bag.push(shape(fill));
    let b = bag.push(text(PaintHandle { index: 9 }));
    let layer = |indices: Vec<ItemHandle>| RenderLayer { indices };
    assert!(layer_is_complete(&bag, &layer(vec![])));
    assert!(layer_is_complete(&bag, &layer(vec![a, a])));
    assert!(!layer_is_complete(&bag, &layer(vec![a, b])));
    assert!(!layer_is_complete(&bag, &layer(vec![ItemHandle { index: 2 }])));
    let far = bag.push(GraphicsItem::FatShape(FatShape {
        path: vec![],
        transform: TransformHandle { index: 1 },
        paint: fill,
    }));
    assert!(!layer_is_complete(&bag, &layer(vec![far])));
}

#[test]
fn stacked_layers_are_drawn_one_after_the_other() {
    let (mut bag, [stroke, fill, both, _]) = bag();
    let a = bag.push(shape(both));
    let b = bag.push(text(fill));
    let c = bag.push(shape(stroke));
    let ops = |indices: Vec<ItemHandle>| {
        render_layer_ops::<u8>(&bag, &RenderLayer { indices }, None)
    };
    let mut stacked = ops(vec![a, b]);
    stacked.extend(ops(vec![c, a]));
    assert_eq!(ops(vec![a, b, c, a]), stacked);
}
