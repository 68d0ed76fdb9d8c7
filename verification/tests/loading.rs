//! Loading drawings.

use dxf::enums::AttachmentPoint;
use dxf::{Color, LineWeight};
use tabulon::blocks::{EntityRef, LoadError};
use tabulon::color::Rgba8;
use tabulon::drawing_types::Vec2;
use tabulon::dxf_file::{
    Block, DxfDrawing, DxfEntity, DxfPoint, EntityCommon, EntityType, Insert, Layer, Line, MText,
    Solid, Spline, Style, Text,
};
use tabulon::graphics::{
    FatPaint, FatShape, FatText, GraphicsItem, ItemHandle, TextInsertion, TransformHandle,
};
use tabulon::handles::{EntityHandle, LayerHandle};
use tabulon::load::{load_default_layers, TDDrawing};
use tabulon::number::Real;
use tabulon::scene::{layer_is_complete, render_layer_ops, text_items};
use tabulon::text_style::{Alignment, TextAttachment};

fn num(x: f64) -> Real {
    Real::from_bits(x.to_bits())
}

fn at(x: f64, y: f64) -> DxfPoint {
    DxfPoint { x: num(x), y: num(y), z: num(0.0) }
}

fn facing(z: f64) -> DxfPoint {
    DxfPoint { x: num(0.0), y: num(0.0), z: num(z) }
}

fn entity(handle: u64, layer: &str, weight: i16, color: Color, specific: EntityType) -> DxfEntity {
    DxfEntity {
        common: EntityCommon {
            handle,
            layer: String::from(layer),
            is_visible: true,
            lineweight_enum_value: weight,
            color,
            color_24_bit: 0,
            transparency: 0,
        },
        specific,
        arcs_vanish: false,
    }
}

fn line_in(z: f64) -> EntityType {
    EntityType::Line(Line {
        p1: at(0.0, 0.0),
        p2: at(1.0, 0.0),
        extrusion_direction: facing(z),
    })
}

fn line(handle: u64, layer: &str) -> DxfEntity {
    entity(handle, layer, 25, Color::from_index(1), line_in(1.0))
}

fn insert(handle: u64, name: &str, weight: i16, color: Color) -> DxfEntity {
    let specific = EntityType::Insert(Insert {
        name: String::from(name),
        location: at(0.0, 0.0),
        x_scale_factor: num(1.0),
        y_scale_factor: num(1.0),
        rotation: num(0.0),
        row_count: 1,
        column_count: 2,
        row_spacing: num(1.0),
        column_spacing: num(1.0),
        extrusion_direction: facing(1.0),
    });
    entity(handle, "on", weight, color, specific)
}

fn mtext(z: f64) -> MText {
    MText {
        insertion_point: at(5.0, 6.0),
        initial_text_height: num(2.5),
        reference_rectangle_width: num(100.0),
        attachment_point: AttachmentPoint::BottomRight,
        text: String::from("%%c1"),
        extended_text: vec![String::from("\\P2")],
        text_style_name: String::from("standard"),
        extrusion_direction: facing(z),
        x_axis_direction: at(0.0, 1.0),
        rotation_angle: num(45.0),
        column_type: 0,
        column_width: num(40.0),
    }
}

fn text(z: f64) -> Text {
    Text {
        location: at(7.0, 8.0),
        text_height: num(3.5),
        value: String::from("%%utext%%u"),
        rotation: num(30.0),
        oblique_angle: num(0.0),
        text_style_name: String::from("standard"),
        normal: facing(z),
    }
}

fn layer(name: &str, handle: u64, is_layer_on: bool) -> Layer {
    Layer {
        name: String::from(name),
        handle,
        is_layer_on,
        color: Color::from_index(3),
        line_weight: LineWeight::by_layer(),
    }
}

fn drawing(entities: Vec<DxfEntity>) -> DxfDrawing {
    DxfDrawing {
        layers: vec![layer("on", 16, true), layer("off", 17, false)],
        styles: vec![Style {
            name: String::from("standard"),
            text_height: num(0.0),
            width_factor: num(1.0),
            oblique_angle: num(0.0),
            primary_font_file_name: String::from("txt"),
        }],
        blocks: vec![],
        entities,
        other_handles: vec![],
    }
}

fn palette() -> [u32; 256] {
    let mut aci = [0_u32; 256];
    for (i, slot) in aci.iter_mut().enumerate() {
        *slot = i as u32;
    }
    aci
}

fn load(d: DxfDrawing) -> TDDrawing {
    load_default_layers(d, &palette()).unwrap()
}

fn error(d: DxfDrawing) -> Option<LoadError> {
    load_default_layers(d, &palette()).err()
}

fn owners(td: &TDDrawing) -> Vec<u64> {
    td.render_layer.indices.iter().map(|h| td.item_entity_map[&h.index].get()).collect()
}

fn shape(td: &TDDrawing, index: usize) -> &FatShape {
    match td.graphics.get(ItemHandle { index }) {
        GraphicsItem::FatShape(shape) => shape,
        GraphicsItem::FatText(_) => panic!("a shape was expected"),
    }
}

fn text_at(td: &TDDrawing, index: usize) -> &FatText {
    match td.graphics.get(ItemHandle { index }) {
        GraphicsItem::FatText(text) => text,
        GraphicsItem::FatShape(_) => panic!("a text was expected"),
    }
}

#[test]
fn an_empty_drawing_has_the_default_paint() {
    let td = load(drawing(vec![]));
    assert!(td.graphics.items.is_empty());
    assert!(td.render_layer.indices.is_empty());
    let black = Rgba8 { r: 0, g: 0, b: 0, a: 255 };
    assert_eq!(td.graphics.paints, vec![FatPaint::stroking(black)]);
    assert_eq!(td.graphics.transforms.len(), 1);
    assert!(td.restroke_paints.is_empty());
}

#[test]
fn layers_are_listed() {
    let td = load(drawing(vec![]));
    assert_eq!(td.enabled_layers.iter().copied().collect::<Vec<u64>>(), vec![16]);
    assert_eq!(td.layer_names[&16], "on");
    assert_eq!(td.layer_names[&17], "off");
    assert_eq!(td.layer_names.len(), 2);
}

#[test]
fn the_last_layer_of_a_handle_names_it() {
    let mut d = drawing(vec![]);
    d.layers.push(layer("renamed", 16, false));
    let td = load(d);
    assert_eq!(td.layer_names[&16], "renamed");
    assert!(td.enabled_layers.contains(&16));
}

#[test]
fn items_come_in_the_order_of_entities() {
    let td = load(drawing(vec![line(5, "on"), line(3, "on"), line(9, "on")]));
    assert_eq!(
        td.render_layer.indices,
        vec![ItemHandle { index: 0 }, ItemHandle { index: 1 }, ItemHandle { index: 2 }]
    );
    assert_eq!(owners(&td), vec![5, 3, 9]);
    assert_eq!(shape(&td, 1).path[0].source, EntityRef { block: None, entity: 1 });
    assert!(shape(&td, 1).path[0].placements.is_empty());
    assert_eq!(shape(&td, 1).transform, TransformHandle::default());
    assert_eq!(td.entity_layer_map[&3].get(), 16);
    assert_eq!(td.info.get_entity(td.item_entity_map[&1]).common.handle, 3);
}

#[test]
fn hidden_entities_show_nothing() {
    let mut invisible = line(5, "on");
    invisible.common.is_visible = false;
    // Not even what is wrong with them matters.
    let mut nameless = line(0, "nowhere");
    nameless.common.is_visible = false;
    let td = load(drawing(vec![invisible, line(6, "off"), line(0, "nowhere"), nameless, line(7, "on")]));
    assert_eq!(owners(&td), vec![7]);
    assert_eq!(td.entity_layer_map.len(), 1);
    assert_eq!(td.graphics.paints.len(), 2);
}

#[test]
fn entities_seen_from_elsewhere_only_get_a_paint() {
    let turned = entity(5, "on", 25, Color::from_index(1), line_in(-1.0));
    let td = load(drawing(vec![turned]));
    assert!(td.graphics.items.is_empty());
    assert_eq!(td.graphics.paints.len(), 2);
    assert_eq!(td.restroke_paints.len(), 1);
}

#[test]
fn paints_are_shared_by_look() {
    let thick = entity(6, "on", 50, Color::from_index(1), line_in(1.0));
    let by_layer = entity(7, "on", -2, Color::by_layer(), line_in(1.0));
    let third = entity(8, "on", 25, Color::from_index(3), line_in(1.0));
    let td = load(drawing(vec![line(5, "on"), thick, by_layer, third, line(9, "on")]));
    let paints: Vec<usize> = (0..5).map(|i| shape(&td, i).paint.index).collect();
    assert_eq!(paints, vec![1, 2, 3, 3, 1]);
    let weights: Vec<(u64, usize)> =
        td.restroke_paints.iter().map(|r| (r.weight, r.handle.index)).collect();
    assert_eq!(weights, vec![(2_250_000, 1), (4_500_000, 2), (2_250_000, 3)]);
    assert_eq!(
        *td.graphics.get_paint(shape(&td, 2).paint),
        FatPaint::stroking(Rgba8 { r: 0, g: 0, b: 3, a: 255 })
    );
}

#[test]
fn solids_are_filled() {
    let solid = EntityType::Solid(Solid {
        first_corner: at(0.0, 0.0),
        second_corner: at(1.0, 0.0),
        third_corner: at(0.0, 1.0),
        fourth_corner: at(1.0, 1.0),
        extrusion_direction: facing(1.0),
    });
    let td = load(drawing(vec![entity(5, "on", 25, Color::from_index(2), solid)]));
    assert_eq!(
        *td.graphics.get_paint(shape(&td, 0).paint),
        FatPaint::filling(Rgba8 { r: 0, g: 0, b: 2, a: 255 })
    );
    assert!(td.restroke_paints.is_empty());
}

#[test]
fn multiline_texts_are_loaded() {
    let e = entity(5, "on", 25, Color::from_index(2), EntityType::MText(mtext(1.0)));
    let td = load(drawing(vec![e]));
    let t = text_at(&td, 0);
    assert_eq!(t.text, "∅1\n2");
    assert_eq!(t.attachment_point, TextAttachment::BottomRight);
    assert_eq!(t.alignment, Alignment::Right);
    assert_eq!(t.max_inline_size, Some(num(100.0)));
    assert_eq!(
        t.insertion,
        TextInsertion {
            rotation_angle: num(45.0),
            x_axis: Some(Vec2 { x: num(0.0), y: num(-1.0) }),
            location: Vec2 { x: num(5.0), y: num(-6.0) },
        }
    );
    assert_eq!(t.style.size, num(2.5));
    assert!(td.graphics.get_paint(t.paint).fill_paint.is_some());
}

#[test]
fn single_line_texts_are_loaded() {
    let e = entity(5, "on", 25, Color::from_index(2), EntityType::Text(text(1.0)));
    let td = load(drawing(vec![e]));
    let t = text_at(&td, 0);
    assert_eq!(t.text, "text");
    assert_eq!(t.attachment_point, TextAttachment::TopLeft);
    assert_eq!(t.alignment, Alignment::Start);
    assert_eq!(t.max_inline_size, None);
    assert_eq!(
        t.insertion,
        TextInsertion {
            rotation_angle: num(30.0),
            x_axis: None,
            location: Vec2 { x: num(7.0), y: num(-8.0) },
        }
    );
    assert_eq!(t.style.size, num(3.5));
}

#[test]
fn texts_seen_from_elsewhere_are_left_out() {
    let m = entity(5, "on", 25, Color::from_index(2), EntityType::MText(mtext(-1.0)));
    let t = entity(6, "on", 25, Color::from_index(2), EntityType::Text(text(-1.0)));
    let td = load(drawing(vec![m, t]));
    assert!(td.graphics.items.is_empty());
}

#[test]
fn inserts_show_their_chunks() {
    let by_block = entity(1, "on", -1, Color::by_block(), line_in(1.0));
    let given = entity(2, "on", 70, Color::from_index(4), line_in(1.0));
    let mut d = drawing(vec![
        insert(5, "door", 50, Color::from_index(6)),
        insert(6, "window", 50, Color::from_index(6)),
    ]);
    d.blocks.push(Block { name: String::from("door"), entities: vec![by_block, given] });
    let td = load(d);
    assert_eq!(owners(&td), vec![5, 5]);
    assert_eq!(shape(&td, 0).path.len(), 2);
    assert_eq!(shape(&td, 0).path[1].source, EntityRef { block: Some(0), entity: 0 });
    let cell = shape(&td, 0).path[1].placements[0];
    assert_eq!(cell.insert, EntityRef { block: None, entity: 0 });
    assert_eq!((cell.row, cell.column), (0, 1));
    // The insert's own paint is that of the chunk that inherits from it.
    assert_eq!(shape(&td, 0).paint.index, 1);
    assert_eq!(shape(&td, 1).paint.index, 2);
    let weights: Vec<(u64, usize)> =
        td.restroke_paints.iter().map(|r| (r.weight, r.handle.index)).collect();
    assert_eq!(weights, vec![(6_300_000, 2), (4_500_000, 1)]);
}

#[test]
fn entities_without_a_layer_name_need_that_layer() {
    assert_eq!(error(drawing(vec![line(5, "")])), Some(LoadError::UnknownLayer));
    let mut d = drawing(vec![line(5, "")]);
    d.layers.push(layer("", 18, false));
    assert_eq!(owners(&load(d)), vec![5]);
}

#[test]
fn layers_need_handles() {
    let mut d = drawing(vec![line(0, "on")]);
    d.layers.push(layer("null", 0, false));
    assert_eq!(error(d), Some(LoadError::NullLayerHandle));
}

#[test]
fn drawn_entities_need_handles() {
    assert_eq!(error(drawing(vec![line(0, "on")])), Some(LoadError::NullEntityHandle));
}

#[test]
fn blocks_are_looked_at_before_entities() {
    let mut lost = line(1, "on");
    lost.common.layer = String::from("lost");
    let mut d = drawing(vec![line(0, "on")]);
    d.blocks.push(Block { name: String::from("door"), entities: vec![lost] });
    assert_eq!(error(d), Some(LoadError::UnknownLayer));
}

#[test]
fn untraceable_splines_cannot_be_loaded() {
    let spline = EntityType::Spline(Spline {
        normal: facing(1.0),
        degree_of_curve: 0,
        control_points: vec![at(0.0, 0.0)],
        knot_values: vec![num(0.0), num(1.0)],
        is_closed: false,
    });
    let d = drawing(vec![entity(5, "on", 25, Color::from_index(2), spline)]);
    assert_eq!(error(d), Some(LoadError::UntraceableSpline));
}

#[test]
fn handles_are_never_zero() {
    assert!(EntityHandle::new(0).is_none());
    assert!(LayerHandle::new(0).is_none());
    assert_eq!(EntityHandle::new(7).unwrap().get(), 7);
    assert_eq!(LayerHandle::new(8).unwrap().get(), 8);
    assert!(EntityHandle::new(7) < EntityHandle::new(9));
    assert_eq!(EntityHandle::try_from(&line(5, "on").common), Ok(EntityHandle::new(5).unwrap()));
    assert_eq!(EntityHandle::try_from(&line(0, "on").common), Err(()));
}

#[test]
fn entities_are_looked_up_by_handle() {
    let mut d = drawing(vec![line(5, "on"), line(6, "off"), line(5, "off")]);
    d.other_handles.push(6);
    let td = load(d);
    let five = EntityHandle::new(5).unwrap();
    assert!(td.info.has_entity(five));
    assert_eq!(td.info.get_entity(five).common.layer, "on");
    assert!(!td.info.has_entity(EntityHandle::new(6).unwrap()));
    assert!(!td.info.has_entity(EntityHandle::new(7).unwrap()));
    assert_eq!(td.info.drawing().entities.len(), 3);
}

#[test]
fn the_last_item_of_a_handle_decides_its_layer() {
    let mut d = drawing(vec![line(5, "on"), line(5, "also")]);
    d.layers.push(layer("also", 20, true));
    let td = load(d);
    assert_eq!(owners(&td), vec![5, 5]);
    assert_eq!(td.entity_layer_map[&5].get(), 20);
}

#[test]
fn the_palette_only_paints() {
    let entities = || {
        vec![
            line(5, "on"),
            entity(6, "on", 50, Color::from_index(9), line_in(1.0)),
            entity(7, "on", 25, Color::from_index(2), EntityType::Text(text(1.0))),
        ]
    };
    let colored = load(drawing(entities()));
    let gray = load_default_layers(drawing(entities()), &[0x80_80_80; 256]).unwrap();
    assert_eq!(owners(&colored), owners(&gray));
    assert_eq!(shape(&colored, 1).path[0].source, shape(&gray, 1).path[0].source);
    assert_eq!(text_at(&colored, 2).text, text_at(&gray, 2).text);
    assert!(colored.graphics.paints[1] != gray.graphics.paints[1]);
}

#[test]
fn everything_in_a_loaded_drawing_exists() {
    let by_block = entity(1, "on", -1, Color::by_block(), line_in(1.0));
    let mut d = drawing(vec![
        line(4, "on"),
        insert(5, "door", 50, Color::from_index(6)),
        entity(6, "on", 25, Color::from_index(2), EntityType::MText(mtext(1.0))),
    ]);
    d.blocks.push(Block { name: String::from("door"), entities: vec![by_block] });
    let td = load(d);
    assert!(layer_is_complete(&td.graphics, &td.render_layer));
    for (index, handle) in &td.item_entity_map {
        assert!(*index < td.graphics.items.len());
        assert!(td.info.has_entity(*handle));
        let layer = td.entity_layer_map[&handle.get()];
        assert!(td.layer_names.contains_key(&layer.get()));
    }
    for handle in &td.enabled_layers {
        assert!(td.layer_names.contains_key(handle));
    }
    for restroke in &td.restroke_paints {
        assert!(td.graphics.get_paint(restroke.handle).stroke_paint.is_some());
    }
}

#[test]
fn loaded_texts_are_drawn() {
    let t = entity(5, "on", 25, Color::from_index(2), EntityType::Text(text(1.0)));
    let m = entity(6, "on", 25, Color::from_index(2), EntityType::MText(mtext(1.0)));
    let td = load(drawing(vec![t, m]));
    let ops = render_layer_ops::<u8>(&td.graphics, &td.render_layer, None);
    assert_eq!(ops.len(), 2);
    assert_eq!(text_items(&td.graphics, &td.render_layer), td.render_layer.indices);
}
