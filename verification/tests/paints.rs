//! Paints, and the strokes that are adapted to a device.

use dxf::{Color, LineWeight};
use tabulon::color::{Rgba8, WEIGHT_SOLID};
use tabulon::dxf_file::{EntityCommon, Layer};
use tabulon::graphics::{FatPaint, GraphicsBag, PaintBrush, PaintHandle, Stroke};
use tabulon::number::Real;
use tabulon::paints::{PaintTable, RestrokePaint};

fn num(x: f64) -> Real {
    Real::from_bits(x.to_bits())
}

fn common() -> EntityCommon {
    EntityCommon {
        handle: 1,
        layer: String::from("0"),
        is_visible: true,
        lineweight_enum_value: 25,
        color: Color::from_index(1),
        color_24_bit: 0,
        transparency: 0,
    }
}

fn layer() -> Layer {
    Layer {
        name: String::from("0"),
        handle: 2,
        is_layer_on: true,
        color: Color::from_index(1),
        line_weight: LineWeight::by_layer(),
    }
}

fn palette() -> [u32; 256] {
    let mut aci = [0_u32; 256];
    aci[1] = 0x01_02_03;
    aci[2] = 0x04_05_06;
    aci
}

#[test]
fn equal_strokes_share_a_paint() {
    let mut bag = GraphicsBag::default();
    let mut table = PaintTable::new();
    let (e, l, aci) = (common(), layer(), palette());
    let a = table.resolve_paint(&mut bag, &e, &l, &aci, 25, 1);
    let b = table.resolve_paint(&mut bag, &e, &l, &aci, 50, 1);
    let c = table.resolve_paint(&mut bag, &e, &l, &aci, 25, 2);
    assert_eq!((a.index, b.index, c.index), (0, 1, 2));
    // The default weight is a quarter of a millimeter as well.
    assert_eq!(table.resolve_paint(&mut bag, &e, &l, &aci, -3, 1), a);
    assert_eq!(table.resolve_paint(&mut bag, &e, &l, &aci, 25, 256), a);
    assert_eq!(bag.paints.len(), 3);
    assert_eq!(
        *bag.get_paint(a),
        FatPaint::stroking(Rgba8 { r: 1, g: 2, b: 3, a: 255 })
    );
}

#[test]
fn fills_are_no_strokes() {
    let mut bag = GraphicsBag::default();
    let mut table = PaintTable::new();
    let (e, l, aci) = (common(), layer(), palette());
    let stroke = table.resolve_paint(&mut bag, &e, &l, &aci, 25, 2);
    let fill = table.resolve_paint(&mut bag, &e, &l, &aci, WEIGHT_SOLID, 2);
    assert!(stroke != fill);
    assert_eq!(table.resolve_paint(&mut bag, &e, &l, &aci, WEIGHT_SOLID, 2), fill);
    let color = Rgba8 { r: 4, g: 5, b: 6, a: 255 };
    assert_eq!(bag.get_paint(fill).fill_paint, Some(PaintBrush::Solid(color)));
    assert_eq!(bag.get_paint(fill).stroke_paint, None);
    assert_eq!(bag.get_paint(stroke).fill_paint, None);
    assert_eq!(table.restroke_paints(), vec![RestrokePaint { weight: 2_250_000, handle: stroke }]);
}

#[test]
fn strokes_are_listed_by_color_and_width() {
    let mut bag = GraphicsBag::default();
    let mut table = PaintTable::new();
    let (e, l, aci) = (common(), layer(), palette());
    let h: Vec<PaintHandle> = [(50, 2), (50, 1), (25, 2), (9, 1)]
        .into_iter()
        .map(|(lw, c)| table.resolve_paint(&mut bag, &e, &l, &aci, lw, c))
        .collect();
    let list: Vec<(u64, PaintHandle)> =
        table.restroke_paints().into_iter().map(|r| (r.weight, r.handle)).collect();
    assert_eq!(
        list,
        vec![(810_000, h[3]), (4_500_000, h[1]), (2_250_000, h[2]), (4_500_000, h[0])]
    );
}

#[test]
fn adapting_changes_one_width() {
    let mut bag = GraphicsBag::default();
    let a = bag.register_paint(FatPaint::stroking(Rgba8 { r: 1, g: 1, b: 1, a: 1 }));
    let b = bag.register_paint(FatPaint::stroking(Rgba8 { r: 2, g: 2, b: 2, a: 2 }));
    assert_eq!(bag.get_paint(a).stroke, Stroke::new(num(1.0)));
    RestrokePaint::from((7, b)).adapt(&mut bag, num(0.125));
    assert_eq!(bag.get_paint(a).stroke, Stroke::default());
    assert_eq!(bag.get_paint(b).stroke, Stroke::new(num(0.125)));
    assert_eq!(
        bag.get_paint(b).stroke_paint,
        Some(PaintBrush::Solid(Rgba8 { r: 2, g: 2, b: 2, a: 2 }))
    );
    RestrokePaint { weight: 0, handle: b }.adapt(&mut bag, num(4.0));
    assert_eq!(bag.get_paint(b).stroke.width, num(4.0));
}

#[test]
fn pixel_widths_stay_in_bounds() {
    let width = |ratio: f64| RestrokePaint::pixel_width(num(ratio), num(1.0), num(10.0));
    assert_eq!(width(0.0), num(1.0));
    assert_eq!(width(1.0), num(1.0));
    assert_eq!(width(2.5), num(2.5));
    assert_eq!(width(f64::INFINITY), num(10.0));
}

#[test]
fn paints_can_be_changed_in_place() {
    let mut bag = GraphicsBag::default();
    let h = bag.register_paint(FatPaint::filling(Rgba8 { r: 1, g: 1, b: 1, a: 1 }));
    bag.get_paint_mut(h).fill_paint = Some(PaintBrush::Gradient(3));
    assert_eq!(bag.get_paint(h).fill_paint, Some(PaintBrush::Gradient(3)));
}
