//! Colors and line widths of entities.

use dxf::{Color, LineWeight};
use tabulon::color::{
    recover_color_enum, resolve_color, resolve_line_width, unpack_color, Rgba8, COLOR_BY_BLOCK,
    COLOR_BY_ENTITY, COLOR_BY_LAYER, WEIGHT_BY_BLOCK, WEIGHT_BY_LAYER, WEIGHT_DEFAULT,
    WEIGHT_SOLID,
};
use tabulon::dxf_file::{EntityCommon, Layer};

fn common() -> EntityCommon {
    EntityCommon {
        handle: 1,
        layer: String::from("0"),
        is_visible: true,
        lineweight_enum_value: WEIGHT_BY_LAYER,
        color: Color::by_layer(),
        color_24_bit: 0x12_34_56,
        transparency: 0,
    }
}

fn layer(color: Color, line_weight: LineWeight) -> Layer {
    Layer { name: String::from("0"), handle: 2, is_layer_on: true, color, line_weight }
}

/// A line weight can only be had from a file.
fn weight(value: i16) -> LineWeight {
    let text = format!(
        "  0\nSECTION\n  2\nHEADER\n  9\n$ACADVER\n  1\nAC1024\n  0\nENDSEC\n  0\nSECTION\n  2\nTABLES\n  0\nTABLE\n  2\nLAYER\n  0\nLAYER\n  2\nwalls\n370\n{}\n  0\nENDTAB\n  0\nENDSEC\n  0\nEOF\n",
        value
    );
    let mut bytes = text.as_bytes();
    let drawing = dxf::Drawing::load(&mut bytes).unwrap();
    for l in drawing.layers() {
        if l.name == "walls" {
            assert_eq!(l.line_weight.raw_value(), value);
            return l.line_weight.clone();
        }
    }
    panic!("the layer is missing");
}

/// A palette in which every index has its own color.
fn palette() -> [u32; 256] {
    let mut aci = [0_u32; 256];
    for (i, slot) in aci.iter_mut().enumerate() {
        *slot = 0x10_00_00 + i as u32;
    }
    aci
}

#[test]
fn color_numbers_are_recovered() {
    assert_eq!(recover_color_enum(&Color::by_layer()), COLOR_BY_LAYER);
    assert_eq!(recover_color_enum(&Color::by_entity()), COLOR_BY_ENTITY);
    assert_eq!(recover_color_enum(&Color::by_block()), COLOR_BY_BLOCK);
    assert_eq!(recover_color_enum(&Color::from_index(1)), 1);
    assert_eq!(recover_color_enum(&Color::from_index(255)), 255);
    let mut off = Color::from_index(3);
    off.turn_off();
    assert_eq!(recover_color_enum(&off), -1);
}

#[test]
fn packed_colors_come_apart() {
    assert_eq!(unpack_color(0x01_02_03_04), Rgba8 { r: 1, g: 2, b: 3, a: 4 });
    assert_eq!(unpack_color(u32::MAX), Rgba8 { r: 255, g: 255, b: 255, a: 255 });
    assert_eq!(unpack_color(0), Rgba8 { r: 0, g: 0, b: 0, a: 0 });
}

#[test]
fn index_colors_come_from_the_palette() {
    let l = layer(Color::from_index(9), LineWeight::by_layer());
    assert_eq!(resolve_color(&common(), &l, &palette(), 5), 0x10_00_05_FF);
    assert_eq!(resolve_color(&common(), &l, &palette(), 255), 0x10_00_FF_FF);
}

#[test]
fn layer_colors_come_from_the_layer() {
    let l = layer(Color::from_index(9), LineWeight::by_layer());
    assert_eq!(resolve_color(&common(), &l, &palette(), COLOR_BY_LAYER), 0x10_00_09_FF);
    let bare = layer(Color::by_layer(), LineWeight::by_layer());
    assert_eq!(resolve_color(&common(), &bare, &palette(), COLOR_BY_LAYER), 0xFF_FF_FF_FF);
}

#[test]
fn entity_colors_come_from_the_entity() {
    let l = layer(Color::from_index(9), LineWeight::by_layer());
    assert_eq!(resolve_color(&common(), &l, &palette(), COLOR_BY_ENTITY), 0x12_34_56_FF);
    let mut high = common();
    high.color_24_bit = -1;
    assert_eq!(resolve_color(&high, &l, &palette(), COLOR_BY_ENTITY), 0xFF_FF_FF_FF);
}

#[test]
fn meaningless_colors_are_white() {
    let l = layer(Color::from_index(9), LineWeight::by_layer());
    for c in [0, -1, 258, 1000, i16::MIN] {
        assert_eq!(resolve_color(&common(), &l, &palette(), c), 0xFF_FF_FF_FF);
    }
}

#[test]
fn transparency_is_taken_off_alpha() {
    let l = layer(Color::from_index(9), LineWeight::by_layer());
    let mut e = common();
    e.transparency = 0x55;
    assert_eq!(resolve_color(&e, &l, &palette(), 5), 0x10_00_05_AA);
    e.transparency = 0x0200_0055;
    assert_eq!(resolve_color(&e, &l, &palette(), 5), 0x10_00_05_AA);
    e.transparency = -1;
    assert_eq!(resolve_color(&e, &l, &palette(), 5), 0x10_00_05_00);
}

#[test]
fn widths_count_hundredths_of_a_millimeter() {
    let l = layer(Color::by_layer(), LineWeight::by_layer());
    assert_eq!(resolve_line_width(&l, 0), 0);
    assert_eq!(resolve_line_width(&l, 1), 90_000);
    assert_eq!(resolve_line_width(&l, 25), 2_250_000);
    assert_eq!(resolve_line_width(&l, 211), 18_990_000);
}

#[test]
fn the_default_width_is_a_quarter_of_a_millimeter() {
    let l = layer(Color::by_layer(), LineWeight::by_layer());
    assert_eq!(resolve_line_width(&l, WEIGHT_DEFAULT), 2_250_000);
    assert_eq!(resolve_line_width(&l, WEIGHT_BY_BLOCK), 2_250_000);
    assert_eq!(resolve_line_width(&l, WEIGHT_BY_LAYER), 2_250_000);
}

#[test]
fn layers_set_the_width_of_their_entities() {
    let thick = layer(Color::by_layer(), weight(70));
    assert_eq!(resolve_line_width(&thick, WEIGHT_BY_LAYER), 6_300_000);
    let thin = layer(Color::by_layer(), weight(0));
    assert_eq!(resolve_line_width(&thin, WEIGHT_BY_LAYER), 2_250_000);
    let default = layer(Color::by_layer(), weight(-3));
    assert_eq!(resolve_line_width(&default, WEIGHT_BY_LAYER), 2_250_000);
}

#[test]
fn other_negative_weights_wrap() {
    let l = layer(Color::by_layer(), LineWeight::by_layer());
    assert_eq!(resolve_line_width(&l, -4), (-360_000_i64) as u64);
    assert_eq!(resolve_line_width(&l, WEIGHT_SOLID), (-32_768_i64 * 90_000) as u64);
}
