//! What colors and line widths entities are painted with, byte by byte.

use vstd::prelude::*;

#[allow(unused_imports)]
use crate::color::{
    color_enum, color_value, line_weight_value, line_width, packed_color, unpacked, Rgba8,
};
#[allow(unused_imports)]
use crate::dxf_file::{EntityCommon, Layer};
#[allow(unused_imports)]
use crate::graphics::{fill_of, identity_transform, stroke_of, FatPaint, PaintBrush, Transform};

verus! {

/// Whether a color has the red, green and blue of a number, of which these are the lowest
/// three bytes, red first.
pub open spec fn has_rgb(color: Rgba8, rgb: int) -> bool {
    &&& color.r == rgb / 0x1_0000 % 0x100
    &&& color.g == rgb / 0x100 % 0x100
    &&& color.b == rgb % 0x100
}

/// The color that color number `c` means for an entity.
pub open spec fn color_for(entity: EntityCommon, layer: Layer, aci: Seq<u32>, c: i16) -> Rgba8 {
    unpacked(packed_color(entity, layer, aci, c) as u32)
}

/// A packed color is red, green, blue and alpha, from the top byte to the lowest.
pub proof fn law_packed_colors_are_four_bytes(packed: u32)
    ensures
        unpacked(packed).r * 0x100_0000 + unpacked(packed).g * 0x1_0000 + unpacked(packed).b
            * 0x100 + unpacked(packed).a == packed,
{
    let p = packed as int;
    let r = p / 0x100_0000;
    let g = p / 0x1_0000 % 0x100;
    let b = p / 0x100 % 0x100;
    let a = p % 0x100;
    assert(0 <= r < 0x100);
    assert(p / 0x1_0000 / 0x100 == r);
    assert(p / 0x100 / 0x100 == p / 0x1_0000);
    assert(p / 0x1_0000 == r * 0x100 + g);
    assert(p / 0x100 == (p / 0x1_0000) * 0x100 + b);
    assert(p == (p / 0x100) * 0x100 + a);
    assert(unpacked(packed).r == r);
    assert(unpacked(packed).g == g);
    assert(unpacked(packed).b == b);
    assert(unpacked(packed).a == a);
}

/// The bytes of a color that is packed from an opaque one and an alpha.
proof fn lemma_packed_bytes(opaque: int, alpha: int, packed: u32)
    requires
        0 <= opaque,
        0 <= alpha < 0x100,
        packed == opaque % 0x100_0000 * 0x100 + alpha,
    ensures
        has_rgb(unpacked(packed), opaque),
        unpacked(packed).a == alpha,
{
    let low = opaque % 0x100_0000;
    assert(packed as int / 0x100 == low);
    assert(packed as int % 0x100 == alpha);
    assert(packed as int / 0x1_0000 == low / 0x100);
    assert(packed as int / 0x100_0000 == low / 0x1_0000);
    assert(low / 0x1_0000 < 0x100);
    assert(low % 0x100 == opaque % 0x100);
    assert(low / 0x100 % 0x100 == opaque / 0x100 % 0x100);
    assert(low / 0x1_0000 == opaque / 0x1_0000 % 0x100);
}

/// An index is looked up in the palette, by layer the index of the layer is, and by entity
/// the color is the one that the entity brings; everything else is white. The alpha is what
/// the lowest byte of the transparency leaves.
pub proof fn law_colors_follow_their_number(
    entity: EntityCommon,
    layer: Layer,
    aci: Seq<u32>,
    c: i16,
)
    ensures
        1 <= c <= 255 ==> has_rgb(color_for(entity, layer, aci, c), aci[c as int] as int),
        c == 256 && 1 <= color_value(layer.color) <= 255 ==> has_rgb(
            color_for(entity, layer, aci, c),
            aci[color_value(layer.color) as int] as int,
        ),
        c == 256 && !(1 <= color_value(layer.color) <= 255) ==> has_rgb(
            color_for(entity, layer, aci, c),
            0xFF_FFFF,
        ),
        c == 257 ==> has_rgb(color_for(entity, layer, aci, c), entity.color_24_bit as int),
        c < 1 || c > 257 ==> has_rgb(color_for(entity, layer, aci, c), 0xFF_FFFF),
        color_for(entity, layer, aci, c).a == 0xFF - entity.transparency as int % 0x100,
{
    let opaque: int = if c == 257 {
        entity.color_24_bit as int % 0x1_0000_0000
    } else if c == 256 {
        if 1 <= color_value(layer.color) <= 255 {
            aci[color_value(layer.color) as int] as int
        } else {
            u32::MAX as int
        }
    } else if 1 <= c <= 255 {
        aci[c as int] as int
    } else {
        u32::MAX as int
    };
    lemma_color_of(entity, layer, aci, c, opaque);
    lemma_low_bytes(entity.color_24_bit as int, color_for(entity, layer, aci, c));
    lemma_low_bytes(u32::MAX as int, color_for(entity, layer, aci, c));
}

/// The color of an entity whose opaque color is known.
proof fn lemma_color_of(entity: EntityCommon, layer: Layer, aci: Seq<u32>, c: i16, opaque: int)
    requires
        opaque == crate::color::opaque_color(entity, layer, aci, c),
        0 <= opaque,
    ensures
        has_rgb(color_for(entity, layer, aci, c), opaque),
        color_for(entity, layer, aci, c).a == 0xFF - entity.transparency as int % 0x100,
{
    let alpha = 0xFF - entity.transparency as int % 0x100;
    let packed = packed_color(entity, layer, aci, c);
    assert(packed == opaque % 0x100_0000 * 0x100 + alpha);
    assert(0 <= packed <= u32::MAX);
    lemma_packed_bytes(opaque, alpha, packed as u32);
}

/// A color has the bytes of a number if it has those of its lowest four.
proof fn lemma_low_bytes(full: int, color: Rgba8)
    ensures
        has_rgb(color, full % 0x1_0000_0000) <==> has_rgb(color, full),
        has_rgb(color, 0xFFFF_FFFF) <==> has_rgb(color, 0xFF_FFFF),
{
    assert(full % 0x1_0000_0000 % 0x100 == full % 0x100);
    assert(full % 0x1_0000_0000 / 0x100 % 0x100 == full / 0x100 % 0x100);
    assert(full % 0x1_0000_0000 / 0x1_0000 % 0x100 == full / 0x1_0000 % 0x100);
}

/// Color numbers are those of the file, as far as they mean something.
pub proof fn law_color_numbers_are_kept(c: dxf::Color)
    ensures
        0 <= color_value(c) <= 257 ==> color_enum(c) == color_value(c),
        color_value(c) < 0 || color_value(c) > 257 ==> color_enum(c) == -1,
{
}

/// A line weight counts hundredths of a millimeter, of which one is 90000 iota. By layer it
/// is that of the layer if this is positive. Without any, and by block, it is a quarter of a
/// millimeter.
pub proof fn law_line_widths_are_physical(layer: Layer, lw: i16)
    ensures
        lw >= 0 ==> line_width(layer, lw) == lw * 90000,
        lw == -1 || lw == -3 ==> line_width(layer, lw) == 25 * 90000,
        lw == -2 && line_weight_value(layer.line_weight) > 0 ==> line_width(layer, lw)
            == line_weight_value(layer.line_weight) * 90000,
        lw == -2 && line_weight_value(layer.line_weight) <= 0 ==> line_width(layer, lw) == 25
            * 90000,
        lw < -3 ==> line_width(layer, lw) == 0x1_0000_0000_0000_0000 + lw * 90000,
{
}

/// Wider weights are wider lines.
pub proof fn law_line_widths_increase(layer: Layer, lw: i16, more: i16)
    requires
        0 <= lw < more,
    ensures
        line_width(layer, lw) < line_width(layer, more),
{
}

/// A stroking paint strokes in its color and fills nothing, a filling paint the other way
/// around; the stroke is of width one until it is adapted to a view.
pub proof fn law_paints_stroke_or_fill(color: Rgba8)
    ensures
        stroke_of(color).stroke_paint == Some(PaintBrush::Solid(color)),
        stroke_of(color).fill_paint is None,
        stroke_of(color).stroke.width.place == 0xBFF0_0000_0000_0000,
        fill_of(color).fill_paint == Some(PaintBrush::Solid(color)),
        fill_of(color).stroke_paint is None,
        fill_of(color).stroke.width.place == 0xBFF0_0000_0000_0000,
{
}

/// The identity scales by one, and neither shears nor moves.
pub proof fn law_identity_changes_nothing(t: Transform)
    requires
        t == identity_transform(),
    ensures
        t.xx.place == 0xBFF0_0000_0000_0000,
        t.yy.place == 0xBFF0_0000_0000_0000,
        t.xy.place == 0x8000_0000_0000_0000,
        t.yx.place == 0x8000_0000_0000_0000,
        t.dx.place == 0x8000_0000_0000_0000,
        t.dy.place == 0x8000_0000_0000_0000,
{
}

} // verus!
