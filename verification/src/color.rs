//! Colors and line widths of entities.

use vstd::prelude::*;

use crate::dxf_file::{EntityCommon, Layer};

verus! {

/// The number that an indexed color carries in the file.
pub uninterp spec fn color_value(c: dxf::Color) -> i16;

/// The number that a line weight carries in the file.
pub uninterp spec fn line_weight_value(w: dxf::LineWeight) -> i16;

/// `dxf::Color::is_by_layer`. Trusted: true of the number 256 alone.
pub assume_specification[ dxf::Color::is_by_layer ](c: &dxf::Color) -> (r: bool)
    ensures
        r == (color_value(*c) == 256),
;

/// `dxf::Color::is_by_entity`. Trusted: true of the number 257 alone.
pub assume_specification[ dxf::Color::is_by_entity ](c: &dxf::Color) -> (r: bool)
    ensures
        r == (color_value(*c) == 257),
;

/// `dxf::Color::is_by_block`. Trusted: true of the number 0 alone.
pub assume_specification[ dxf::Color::is_by_block ](c: &dxf::Color) -> (r: bool)
    ensures
        r == (color_value(*c) == 0),
;

/// `dxf::Color::index`. Trusted: the number where it is one of 1 to 255, else nothing.
pub assume_specification[ dxf::Color::index ](c: &dxf::Color) -> (r: Option<u8>)
    ensures
        r == if 1 <= color_value(*c) <= 255 {
            Some(color_value(*c) as u8)
        } else {
            None
        },
;

/// `dxf::LineWeight::raw_value`. Trusted: the number that the weight carries.
pub assume_specification[ dxf::LineWeight::raw_value ](w: &dxf::LineWeight) -> (r: i16)
    ensures
        r == line_weight_value(*w),
;

/// `joto_constants::u64::MICROMETER`.
///
/// Trusted: a micrometer is 9000 iota, since an iota is a ninth of a nanometer.
#[verifier::external_body]
fn micrometer() -> (r: u64)
    ensures
        r == 9000,
{
    joto_constants::u64::MICROMETER
}

/// Line weight enumeration value: the default weight.
pub const WEIGHT_DEFAULT: i16 = -3;

/// Line weight enumeration value: the weight of the layer.
pub const WEIGHT_BY_LAYER: i16 = -2;

/// Line weight enumeration value: the weight of the insert that brings the block in.
pub const WEIGHT_BY_BLOCK: i16 = -1;

/// Reserved line weight for solid fills, which have no outline.
pub const WEIGHT_SOLID: i16 = i16::MIN;

/// Color number: the color of the insert that brings the block in.
pub const COLOR_BY_BLOCK: i16 = 0;

/// Color number: the color of the layer.
pub const COLOR_BY_LAYER: i16 = 256;

/// Color number: the 24 bit color of the entity.
pub const COLOR_BY_ENTITY: i16 = 257;

/// The color number that [`recover_color_enum`] gives: that of the color itself where
/// it is an index or a reference to the layer, the block or the entity, else -1.
pub open spec fn color_enum(c: dxf::Color) -> i16 {
    if 0 <= color_value(c) <= 257 {
        color_value(c)
    } else {
        -1i16
    }
}

/// Recover the color enum value from a [`dxf::Color`], which does not tell it.
pub fn recover_color_enum(c: &dxf::Color) -> (r: i16)
    ensures
        r == color_enum(*c),
{
    if c.is_by_layer() {
        COLOR_BY_LAYER
    } else if c.is_by_entity() {
        COLOR_BY_ENTITY
    } else if c.is_by_block() {
        COLOR_BY_BLOCK
    } else if let Some(index) = c.index() {
        index as i16
    } else {
        -1
    }
}

/// A color with separate alpha.
#[derive(Debug, Clone, Copy, PartialEq, Eq, Structural)]
pub struct Rgba8 {
    pub r: u8,
    pub g: u8,
    pub b: u8,
    pub a: u8,
}

/// The color, red in the top byte and alpha in the lowest, that `packed` stands for.
pub open spec fn unpacked(packed: u32) -> Rgba8 {
    Rgba8 {
        r: (packed / 0x100_0000) as u8,
        g: (packed / 0x1_0000 % 0x100) as u8,
        b: (packed / 0x100 % 0x100) as u8,
        a: (packed % 0x100) as u8,
    }
}

/// Take a packed color apart.
pub fn unpack_color(packed: u32) -> (color: Rgba8)
    ensures
        color == unpacked(packed),
{
    assert(packed >> 24 == packed / 0x100_0000 && packed >> 16 == packed / 0x1_0000 && packed >> 8
        == packed / 0x100) by (bit_vector);
    let top: u32 = packed >> 24;
    let high: u32 = packed >> 16;
    let low: u32 = packed >> 8;
    assert(top & 0xFF == top % 0x100 && high & 0xFF == high % 0x100 && low & 0xFF == low % 0x100
        && packed & 0xFF == packed % 0x100) by (bit_vector);
    Rgba8 {
        r: (top & 0xFF) as u8,
        g: (high & 0xFF) as u8,
        b: (low & 0xFF) as u8,
        a: (packed & 0xFF) as u8,
    }
}

/// The color without alpha that color number `c` means for an entity.
///
/// Numbers that mean nothing there, and layers without an index color, give white.
pub open spec fn opaque_color(entity: EntityCommon, layer: Layer, aci: Seq<u32>, c: i16) -> int {
    if c == COLOR_BY_ENTITY {
        entity.color_24_bit as int % 0x1_0000_0000
    } else if c == COLOR_BY_LAYER {
        if 1 <= color_value(layer.color) <= 255 {
            aci[color_value(layer.color) as int] as int
        } else {
            u32::MAX as int
        }
    } else if 1 <= c <= 255 {
        aci[c as int] as int
    } else {
        u32::MAX as int
    }
}

/// The packed color that color number `c` means for an entity: the lower 24 bits of
/// the opaque color, then the alpha that the transparency's lowest byte leaves.
pub open spec fn packed_color(entity: EntityCommon, layer: Layer, aci: Seq<u32>, c: i16) -> int {
    opaque_color(entity, layer, aci, c) % 0x100_0000 * 0x100 + (0xFF - entity.transparency as int
        % 0x100)
}

/// Resolve color number `c` for an entity to a packed color.
///
/// * `aci` is the color index palette.
pub fn resolve_color(entity: &EntityCommon, layer: &Layer, aci: &[u32; 256], c: i16) -> (packed:
    u32)
    ensures
        packed == packed_color(*entity, *layer, aci@, c),
{
    let opaque: u32 = if c == COLOR_BY_ENTITY {
        let signed: i32 = entity.color_24_bit;
        assert(signed < 0 ==> signed as u32 == signed + 0x1_0000_0000) by (bit_vector);
        signed as u32
    } else if c == COLOR_BY_LAYER {
        if let Some(i) = layer.color.index() {
            aci[i as usize]
        } else {
            u32::MAX
        }
    } else if 1 <= c && c <= 255 {
        aci[c as usize]
    } else {
        u32::MAX
    };
    let signed: i32 = entity.transparency;
    let transparency: u32 = signed as u32;
    proof {
        assert(signed < 0 ==> signed as u32 == signed + 0x1_0000_0000) by (bit_vector);
        assert(transparency as int == signed as int % 0x1_0000_0000);
        assert(transparency & 0xFF == transparency % 0x100) by (bit_vector);
        assert((signed as int % 0x1_0000_0000) % 0x100 == signed as int % 0x100);
        let byte = transparency & 0xFF;
        let alpha = (0xFF - byte) as u32;
        assert((opaque << 8) | alpha == (opaque % 0x100_0000) * 0x100 + alpha) by (bit_vector)
            requires
                alpha <= 0xFF,
        ;
    }
    (opaque << 8) | (0xFF - (transparency & 0xFF))
}

/// The line width that line weight `lw` means for an entity, in iota.
///
/// Weights count hundredths of a millimeter, in 64 bits. The default is a quarter of
/// a millimeter; a layer can only override it with a positive weight.
pub open spec fn line_width(layer: Layer, lw: i16) -> int {
    if lw == WEIGHT_DEFAULT || lw == WEIGHT_BY_BLOCK {
        250int * 9000
    } else if lw == WEIGHT_BY_LAYER {
        if line_weight_value(layer.line_weight) <= 0 {
            250int * 9000
        } else {
            line_weight_value(layer.line_weight) * 10 * 9000
        }
    } else {
        (lw * 10 * 9000) % 0x1_0000_0000_0000_0000
    }
}

/// Resolve line weight `lw` for an entity to a width in iota.
pub fn resolve_line_width(layer: &Layer, lw: i16) -> (width: u64)
    ensures
        width == line_width(*layer, lw),
{
    let unit: u64 = 10 * micrometer();
    let default: u64 = 250 * micrometer();
    if lw == WEIGHT_DEFAULT || lw == WEIGHT_BY_BLOCK {
        default
    } else if lw == WEIGHT_BY_LAYER {
        let of_layer: i16 = layer.line_weight.raw_value();
        if of_layer <= 0 {
            default
        } else {
            of_layer as u64 * unit
        }
    } else {
        assert(lw < 0 ==> lw as u64 == lw + 0x1_0000_0000_0000_0000) by (bit_vector);
        let count: u64 = lw as u64;
        proof {
            let full: int = 0x1_0000_0000_0000_0000;
            if lw < 0 {
                assert(count * unit == lw * 90000 + 90000 * full);
                vstd::arithmetic::div_mod::lemma_mod_multiples_vanish(90000, lw * 90000, full);
            }
        }
        count.wrapping_mul(unit)
    }
}

/// The alpha of a color depends on the transparency alone, and the rest of it not at
/// all on the transparency.
pub proof fn law_alpha_is_separate(
    a: EntityCommon,
    b: EntityCommon,
    layer: Layer,
    aci: Seq<u32>,
    c: i16,
)
    requires
        aci.len() == 256,
        a.color_24_bit == b.color_24_bit,
    ensures
        0 <= packed_color(a, layer, aci, c) <= u32::MAX,
        packed_color(a, layer, aci, c) / 0x100 == packed_color(b, layer, aci, c) / 0x100,
        packed_color(a, layer, aci, c) % 0x100 == 0xFF - a.transparency as int % 0x100,
{
}

} // verus!
