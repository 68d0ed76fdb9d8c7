//! Drawings that come in shared buffers.

use tabulon::drawing::{
    BlockDefinitionBuf, BrushBuf, CompatDrawing, CoordinateSpace, Drawing, EntityBuf, FatString,
    LineWeightBuf, ParamBuf, StringsBuf, Vec2Buf,
};
use tabulon::drawing_types::{
    BlockDefinition, Brush, BrushHandle, Entity, LineWeightHandle, Triangle, Vec2,
};
use tabulon::number::Real;

fn num(x: f64) -> Real {
    Real::from_bits(x.to_bits())
}

fn fat(bytes: &[u8], len: u32) -> FatString {
    FatString { data: bytes.to_vec(), len }
}

fn sample() -> CompatDrawing {
    let point = Vec2 { x: num(1.0), y: num(2.0) };
    let solid = Entity::SolidTriangle { paint: BrushHandle(0), triangle: Triangle([0, 1, 2]) };
    let line = Entity::LineSegment {
        paint: BrushHandle(1),
        weight: LineWeightHandle(0),
        a: 3,
        b: 4,
    };
    CompatDrawing {
        strings: StringsBuf {
            data: vec![
                fat(b"door", 4),
                fat(b"windowed", 6),
                fat(b"", 0),
                fat(&[b'a', 0xFF, b'b'], 3),
                fat(b"unread", 6),
            ],
            len: 4,
        },
        entities: EntityBuf { data: vec![solid, line], len: 2 },
        blocks: BlockDefinitionBuf {
            data: vec![BlockDefinition {
                name: 0,
                base_point: point,
                first_entity: 0,
                last_entity: 1,
            }],
            len: 1,
        },
        params: ParamBuf { data: vec![num(0.5), num(0.25)], len: 1 },
        points: Vec2Buf { data: vec![point, point, point], len: 2 },
        brushes: BrushBuf { data: vec![Brush::Rgba([1, 2, 3, 4]), Brush::Index(7)], len: 2 },
        line_weights: LineWeightBuf { data: vec![25, 50, 70], len: 0 },
        first_drawing_entity: 1,
        world_coordinate_space: CoordinateSpace::Inch,
    }
}

#[test]
fn only_what_counts_is_taken_over() {
    let compat = sample();
    let drawing = Drawing::from(&compat);
    assert_eq!(drawing.entities, compat.entities.data);
    assert_eq!(drawing.blocks, compat.blocks.data);
    assert_eq!(drawing.params, vec![num(0.5)]);
    assert_eq!(drawing.points.len(), 2);
    assert_eq!(drawing.brushes, compat.brushes.data);
    assert_eq!(drawing.line_weights, Vec::<u32>::new());
    assert_eq!(drawing.first_drawing_entity, 1);
    assert_eq!(drawing.world_coordinate_space, CoordinateSpace::Inch);
}

#[test]
fn strings_are_decoded_leniently() {
    let drawing = Drawing::from(&sample());
    assert_eq!(drawing.strings, vec!["door", "window", "", "a\u{FFFD}b"]);
}

#[test]
fn multibyte_strings_are_decoded() {
    let mut compat = sample();
    let text = "Höhe ∅ 3";
    compat.strings = StringsBuf { data: vec![fat(text.as_bytes(), text.len() as u32)], len: 1 };
    assert_eq!(Drawing::from(&compat).strings, vec![text]);
}

#[test]
fn the_default_space_is_iota() {
    assert_eq!(CoordinateSpace::default(), CoordinateSpace::Iota);
}
