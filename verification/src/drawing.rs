//! Whole drawings, and the buffers they cross a foreign-function boundary in.
//!
//! A buffer is the memory that its owner shares, together with the number of
//! elements in it that count. Only that many are ever read.

use vstd::prelude::*;
use vstd::utf8::{decode_utf8, valid_utf8};

use crate::drawing_types::{BlockDefinition, Brush, Entity, Vec2};
use crate::number::Real;

verus! {

/// Point buffer.
#[derive(Debug, Clone)]
pub struct Vec2Buf {
    pub data: Vec<Vec2>,
    pub len: u32,
}

/// Entity buffer.
#[derive(Debug, Clone)]
pub struct EntityBuf {
    pub data: Vec<Entity>,
    pub len: u32,
}

/// Brush buffer.
#[derive(Debug, Clone)]
pub struct BrushBuf {
    pub data: Vec<Brush>,
    pub len: u32,
}

/// Line weight buffer.
#[derive(Debug, Clone)]
pub struct LineWeightBuf {
    pub data: Vec<u32>,
    pub len: u32,
}

/// Parameter buffer.
#[derive(Debug, Clone)]
pub struct ParamBuf {
    pub data: Vec<Real>,
    pub len: u32,
}

/// String data that is not terminated and need not be valid UTF-8.
#[derive(Debug, Clone)]
pub struct FatString {
    /// Bytes of the string.
    pub data: Vec<u8>,
    /// The length of the string data.
    pub len: u32,
}

/// Strings buffer.
#[derive(Debug, Clone)]
pub struct StringsBuf {
    pub data: Vec<FatString>,
    pub len: u32,
}

/// Block definition buffer.
#[derive(Debug, Clone)]
pub struct BlockDefinitionBuf {
    pub data: Vec<BlockDefinition>,
    pub len: u32,
}

/// Coordinate space.
#[derive(Clone, Copy, Debug, PartialEq, Eq, Structural)]
pub enum CoordinateSpace {
    /// Iota, one ninth of a nanometer.
    Iota,
    /// Meters.
    Meter,
    /// Inches,
    Inch,
    /// Drawing has absurd units (angstroms, lightyears, etc.) or is unitless.
    AbsurdOrUnitless,
}

impl Default for CoordinateSpace {
    fn default() -> (s: CoordinateSpace)
        ensures
            s == CoordinateSpace::Iota,
    {
        CoordinateSpace::Iota
    }
}

/// A drawing in buffers that are managed from outside.
#[derive(Debug, Clone)]
pub struct CompatDrawing {
    /// Buffer of extent strings.
    pub strings: StringsBuf,
    /// Buffer of [`Entity`].
    pub entities: EntityBuf,
    /// Buffer of [`BlockDefinition`].
    pub blocks: BlockDefinitionBuf,
    /// Buffer of parameters.
    pub params: ParamBuf,
    /// Buffer of points.
    pub points: Vec2Buf,
    /// Buffer of [`Brush`].
    pub brushes: BrushBuf,
    /// Buffer of line weights.
    pub line_weights: LineWeightBuf,
    /// Index of the first entity in the drawing (not block definitions).
    pub first_drawing_entity: u32,
    /// World coordinate space.
    pub world_coordinate_space: CoordinateSpace,
}

/// Drawing.
///
/// This is the owned equivalent of [`CompatDrawing`].
#[derive(Clone, Debug)]
pub struct Drawing {
    /// Strings indexed by string id.
    pub strings: Vec<String>,
    /// Entities.
    pub entities: Vec<Entity>,
    /// Block definitions.
    pub blocks: Vec<BlockDefinition>,
    /// Parameters.
    pub params: Vec<Real>,
    /// Points.
    pub points: Vec<Vec2>,
    /// Brushes.
    pub brushes: Vec<Brush>,
    /// Line weights.
    pub line_weights: Vec<u32>,
    /// Index of the first entity in the drawing (not block definitions).
    pub first_drawing_entity: u32,
    /// World coordinate space.
    pub world_coordinate_space: CoordinateSpace,
}

impl FatString {
    /// The bytes that count.
    pub open spec fn bytes(self) -> Seq<u8> {
        self.data@.take(self.len as int)
    }

    /// Whether the shared memory holds as many bytes as the string says.
    pub open spec fn readable(self) -> bool {
        self.len <= self.data@.len()
    }
}

impl CompatDrawing {
    /// Whether every buffer, and every string, holds as much as it says.
    pub open spec fn readable(self) -> bool {
        &&& self.strings.len <= self.strings.data@.len()
        &&& forall|i: int|
            0 <= i < self.strings.len ==> (#[trigger] self.strings.data@[i]).readable()
        &&& self.entities.len <= self.entities.data@.len()
        &&& self.blocks.len <= self.blocks.data@.len()
        &&& self.params.len <= self.params.data@.len()
        &&& self.points.len <= self.points.data@.len()
        &&& self.brushes.len <= self.brushes.data@.len()
        &&& self.line_weights.len <= self.line_weights.data@.len()
    }
}

/// The text that a lenient UTF-8 decoder makes of `bytes`, with replacement
/// characters where they are malformed.
pub uninterp spec fn lossy_text(bytes: Seq<u8>) -> Seq<char>;

/// `String::from_utf8_lossy`, made owned.
///
/// Trusted: the text depends on the bytes alone, and bytes that are valid UTF-8 are
/// decoded as they stand.
#[verifier::external_body]
fn text_from_utf8_lossy(bytes: &Vec<u8>) -> (s: String)
    ensures
        s@ == lossy_text(bytes@),
        valid_utf8(bytes@) ==> s@ == decode_utf8(bytes@),
{
    String::from_utf8_lossy(bytes).into_owned()
}

/// A copy of the first `n` elements.
fn first_of<T: Copy>(data: &Vec<T>, n: u32) -> (out: Vec<T>)
    requires
        n <= data@.len(),
    ensures
        out@ == data@.take(n as int),
{
    let mut out: Vec<T> = Vec::new();
    let mut i: usize = 0;
    while i < n as usize
        invariant
            i <= n <= data@.len(),
            out@ == data@.take(i as int),
        decreases n - i,
    {
        out.push(data[i]);
        i = i + 1;
        assert(out@ =~= data@.take(i as int));
    }
    out
}

impl Drawing {
    /// Whether this drawing has what counts in the buffers of `d`, and nothing else.
    pub open spec fn is_taken_over_from(self, d: CompatDrawing) -> bool {
        &&& self.strings@.len() == d.strings.len
        &&& forall|i: int|
            0 <= i < d.strings.len ==> (#[trigger] self.strings@[i])@ == lossy_text(
                d.strings.data@[i].bytes(),
            )
        &&& self.entities@ == d.entities.data@.take(d.entities.len as int)
        &&& self.blocks@ == d.blocks.data@.take(d.blocks.len as int)
        &&& self.params@ == d.params.data@.take(d.params.len as int)
        &&& self.points@ == d.points.data@.take(d.points.len as int)
        &&& self.brushes@ == d.brushes.data@.take(d.brushes.len as int)
        &&& self.line_weights@ == d.line_weights.data@.take(d.line_weights.len as int)
        &&& self.first_drawing_entity == d.first_drawing_entity
        &&& self.world_coordinate_space == d.world_coordinate_space
    }

    /// Take a drawing over from the buffers that another owner manages.
    pub fn from(d: &CompatDrawing) -> (drawing: Drawing)
        requires
            d.readable(),
        ensures
            drawing.strings@.len() == d.strings.len,
            forall|i: int|
                0 <= i < d.strings.len ==> (#[trigger] drawing.strings@[i])@ == lossy_text(
                    d.strings.data@[i].bytes(),
                ),
            forall|i: int|
                0 <= i < d.strings.len && valid_utf8(d.strings.data@[i].bytes()) ==> (
                #[trigger] drawing.strings@[i])@ == decode_utf8(d.strings.data@[i].bytes()),
            drawing.entities@ == d.entities.data@.take(d.entities.len as int),
            drawing.blocks@ == d.blocks.data@.take(d.blocks.len as int),
            drawing.params@ == d.params.data@.take(d.params.len as int),
            drawing.points@ == d.points.data@.take(d.points.len as int),
            drawing.brushes@ == d.brushes.data@.take(d.brushes.len as int),
            drawing.line_weights@ == d.line_weights.data@.take(d.line_weights.len as int),
            drawing.first_drawing_entity == d.first_drawing_entity,
            drawing.world_coordinate_space == d.world_coordinate_space,
            drawing.is_taken_over_from(*d),
    {
        let mut strings: Vec<String> = Vec::new();
        let mut i: usize = 0;
        while i < d.strings.len as usize
            invariant
                d.readable(),
                i <= d.strings.len,
                strings@.len() == i,
                forall|j: int|
                    0 <= j < i ==> (#[trigger] strings@[j])@ == lossy_text(
                        d.strings.data@[j].bytes(),
                    ),
                forall|j: int|
                    0 <= j < i && valid_utf8(d.strings.data@[j].bytes()) ==> (
                    #[trigger] strings@[j])@ == decode_utf8(d.strings.data@[j].bytes()),
            decreases d.strings.len - i,
        {
            let s: &FatString = &d.strings.data[i];
            assert(d.strings.data@[i as int].readable());
            let bytes: Vec<u8> = first_of(&s.data, s.len);
            strings.push(text_from_utf8_lossy(&bytes));
            i = i + 1;
        }
        Drawing {
            strings,
            entities: first_of(&d.entities.data, d.entities.len),
            blocks: first_of(&d.blocks.data, d.blocks.len),
            params: first_of(&d.params.data, d.params.len),
            points: first_of(&d.points.data, d.points.len),
            brushes: first_of(&d.brushes.data, d.brushes.len),
            line_weights: first_of(&d.line_weights.data, d.line_weights.len),
            first_drawing_entity: d.first_drawing_entity,
            world_coordinate_space: d.world_coordinate_space,
        }
    }
}

} // verus!
