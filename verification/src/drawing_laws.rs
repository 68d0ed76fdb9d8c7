//! What a drawing takes over from the buffers of another owner.

use vstd::prelude::*;

#[allow(unused_imports)]
use crate::drawing::{lossy_text, CompatDrawing, Drawing};

verus! {

/// A drawing has as many elements as the buffers say, each in its place.
pub proof fn law_drawings_have_what_counts(drawing: Drawing, d: CompatDrawing, i: int)
    requires
        d.readable(),
        drawing.is_taken_over_from(d),
        0 <= i,
    ensures
        drawing.strings@.len() == d.strings.len,
        drawing.entities@.len() == d.entities.len,
        drawing.blocks@.len() == d.blocks.len,
        drawing.params@.len() == d.params.len,
        drawing.points@.len() == d.points.len,
        drawing.brushes@.len() == d.brushes.len,
        drawing.line_weights@.len() == d.line_weights.len,
        i < d.entities.len ==> drawing.entities@[i] == d.entities.data@[i],
        i < d.blocks.len ==> drawing.blocks@[i] == d.blocks.data@[i],
        i < d.params.len ==> drawing.params@[i] == d.params.data@[i],
        i < d.points.len ==> drawing.points@[i] == d.points.data@[i],
        i < d.brushes.len ==> drawing.brushes@[i] == d.brushes.data@[i],
        i < d.line_weights.len ==> drawing.line_weights@[i] == d.line_weights.data@[i],
        drawing.first_drawing_entity == d.first_drawing_entity,
        drawing.world_coordinate_space == d.world_coordinate_space,
{
}

/// A string of a drawing is the text of its bytes, as many as it says and no more.
pub proof fn law_strings_have_the_bytes_that_count(
    drawing: Drawing,
    d: CompatDrawing,
    i: int,
    bytes: Seq<u8>,
)
    requires
        d.readable(),
        drawing.is_taken_over_from(d),
        0 <= i < d.strings.len,
        bytes.len() == d.strings.data@[i].len,
        forall|j: int|
            0 <= j < bytes.len() ==> #[trigger] bytes[j] == d.strings.data@[i].data@[j],
    ensures
        drawing.strings@[i]@ == lossy_text(bytes),
{
    assert(d.strings.data@[i].readable());
    assert(d.strings.data@[i].bytes() =~= bytes);
}

} // verus!
