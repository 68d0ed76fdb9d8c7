//! What the chunks of a block look like: where line weights and colors come from, and
//! where inserts put the chunks of other blocks.

use vstd::prelude::*;

#[allow(unused_imports)]
use crate::block_laws::{
    block_part, chunk_holds, chunks_hold, entity_style, law_blocks_lose_no_mark,
    leaves_mark_in_block, lemma_array_placed, placed_by,
};
#[allow(unused_imports)]
use crate::blocks::{
    arrayed, arrayed_row, block_chunks, block_step, block_walk, last_layer_named, last_layer_with,
    layer_for, placed_chunk, placed_chunks, placed_path, BlockState, ChunkView, EntityRef,
    LoadError, PartView, Placement,
};
#[allow(unused_imports)]
use crate::color::{color_value, line_weight_value};
#[allow(unused_imports)]
use crate::dxf_file::{DxfDrawing, DxfEntity, EntityType, Insert, Layer};
#[allow(unused_imports)]
use crate::path::{faces_viewer, outline, traceable};

verus! {

/// Whether layer `l` is the one that `name` stands for: the last with the handle of the
/// last one with the name.
pub open spec fn is_layer_for(layers: Seq<Layer>, name: Seq<char>, l: int) -> bool {
    exists|i: int| #[trigger]
        is_last_named(layers, name, i) && is_last_with(layers, layers[i].handle, l)
}

/// Whether layer `i` has this name, and no later one has.
pub open spec fn is_last_named(layers: Seq<Layer>, name: Seq<char>, i: int) -> bool {
    &&& 0 <= i < layers.len()
    &&& layers[i].name@ == name
    &&& forall|j: int| i < j < layers.len() ==> (#[trigger] layers[j]).name@ != name
}

/// Whether layer `i` has this handle, and no later one has.
pub open spec fn is_last_with(layers: Seq<Layer>, handle: u64, i: int) -> bool {
    &&& 0 <= i < layers.len()
    &&& layers[i].handle == handle
    &&& forall|j: int| i < j < layers.len() ==> (#[trigger] layers[j]).handle != handle
}

proof fn lemma_finds_last_named(layers: Seq<Layer>, name: Seq<char>, i: int, n: int)
    requires
        is_last_named(layers, name, i),
        i < n <= layers.len(),
    ensures
        last_layer_named(layers, name, n) == Some(i),
    decreases n,
{
    if n - 1 > i {
        assert(layers[n - 1].name@ != name);
        lemma_finds_last_named(layers, name, i, n - 1);
    }
}

pub(crate) proof fn lemma_finds_last_with(layers: Seq<Layer>, handle: u64, i: int, n: int)
    requires
        is_last_with(layers, handle, i),
        i < n <= layers.len(),
    ensures
        last_layer_with(layers, handle, n) == Some(i),
    decreases n,
{
    if n - 1 > i {
        assert(layers[n - 1].handle != handle);
        lemma_finds_last_with(layers, handle, i, n - 1);
    }
}

proof fn lemma_finds_no_name(layers: Seq<Layer>, name: Seq<char>, n: int)
    requires
        n <= layers.len(),
        forall|j: int| 0 <= j < layers.len() ==> (#[trigger] layers[j]).name@ != name,
    ensures
        last_layer_named(layers, name, n) is None,
    decreases n,
{
    if n > 0 {
        assert(layers[n - 1].name@ != name);
        lemma_finds_no_name(layers, name, n - 1);
    }
}

/// A name stands for the last layer with the handle of the last layer with the name, and
/// for nothing if no layer has the name.
pub proof fn law_names_stand_for_layers(layers: Seq<Layer>, name: Seq<char>, l: int)
    ensures
        is_layer_for(layers, name, l) ==> layer_for(layers, name) == Some(l),
        (forall|j: int| 0 <= j < layers.len() ==> (#[trigger] layers[j]).name@ != name)
            ==> layer_for(layers, name) is None,
{
    if is_layer_for(layers, name, l) {
        let i = choose|i: int| #[trigger]
            is_last_named(layers, name, i) && is_last_with(layers, layers[i].handle, l);
        lemma_finds_last_named(layers, name, i, layers.len() as int);
        lemma_finds_last_with(layers, layers[i].handle, l, layers.len() as int);
    }
    if forall|j: int| 0 <= j < layers.len() ==> (#[trigger] layers[j]).name@ != name {
        lemma_finds_no_name(layers, name, layers.len() as int);
    }
}

/// Whether every part of a path that no insert brought in is the outline of an entity of
/// block `b` with this line weight and color.
spec fn own_parts_have(d: DxfDrawing, b: int, path: Seq<PartView>, style: (i16, i16)) -> bool {
    forall|k: int|
        0 <= k < path.len() && (#[trigger] path[k]).placements.len() == 0 ==> exists|i: int|
            0 <= i < d.blocks@[b].entities@.len() && path[k] == #[trigger] block_part(b, i)
                && entity_style(d, b, i) == style
}

spec fn chunk_is_styled(d: DxfDrawing, b: int, chunk: ChunkView) -> bool {
    own_parts_have(d, b, chunk.path, (chunk.line_weight, chunk.color))
}

spec fn chunks_are_styled(d: DxfDrawing, b: int, chunks: Seq<ChunkView>) -> bool {
    forall|k: int| 0 <= k < chunks.len() ==> #[trigger] chunk_is_styled(d, b, chunks[k])
}

proof fn lemma_cut_is_styled(d: DxfDrawing, b: int, st: BlockState, style: (i16, i16))
    requires
        chunks_are_styled(d, b, st.chunks),
        own_parts_have(d, b, st.lines, st.style),
    ensures
        chunks_are_styled(d, b, st.cut(style).chunks),
        own_parts_have(d, b, st.cut(style).lines, style),
{
    let chunks = st.cut(style).chunks;
    assert forall|k: int| 0 <= k < chunks.len() implies #[trigger] chunk_is_styled(
        d,
        b,
        chunks[k],
    ) by {
        if k < st.chunks.len() {
            assert(chunks[k] == st.chunks[k]);
            assert(chunk_is_styled(d, b, st.chunks[k]));
        } else {
            assert(chunks[k] == st.current());
            assert((st.current().line_weight, st.current().color) == st.style);
        }
    }
}

proof fn lemma_walk_is_styled(
    d: DxfDrawing,
    b: int,
    resolved: Map<Seq<char>, Seq<ChunkView>>,
    n: int,
)
    requires
        0 <= n <= d.blocks@[b].entities@.len(),
    ensures
        block_walk(d, b, resolved, n) matches Ok(Some(st)) ==> chunks_are_styled(d, b, st.chunks)
            && own_parts_have(d, b, st.lines, st.style),
    decreases n,
{
    if n > 0 && (block_walk(d, b, resolved, n) matches Ok(Some(_))) {
        lemma_walk_is_styled(d, b, resolved, n - 1);
        let before = block_walk(d, b, resolved, n - 1)->Ok_0->Some_0;
        let st = block_walk(d, b, resolved, n)->Ok_0->Some_0;
        let e = d.blocks@[b].entities@[n - 1];
        let at = EntityRef { block: Some(b as usize), entity: (n - 1) as usize };
        let style = entity_style(d, b, n - 1);
        lemma_cut_is_styled(d, b, before, style);
        let st1 = if style != before.style {
            before.cut(style)
        } else {
            before
        };
        match e.specific {
            EntityType::Insert(insert) => {
                if faces_viewer(insert.extrusion_direction) {
                    lemma_cut_is_styled(d, b, st1, style);
                    let st2 = if st1.marked {
                        st1.cut(style)
                    } else {
                        st1
                    };
                    let all = placed_chunks(resolved[insert.name@], style, at, insert);
                    assert forall|k: int| 0 <= k < st.chunks.len() implies #[trigger] chunk_is_styled(
                        d,
                        b,
                        st.chunks[k],
                    ) by {
                        if k < st2.chunks.len() {
                            assert(st.chunks[k] == st2.chunks[k]);
                            assert(chunk_is_styled(d, b, st2.chunks[k]));
                        } else {
                            let c = resolved[insert.name@][k - st2.chunks.len()];
                            assert(st.chunks[k] == all[k - st2.chunks.len()]);
                            assert(st.chunks[k] == placed_chunk(c, style, at, insert));
                            lemma_array_placed(
                                c.path,
                                at,
                                insert.row_count as int,
                                insert.column_count as int,
                            );
                            let path = st.chunks[k].path;
                            assert forall|m: int| 0 <= m < path.len() implies (
                            #[trigger] path[m]).placements.len() > 0 by {
                                assert(placed_by(path[m], at));
                            }
                        }
                    }
                }
            },
            _ => {
                if outline(e.specific) is Some {
                    assert forall|k: int|
                        0 <= k < st.lines.len() && (#[trigger] st.lines[k]).placements.len()
                            == 0 implies exists|i: int|
                        0 <= i < d.blocks@[b].entities@.len() && st.lines[k]
                            == #[trigger] block_part(b, i) && entity_style(d, b, i)
                            == st.style by {
                        if k < st1.lines.len() {
                            assert(st.lines[k] == st1.lines[k]);
                        } else {
                            assert(st.lines[k] == block_part(b, n - 1));
                        }
                    }
                }
            },
        }
    }
}

/// Every chunk that holds the outline of an entity of the block has the line weight and
/// the color of that entity.
proof fn lemma_chunks_have_their_style(
    d: DxfDrawing,
    b: int,
    resolved: Map<Seq<char>, Seq<ChunkView>>,
    chunks: Seq<ChunkView>,
    k: int,
    i: int,
)
    requires
        0 <= b < d.blocks@.len(),
        0 <= i < d.blocks@[b].entities@.len(),
        block_chunks(d, b, resolved) == Ok::<_, LoadError>(Some(chunks)),
        0 <= k < chunks.len(),
        chunks[k].path.contains(block_part(b, i)),
    ensures
        entity_style(d, b, i) == (chunks[k].line_weight, chunks[k].color),
{
    let n = d.blocks@[b].entities@.len() as int;
    lemma_walk_is_styled(d, b, resolved, n);
    let st = block_walk(d, b, resolved, n)->Ok_0->Some_0;
    lemma_cut_is_styled(d, b, st, st.style);
    assert(chunks_are_styled(d, b, chunks));
    assert(chunk_is_styled(d, b, chunks[k]));
    let path = chunks[k].path;
    let m = choose|m: int| 0 <= m < path.len() && path[m] == block_part(b, i);
    assert(path[m].placements.len() == 0);
    let j = choose|j: int|
        0 <= j < d.blocks@[b].entities@.len() && path[m] == #[trigger] block_part(b, j)
            && entity_style(d, b, j) == (chunks[k].line_weight, chunks[k].color);
    assert(d.blocks@[b].entities.len() == n);
    assert(block_part(b, i).source.entity == i as usize);
    assert(block_part(b, j).source.entity == j as usize);
    assert(i == j);
}

/// An outline of a block is stroked with the line weight that its entity asks for. By
/// layer, that is the weight of the layer, or a quarter of a millimeter where the layer
/// gives none; solids have a weight of their own.
///
/// What leaves a mark is in such a chunk, and in no chunk with another weight.
pub proof fn law_block_weights_come_from_entity_or_layer(
    d: DxfDrawing,
    b: int,
    resolved: Map<Seq<char>, Seq<ChunkView>>,
    chunks: Seq<ChunkView>,
    i: int,
    l: int,
)
    requires
        0 <= b < d.blocks@.len(),
        0 <= i < d.blocks@[b].entities@.len(),
        block_chunks(d, b, resolved) == Ok::<_, LoadError>(Some(chunks)),
        is_layer_for(d.layers@, d.blocks@[b].entities@[i].common.layer@, l),
    ensures
        leaves_mark_in_block(d, b, i) ==> exists|k: int|
            0 <= k < chunks.len() && (#[trigger] chunks[k]).path.contains(block_part(b, i)),
        forall|k: int|
            0 <= k < chunks.len() && (#[trigger] chunks[k]).path.contains(block_part(b, i)) ==> {
                let e = d.blocks@[b].entities@[i];
                let of_entity = e.common.lineweight_enum_value;
                let of_layer = line_weight_value(d.layers@[l].line_weight);
                let weight = chunks[k].line_weight;
                &&& e.specific is Solid ==> weight == -32768
                &&& !(e.specific is Solid) && of_entity != -2 ==> weight == of_entity
                &&& !(e.specific is Solid) && of_entity == -2 && of_layer >= 0 ==> weight
                    == of_layer
                &&& !(e.specific is Solid) && of_entity == -2 && of_layer < 0 ==> weight == 25
            },
{
    law_names_stand_for_layers(d.layers@, d.blocks@[b].entities@[i].common.layer@, l);
    if leaves_mark_in_block(d, b, i) {
        law_blocks_lose_no_mark(d, b, resolved, i);
        let k = choose|k: int|
            0 <= k < chunks.len() && #[trigger] chunk_holds(
                chunks[k],
                block_part(b, i),
                entity_style(d, b, i),
            );
        assert(chunks[k].path.contains(block_part(b, i)));
    }
    assert forall|k: int|
        0 <= k < chunks.len() && (#[trigger] chunks[k]).path.contains(
            block_part(b, i),
        ) implies entity_style(d, b, i) == (chunks[k].line_weight, chunks[k].color) by {
        lemma_chunks_have_their_style(d, b, resolved, chunks, k, i);
    }
}

/// An outline of a block has the color number that its entity asks for. By layer, that is
/// the index of the layer's color, or white where the layer has none.
pub proof fn law_block_colors_come_from_entity_or_layer(
    d: DxfDrawing,
    b: int,
    resolved: Map<Seq<char>, Seq<ChunkView>>,
    chunks: Seq<ChunkView>,
    i: int,
    l: int,
    k: int,
)
    requires
        0 <= b < d.blocks@.len(),
        0 <= i < d.blocks@[b].entities@.len(),
        block_chunks(d, b, resolved) == Ok::<_, LoadError>(Some(chunks)),
        is_layer_for(d.layers@, d.blocks@[b].entities@[i].common.layer@, l),
        0 <= k < chunks.len(),
        chunks[k].path.contains(block_part(b, i)),
    ensures
        ({
            let of_entity = color_value(d.blocks@[b].entities@[i].common.color);
            let of_layer = color_value(d.layers@[l].color);
            let color = chunks[k].color;
            &&& of_entity == 256 && 1 <= of_layer <= 255 ==> color == of_layer
            &&& of_entity == 256 && !(1 <= of_layer <= 255) ==> color == 7
            &&& of_entity != 256 && 0 <= of_entity <= 257 ==> color == of_entity
            &&& !(0 <= of_entity <= 257) ==> color == -1
        }),
{
    law_names_stand_for_layers(d.layers@, d.blocks@[b].entities@[i].common.layer@, l);
    lemma_chunks_have_their_style(d, b, resolved, chunks, k, i);
}

/// Entities of a block by layer on layers with different weights are in chunks with
/// different weights.
pub proof fn law_layers_tell_block_weights_apart(
    d: DxfDrawing,
    b: int,
    resolved: Map<Seq<char>, Seq<ChunkView>>,
    chunks: Seq<ChunkView>,
    i: int,
    l: int,
    k: int,
    other: int,
    other_l: int,
    other_k: int,
)
    requires
        0 <= b < d.blocks@.len(),
        0 <= i < d.blocks@[b].entities@.len(),
        0 <= other < d.blocks@[b].entities@.len(),
        block_chunks(d, b, resolved) == Ok::<_, LoadError>(Some(chunks)),
        is_layer_for(d.layers@, d.blocks@[b].entities@[i].common.layer@, l),
        is_layer_for(d.layers@, d.blocks@[b].entities@[other].common.layer@, other_l),
        !(d.blocks@[b].entities@[i].specific is Solid),
        !(d.blocks@[b].entities@[other].specific is Solid),
        d.blocks@[b].entities@[i].common.lineweight_enum_value == -2,
        d.blocks@[b].entities@[other].common.lineweight_enum_value == -2,
        line_weight_value(d.layers@[l].line_weight) >= 0,
        line_weight_value(d.layers@[other_l].line_weight) >= 0,
        line_weight_value(d.layers@[l].line_weight) != line_weight_value(
            d.layers@[other_l].line_weight,
        ),
        0 <= k < chunks.len(),
        chunks[k].path.contains(block_part(b, i)),
        0 <= other_k < chunks.len(),
        chunks[other_k].path.contains(block_part(b, other)),
    ensures
        chunks[k].line_weight != chunks[other_k].line_weight,
{
    law_block_weights_come_from_entity_or_layer(d, b, resolved, chunks, i, l);
    law_block_weights_come_from_entity_or_layer(d, b, resolved, chunks, other, other_l);
}

/// The copies in a row stand one behind the other.
proof fn lemma_row_cells(
    path: Seq<PartView>,
    at: EntityRef,
    row: int,
    columns: int,
    c: int,
    k: int,
)
    requires
        0 <= c < columns,
        0 <= k < path.len(),
    ensures
        arrayed_row(path, at, row, columns).len() == columns * path.len(),
        0 <= c * path.len() + k < columns * path.len(),
        arrayed_row(path, at, row, columns)[c * path.len() + k].source == path[k].source,
        arrayed_row(path, at, row, columns)[c * path.len() + k].placements
            == path[k].placements.push(
            Placement { insert: at, row: row as i16, column: c as i16 },
        ),
    decreases columns,
{
    lemma_row_length(path, at, row, columns);
    lemma_row_length(path, at, row, columns - 1);
    let len = path.len() as int;
    assert(0 <= c * len + k < columns * len) by (nonlinear_arith)
        requires
            0 <= c < columns,
            0 <= k < len,
    ;
    if c < columns - 1 {
        lemma_row_cells(path, at, row, columns - 1, c, k);
    }
}

proof fn lemma_row_length(path: Seq<PartView>, at: EntityRef, row: int, columns: int)
    requires
        0 <= columns,
    ensures
        arrayed_row(path, at, row, columns).len() == columns * path.len(),
    decreases columns,
{
    let len = path.len() as int;
    if columns > 0 {
        lemma_row_length(path, at, row, columns - 1);
        assert((columns - 1) * len + len == columns * len) by (nonlinear_arith);
    } else {
        assert(columns * len == 0) by (nonlinear_arith)
            requires
                columns == 0,
        ;
    }
}

proof fn lemma_array_length(path: Seq<PartView>, at: EntityRef, rows: int, columns: int)
    requires
        0 <= rows,
        0 <= columns,
    ensures
        arrayed(path, at, rows, columns).len() == rows * (columns * path.len()),
    decreases rows,
{
    let row_len = columns * path.len();
    if rows > 0 {
        lemma_array_length(path, at, rows - 1, columns);
        lemma_row_length(path, at, rows - 1, columns);
        assert((rows - 1) * row_len + row_len == rows * row_len) by (nonlinear_arith);
    } else {
        assert(rows * row_len == 0) by (nonlinear_arith)
            requires
                rows == 0,
        ;
    }
}

/// An insert brings in as many copies of a path as its array has cells, row by row; the
/// copy in a cell has the parts of the path, each with the cell as its last placement.
pub proof fn law_arrays_fill_their_cells(
    path: Seq<PartView>,
    at: EntityRef,
    rows: int,
    columns: int,
    r: int,
    c: int,
    k: int,
)
    requires
        0 <= r < rows,
        0 <= c < columns,
        0 <= k < path.len(),
    ensures
        arrayed(path, at, rows, columns).len() == rows * (columns * path.len()),
        0 <= r * (columns * path.len()) + (c * path.len() + k) < rows * (columns * path.len()),
        ({
            let part = arrayed(path, at, rows, columns)[r * (columns * path.len()) + (c
                * path.len() + k)];
            &&& part.source == path[k].source
            &&& part.placements == path[k].placements.push(
                Placement { insert: at, row: r as i16, column: c as i16 },
            )
        }),
    decreases rows,
{
    let row_len = columns * path.len();
    lemma_array_length(path, at, rows, columns);
    lemma_array_length(path, at, rows - 1, columns);
    lemma_row_cells(path, at, r, columns, c, k);
    let at_cell = c * path.len() + k;
    assert(0 <= r * row_len + at_cell < rows * row_len) by (nonlinear_arith)
        requires
            0 <= r < rows,
            0 <= at_cell < row_len,
    ;
    if r < rows - 1 {
        law_arrays_fill_their_cells(path, at, rows - 1, columns, r, c, k);
    }
}

/// An insert with no rows or no columns brings in nothing.
pub proof fn law_empty_arrays_bring_nothing(
    path: Seq<PartView>,
    at: EntityRef,
    rows: int,
    columns: int,
)
    requires
        rows <= 0 || columns <= 0,
    ensures
        arrayed(path, at, rows, columns).len() == 0,
    decreases rows,
{
    if rows > 0 {
        law_empty_arrays_bring_nothing(path, at, rows - 1, columns);
    }
}

/// Whether a chunk is one that an insert brings in: with the array of its path, and what
/// is by block taken from the insert.
pub open spec fn is_brought_in(
    chunk: ChunkView,
    from: ChunkView,
    style: (i16, i16),
    at: EntityRef,
    insert: Insert,
) -> bool {
    &&& chunk.line_weight == if from.line_weight == -1 {
        style.0
    } else {
        from.line_weight
    }
    &&& chunk.color == if from.color == 0 {
        style.1
    } else {
        from.color
    }
    &&& chunk.path == arrayed(
        from.path,
        at,
        insert.row_count as int,
        insert.column_count as int,
    )
}

/// Whether the chunks from index `start` on are those that an insert brings in.
pub open spec fn are_brought_in(
    chunks: Seq<ChunkView>,
    start: int,
    from: Seq<ChunkView>,
    style: (i16, i16),
    at: EntityRef,
    insert: Insert,
) -> bool {
    &&& 0 <= start
    &&& start + from.len() <= chunks.len()
    &&& forall|j: int|
        0 <= j < from.len() ==> is_brought_in(
            chunks[start + j],
            #[trigger] from[j],
            style,
            at,
            insert,
        )
}

/// Finished chunks stay.
proof fn lemma_chunks_stay(
    d: DxfDrawing,
    b: int,
    resolved: Map<Seq<char>, Seq<ChunkView>>,
    n: int,
    m: int,
)
    requires
        0 <= n <= m,
        block_walk(d, b, resolved, m) matches Ok(Some(_)),
    ensures
        block_walk(d, b, resolved, n) matches Ok(Some(_)),
        ({
            let before = block_walk(d, b, resolved, n)->Ok_0->Some_0;
            let after = block_walk(d, b, resolved, m)->Ok_0->Some_0;
            before.chunks.is_prefix_of(after.chunks)
        }),
    decreases m,
{
    if n < m {
        lemma_chunks_stay(d, b, resolved, n, m - 1);
        let mid = block_walk(d, b, resolved, m - 1)->Ok_0->Some_0;
        let after = block_walk(d, b, resolved, m)->Ok_0->Some_0;
        assert(mid.chunks.is_prefix_of(after.chunks));
    }
}

/// An insert in a block that faces the viewer brings in every chunk of the block that it
/// names, one after the other: each with the array of its path, and with line weight and
/// color of the insert where these are by block.
pub proof fn law_blocks_take_in_inserted_chunks(
    d: DxfDrawing,
    b: int,
    resolved: Map<Seq<char>, Seq<ChunkView>>,
    chunks: Seq<ChunkView>,
    i: int,
    insert: Insert,
)
    requires
        0 <= i < d.blocks@[b].entities@.len(),
        d.blocks@[b].entities@[i].specific == EntityType::Insert(insert),
        insert.extrusion_direction.z.place == 0xBFF0_0000_0000_0000,
        block_chunks(d, b, resolved) == Ok::<_, LoadError>(Some(chunks)),
    ensures
        resolved.contains_key(insert.name@),
        exists|start: int| #[trigger]
            are_brought_in(
                chunks,
                start,
                resolved[insert.name@],
                entity_style(d, b, i),
                EntityRef { block: Some(b as usize), entity: i as usize },
                insert,
            ),
{
    let n = d.blocks@[b].entities@.len() as int;
    lemma_chunks_stay(d, b, resolved, i + 1, n);
    let st = block_walk(d, b, resolved, i + 1)->Ok_0->Some_0;
    let last = block_walk(d, b, resolved, n)->Ok_0->Some_0;
    assert(last.chunks.is_prefix_of(chunks));
    let from = resolved[insert.name@];
    let at = EntityRef { block: Some(b as usize), entity: i as usize };
    let style = entity_style(d, b, i);
    let all = placed_chunks(from, style, at, insert);
    let start = st.chunks.len() - from.len();
    assert forall|j: int| 0 <= j < from.len() implies is_brought_in(
        chunks[start + j],
        #[trigger] from[j],
        style,
        at,
        insert,
    ) by {
        assert(st.chunks[start + j] == all[j]);
        assert(all[j] == placed_chunk(from[j], style, at, insert));
        assert(chunks[start + j] == st.chunks[start + j]);
    }
    assert(are_brought_in(chunks, start, from, style, at, insert));
}

/// Whether entity `i` of block `b` holds nothing up: its layer exists, its outline can be
/// traced, and the block that it inserts, if any, is resolved.
pub open spec fn holds_nothing_up(
    d: DxfDrawing,
    b: int,
    resolved: Map<Seq<char>, Seq<ChunkView>>,
    i: int,
) -> bool {
    let e = d.blocks@[b].entities@[i];
    &&& layer_for(d.layers@, e.common.layer@) is Some
    &&& traceable(e.specific)
    &&& e.specific matches EntityType::Insert(insert) ==> resolved.contains_key(insert.name@)
}

proof fn lemma_walk_goes_on(
    d: DxfDrawing,
    b: int,
    resolved: Map<Seq<char>, Seq<ChunkView>>,
    n: int,
)
    requires
        0 <= n <= d.blocks@[b].entities@.len(),
        forall|i: int| 0 <= i < n ==> #[trigger] holds_nothing_up(d, b, resolved, i),
        n == 0 ==> layer_for(d.layers@, d.blocks@[b].entities@[0].common.layer@) is Some,
    ensures
        block_walk(d, b, resolved, n) matches Ok(Some(_)),
    decreases n,
{
    if n > 0 {
        assert(holds_nothing_up(d, b, resolved, 0));
        lemma_walk_goes_on(d, b, resolved, n - 1);
        assert(holds_nothing_up(d, b, resolved, n - 1));
    }
}

proof fn lemma_walk_is_over(
    d: DxfDrawing,
    b: int,
    resolved: Map<Seq<char>, Seq<ChunkView>>,
    n: int,
    m: int,
)
    requires
        0 <= n <= m,
        !(block_walk(d, b, resolved, n) matches Ok(Some(_))),
    ensures
        block_walk(d, b, resolved, m) == block_walk(d, b, resolved, n),
    decreases m,
{
    if n < m {
        lemma_walk_is_over(d, b, resolved, n, m - 1);
    }
}

/// The first entity of a block that holds it up decides what becomes of the block: with
/// an unknown layer or an outline that cannot be traced, resolving fails; with an insert
/// of a block that is not resolved, the block waits. With no such entity it is resolved.
pub proof fn law_first_obstacle_decides(
    d: DxfDrawing,
    b: int,
    resolved: Map<Seq<char>, Seq<ChunkView>>,
    n: int,
)
    requires
        0 <= n <= d.blocks@[b].entities@.len(),
        forall|i: int| 0 <= i < n ==> #[trigger] holds_nothing_up(d, b, resolved, i),
    ensures
        n == d.blocks@[b].entities@.len() ==> (block_chunks(d, b, resolved) matches Ok(Some(_))),
        n < d.blocks@[b].entities@.len() ==> {
            let e = d.blocks@[b].entities@[n];
            let known = layer_for(d.layers@, e.common.layer@) is Some;
            &&& !known ==> block_chunks(d, b, resolved) == Err::<Option<Seq<ChunkView>>, _>(
                LoadError::UnknownLayer,
            )
            &&& known && !traceable(e.specific) ==> block_chunks(d, b, resolved) == Err::<
                Option<Seq<ChunkView>>,
                _,
            >(LoadError::UntraceableSpline)
            &&& known && (e.specific matches EntityType::Insert(insert)
                && !resolved.contains_key(insert.name@)) ==> block_chunks(d, b, resolved) == Ok::<
                Option<Seq<ChunkView>>,
                LoadError,
            >(None)
        },
{
    let all = d.blocks@[b].entities@.len() as int;
    if n == all {
        if n > 0 {
            lemma_walk_goes_on(d, b, resolved, n);
        }
    } else {
        let e = d.blocks@[b].entities@[n];
        if n == 0 && layer_for(d.layers@, e.common.layer@) is None {
            lemma_walk_is_over(d, b, resolved, 0, all);
        } else {
            lemma_walk_goes_on(d, b, resolved, n);
            if !(block_walk(d, b, resolved, n + 1) matches Ok(Some(_))) {
                lemma_walk_is_over(d, b, resolved, n + 1, all);
            }
        }
    }
}

/// A block without entities has no chunks.
pub proof fn law_empty_blocks_have_no_chunks(
    d: DxfDrawing,
    b: int,
    resolved: Map<Seq<char>, Seq<ChunkView>>,
)
    requires
        d.blocks@[b].entities@.len() == 0,
    ensures
        block_chunks(d, b, resolved) == Ok::<_, LoadError>(Some(Seq::<ChunkView>::empty())),
{
}

} // verus!
