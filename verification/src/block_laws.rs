//! What holds of resolved blocks.

use vstd::prelude::*;

#[allow(unused_imports)]
use crate::blocks::{
    all_blocks, arrayed, arrayed_row, block_chunks, block_walk, entity_at, layer_for,
    lemma_filter_keeps, lemma_pass_grows, lemma_progress_shrinks, pass_walk, passes, placed_chunk,
    placed_chunks, placed_path, resolved_blocks, resolved_style, still_open, weight_in_block,
    BlockState, ChunkView, EntityRef, LoadError, PartView, Placement,
};
#[allow(unused_imports)]
use crate::color::{color_enum, COLOR_BY_LAYER, WEIGHT_BY_LAYER};
use crate::dxf_file::{DxfDrawing, EntityType, Insert};
#[allow(unused_imports)]
use crate::path::{faces_viewer, outline, traceable};

verus! {

/// Whether entity `i` of block `b` inserts the block with this name.
pub open spec fn inserts(d: DxfDrawing, b: int, i: int, name: Seq<char>) -> bool {
    &&& 0 <= i < d.blocks@[b].entities@.len()
    &&& d.blocks@[b].entities@[i].specific matches EntityType::Insert(insert) && insert.name@
        == name
}

/// Whether block `b` inserts a block whose name is in `names`.
pub open spec fn inserts_from(d: DxfDrawing, b: int, names: Set<Seq<char>>) -> bool {
    exists|i: int, name: Seq<char>| #[trigger] inserts(d, b, i, name) && names.contains(name)
}

/// The names of the blocks that have no entities.
pub open spec fn empty_names(d: DxfDrawing) -> Set<Seq<char>> {
    Set::new(
        |name: Seq<char>|
            exists|b: int|
                0 <= b < d.blocks@.len() && (#[trigger] d.blocks@[b]).name@ == name
                    && d.blocks@[b].entities@.len() == 0,
    )
}

/// How far a walk came says which inserts were resolved.
proof fn lemma_walk_dependencies(
    d: DxfDrawing,
    b: int,
    resolved: Map<Seq<char>, Seq<ChunkView>>,
    n: int,
)
    requires
        0 <= n <= d.blocks@[b].entities@.len(),
    ensures
        block_walk(d, b, resolved, n) matches Ok(Some(_)) ==> forall|i: int, name: Seq<char>|
            #[trigger] inserts(d, b, i, name) && i < n ==> resolved.contains_key(name),
        block_walk(d, b, resolved, n) matches Ok(None) ==> exists|i: int, name: Seq<char>|
            #[trigger] inserts(d, b, i, name) && !resolved.contains_key(name),
    decreases n,
{
    if n > 0 {
        lemma_walk_dependencies(d, b, resolved, n - 1);
        let e = d.blocks@[b].entities@[n - 1];
        match block_walk(d, b, resolved, n - 1) {
            Ok(Some(st)) => {
                match e.specific {
                    EntityType::Insert(insert) => {
                        assert(inserts(d, b, n - 1, insert.name@));
                    },
                    _ => {},
                }
                if block_walk(d, b, resolved, n) matches Ok(Some(_)) {
                    assert forall|i: int, name: Seq<char>| #[trigger]
                        inserts(d, b, i, name) && i < n implies resolved.contains_key(name) by {
                        if i == n - 1 {
                            assert(e.specific is Insert);
                        }
                    }
                }
            },
            _ => {},
        }
    }
}

/// A block is resolved only when all that it inserts is, and left open only when
/// something is not.
proof fn lemma_block_dependencies(
    d: DxfDrawing,
    b: int,
    resolved: Map<Seq<char>, Seq<ChunkView>>,
)
    ensures
        block_chunks(d, b, resolved) matches Ok(Some(_)) ==> forall|i: int, name: Seq<char>|
            #[trigger] inserts(d, b, i, name) ==> resolved.contains_key(name),
        block_chunks(d, b, resolved) matches Ok(None) ==> exists|i: int, name: Seq<char>|
            #[trigger] inserts(d, b, i, name) && !resolved.contains_key(name),
{
    if d.blocks@[b].entities@.len() > 0 {
        lemma_walk_dependencies(d, b, resolved, d.blocks@[b].entities@.len() as int);
    }
}

proof fn lemma_pass_leaves_blocked(
    d: DxfDrawing,
    todo: Seq<usize>,
    resolved: Map<Seq<char>, Seq<ChunkView>>,
    n: int,
    names: Set<Seq<char>>,
)
    requires
        0 <= n <= todo.len(),
        forall|j: int| 0 <= j < todo.len() ==> (#[trigger] todo[j]) < d.blocks@.len(),
        forall|b: int|
            0 <= b < d.blocks@.len() && names.contains((#[trigger] d.blocks@[b]).name@)
                ==> inserts_from(d, b, names),
        forall|name: Seq<char>| names.contains(name) ==> !#[trigger] resolved.contains_key(name),
        pass_walk(d, todo, resolved, n) is Ok,
    ensures
        forall|name: Seq<char>|
            names.contains(name) ==> !#[trigger] pass_walk(
                d,
                todo,
                resolved,
                n,
            )->Ok_0.resolved.contains_key(name),
    decreases n,
{
    if n > 0 {
        lemma_pass_leaves_blocked(d, todo, resolved, n - 1, names);
        let before = pass_walk(d, todo, resolved, n - 1)->Ok_0;
        let b = todo[n - 1] as int;
        lemma_block_dependencies(d, b, before.resolved);
        if names.contains(d.blocks@[b].name@) {
            assert(inserts_from(d, b, names));
            let (i, name) = choose|i: int, name: Seq<char>| #[trigger]
                inserts(d, b, i, name) && names.contains(name);
            assert(!before.resolved.contains_key(name));
        }
    }
}

proof fn lemma_rest_in_range(
    d: DxfDrawing,
    todo: Seq<usize>,
    resolved: Map<Seq<char>, Seq<ChunkView>>,
)
    requires
        forall|j: int| 0 <= j < todo.len() ==> (#[trigger] todo[j]) < d.blocks@.len(),
    ensures
        forall|j: int|
            0 <= j < still_open(d, todo, resolved).len() ==> (#[trigger] still_open(
                d,
                todo,
                resolved,
            )[j]) < d.blocks@.len() && !resolved.contains_key(
                d.blocks@[still_open(d, todo, resolved)[j] as int].name@,
            ),
        forall|b: usize|
            todo.contains(b) && !resolved.contains_key(d.blocks@[b as int].name@)
                ==> #[trigger] still_open(d, todo, resolved).contains(b),
{
    let keep = |b: usize| !resolved.contains_key(d.blocks@[b as int].name@);
    let rest = still_open(d, todo, resolved);
    assert(rest == todo.filter(keep));
    assert forall|j: int| 0 <= j < rest.len() implies (#[trigger] rest[j]) < d.blocks@.len()
        && !resolved.contains_key(d.blocks@[rest[j] as int].name@) by {
        assert(rest.contains(rest[j]));
        lemma_filter_keeps(todo, keep, rest[j]);
    }
    assert forall|b: usize|
        todo.contains(b) && !resolved.contains_key(
            d.blocks@[b as int].name@,
        ) implies #[trigger] rest.contains(b) by {
        lemma_filter_keeps(todo, keep, b);
    }
}

proof fn lemma_passes_leave_blocked(
    d: DxfDrawing,
    todo: Seq<usize>,
    resolved: Map<Seq<char>, Seq<ChunkView>>,
    names: Set<Seq<char>>,
)
    requires
        forall|j: int| 0 <= j < todo.len() ==> (#[trigger] todo[j]) < d.blocks@.len(),
        forall|b: int|
            0 <= b < d.blocks@.len() && names.contains((#[trigger] d.blocks@[b]).name@)
                ==> inserts_from(d, b, names),
        forall|name: Seq<char>| names.contains(name) ==> !#[trigger] resolved.contains_key(name),
        passes(d, todo, resolved) is Ok,
    ensures
        forall|name: Seq<char>|
            names.contains(name) ==> !#[trigger] passes(d, todo, resolved)->Ok_0.contains_key(name),
    decreases todo.len(),
{
    if todo.len() > 0 {
        lemma_pass_leaves_blocked(d, todo, resolved, todo.len() as int, names);
        let st = pass_walk(d, todo, resolved, todo.len() as int)->Ok_0;
        let rest = still_open(d, todo, st.resolved);
        if st.progress && rest.len() < todo.len() {
            lemma_rest_in_range(d, todo, st.resolved);
            lemma_passes_leave_blocked(d, rest, st.resolved, names);
        }
    }
}

/// Blocks that wait for one another are never resolved: where every block with a name
/// in `names` inserts a block with a name in `names`, none of these names is resolved.
///
/// This covers blocks that insert themselves, directly or in a circle, and blocks
/// that insert what does not exist.
pub proof fn law_circles_stay_open(d: DxfDrawing, names: Set<Seq<char>>)
    requires
        resolved_blocks(d) is Ok,
        forall|b: int|
            0 <= b < d.blocks@.len() && names.contains((#[trigger] d.blocks@[b]).name@)
                ==> inserts_from(d, b, names),
    ensures
        forall|name: Seq<char>|
            names.contains(name) ==> !#[trigger] resolved_blocks(d)->Ok_0.contains_key(name),
{
    lemma_passes_leave_blocked(d, all_blocks(d), Map::empty(), names);
}

/// Passes keep what was resolved.
proof fn lemma_passes_grow(
    d: DxfDrawing,
    todo: Seq<usize>,
    resolved: Map<Seq<char>, Seq<ChunkView>>,
)
    requires
        passes(d, todo, resolved) is Ok,
    ensures
        forall|name: Seq<char>|
            resolved.contains_key(name) ==> #[trigger] passes(
                d,
                todo,
                resolved,
            )->Ok_0.contains_key(name),
    decreases todo.len(),
{
    if todo.len() > 0 {
        lemma_pass_grows(d, todo, resolved, todo.len() as int);
        let st = pass_walk(d, todo, resolved, todo.len() as int)->Ok_0;
        let rest = still_open(d, todo, st.resolved);
        if st.progress && rest.len() < todo.len() {
            lemma_passes_grow(d, rest, st.resolved);
        }
    }
}

/// What a walk over a pass resolved, it keeps.
proof fn lemma_pass_monotone(
    d: DxfDrawing,
    todo: Seq<usize>,
    resolved: Map<Seq<char>, Seq<ChunkView>>,
    n: int,
    m: int,
)
    requires
        0 <= n <= m,
        pass_walk(d, todo, resolved, m) is Ok,
    ensures
        pass_walk(d, todo, resolved, n) is Ok,
        forall|name: Seq<char>|
            pass_walk(d, todo, resolved, n)->Ok_0.resolved.contains_key(name)
                ==> #[trigger] pass_walk(d, todo, resolved, m)->Ok_0.resolved.contains_key(name),
        pass_walk(d, todo, resolved, n)->Ok_0.progress ==> pass_walk(
            d,
            todo,
            resolved,
            m,
        )->Ok_0.progress,
    decreases m - n,
{
    if n < m {
        assert(pass_walk(d, todo, resolved, m - 1) is Ok);
        lemma_pass_monotone(d, todo, resolved, n, m - 1);
    }
}

/// Between two points of a pass without progress, only empty blocks are resolved.
proof fn lemma_idle_pass_adds_empty(
    d: DxfDrawing,
    todo: Seq<usize>,
    resolved: Map<Seq<char>, Seq<ChunkView>>,
    n: int,
    m: int,
)
    requires
        0 <= n <= m <= todo.len(),
        forall|j: int| 0 <= j < todo.len() ==> (#[trigger] todo[j]) < d.blocks@.len(),
        pass_walk(d, todo, resolved, m) is Ok,
        !pass_walk(d, todo, resolved, m)->Ok_0.progress,
    ensures
        forall|name: Seq<char>| #[trigger]
            pass_walk(d, todo, resolved, m)->Ok_0.resolved.contains_key(name) ==> pass_walk(
                d,
                todo,
                resolved,
                n,
            )->Ok_0.resolved.contains_key(name) || exists|j: int|
                0 <= j < todo.len() && d.blocks@[#[trigger] todo[j] as int].name@ == name
                    && d.blocks@[todo[j] as int].entities@.len() == 0,
    decreases m - n,
{
    if n < m {
        assert(pass_walk(d, todo, resolved, m - 1) is Ok);
        lemma_idle_pass_adds_empty(d, todo, resolved, n, m - 1);
        let before = pass_walk(d, todo, resolved, m - 1)->Ok_0;
        let after = pass_walk(d, todo, resolved, m)->Ok_0;
        let b = todo[m - 1] as int;
        assert forall|name: Seq<char>| #[trigger] after.resolved.contains_key(name) implies
            pass_walk(d, todo, resolved, n)->Ok_0.resolved.contains_key(name) || exists|j: int|
            0 <= j < todo.len() && d.blocks@[#[trigger] todo[j] as int].name@ == name
                && d.blocks@[todo[j] as int].entities@.len() == 0 by {
            if !before.resolved.contains_key(name) {
                assert(d.blocks@[todo[m - 1] as int].name@ == name);
                assert(d.blocks@[b].entities@.len() == 0);
            }
        }
    }
}

/// A pass resolves every empty block in it.
proof fn lemma_pass_resolves_empty(
    d: DxfDrawing,
    todo: Seq<usize>,
    resolved: Map<Seq<char>, Seq<ChunkView>>,
    j: int,
)
    requires
        0 <= j < todo.len(),
        d.blocks@[todo[j] as int].entities@.len() == 0,
        pass_walk(d, todo, resolved, todo.len() as int) is Ok,
    ensures
        pass_walk(d, todo, resolved, todo.len() as int)->Ok_0.resolved.contains_key(
            d.blocks@[todo[j] as int].name@,
        ),
{
    lemma_pass_monotone(d, todo, resolved, j + 1, todo.len() as int);
    lemma_pass_monotone(d, todo, resolved, j, j + 1);
    let name = d.blocks@[todo[j] as int].name@;
    assert(pass_walk(d, todo, resolved, j + 1)->Ok_0.resolved.contains_key(name));
}

/// Whether no block is inserted that has no entities.
pub open spec fn no_empty_inserts(d: DxfDrawing) -> bool {
    forall|b: int, i: int, name: Seq<char>|
        0 <= b < d.blocks@.len() && #[trigger] inserts(d, b, i, name) ==> !empty_names(
            d,
        ).contains(name)
}

proof fn lemma_open_blocks_wait(
    d: DxfDrawing,
    todo: Seq<usize>,
    resolved: Map<Seq<char>, Seq<ChunkView>>,
    j: int,
)
    requires
        forall|j: int| 0 <= j < todo.len() ==> (#[trigger] todo[j]) < d.blocks@.len(),
        no_empty_inserts(d) || (forall|j: int|
            0 <= j < todo.len() ==> d.blocks@[#[trigger] todo[j] as int].entities@.len() > 0),
        passes(d, todo, resolved) is Ok,
        0 <= j < todo.len(),
        !passes(d, todo, resolved)->Ok_0.contains_key(d.blocks@[todo[j] as int].name@),
    ensures
        exists|i: int, name: Seq<char>| #[trigger]
            inserts(d, todo[j] as int, i, name) && !passes(d, todo, resolved)->Ok_0.contains_key(
                name,
            ),
    decreases todo.len(),
{
    let total = todo.len() as int;
    let b = todo[j] as int;
    let st = pass_walk(d, todo, resolved, total)->Ok_0;
    let rest = still_open(d, todo, st.resolved);
    lemma_rest_in_range(d, todo, st.resolved);
    if st.progress {
        lemma_progress_shrinks(d, todo, resolved);
        lemma_passes_grow(d, rest, st.resolved);
        assert(todo.contains(todo[j]));
        assert(rest.contains(todo[j]));
        let k = choose|k: int| 0 <= k < rest.len() && rest[k] == todo[j];
        assert forall|q: int| 0 <= q < rest.len() implies d.blocks@[#[trigger] rest[q] as int]
            .entities@.len() > 0 by {
            let c = rest[q];
            assert(rest.contains(c));
            let keep = |b: usize| !st.resolved.contains_key(d.blocks@[b as int].name@);
            lemma_filter_keeps(todo, keep, c);
            let p = choose|p: int| 0 <= p < todo.len() && todo[p] == c;
            if d.blocks@[c as int].entities@.len() == 0 {
                lemma_pass_resolves_empty(d, todo, resolved, p);
            }
        }
        lemma_open_blocks_wait(d, rest, st.resolved, k);
    } else {
        lemma_pass_monotone(d, todo, resolved, j + 1, total);
        lemma_pass_monotone(d, todo, resolved, j, j + 1);
        let at = pass_walk(d, todo, resolved, j)->Ok_0;
        lemma_block_dependencies(d, b, at.resolved);
        assert(block_chunks(d, b, at.resolved) matches Ok(None)) by {
            if block_chunks(d, b, at.resolved) matches Ok(Some(_)) {
                assert(pass_walk(d, todo, resolved, j + 1)->Ok_0.resolved.contains_key(
                    d.blocks@[b].name@,
                ));
            }
        }
        let (i, name) = choose|i: int, name: Seq<char>| #[trigger]
            inserts(d, b, i, name) && !at.resolved.contains_key(name);
        lemma_idle_pass_adds_empty(d, todo, resolved, j, total);
        assert(!st.resolved.contains_key(name)) by {
            if st.resolved.contains_key(name) {
                let q = choose|q: int|
                    0 <= q < todo.len() && d.blocks@[#[trigger] todo[q] as int].name@ == name
                        && d.blocks@[todo[q] as int].entities@.len() == 0;
                assert(d.blocks@[todo[q] as int].name@ == name);
                assert(empty_names(d).contains(name));
            }
        }
        assert(inserts(d, b, i, name) && !passes(d, todo, resolved)->Ok_0.contains_key(name));
    }
}

/// A block that is left open waits for one that is left open: with
/// [`law_circles_stay_open`], exactly those blocks are resolved that can be.
///
/// An empty block counts as no progress. Where the first pass resolves empty blocks
/// alone, a block that inserts one of them can be left open although it could be
/// resolved; the law leaves such drawings out.
pub proof fn law_open_blocks_wait(d: DxfDrawing, b: int)
    requires
        resolved_blocks(d) is Ok,
        0 <= b < d.blocks@.len(),
        no_empty_inserts(d) || pass_walk(
            d,
            all_blocks(d),
            Map::empty(),
            d.blocks@.len() as int,
        )->Ok_0.progress,
        !resolved_blocks(d)->Ok_0.contains_key(d.blocks@[b].name@),
    ensures
        exists|i: int, name: Seq<char>| #[trigger]
            inserts(d, b, i, name) && !resolved_blocks(d)->Ok_0.contains_key(name),
{
    let todo = all_blocks(d);
    let none = Map::<Seq<char>, Seq<ChunkView>>::empty();
    assert(d.blocks.len() == d.blocks@.len());
    assert(todo[b] == b);
    if no_empty_inserts(d) {
        lemma_open_blocks_wait(d, todo, none, b);
    } else {
        let st = pass_walk(d, todo, none, todo.len() as int)->Ok_0;
        let rest = still_open(d, todo, st.resolved);
        lemma_rest_in_range(d, todo, st.resolved);
        lemma_progress_shrinks(d, todo, none);
        lemma_passes_grow(d, rest, st.resolved);
        assert(todo.contains(todo[b]));
        assert(rest.contains(todo[b]));
        let k = choose|k: int| 0 <= k < rest.len() && rest[k] == todo[b];
        assert forall|q: int| 0 <= q < rest.len() implies d.blocks@[#[trigger] rest[q] as int]
            .entities@.len() > 0 by {
            let c = rest[q];
            assert(todo[c as int] == c);
            if d.blocks@[c as int].entities@.len() == 0 {
                lemma_pass_resolves_empty(d, todo, none, c as int);
            }
        }
        lemma_open_blocks_wait(d, rest, st.resolved, k);
    }
}

/// Whether a placement is a cell of the array that an insert of the drawing makes.
pub open spec fn is_cell(d: DxfDrawing, p: Placement) -> bool {
    entity_at(d, p.insert) matches Some(e) && e.specific matches EntityType::Insert(insert)
        && faces_viewer(insert.extrusion_direction) && 0 <= p.row < insert.row_count && 0
        <= p.column < insert.column_count
}

/// Whether a part can be drawn: an entity with an outline, in cells of arrays.
pub open spec fn is_drawable(d: DxfDrawing, p: PartView) -> bool {
    &&& entity_at(d, p.source) matches Some(e) && traceable(e.specific) && outline(
        e.specific,
    ) is Some
    &&& forall|k: int|
        0 <= k < p.placements.len() ==> #[trigger] is_cell(d, p.placements[k])
}

/// Whether all parts of a path can be drawn.
pub open spec fn path_drawable(d: DxfDrawing, path: Seq<PartView>) -> bool {
    forall|k: int| 0 <= k < path.len() ==> #[trigger] is_drawable(d, path[k])
}

/// Whether all parts of chunks can be drawn.
pub open spec fn chunks_drawable(d: DxfDrawing, chunks: Seq<ChunkView>) -> bool {
    forall|k: int| 0 <= k < chunks.len() ==> path_drawable(d, (#[trigger] chunks[k]).path)
}

/// Whether all parts of resolved blocks can be drawn.
pub open spec fn blocks_drawable(
    d: DxfDrawing,
    resolved: Map<Seq<char>, Seq<ChunkView>>,
) -> bool {
    forall|name: Seq<char>|
        resolved.contains_key(name) ==> chunks_drawable(d, #[trigger] resolved[name])
}

proof fn lemma_placed_drawable(d: DxfDrawing, path: Seq<PartView>, placement: Placement)
    requires
        path_drawable(d, path),
        is_cell(d, placement),
    ensures
        path_drawable(d, placed_path(path, placement)),
{
    let all = placed_path(path, placement);
    assert forall|k: int| 0 <= k < all.len() implies #[trigger] is_drawable(d, all[k]) by {
        assert(is_drawable(d, path[k]));
        let placements = all[k].placements;
        assert forall|j: int| 0 <= j < placements.len() implies #[trigger] is_cell(
            d,
            placements[j],
        ) by {
            if j < path[k].placements.len() {
                assert(is_cell(d, path[k].placements[j]));
                assert(placements[j] == path[k].placements[j]);
            }
        }
    }
}

proof fn lemma_joined_drawable(d: DxfDrawing, a: Seq<PartView>, b: Seq<PartView>)
    requires
        path_drawable(d, a),
        path_drawable(d, b),
    ensures
        path_drawable(d, a + b),
{
    assert forall|k: int| 0 <= k < (a + b).len() implies #[trigger] is_drawable(d, (a + b)[k]) by {
        if k < a.len() {
            assert(is_drawable(d, a[k]));
        } else {
            assert(is_drawable(d, b[k - a.len()]));
        }
    }
}

proof fn lemma_row_drawable(
    d: DxfDrawing,
    path: Seq<PartView>,
    at: EntityRef,
    insert: Insert,
    row: int,
    columns: int,
)
    requires
        path_drawable(d, path),
        entity_at(d, at) matches Some(e) && e.specific == EntityType::Insert(insert),
        faces_viewer(insert.extrusion_direction),
        0 <= row < insert.row_count,
        columns <= insert.column_count,
    ensures
        path_drawable(d, arrayed_row(path, at, row, columns)),
    decreases columns,
{
    if columns > 0 {
        lemma_row_drawable(d, path, at, insert, row, columns - 1);
        let cell = Placement { insert: at, row: row as i16, column: (columns - 1) as i16 };
        assert(is_cell(d, cell));
        lemma_placed_drawable(d, path, cell);
        lemma_joined_drawable(
            d,
            arrayed_row(path, at, row, columns - 1),
            placed_path(path, cell),
        );
    }
}

/// The copies of a path that an insert makes can be drawn if the path can.
pub proof fn lemma_array_drawable(
    d: DxfDrawing,
    path: Seq<PartView>,
    at: EntityRef,
    insert: Insert,
    rows: int,
)
    requires
        path_drawable(d, path),
        entity_at(d, at) matches Some(e) && e.specific == EntityType::Insert(insert),
        faces_viewer(insert.extrusion_direction),
        rows <= insert.row_count,
    ensures
        path_drawable(d, arrayed(path, at, rows, insert.column_count as int)),
    decreases rows,
{
    if rows > 0 {
        lemma_array_drawable(d, path, at, insert, rows - 1);
        lemma_row_drawable(d, path, at, insert, rows - 1, insert.column_count as int);
        lemma_joined_drawable(
            d,
            arrayed(path, at, rows - 1, insert.column_count as int),
            arrayed_row(path, at, rows - 1, insert.column_count as int),
        );
    }
}

proof fn lemma_walk_drawable(
    d: DxfDrawing,
    b: int,
    resolved: Map<Seq<char>, Seq<ChunkView>>,
    n: int,
)
    requires
        0 <= b < d.blocks@.len(),
        0 <= n <= d.blocks@[b].entities@.len(),
        blocks_drawable(d, resolved),
        block_walk(d, b, resolved, n) matches Ok(Some(_)),
    ensures
        block_walk(d, b, resolved, n) matches Ok(Some(st)) && chunks_drawable(d, st.chunks)
            && path_drawable(d, st.lines),
    decreases n,
{
    if n > 0 {
        lemma_walk_drawable(d, b, resolved, n - 1);
        let before = block_walk(d, b, resolved, n - 1)->Ok_0->Some_0;
        let st = block_walk(d, b, resolved, n)->Ok_0->Some_0;
        let e = d.blocks@[b].entities@[n - 1];
        let at = EntityRef { block: Some(b as usize), entity: (n - 1) as usize };
        assert(d.blocks.len() == d.blocks@.len());
        assert(d.blocks@[b].entities.len() == d.blocks@[b].entities@.len());
        assert(entity_at(d, at) == Some(e));
        match e.specific {
            EntityType::Insert(insert) => {
                if faces_viewer(insert.extrusion_direction) {
                    let brought = resolved[insert.name@];
                    assert(chunks_drawable(d, brought));
                    let all = placed_chunks(brought, st.style, at, insert);
                    assert forall|k: int| 0 <= k < all.len() implies path_drawable(
                        d,
                        (#[trigger] all[k]).path,
                    ) by {
                        assert(path_drawable(d, brought[k].path));
                        lemma_array_drawable(
                            d,
                            brought[k].path,
                            at,
                            insert,
                            insert.row_count as int,
                        );
                    }
                    let kept = st.chunks.take(st.chunks.len() - all.len());
                    assert(st.chunks =~= kept + all);
                    assert forall|k: int| 0 <= k < st.chunks.len() implies path_drawable(
                        d,
                        (#[trigger] st.chunks[k]).path,
                    ) by {
                        if k >= kept.len() {
                            assert(st.chunks[k] == all[k - kept.len()]);
                        }
                    }
                }
            },
            _ => {
                let part = PartView { source: at, placements: Seq::empty() };
                if outline(e.specific) is Some {
                    assert(is_drawable(d, part));
                    assert forall|k: int| 0 <= k < st.lines.len() implies #[trigger] is_drawable(
                        d,
                        st.lines[k],
                    ) by {
                        if k < st.lines.len() - 1 {
                            assert(st.lines[k] == before.lines[k]);
                        }
                    }
                }
            },
        }
    }
}

/// Whether all resolved blocks have chunks of a kind.
spec fn all_keep(
    resolved: Map<Seq<char>, Seq<ChunkView>>,
    keep: spec_fn(Seq<ChunkView>) -> bool,
) -> bool {
    forall|name: Seq<char>| resolved.contains_key(name) ==> keep(#[trigger] resolved[name])
}

/// Whether blocks have chunks of a kind if those that they insert do.
spec fn inherits(d: DxfDrawing, keep: spec_fn(Seq<ChunkView>) -> bool) -> bool {
    forall|b: int, resolved: Map<Seq<char>, Seq<ChunkView>>|
        0 <= b < d.blocks@.len() && all_keep(resolved, keep) ==> (
        #[trigger] block_chunks(d, b, resolved) matches Ok(Some(chunks)) ==> keep(chunks))
}

proof fn lemma_pass_keeps(
    d: DxfDrawing,
    todo: Seq<usize>,
    resolved: Map<Seq<char>, Seq<ChunkView>>,
    n: int,
    keep: spec_fn(Seq<ChunkView>) -> bool,
)
    requires
        0 <= n <= todo.len(),
        forall|j: int| 0 <= j < todo.len() ==> (#[trigger] todo[j]) < d.blocks@.len(),
        inherits(d, keep),
        all_keep(resolved, keep),
        pass_walk(d, todo, resolved, n) is Ok,
    ensures
        all_keep(pass_walk(d, todo, resolved, n)->Ok_0.resolved, keep),
    decreases n,
{
    if n > 0 {
        lemma_pass_keeps(d, todo, resolved, n - 1, keep);
    }
}

proof fn lemma_passes_keep(
    d: DxfDrawing,
    todo: Seq<usize>,
    resolved: Map<Seq<char>, Seq<ChunkView>>,
    keep: spec_fn(Seq<ChunkView>) -> bool,
)
    requires
        forall|j: int| 0 <= j < todo.len() ==> (#[trigger] todo[j]) < d.blocks@.len(),
        inherits(d, keep),
        all_keep(resolved, keep),
        passes(d, todo, resolved) is Ok,
    ensures
        all_keep(passes(d, todo, resolved)->Ok_0, keep),
    decreases todo.len(),
{
    if todo.len() > 0 {
        lemma_pass_keeps(d, todo, resolved, todo.len() as int, keep);
        let st = pass_walk(d, todo, resolved, todo.len() as int)->Ok_0;
        let rest = still_open(d, todo, st.resolved);
        if st.progress && rest.len() < todo.len() {
            lemma_rest_in_range(d, todo, st.resolved);
            lemma_passes_keep(d, rest, st.resolved, keep);
        }
    }
}

/// Whatever a resolved block holds can be drawn: it is made of outlines of entities,
/// in cells of the arrays that inserts make.
pub proof fn law_blocks_are_drawable(d: DxfDrawing)
    requires
        resolved_blocks(d) is Ok,
    ensures
        blocks_drawable(d, resolved_blocks(d)->Ok_0),
{
    let keep = |chunks: Seq<ChunkView>| chunks_drawable(d, chunks);
    assert forall|b: int, resolved: Map<Seq<char>, Seq<ChunkView>>|
        0 <= b < d.blocks@.len() && all_keep(resolved, keep) implies (
    #[trigger] block_chunks(d, b, resolved) matches Ok(Some(chunks)) ==> keep(chunks)) by {
        assert(blocks_drawable(d, resolved)) by {
            assert forall|name: Seq<char>| resolved.contains_key(name) implies chunks_drawable(
                d,
                #[trigger] resolved[name],
            ) by {
                assert(keep(resolved[name]));
            }
        }
        let n = d.blocks@[b].entities@.len() as int;
        if n > 0 && block_walk(d, b, resolved, n) matches Ok(Some(_)) {
            lemma_walk_drawable(d, b, resolved, n);
        }
    }
    lemma_passes_keep(d, all_blocks(d), Map::empty(), keep);
    let blocks = resolved_blocks(d)->Ok_0;
    assert forall|name: Seq<char>| blocks.contains_key(name) implies chunks_drawable(
        d,
        #[trigger] blocks[name],
    ) by {
        assert(keep(blocks[name]));
    }
}

/// Whether no chunk leaves its line weight or color to a layer.
pub open spec fn free_of_layers(chunks: Seq<ChunkView>) -> bool {
    forall|k: int|
        0 <= k < chunks.len() ==> (#[trigger] chunks[k]).line_weight != WEIGHT_BY_LAYER
            && chunks[k].color != COLOR_BY_LAYER
}

proof fn lemma_walk_free_of_layers(
    d: DxfDrawing,
    b: int,
    resolved: Map<Seq<char>, Seq<ChunkView>>,
    n: int,
)
    requires
        0 <= n,
        forall|name: Seq<char>|
            resolved.contains_key(name) ==> free_of_layers(#[trigger] resolved[name]),
    ensures
        block_walk(d, b, resolved, n) matches Ok(Some(st)) ==> free_of_layers(st.chunks)
            && st.style.0 != WEIGHT_BY_LAYER && st.style.1 != COLOR_BY_LAYER,
    decreases n,
{
    if n > 0 {
        lemma_walk_free_of_layers(d, b, resolved, n - 1);
        let e = d.blocks@[b].entities@[n - 1];
        match (block_walk(d, b, resolved, n), e.specific) {
            (Ok(Some(st)), EntityType::Insert(insert)) => {
                if faces_viewer(insert.extrusion_direction) {
                    let brought = resolved[insert.name@];
                    assert(free_of_layers(brought));
                    let at = EntityRef { block: Some(b as usize), entity: (n - 1) as usize };
                    let all = placed_chunks(brought, st.style, at, insert);
                    let kept = st.chunks.take(st.chunks.len() - all.len());
                    assert(st.chunks =~= kept + all);
                    assert forall|k: int| 0 <= k < st.chunks.len() implies (
                    #[trigger] st.chunks[k]).line_weight != WEIGHT_BY_LAYER && st.chunks[k].color
                        != COLOR_BY_LAYER by {
                        if k >= kept.len() {
                            assert(st.chunks[k] == all[k - kept.len()]);
                            assert(brought[k - kept.len()].color != COLOR_BY_LAYER);
                        }
                    }
                }
            },
            _ => {},
        }
    }
}

/// In a resolved block, what was left to a layer is taken from it: line weights and
/// colors are given, or left to the insert.
pub proof fn law_blocks_are_free_of_layers(d: DxfDrawing, name: Seq<char>)
    requires
        resolved_blocks(d) is Ok,
        resolved_blocks(d)->Ok_0.contains_key(name),
    ensures
        free_of_layers(resolved_blocks(d)->Ok_0[name]),
{
    let keep = |chunks: Seq<ChunkView>| free_of_layers(chunks);
    assert forall|b: int, resolved: Map<Seq<char>, Seq<ChunkView>>|
        0 <= b < d.blocks@.len() && all_keep(resolved, keep) implies (
    #[trigger] block_chunks(d, b, resolved) matches Ok(Some(chunks)) ==> keep(chunks)) by {
        assert forall|n: Seq<char>| resolved.contains_key(n) implies free_of_layers(
            #[trigger] resolved[n],
        ) by {
            assert(keep(resolved[n]));
        }
        let n = d.blocks@[b].entities@.len() as int;
        lemma_walk_free_of_layers(d, b, resolved, n);
    }
    lemma_passes_keep(d, all_blocks(d), Map::empty(), keep);
    assert(keep(resolved_blocks(d)->Ok_0[name]));
}

/// Whether `b` is a block with this name, its chunks are those that the name leads to,
/// and everything that it inserts is resolved.
pub open spec fn stands_on(
    d: DxfDrawing,
    b: int,
    name: Seq<char>,
    resolved: Map<Seq<char>, Seq<ChunkView>>,
) -> bool {
    &&& 0 <= b < d.blocks@.len()
    &&& d.blocks@[b].name@ == name
    &&& exists|at_the_time: Map<Seq<char>, Seq<ChunkView>>| #[trigger]
        block_chunks(d, b, at_the_time) == Ok::<_, LoadError>(Some(resolved[name]))
    &&& forall|i: int, inserted: Seq<char>| #[trigger]
        inserts(d, b, i, inserted) ==> resolved.contains_key(inserted)
}

/// Whether every resolved name is that of a block that stands on resolved ones.
pub open spec fn well_founded(
    d: DxfDrawing,
    resolved: Map<Seq<char>, Seq<ChunkView>>,
) -> bool {
    forall|name: Seq<char>| #[trigger]
        resolved.contains_key(name) ==> exists|b: int| #[trigger] stands_on(d, b, name, resolved)
}

proof fn lemma_pass_well_founded(
    d: DxfDrawing,
    todo: Seq<usize>,
    resolved: Map<Seq<char>, Seq<ChunkView>>,
    n: int,
)
    requires
        0 <= n <= todo.len(),
        forall|j: int| 0 <= j < todo.len() ==> (#[trigger] todo[j]) < d.blocks@.len(),
        well_founded(d, resolved),
        pass_walk(d, todo, resolved, n) is Ok,
    ensures
        well_founded(d, pass_walk(d, todo, resolved, n)->Ok_0.resolved),
    decreases n,
{
    if n > 0 {
        lemma_pass_well_founded(d, todo, resolved, n - 1);
        let before = pass_walk(d, todo, resolved, n - 1)->Ok_0.resolved;
        let after = pass_walk(d, todo, resolved, n)->Ok_0.resolved;
        let b = todo[n - 1] as int;
        lemma_block_dependencies(d, b, before);
        assert forall|name: Seq<char>| #[trigger] after.contains_key(name) implies exists|c: int|
            #[trigger] stands_on(d, c, name, after) by {
            if before.contains_key(name) && after[name] == before[name] {
                let c = choose|c: int| #[trigger] stands_on(d, c, name, before);
                assert(stands_on(d, c, name, after));
            } else {
                assert(block_chunks(d, b, before) == Ok::<_, LoadError>(Some(after[name])));
                assert(stands_on(d, b, name, after));
            }
        }
    }
}

proof fn lemma_passes_well_founded(
    d: DxfDrawing,
    todo: Seq<usize>,
    resolved: Map<Seq<char>, Seq<ChunkView>>,
)
    requires
        forall|j: int| 0 <= j < todo.len() ==> (#[trigger] todo[j]) < d.blocks@.len(),
        well_founded(d, resolved),
        passes(d, todo, resolved) is Ok,
    ensures
        well_founded(d, passes(d, todo, resolved)->Ok_0),
    decreases todo.len(),
{
    if todo.len() > 0 {
        lemma_pass_well_founded(d, todo, resolved, todo.len() as int);
        let st = pass_walk(d, todo, resolved, todo.len() as int)->Ok_0;
        let rest = still_open(d, todo, st.resolved);
        if st.progress && rest.len() < todo.len() {
            lemma_rest_in_range(d, todo, st.resolved);
            lemma_passes_well_founded(d, rest, st.resolved);
        }
    }
}

/// A name is resolved only if there is a block with that name, it leads to the chunks
/// of that block, and every block that this one inserts is resolved too.
pub proof fn law_resolved_blocks_stand_on_resolved_blocks(d: DxfDrawing)
    requires
        resolved_blocks(d) is Ok,
    ensures
        well_founded(d, resolved_blocks(d)->Ok_0),
{
    lemma_passes_well_founded(d, all_blocks(d), Map::empty());
}

/// An empty block is always resolved.
pub proof fn law_empty_blocks_are_resolved(d: DxfDrawing, b: int)
    requires
        resolved_blocks(d) is Ok,
        0 <= b < d.blocks@.len(),
        d.blocks@[b].entities@.len() == 0,
    ensures
        resolved_blocks(d)->Ok_0.contains_key(d.blocks@[b].name@),
{
    let todo = all_blocks(d);
    let none = Map::<Seq<char>, Seq<ChunkView>>::empty();
    assert(d.blocks.len() == d.blocks@.len());
    assert(todo[b] == b);
    lemma_pass_resolves_empty(d, todo, none, b);
    let st = pass_walk(d, todo, none, todo.len() as int)->Ok_0;
    let rest = still_open(d, todo, st.resolved);
    if st.progress && rest.len() < todo.len() {
        lemma_passes_grow(d, rest, st.resolved);
    }
}

/// Whether entity `i` of block `b` stands in the way of nothing: its layer exists, and
/// its outline can be traced.
pub open spec fn is_sound(d: DxfDrawing, b: int, i: int) -> bool {
    let e = d.blocks@[b].entities@[i];
    layer_for(d.layers@, e.common.layer@) is Some && traceable(e.specific)
}

proof fn lemma_walk_succeeds(
    d: DxfDrawing,
    b: int,
    resolved: Map<Seq<char>, Seq<ChunkView>>,
    n: int,
)
    requires
        0 <= n <= d.blocks@[b].entities@.len(),
        d.blocks@[b].entities@.len() > 0,
        forall|i: int| 0 <= i < d.blocks@[b].entities@.len() ==> #[trigger] is_sound(d, b, i),
    ensures
        block_walk(d, b, resolved, n) is Ok,
    decreases n,
{
    if n > 0 {
        lemma_walk_succeeds(d, b, resolved, n - 1);
        assert(is_sound(d, b, n - 1));
    } else {
        assert(is_sound(d, b, 0));
    }
}

proof fn lemma_pass_succeeds(
    d: DxfDrawing,
    todo: Seq<usize>,
    resolved: Map<Seq<char>, Seq<ChunkView>>,
    n: int,
)
    requires
        0 <= n <= todo.len(),
        forall|j: int| 0 <= j < todo.len() ==> (#[trigger] todo[j]) < d.blocks@.len(),
        forall|b: int, i: int|
            0 <= b < d.blocks@.len() && 0 <= i < d.blocks@[b].entities@.len()
                ==> #[trigger] is_sound(d, b, i),
    ensures
        pass_walk(d, todo, resolved, n) is Ok,
    decreases n,
{
    if n > 0 {
        lemma_pass_succeeds(d, todo, resolved, n - 1);
        let before = pass_walk(d, todo, resolved, n - 1)->Ok_0;
        let b = todo[n - 1] as int;
        if d.blocks@[b].entities@.len() > 0 {
            lemma_walk_succeeds(d, b, before.resolved, d.blocks@[b].entities@.len() as int);
        }
    }
}

proof fn lemma_passes_succeed(
    d: DxfDrawing,
    todo: Seq<usize>,
    resolved: Map<Seq<char>, Seq<ChunkView>>,
)
    requires
        forall|j: int| 0 <= j < todo.len() ==> (#[trigger] todo[j]) < d.blocks@.len(),
        forall|b: int, i: int|
            0 <= b < d.blocks@.len() && 0 <= i < d.blocks@[b].entities@.len()
                ==> #[trigger] is_sound(d, b, i),
    ensures
        passes(d, todo, resolved) is Ok,
    decreases todo.len(),
{
    if todo.len() > 0 {
        lemma_pass_succeeds(d, todo, resolved, todo.len() as int);
        let st = pass_walk(d, todo, resolved, todo.len() as int)->Ok_0;
        let rest = still_open(d, todo, st.resolved);
        if st.progress && rest.len() < todo.len() {
            lemma_rest_in_range(d, todo, st.resolved);
            lemma_passes_succeed(d, rest, st.resolved);
        }
    }
}

/// Blocks can be resolved if the layer of every entity in them exists, and every
/// outline can be traced: circles and missing blocks leave blocks open, but are no
/// failure.
pub proof fn law_sound_blocks_resolve(d: DxfDrawing)
    requires
        forall|b: int, i: int|
            0 <= b < d.blocks@.len() && 0 <= i < d.blocks@[b].entities@.len()
                ==> #[trigger] is_sound(d, b, i),
    ensures
        resolved_blocks(d) is Ok,
{
    lemma_passes_succeed(d, all_blocks(d), Map::empty());
}

/// Whether a part is brought in by the insert `at`, which is the outermost one.
pub open spec fn placed_by(p: PartView, at: EntityRef) -> bool {
    p.placements.len() > 0 && p.placements.last().insert == at
}

proof fn lemma_row_placed(path: Seq<PartView>, at: EntityRef, row: int, columns: int)
    ensures
        forall|k: int|
            0 <= k < arrayed_row(path, at, row, columns).len() ==> #[trigger] placed_by(
                arrayed_row(path, at, row, columns)[k],
                at,
            ),
    decreases columns,
{
    if columns > 0 {
        lemma_row_placed(path, at, row, columns - 1);
        let before = arrayed_row(path, at, row, columns - 1);
        let all = arrayed_row(path, at, row, columns);
        assert forall|k: int| 0 <= k < all.len() implies #[trigger] placed_by(all[k], at) by {
            if k < before.len() {
                assert(placed_by(before[k], at));
                assert(all[k] == before[k]);
            }
        }
    }
}

/// The copies that an insert makes are brought in by it.
pub proof fn lemma_array_placed(path: Seq<PartView>, at: EntityRef, rows: int, columns: int)
    ensures
        forall|k: int|
            0 <= k < arrayed(path, at, rows, columns).len() ==> #[trigger] placed_by(
                arrayed(path, at, rows, columns)[k],
                at,
            ),
    decreases rows,
{
    if rows > 0 {
        lemma_array_placed(path, at, rows - 1, columns);
        lemma_row_placed(path, at, rows - 1, columns);
        let before = arrayed(path, at, rows - 1, columns);
        let row = arrayed_row(path, at, rows - 1, columns);
        let all = arrayed(path, at, rows, columns);
        assert forall|k: int| 0 <= k < all.len() implies #[trigger] placed_by(all[k], at) by {
            if k < before.len() {
                assert(placed_by(before[k], at));
                assert(all[k] == before[k]);
            } else {
                assert(placed_by(row[k - before.len()], at));
                assert(all[k] == row[k - before.len()]);
            }
        }
    }
}

/// The parts of chunks, one chunk after the other.
pub open spec fn flattened(chunks: Seq<ChunkView>) -> Seq<PartView>
    decreases chunks.len(),
{
    if chunks.len() == 0 {
        Seq::empty()
    } else {
        flattened(chunks.drop_last()) + chunks.last().path
    }
}

proof fn lemma_flattened_push(chunks: Seq<ChunkView>, chunk: ChunkView)
    ensures
        flattened(chunks.push(chunk)) == flattened(chunks) + chunk.path,
{
    assert(chunks.push(chunk).drop_last() =~= chunks);
}

/// Whether a part is of entity `i` of block `b`, or is brought in by it.
pub open spec fn stems_from(p: PartView, b: int, i: int) -> bool {
    let at = EntityRef { block: Some(b as usize), entity: i as usize };
    placed_by(p, at) || (p.placements.len() == 0 && p.source == at)
}

/// Whether parts stem from the first `n` entities of block `b`, in the order of these.
/// `stems` are the entities.
pub open spec fn in_order(parts: Seq<PartView>, b: int, n: int, stems: Seq<int>) -> bool {
    &&& stems.len() == parts.len()
    &&& forall|j: int|
        #![trigger stems[j]]
        0 <= j < parts.len() ==> 0 <= stems[j] < n && stems_from(parts[j], b, stems[j])
    &&& forall|j: int, k: int| 0 <= j < k < stems.len() ==> stems[j] <= stems[k]
}

/// More parts of the last entity can follow.
proof fn lemma_in_order_extends(
    parts: Seq<PartView>,
    b: int,
    n: int,
    stems: Seq<int>,
    more: Seq<PartView>,
) -> (grown: Seq<int>)
    requires
        0 < n,
        in_order(parts, b, n, stems),
        forall|k: int| 0 <= k < more.len() ==> #[trigger] stems_from(more[k], b, n - 1),
    ensures
        in_order(parts + more, b, n, grown),
{
    let grown = stems + Seq::new(more.len(), |k: int| n - 1);
    assert forall|j: int|
        #![trigger grown[j]]
        0 <= j < (parts + more).len() implies 0 <= grown[j] < n && stems_from(
        (parts + more)[j],
        b,
        grown[j],
    ) by {
        if j < parts.len() {
            assert(grown[j] == stems[j]);
        } else {
            assert(stems_from(more[j - parts.len()], b, n - 1));
        }
    }
    assert forall|j: int, k: int| 0 <= j < k < grown.len() implies grown[j] <= grown[k] by {
        if j < parts.len() {
            assert(grown[j] == stems[j]);
            if k < parts.len() {
                assert(grown[k] == stems[k]);
            }
        }
    }
    grown
}

/// Chunks that an insert brings in can follow.
proof fn lemma_placed_in_order(
    parts: Seq<PartView>,
    b: int,
    n: int,
    stems: Seq<int>,
    before: Seq<ChunkView>,
    placed_ones: Seq<ChunkView>,
    brought: Seq<ChunkView>,
    style: (i16, i16),
    insert: Insert,
) -> (grown: Seq<int>)
    requires
        0 < n,
        in_order(parts, b, n, stems),
        parts == flattened(before),
        placed_ones == placed_chunks(
            brought,
            style,
            EntityRef { block: Some(b as usize), entity: (n - 1) as usize },
            insert,
        ),
    ensures
        in_order(flattened(before + placed_ones), b, n, grown),
    decreases brought.len(),
{
    let at = EntityRef { block: Some(b as usize), entity: (n - 1) as usize };
    if brought.len() == 0 {
        assert(before + placed_ones =~= before);
        stems
    } else {
        let fewer = placed_chunks(brought.drop_last(), style, at, insert);
        let mid = lemma_placed_in_order(
            parts,
            b,
            n,
            stems,
            before,
            fewer,
            brought.drop_last(),
            style,
            insert,
        );
        let last = placed_chunk(brought.last(), style, at, insert);
        assert(placed_ones =~= fewer.push(last));
        assert(before + placed_ones =~= (before + fewer).push(last));
        lemma_flattened_push(before + fewer, last);
        lemma_array_placed(
            brought.last().path,
            at,
            insert.row_count as int,
            insert.column_count as int,
        );
        assert forall|k: int| 0 <= k < last.path.len() implies #[trigger] stems_from(
            last.path[k],
            b,
            n - 1,
        ) by {
            assert(placed_by(last.path[k], at));
        }
        lemma_in_order_extends(flattened(before + fewer), b, n, mid, last.path)
    }
}

proof fn lemma_walk_in_order(
    d: DxfDrawing,
    b: int,
    resolved: Map<Seq<char>, Seq<ChunkView>>,
    n: int,
) -> (stems: Seq<int>)
    requires
        0 <= n,
        block_walk(d, b, resolved, n) matches Ok(Some(_)),
    ensures
        block_walk(d, b, resolved, n) matches Ok(Some(st)) && in_order(
            flattened(st.chunks) + st.lines,
            b,
            n,
            stems,
        ),
    decreases n,
{
    if n <= 0 {
        let st = block_walk(d, b, resolved, n)->Ok_0->Some_0;
        assert(flattened(st.chunks) + st.lines =~= Seq::empty());
        Seq::empty()
    } else {
        let before = block_walk(d, b, resolved, n - 1)->Ok_0->Some_0;
        let st = block_walk(d, b, resolved, n)->Ok_0->Some_0;
        let stems = lemma_walk_in_order(d, b, resolved, n - 1);
        let parts = flattened(before.chunks) + before.lines;
        let e = d.blocks@[b].entities@[n - 1];
        let at = EntityRef { block: Some(b as usize), entity: (n - 1) as usize };
        lemma_flattened_push(before.chunks, before.current());
        assert(in_order(parts, b, n, stems));
        let cut = before.cut(st.style);
        assert(flattened(cut.chunks) + cut.lines =~= parts);
        let st1 = if st.style != before.style {
            cut
        } else {
            before
        };
        assert(flattened(st1.chunks) + st1.lines == parts);
        match e.specific {
            EntityType::Insert(insert) => {
                if faces_viewer(insert.extrusion_direction) {
                    lemma_flattened_push(st1.chunks, st1.current());
                    let st2 = if st1.marked {
                        st1.cut(st.style)
                    } else {
                        st1
                    };
                    let kept = flattened(st2.chunks);
                    // Lines that leave no mark are dropped here.
                    let fewer = stems.take(kept.len() as int);
                    assert(kept =~= parts.take(kept.len() as int));
                    assert(in_order(kept, b, n, fewer)) by {
                        assert forall|j: int|
                            #![trigger fewer[j]]
                            0 <= j < kept.len() implies 0 <= fewer[j] < n && stems_from(
                            kept[j],
                            b,
                            fewer[j],
                        ) by {
                            assert(fewer[j] == stems[j]);
                            assert(kept[j] == parts[j]);
                        }
                    }
                    let brought = resolved[insert.name@];
                    let all = placed_chunks(brought, st.style, at, insert);
                    let grown = lemma_placed_in_order(
                        kept,
                        b,
                        n,
                        fewer,
                        st2.chunks,
                        all,
                        brought,
                        st.style,
                        insert,
                    );
                    assert(flattened(st.chunks) + st.lines =~= flattened(st2.chunks + all));
                    grown
                } else {
                    stems
                }
            },
            _ => {
                if outline(e.specific) is Some {
                    let part = PartView { source: at, placements: Seq::empty() };
                    let more = seq![part];
                    assert(stems_from(more[0], b, n - 1));
                    assert(flattened(st.chunks) + st.lines =~= parts + more);
                    lemma_in_order_extends(parts, b, n, stems, more)
                } else {
                    stems
                }
            },
        }
    }
}

/// The chunks of a block keep the drawing order: their parts stem from the entities of
/// the block in the order of these, and from nothing else.
pub proof fn law_blocks_keep_drawing_order(
    d: DxfDrawing,
    b: int,
    resolved: Map<Seq<char>, Seq<ChunkView>>,
)
    requires
        block_chunks(d, b, resolved) matches Ok(Some(_)),
    ensures
        block_chunks(d, b, resolved) matches Ok(Some(chunks)) && exists|stems: Seq<int>|
            #[trigger] in_order(
                flattened(chunks),
                b,
                d.blocks@[b].entities@.len() as int,
                stems,
            ),
{
    let n = d.blocks@[b].entities@.len() as int;
    let chunks = block_chunks(d, b, resolved)->Ok_0->Some_0;
    if n == 0 {
        assert(in_order(flattened(chunks), b, n, Seq::empty()));
    } else {
        let st = block_walk(d, b, resolved, n)->Ok_0->Some_0;
        let stems = lemma_walk_in_order(d, b, resolved, n);
        let parts = flattened(st.chunks) + st.lines;
        lemma_flattened_push(st.chunks, st.current());
        if st.marked {
            assert(in_order(flattened(chunks), b, n, stems));
        } else {
            let kept = flattened(st.chunks);
            let fewer = stems.take(kept.len() as int);
            assert forall|j: int|
                #![trigger fewer[j]]
                0 <= j < kept.len() implies 0 <= fewer[j] < n && stems_from(
                kept[j],
                b,
                fewer[j],
            ) by {
                assert(fewer[j] == stems[j]);
                assert(kept[j] == parts[j]);
            }
            assert(in_order(kept, b, n, fewer));
        }
    }
}

/// Line weight and color of entity `i` of block `b`.
pub open spec fn entity_style(d: DxfDrawing, b: int, i: int) -> (i16, i16) {
    let e = d.blocks@[b].entities@[i];
    resolved_style(
        d.layers@[layer_for(d.layers@, e.common.layer@)->0],
        weight_in_block(e),
        color_enum(e.common.color),
    )
}

/// Whether entity `i` of block `b` has an outline that leaves a mark.
pub open spec fn leaves_mark_in_block(d: DxfDrawing, b: int, i: int) -> bool {
    let e = d.blocks@[b].entities@[i];
    outline(e.specific) matches Some(path) && path.leaves_mark(e.arcs_vanish)
}

/// The outline of entity `i` of block `b`, in its own place.
pub open spec fn block_part(b: int, i: int) -> PartView {
    PartView {
        source: EntityRef { block: Some(b as usize), entity: i as usize },
        placements: Seq::empty(),
    }
}

/// Whether a chunk has a part, and this line weight and color.
pub open spec fn chunk_holds(chunk: ChunkView, p: PartView, style: (i16, i16)) -> bool {
    chunk.line_weight == style.0 && chunk.color == style.1 && chunk.path.contains(p)
}

/// Whether one of the chunks has a part, and this line weight and color.
pub open spec fn chunks_hold(chunks: Seq<ChunkView>, p: PartView, style: (i16, i16)) -> bool {
    exists|k: int| 0 <= k < chunks.len() && #[trigger] chunk_holds(chunks[k], p, style)
}

proof fn lemma_chunks_hold_extends(
    chunks: Seq<ChunkView>,
    more: Seq<ChunkView>,
    p: PartView,
    style: (i16, i16),
)
    requires
        chunks_hold(chunks, p, style),
    ensures
        chunks_hold(chunks + more, p, style),
{
    let k = choose|k: int| 0 <= k < chunks.len() && #[trigger] chunk_holds(chunks[k], p, style);
    assert(chunk_holds((chunks + more)[k], p, style));
}

/// Whether the walk over a block has kept the outline of entity `i`.
spec fn kept(d: DxfDrawing, b: int, st: BlockState, i: int) -> bool {
    let p = block_part(b, i);
    let style = entity_style(d, b, i);
    chunks_hold(st.chunks, p, style) || (st.lines.contains(p) && st.marked && st.style == style)
}

proof fn lemma_cut_keeps(d: DxfDrawing, b: int, st: BlockState, i: int, style: (i16, i16))
    requires
        kept(d, b, st, i),
    ensures
        kept(d, b, st.cut(style), i),
        chunks_hold(st.cut(style).chunks, block_part(b, i), entity_style(d, b, i)),
{
    let p = block_part(b, i);
    let own = entity_style(d, b, i);
    let next = st.cut(style);
    if chunks_hold(st.chunks, p, own) {
        lemma_chunks_hold_extends(st.chunks, seq![st.current()], p, own);
        assert(next.chunks =~= st.chunks + seq![st.current()]);
    } else {
        assert(chunk_holds(next.chunks[st.chunks.len() as int], p, own));
    }
}

proof fn lemma_walk_keeps(
    d: DxfDrawing,
    b: int,
    resolved: Map<Seq<char>, Seq<ChunkView>>,
    n: int,
    i: int,
)
    requires
        0 <= i < n,
        leaves_mark_in_block(d, b, i),
        block_walk(d, b, resolved, n) matches Ok(Some(_)),
    ensures
        block_walk(d, b, resolved, n) matches Ok(Some(st)) && kept(d, b, st, i),
    decreases n,
{
    let before = block_walk(d, b, resolved, n - 1)->Ok_0->Some_0;
    let st = block_walk(d, b, resolved, n)->Ok_0->Some_0;
    let e = d.blocks@[b].entities@[n - 1];
    let p = block_part(b, i);
    if i < n - 1 {
        lemma_walk_keeps(d, b, resolved, n - 1, i);
        lemma_cut_keeps(d, b, before, i, st.style);
        let st1 = if st.style != before.style {
            before.cut(st.style)
        } else {
            before
        };
        assert(kept(d, b, st1, i));
        match e.specific {
            EntityType::Insert(insert) => {
                if faces_viewer(insert.extrusion_direction) {
                    lemma_cut_keeps(d, b, st1, i, st.style);
                    let st2 = if st1.marked {
                        st1.cut(st.style)
                    } else {
                        st1
                    };
                    let at = EntityRef { block: Some(b as usize), entity: (n - 1) as usize };
                    let all = placed_chunks(resolved[insert.name@], st.style, at, insert);
                    lemma_chunks_hold_extends(st2.chunks, all, p, entity_style(d, b, i));
                }
            },
            _ => {
                if outline(e.specific) is Some && !chunks_hold(
                    st1.chunks,
                    p,
                    entity_style(d, b, i),
                ) {
                    let k = choose|k: int| 0 <= k < st1.lines.len() && st1.lines[k] == p;
                    assert(st.lines[k] == p);
                }
            },
        }
    } else {
        assert(st.lines.last() == p);
        assert(st.lines.contains(p));
    }
}

/// Resolving a block loses no mark: every entity of the block whose outline leaves a
/// mark is in a chunk with the line weight and the color of the entity.
pub proof fn law_blocks_lose_no_mark(
    d: DxfDrawing,
    b: int,
    resolved: Map<Seq<char>, Seq<ChunkView>>,
    i: int,
)
    requires
        0 <= i < d.blocks@[b].entities@.len(),
        leaves_mark_in_block(d, b, i),
        block_chunks(d, b, resolved) matches Ok(Some(_)),
    ensures
        block_chunks(d, b, resolved) matches Ok(Some(chunks)) && chunks_hold(
            chunks,
            block_part(b, i),
            entity_style(d, b, i),
        ),
{
    let n = d.blocks@[b].entities@.len() as int;
    lemma_walk_keeps(d, b, resolved, n, i);
    let st = block_walk(d, b, resolved, n)->Ok_0->Some_0;
    lemma_cut_keeps(d, b, st, i, st.style);
}

/// What a block comes to does not change when more blocks are resolved.
proof fn lemma_walk_is_settled(
    d: DxfDrawing,
    b: int,
    resolved: Map<Seq<char>, Seq<ChunkView>>,
    more: Map<Seq<char>, Seq<ChunkView>>,
    n: int,
)
    requires
        0 <= n,
        resolved.submap_of(more),
        block_walk(d, b, resolved, n) matches Ok(Some(_)),
    ensures
        block_walk(d, b, more, n) == block_walk(d, b, resolved, n),
    decreases n,
{
    if n > 0 {
        lemma_walk_is_settled(d, b, resolved, more, n - 1);
        match d.blocks@[b].entities@[n - 1].specific {
            EntityType::Insert(insert) => {
                assert(resolved.contains_key(insert.name@));
                assert(more.contains_key(insert.name@));
            },
            _ => {},
        }
    }
}

/// Whether no two blocks have the same name.
pub open spec fn names_are_unique(d: DxfDrawing) -> bool {
    forall|b: int, c: int|
        0 <= b < d.blocks@.len() && 0 <= c < d.blocks@.len() && (#[trigger] d.blocks@[b]).name@
            == (#[trigger] d.blocks@[c]).name@ ==> b == c
}

/// Whether every resolved block is what it comes to with the resolved blocks.
pub open spec fn is_settled(d: DxfDrawing, resolved: Map<Seq<char>, Seq<ChunkView>>) -> bool {
    forall|b: int|
        0 <= b < d.blocks@.len() && resolved.contains_key((#[trigger] d.blocks@[b]).name@)
            ==> block_chunks(d, b, resolved) == Ok::<_, LoadError>(
            Some(resolved[d.blocks@[b].name@]),
        )
}

proof fn lemma_pass_settles(
    d: DxfDrawing,
    todo: Seq<usize>,
    resolved: Map<Seq<char>, Seq<ChunkView>>,
    n: int,
)
    requires
        names_are_unique(d),
        0 <= n <= todo.len(),
        forall|j: int| 0 <= j < todo.len() ==> (#[trigger] todo[j]) < d.blocks@.len(),
        is_settled(d, resolved),
        pass_walk(d, todo, resolved, n) is Ok,
    ensures
        is_settled(d, pass_walk(d, todo, resolved, n)->Ok_0.resolved),
    decreases n,
{
    if n > 0 {
        lemma_pass_settles(d, todo, resolved, n - 1);
        let before = pass_walk(d, todo, resolved, n - 1)->Ok_0.resolved;
        let after = pass_walk(d, todo, resolved, n)->Ok_0.resolved;
        let b = todo[n - 1] as int;
        let name = d.blocks@[b].name@;
        if block_chunks(d, b, before) matches Ok(Some(_)) {
            if before.contains_key(name) {
                assert(after =~= before);
            } else {
                assert(before.submap_of(after));
                assert forall|c: int|
                    0 <= c < d.blocks@.len() && after.contains_key(
                        (#[trigger] d.blocks@[c]).name@,
                    ) implies block_chunks(d, c, after) == Ok::<_, LoadError>(
                    Some(after[d.blocks@[c].name@]),
                ) by {
                    let m = d.blocks@[c].entities@.len() as int;
                    if d.blocks@[c].name@ == name {
                        assert(c == b);
                    } else {
                        assert(before.contains_key(d.blocks@[c].name@));
                    }
                    if m > 0 {
                        lemma_walk_is_settled(d, c, before, after, m);
                    }
                }
            }
        }
    }
}

proof fn lemma_passes_settle(
    d: DxfDrawing,
    todo: Seq<usize>,
    resolved: Map<Seq<char>, Seq<ChunkView>>,
)
    requires
        names_are_unique(d),
        forall|j: int| 0 <= j < todo.len() ==> (#[trigger] todo[j]) < d.blocks@.len(),
        is_settled(d, resolved),
        passes(d, todo, resolved) is Ok,
    ensures
        is_settled(d, passes(d, todo, resolved)->Ok_0),
    decreases todo.len(),
{
    if todo.len() > 0 {
        lemma_pass_settles(d, todo, resolved, todo.len() as int);
        let st = pass_walk(d, todo, resolved, todo.len() as int)->Ok_0;
        let rest = still_open(d, todo, st.resolved);
        if st.progress && rest.len() < todo.len() {
            lemma_rest_in_range(d, todo, st.resolved);
            lemma_passes_settle(d, rest, st.resolved);
        }
    }
}

/// Where no two blocks have the same name, the order in which blocks are resolved does
/// not show: every resolved block is what it comes to with all resolved blocks.
///
/// Of blocks with the same name the last one that is resolved counts, but those that
/// inserted the name before keep what they got; the law leaves such drawings out.
pub proof fn law_resolved_blocks_are_settled(d: DxfDrawing)
    requires
        names_are_unique(d),
        resolved_blocks(d) is Ok,
    ensures
        is_settled(d, resolved_blocks(d)->Ok_0),
{
    lemma_passes_settle(d, all_blocks(d), Map::empty());
}

} // verus!
