//! Which of several blocks with one name counts, what blocks that show nothing do to the
//! order in which blocks are resolved, and what faulty blocks do to all.

use vstd::prelude::*;

#[allow(unused_imports)]
use crate::blocks::{
    all_blocks, block_chunks, block_step, block_walk, layer_for, pass_walk, passes,
    resolved_blocks, still_open, ChunkView, LoadError,
};
#[allow(unused_imports)]
use crate::block_style_laws::{holds_nothing_up, law_first_obstacle_decides};
#[allow(unused_imports)]
use crate::dxf_file::{DxfDrawing, EntityType};
#[allow(unused_imports)]
use crate::path::traceable;

verus! {

/// Whether block `b` inserts no block.
pub open spec fn inserts_nothing(d: DxfDrawing, b: int) -> bool {
    forall|i: int|
        0 <= i < d.blocks@[b].entities@.len() ==> !((
        #[trigger] d.blocks@[b].entities@[i]).specific is Insert)
}

proof fn lemma_walk_needs_no_blocks(
    d: DxfDrawing,
    b: int,
    resolved: Map<Seq<char>, Seq<ChunkView>>,
    other: Map<Seq<char>, Seq<ChunkView>>,
    n: int,
)
    requires
        inserts_nothing(d, b),
        0 <= n <= d.blocks@[b].entities@.len(),
    ensures
        block_walk(d, b, resolved, n) == block_walk(d, b, other, n),
    decreases n,
{
    if n > 0 {
        lemma_walk_needs_no_blocks(d, b, resolved, other, n - 1);
        assert(!(d.blocks@[b].entities@[n - 1].specific is Insert));
    }
}

/// What a block that inserts nothing comes to does not depend on other blocks.
pub proof fn law_blocks_without_inserts_stand_alone(
    d: DxfDrawing,
    b: int,
    resolved: Map<Seq<char>, Seq<ChunkView>>,
    other: Map<Seq<char>, Seq<ChunkView>>,
)
    requires
        inserts_nothing(d, b),
    ensures
        block_chunks(d, b, resolved) == block_chunks(d, b, other),
{
    lemma_walk_needs_no_blocks(d, b, resolved, other, d.blocks@[b].entities@.len() as int);
}

/// Whether none of the blocks in `todo` has this name.
spec fn names_none(d: DxfDrawing, todo: Seq<usize>, name: Seq<char>) -> bool {
    forall|j: int| 0 <= j < todo.len() ==> d.blocks@[#[trigger] todo[j] as int].name@ != name
}

proof fn lemma_pass_leaves_name(
    d: DxfDrawing,
    todo: Seq<usize>,
    resolved: Map<Seq<char>, Seq<ChunkView>>,
    n: int,
    name: Seq<char>,
)
    requires
        0 <= n <= todo.len(),
        names_none(d, todo, name),
        resolved.contains_key(name),
        pass_walk(d, todo, resolved, n) is Ok,
    ensures
        pass_walk(d, todo, resolved, n)->Ok_0.resolved.contains_key(name),
        pass_walk(d, todo, resolved, n)->Ok_0.resolved[name] == resolved[name],
    decreases n,
{
    if n > 0 {
        lemma_pass_leaves_name(d, todo, resolved, n - 1, name);
        assert(d.blocks@[todo[n - 1] as int].name@ != name);
    }
}

proof fn lemma_passes_leave_name(
    d: DxfDrawing,
    todo: Seq<usize>,
    resolved: Map<Seq<char>, Seq<ChunkView>>,
    name: Seq<char>,
)
    requires
        names_none(d, todo, name),
        resolved.contains_key(name),
        passes(d, todo, resolved) is Ok,
    ensures
        passes(d, todo, resolved)->Ok_0.contains_key(name),
        passes(d, todo, resolved)->Ok_0[name] == resolved[name],
    decreases todo.len(),
{
    if todo.len() > 0 {
        lemma_pass_leaves_name(d, todo, resolved, todo.len() as int, name);
        let st = pass_walk(d, todo, resolved, todo.len() as int)->Ok_0;
        let rest = still_open(d, todo, st.resolved);
        if st.progress && rest.len() < todo.len() {
            lemma_rest_lacks(d, todo, st.resolved, name);
            lemma_passes_leave_name(d, rest, st.resolved, name);
        }
    }
}

/// No block whose name is resolved is tried again.
proof fn lemma_rest_lacks(
    d: DxfDrawing,
    todo: Seq<usize>,
    resolved: Map<Seq<char>, Seq<ChunkView>>,
    name: Seq<char>,
)
    requires
        resolved.contains_key(name),
    ensures
        names_none(d, still_open(d, todo, resolved), name),
{
    broadcast use vstd::seq_lib::group_filter_ensures;

    let keep = |b: usize| !resolved.contains_key(d.blocks@[b as int].name@);
    let rest = todo.filter(keep);
    assert forall|j: int| 0 <= j < rest.len() implies d.blocks@[#[trigger] rest[j] as int].name@
        != name by {
        assert(keep(rest[j]));
    }
}

proof fn lemma_first_pass_keeps_last(
    d: DxfDrawing,
    b: int,
    chunks: Seq<ChunkView>,
    n: int,
)
    requires
        0 <= b < n <= d.blocks@.len(),
        inserts_nothing(d, b),
        block_chunks(d, b, Map::empty()) == Ok::<_, LoadError>(Some(chunks)),
        forall|c: int|
            b < c < d.blocks@.len() ==> (#[trigger] d.blocks@[c]).name@ != d.blocks@[b].name@,
        pass_walk(d, all_blocks(d), Map::empty(), n) is Ok,
    ensures
        ({
            let resolved = pass_walk(d, all_blocks(d), Map::empty(), n)->Ok_0.resolved;
            resolved.contains_key(d.blocks@[b].name@) && resolved[d.blocks@[b].name@] == chunks
        }),
    decreases n,
{
    assert(d.blocks.len() == d.blocks@.len());
    let before = pass_walk(d, all_blocks(d), Map::empty(), n - 1)->Ok_0;
    assert(all_blocks(d)[n - 1] as int == n - 1);
    if b < n - 1 {
        lemma_first_pass_keeps_last(d, b, chunks, n - 1);
        assert(d.blocks@[n - 1].name@ != d.blocks@[b].name@);
    } else {
        law_blocks_without_inserts_stand_alone(d, b, before.resolved, Map::empty());
    }
}

/// Of several blocks with one name the last counts, if that inserts nothing.
pub proof fn law_last_block_of_a_name_counts(d: DxfDrawing, b: int, chunks: Seq<ChunkView>)
    requires
        0 <= b < d.blocks@.len(),
        inserts_nothing(d, b),
        forall|c: int|
            b < c < d.blocks@.len() ==> (#[trigger] d.blocks@[c]).name@ != d.blocks@[b].name@,
        block_chunks(d, b, Map::empty()) == Ok::<_, LoadError>(Some(chunks)),
        resolved_blocks(d) is Ok,
    ensures
        resolved_blocks(d)->Ok_0.contains_key(d.blocks@[b].name@),
        resolved_blocks(d)->Ok_0[d.blocks@[b].name@] == chunks,
{
    let all = all_blocks(d);
    let name = d.blocks@[b].name@;
    lemma_first_pass_keeps_last(d, b, chunks, d.blocks@.len() as int);
    let st = pass_walk(d, all, Map::empty(), all.len() as int)->Ok_0;
    let rest = still_open(d, all, st.resolved);
    if st.progress && rest.len() < all.len() {
        lemma_rest_lacks(d, all, st.resolved, name);
        lemma_passes_leave_name(d, rest, st.resolved, name);
    }
}

/// Whether block `b` inserts a block with a name that no block before it has.
pub open spec fn waits_at_first(d: DxfDrawing, b: int) -> bool {
    exists|i: int| #[trigger] inserts_later(d, b, i)
}

/// Whether entity `i` of block `b` inserts a block with a name that no block before it has.
pub open spec fn inserts_later(d: DxfDrawing, b: int, i: int) -> bool {
    &&& 0 <= i < d.blocks@[b].entities@.len()
    &&& d.blocks@[b].entities@[i].specific matches EntityType::Insert(insert) && forall|c: int|
        0 <= c < b ==> (#[trigger] d.blocks@[c]).name@ != insert.name@
}

proof fn lemma_unresolved_insert_stops(
    d: DxfDrawing,
    b: int,
    resolved: Map<Seq<char>, Seq<ChunkView>>,
    i: int,
    n: int,
)
    requires
        0 <= i < n,
        d.blocks@[b].entities@[i].specific matches EntityType::Insert(insert)
            && !resolved.contains_key(insert.name@),
    ensures
        !(block_walk(d, b, resolved, n) matches Ok(Some(_))),
    decreases n,
{
    if i < n - 1 {
        lemma_unresolved_insert_stops(d, b, resolved, i, n - 1);
    }
}

proof fn lemma_first_pass_is_idle(d: DxfDrawing, n: int)
    requires
        0 <= n <= d.blocks@.len(),
        forall|b: int|
            0 <= b < d.blocks@.len() && (#[trigger] d.blocks@[b]).entities@.len() > 0
                ==> waits_at_first(d, b),
        pass_walk(d, all_blocks(d), Map::empty(), n) is Ok,
    ensures
        ({
            let st = pass_walk(d, all_blocks(d), Map::empty(), n)->Ok_0;
            &&& !st.progress
            &&& forall|name: Seq<char>| #[trigger]
                st.resolved.contains_key(name) ==> exists|c: int|
                    0 <= c < n && (#[trigger] d.blocks@[c]).name@ == name
                        && d.blocks@[c].entities@.len() == 0
        }),
    decreases n,
{
    assert(d.blocks.len() == d.blocks@.len());
    if n > 0 {
        lemma_first_pass_is_idle(d, n - 1);
        let before = pass_walk(d, all_blocks(d), Map::empty(), n - 1)->Ok_0;
        let after = pass_walk(d, all_blocks(d), Map::empty(), n)->Ok_0;
        let b = n - 1;
        assert(all_blocks(d)[b] as int == b);
        if d.blocks@[b].entities@.len() > 0 {
            assert(waits_at_first(d, b));
            let i = choose|i: int| #[trigger] inserts_later(d, b, i);
            let insert = d.blocks@[b].entities@[i].specific->Insert_0;
            if before.resolved.contains_key(insert.name@) {
                let c = choose|c: int|
                    0 <= c < n - 1 && (#[trigger] d.blocks@[c]).name@ == insert.name@
                        && d.blocks@[c].entities@.len() == 0;
                assert(d.blocks@[c].name@ != insert.name@);
            }
            lemma_unresolved_insert_stops(
                d,
                b,
                before.resolved,
                i,
                d.blocks@[b].entities@.len() as int,
            );
        } else {
            assert forall|name: Seq<char>| #[trigger]
                after.resolved.contains_key(name) implies exists|c: int|
                0 <= c < n && (#[trigger] d.blocks@[c]).name@ == name
                    && d.blocks@[c].entities@.len() == 0 by {
                if name == d.blocks@[b].name@ {
                    assert(d.blocks@[b].entities@.len() == 0);
                } else {
                    assert(before.resolved.contains_key(name));
                }
            }
        }
    }
}

/// Blocks that show nothing are no progress: where every other block waits for a block that
/// comes later, no other block is resolved, though what it waits for may be one that shows
/// nothing.
pub proof fn law_empty_blocks_are_no_progress(d: DxfDrawing, name: Seq<char>)
    requires
        forall|b: int|
            0 <= b < d.blocks@.len() && (#[trigger] d.blocks@[b]).entities@.len() > 0
                ==> waits_at_first(d, b),
        resolved_blocks(d) is Ok,
        resolved_blocks(d)->Ok_0.contains_key(name),
    ensures
        exists|c: int|
            0 <= c < d.blocks@.len() && (#[trigger] d.blocks@[c]).name@ == name
                && d.blocks@[c].entities@.len() == 0,
{
    lemma_first_pass_is_idle(d, d.blocks@.len() as int);
}

/// Whether entity `i` of block `b` makes resolving fail: it names no layer that exists, or
/// its outline cannot be traced.
pub open spec fn is_faulty(d: DxfDrawing, b: int, i: int) -> bool {
    let e = d.blocks@[b].entities@[i];
    layer_for(d.layers@, e.common.layer@) is None || !traceable(e.specific)
}

/// Whether entity `n` of block `b` is faulty, and nothing in front of it is or inserts a
/// block.
pub open spec fn fails_at(d: DxfDrawing, b: int, n: int) -> bool {
    &&& 0 <= n < d.blocks@[b].entities@.len()
    &&& is_faulty(d, b, n)
    &&& forall|i: int|
        0 <= i < n ==> !#[trigger] is_faulty(d, b, i)
            && !(d.blocks@[b].entities@[i].specific is Insert)
}

proof fn lemma_faulty_block_fails(
    d: DxfDrawing,
    b: int,
    resolved: Map<Seq<char>, Seq<ChunkView>>,
    n: int,
)
    requires
        fails_at(d, b, n),
    ensures
        block_chunks(d, b, resolved) == Err::<Option<Seq<ChunkView>>, _>(
            if layer_for(d.layers@, d.blocks@[b].entities@[n].common.layer@) is None {
                LoadError::UnknownLayer
            } else {
                LoadError::UntraceableSpline
            },
        ),
{
    assert forall|i: int| 0 <= i < n implies #[trigger] holds_nothing_up(d, b, resolved, i) by {
        assert(!is_faulty(d, b, i));
    }
    law_first_obstacle_decides(d, b, resolved, n);
}

proof fn lemma_sound_walk(
    d: DxfDrawing,
    b: int,
    resolved: Map<Seq<char>, Seq<ChunkView>>,
    n: int,
)
    requires
        0 <= n <= d.blocks@[b].entities@.len(),
        d.blocks@[b].entities@.len() > 0,
        forall|i: int|
            0 <= i < d.blocks@[b].entities@.len() ==> !#[trigger] is_faulty(d, b, i),
    ensures
        block_walk(d, b, resolved, n) is Ok,
    decreases n,
{
    if n > 0 {
        lemma_sound_walk(d, b, resolved, n - 1);
        assert(!is_faulty(d, b, n - 1));
    } else {
        assert(!is_faulty(d, b, 0));
    }
}

proof fn lemma_sound_blocks_pass(d: DxfDrawing, n: int)
    requires
        0 <= n <= d.blocks@.len(),
        forall|b: int, i: int|
            0 <= b < n && 0 <= i < d.blocks@[b].entities@.len() ==> !#[trigger] is_faulty(
                d,
                b,
                i,
            ),
    ensures
        pass_walk(d, all_blocks(d), Map::empty(), n) is Ok,
    decreases n,
{
    assert(d.blocks.len() == d.blocks@.len());
    if n > 0 {
        lemma_sound_blocks_pass(d, n - 1);
        let before = pass_walk(d, all_blocks(d), Map::empty(), n - 1)->Ok_0;
        assert(all_blocks(d)[n - 1] as int == n - 1);
        if d.blocks@[n - 1].entities@.len() > 0 {
            lemma_sound_walk(
                d,
                n - 1,
                before.resolved,
                d.blocks@[n - 1].entities@.len() as int,
            );
        }
    }
}

/// A faulty entity in a block that needs no other block to be reached makes resolving fail;
/// and if no block in front has a faulty entity, it says why.
pub proof fn law_faulty_blocks_fail(d: DxfDrawing, b: int, n: int)
    requires
        0 <= b < d.blocks@.len(),
        fails_at(d, b, n),
    ensures
        resolved_blocks(d) is Err,
        (forall|c: int, i: int|
            0 <= c < b && 0 <= i < d.blocks@[c].entities@.len() ==> !#[trigger] is_faulty(d, c, i))
            ==> resolved_blocks(d) == Err::<Map<Seq<char>, Seq<ChunkView>>, _>(
            if layer_for(d.layers@, d.blocks@[b].entities@[n].common.layer@) is None {
                LoadError::UnknownLayer
            } else {
                LoadError::UntraceableSpline
            },
        ),
{
    assert(d.blocks.len() == d.blocks@.len());
    let all = all_blocks(d);
    assert(all[b] as int == b);
    let before = pass_walk(d, all, Map::empty(), b);
    if before is Ok {
        lemma_faulty_block_fails(d, b, before->Ok_0.resolved, n);
    }
    if forall|c: int, i: int|
        0 <= c < b && 0 <= i < d.blocks@[c].entities@.len() ==> !#[trigger] is_faulty(d, c, i) {
        lemma_sound_blocks_pass(d, b);
    }
    lemma_pass_is_over(d, all, Map::empty(), b + 1, all.len() as int);
}

proof fn lemma_pass_is_over(
    d: DxfDrawing,
    todo: Seq<usize>,
    resolved: Map<Seq<char>, Seq<ChunkView>>,
    n: int,
    m: int,
)
    requires
        0 <= n <= m,
        pass_walk(d, todo, resolved, n) is Err,
    ensures
        pass_walk(d, todo, resolved, m) == pass_walk(d, todo, resolved, n),
    decreases m,
{
    if n < m {
        lemma_pass_is_over(d, todo, resolved, n, m - 1);
    }
}

} // verus!
