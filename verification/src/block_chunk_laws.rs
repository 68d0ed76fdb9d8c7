//! Where blocks are cut into chunks, and where they are not.

use vstd::prelude::*;

#[allow(unused_imports)]
use crate::block_laws::{
    block_part, entity_style, leaves_mark_in_block, lemma_array_placed, placed_by,
};
#[allow(unused_imports)]
use crate::blocks::{
    arrayed, block_chunks, block_step, block_walk, entity_at, layer_for, placed_chunk,
    placed_chunks, resolved_style, BlockState, ChunkView, EntityRef, LoadError, PartView,
};
#[allow(unused_imports)]
use crate::color::color_enum;
#[allow(unused_imports)]
use crate::dxf_file::{DxfDrawing, EntityType, Insert};
#[allow(unused_imports)]
use crate::path::{faces_viewer, outline};
#[allow(unused_imports)]
use crate::path_laws::is_front;

verus! {

/// Whether a part is the outline of one of the first `n` entities of block `b`, or was
/// brought in by one of them: an insert that faces the viewer.
pub open spec fn comes_from(d: DxfDrawing, b: int, n: int, p: PartView) -> bool {
    exists|i: int| #[trigger] is_from(d, b, n, p, i)
}

/// Whether a part is the outline of entity `i` of block `b`, or was brought in by it.
pub open spec fn is_from(d: DxfDrawing, b: int, n: int, p: PartView, i: int) -> bool {
    &&& 0 <= i < n
    &&& if p.placements.len() == 0 {
        p == block_part(b, i) && outline(d.blocks@[b].entities@[i].specific) is Some
    } else {
        p.placements.last().insert == (EntityRef { block: Some(b as usize), entity: i as usize })
            && (d.blocks@[b].entities@[i].specific matches EntityType::Insert(insert) && is_front(
            insert.extrusion_direction,
        ))
    }
}

spec fn path_comes_from(d: DxfDrawing, b: int, n: int, path: Seq<PartView>) -> bool {
    forall|m: int| 0 <= m < path.len() ==> comes_from(d, b, n, #[trigger] path[m])
}

spec fn chunks_come_from(d: DxfDrawing, b: int, n: int, chunks: Seq<ChunkView>) -> bool {
    forall|k: int|
        0 <= k < chunks.len() ==> path_comes_from(d, b, n, (#[trigger] chunks[k]).path)
}

proof fn lemma_comes_from_more(d: DxfDrawing, b: int, n: int, m: int, p: PartView)
    requires
        comes_from(d, b, n, p),
        n <= m,
    ensures
        comes_from(d, b, m, p),
{
    let i = choose|i: int| #[trigger] is_from(d, b, n, p, i);
    assert(is_from(d, b, m, p, i));
}

proof fn lemma_walk_comes_from(
    d: DxfDrawing,
    b: int,
    resolved: Map<Seq<char>, Seq<ChunkView>>,
    n: int,
)
    requires
        0 <= n <= d.blocks@[b].entities@.len(),
    ensures
        block_walk(d, b, resolved, n) matches Ok(Some(st)) ==> chunks_come_from(d, b, n, st.chunks)
            && path_comes_from(d, b, n, st.lines),
    decreases n,
{
    if n > 0 && (block_walk(d, b, resolved, n) matches Ok(Some(_))) {
        lemma_walk_comes_from(d, b, resolved, n - 1);
        let before = block_walk(d, b, resolved, n - 1)->Ok_0->Some_0;
        let st = block_walk(d, b, resolved, n)->Ok_0->Some_0;
        let e = d.blocks@[b].entities@[n - 1];
        let at = EntityRef { block: Some(b as usize), entity: (n - 1) as usize };
        let style = entity_style(d, b, n - 1);
        assert forall|p: PartView| #[trigger] comes_from(d, b, n - 1, p) implies comes_from(
            d,
            b,
            n,
            p,
        ) by {
            lemma_comes_from_more(d, b, n - 1, n, p);
        }
        let st1 = if style != before.style {
            before.cut(style)
        } else {
            before
        };
        assert(chunks_come_from(d, b, n, before.chunks));
        assert(path_comes_from(d, b, n, before.lines));
        assert(chunks_come_from(d, b, n, st1.chunks)) by {
            assert forall|k: int| 0 <= k < st1.chunks.len() implies path_comes_from(
                d,
                b,
                n,
                (#[trigger] st1.chunks[k]).path,
            ) by {
                if k < before.chunks.len() {
                    assert(st1.chunks[k] == before.chunks[k]);
                }
            }
        }
        match e.specific {
            EntityType::Insert(insert) => {
                if faces_viewer(insert.extrusion_direction) {
                    let st2 = if st1.marked {
                        st1.cut(style)
                    } else {
                        st1
                    };
                    let all = placed_chunks(resolved[insert.name@], style, at, insert);
                    assert forall|k: int| 0 <= k < st.chunks.len() implies path_comes_from(
                        d,
                        b,
                        n,
                        (#[trigger] st.chunks[k]).path,
                    ) by {
                        if k < st1.chunks.len() {
                            assert(st.chunks[k] == st1.chunks[k]);
                        } else if k < st2.chunks.len() {
                            assert(st.chunks[k] == st1.current());
                        } else {
                            let c = resolved[insert.name@][k - st2.chunks.len()];
                            assert(st.chunks[k] == all[k - st2.chunks.len()]);
                            assert(st.chunks[k] == placed_chunk(c, style, at, insert));
                            lemma_array_placed(
                                c.path,
                                at,
                                insert.row_count as int,
                                insert.column_count as int,
                            );
                            let path = st.chunks[k].path;
                            assert forall|m: int| 0 <= m < path.len() implies comes_from(
                                d,
                                b,
                                n,
                                #[trigger] path[m],
                            ) by {
                                assert(placed_by(path[m], at));
                                assert(is_from(d, b, n, path[m], n - 1));
                            }
                        }
                    }
                }
            },
            _ => {
                if outline(e.specific) is Some {
                    assert forall|m: int| 0 <= m < st.lines.len() implies comes_from(
                        d,
                        b,
                        n,
                        #[trigger] st.lines[m],
                    ) by {
                        if m < st1.lines.len() {
                            assert(st.lines[m] == st1.lines[m]);
                        } else {
                            assert(is_from(d, b, n, st.lines[m], n - 1));
                        }
                    }
                }
            },
        }
    }
}

/// The chunks of a block are made of the outlines of its entities and of what its inserts
/// bring in that face the viewer, and of nothing else.
pub proof fn law_blocks_show_only_their_entities(
    d: DxfDrawing,
    b: int,
    resolved: Map<Seq<char>, Seq<ChunkView>>,
    chunks: Seq<ChunkView>,
    k: int,
    m: int,
)
    requires
        block_chunks(d, b, resolved) == Ok::<_, LoadError>(Some(chunks)),
        0 <= k < chunks.len(),
        0 <= m < chunks[k].path.len(),
    ensures
        comes_from(d, b, d.blocks@[b].entities@.len() as int, chunks[k].path[m]),
{
    let n = d.blocks@[b].entities@.len() as int;
    lemma_walk_comes_from(d, b, resolved, n);
    let st = block_walk(d, b, resolved, n)->Ok_0->Some_0;
    if k < st.chunks.len() {
        assert(chunks[k] == st.chunks[k]);
        assert(path_comes_from(d, b, n, st.chunks[k].path));
    } else {
        assert(chunks[k] == st.current());
    }
}

/// Whether `q` follows wherever `p` is in a path.
spec fn follows(path: Seq<PartView>, p: PartView, q: PartView) -> bool {
    forall|m: int|
        0 <= m < path.len() && #[trigger] path[m] == p ==> m + 1 < path.len() && path[m + 1] == q
}

spec fn follows_in(chunks: Seq<ChunkView>, p: PartView, q: PartView) -> bool {
    forall|k: int| 0 <= k < chunks.len() ==> follows((#[trigger] chunks[k]).path, p, q)
}

/// An outline is not in what came before it.
proof fn lemma_absent_before(d: DxfDrawing, b: int, n: int, i: int, path: Seq<PartView>)
    requires
        0 <= b < d.blocks@.len(),
        0 <= n <= i < d.blocks@[b].entities@.len(),
        path_comes_from(d, b, n, path),
    ensures
        forall|m: int| 0 <= m < path.len() ==> #[trigger] path[m] != block_part(b, i),
{
    assert(d.blocks@[b].entities.len() == d.blocks@[b].entities@.len());
    assert forall|m: int| 0 <= m < path.len() implies #[trigger] path[m] != block_part(b, i) by {
        if path[m] == block_part(b, i) {
            assert(comes_from(d, b, n, path[m]));
            let j = choose|j: int| #[trigger] is_from(d, b, n, path[m], j);
            assert(block_part(b, j).source.entity == j as usize);
            assert(block_part(b, i).source.entity == i as usize);
        }
    }
}

proof fn lemma_runs_stay_together(
    d: DxfDrawing,
    b: int,
    resolved: Map<Seq<char>, Seq<ChunkView>>,
    i: int,
    n: int,
)
    requires
        0 <= b < d.blocks@.len(),
        0 <= i,
        i + 2 <= n <= d.blocks@[b].entities@.len(),
        outline(d.blocks@[b].entities@[i].specific) is Some,
        outline(d.blocks@[b].entities@[i + 1].specific) is Some,
        entity_style(d, b, i) == entity_style(d, b, i + 1),
        block_walk(d, b, resolved, n) matches Ok(Some(_)),
    ensures
        ({
            let st = block_walk(d, b, resolved, n)->Ok_0->Some_0;
            &&& follows_in(st.chunks, block_part(b, i), block_part(b, i + 1))
            &&& follows(st.lines, block_part(b, i), block_part(b, i + 1))
        }),
    decreases n,
{
    assert(d.blocks@[b].entities.len() == d.blocks@[b].entities@.len());
    let p = block_part(b, i);
    let q = block_part(b, i + 1);
    let st = block_walk(d, b, resolved, n)->Ok_0->Some_0;
    let before = block_walk(d, b, resolved, n - 1)->Ok_0->Some_0;
    let style = entity_style(d, b, n - 1);
    assert(p.source.entity == i as usize);
    assert(q.source.entity == (i + 1) as usize);
    if n == i + 2 {
        let first = block_walk(d, b, resolved, i)->Ok_0->Some_0;
        lemma_walk_comes_from(d, b, resolved, i);
        lemma_absent_before(d, b, i, i, first.lines);
        let st1 = if style != first.style {
            first.cut(style)
        } else {
            first
        };
        assert(before.chunks == st1.chunks);
        assert(before.lines == st1.lines.push(p));
        assert(before.style == style);
        assert(st.chunks == before.chunks);
        assert(st.lines == before.lines.push(q));
        assert forall|k: int| 0 <= k < st.chunks.len() implies follows(
            (#[trigger] st.chunks[k]).path,
            p,
            q,
        ) by {
            if k < first.chunks.len() {
                assert(st.chunks[k] == first.chunks[k]);
                lemma_absent_before(d, b, i, i, first.chunks[k].path);
            } else {
                assert(st.chunks[k].path == first.lines);
            }
        }
        assert forall|m: int| 0 <= m < st.lines.len() && #[trigger] st.lines[m] == p implies m + 1
            < st.lines.len() && st.lines[m + 1] == q by {
            if m < st1.lines.len() {
                assert(st.lines[m] == st1.lines[m]);
                assert(st1.lines[m] == first.lines[m]);
            }
        }
    } else {
        lemma_runs_stay_together(d, b, resolved, i, n - 1);
        let e = d.blocks@[b].entities@[n - 1];
        let at = EntityRef { block: Some(b as usize), entity: (n - 1) as usize };
        let st1 = if style != before.style {
            before.cut(style)
        } else {
            before
        };
        assert forall|k: int| 0 <= k < st1.chunks.len() implies follows(
            (#[trigger] st1.chunks[k]).path,
            p,
            q,
        ) by {
            if k < before.chunks.len() {
                assert(st1.chunks[k] == before.chunks[k]);
            }
        }
        match e.specific {
            EntityType::Insert(insert) => {
                if faces_viewer(insert.extrusion_direction) {
                    let st2 = if st1.marked {
                        st1.cut(style)
                    } else {
                        st1
                    };
                    let all = placed_chunks(resolved[insert.name@], style, at, insert);
                    assert forall|k: int| 0 <= k < st.chunks.len() implies follows(
                        (#[trigger] st.chunks[k]).path,
                        p,
                        q,
                    ) by {
                        if k < st1.chunks.len() {
                            assert(st.chunks[k] == st1.chunks[k]);
                        } else if k < st2.chunks.len() {
                            assert(st.chunks[k] == st1.current());
                        } else {
                            let c = resolved[insert.name@][k - st2.chunks.len()];
                            assert(st.chunks[k] == all[k - st2.chunks.len()]);
                            assert(st.chunks[k] == placed_chunk(c, style, at, insert));
                            lemma_array_placed(
                                c.path,
                                at,
                                insert.row_count as int,
                                insert.column_count as int,
                            );
                            let path = st.chunks[k].path;
                            assert forall|m: int| 0 <= m < path.len() implies #[trigger] path[m]
                                != p by {
                                assert(placed_by(path[m], at));
                            }
                        }
                    }
                }
            },
            _ => {
                if outline(e.specific) is Some {
                    let own = block_part(b, n - 1);
                    assert(own.source.entity == (n - 1) as usize);
                    assert(st.lines == st1.lines.push(own));
                    assert forall|m: int|
                        0 <= m < st.lines.len() && #[trigger] st.lines[m] == p implies m + 1
                        < st.lines.len() && st.lines[m + 1] == q by {
                        assert(m < st1.lines.len());
                        assert(st.lines[m] == st1.lines[m]);
                        assert(st1.lines[m + 1] == q);
                    }
                }
            },
        }
    }
}

/// Two entities of a block that follow each other, both with outlines and with one line
/// weight and color, are in one chunk if the first is in one: the second right behind it.
pub proof fn law_runs_stay_together(
    d: DxfDrawing,
    b: int,
    resolved: Map<Seq<char>, Seq<ChunkView>>,
    chunks: Seq<ChunkView>,
    i: int,
    k: int,
    m: int,
)
    requires
        0 <= b < d.blocks@.len(),
        0 <= i < d.blocks@[b].entities@.len() - 1,
        outline(d.blocks@[b].entities@[i].specific) is Some,
        outline(d.blocks@[b].entities@[i + 1].specific) is Some,
        entity_style(d, b, i) == entity_style(d, b, i + 1),
        block_chunks(d, b, resolved) == Ok::<_, LoadError>(Some(chunks)),
        0 <= k < chunks.len(),
        0 <= m < chunks[k].path.len(),
        chunks[k].path[m] == block_part(b, i),
    ensures
        m + 1 < chunks[k].path.len(),
        chunks[k].path[m + 1] == block_part(b, i + 1),
{
    let n = d.blocks@[b].entities@.len() as int;
    lemma_runs_stay_together(d, b, resolved, i, n);
    let st = block_walk(d, b, resolved, n)->Ok_0->Some_0;
    if k < st.chunks.len() {
        assert(chunks[k] == st.chunks[k]);
        assert(follows(st.chunks[k].path, block_part(b, i), block_part(b, i + 1)));
    } else {
        assert(chunks[k] == st.current());
    }
}

/// The line weight and color in front of entity `i` of block `b`: those of the entity
/// before it. In front of the first they are those that the first would have if it were
/// no solid.
pub open spec fn style_before(d: DxfDrawing, b: int, i: int) -> (i16, i16) {
    if i > 0 {
        entity_style(d, b, i - 1)
    } else {
        let first = d.blocks@[b].entities@[0].common;
        resolved_style(
            d.layers@[layer_for(d.layers@, first.layer@)->0],
            first.lineweight_enum_value,
            color_enum(first.color),
        )
    }
}

/// Whether entity `i` of block `b` is an insert that faces the viewer.
pub open spec fn brings_in(d: DxfDrawing, b: int, i: int) -> bool {
    d.blocks@[b].entities@[i].specific matches EntityType::Insert(insert) && is_front(
        insert.extrusion_direction,
    )
}

/// Whether the line weight or color changes with entity `i` of block `b`.
pub open spec fn changes_style(d: DxfDrawing, b: int, i: int) -> bool {
    entity_style(d, b, i) != style_before(d, b, i)
}

/// Whether entity `i` of block `b` leaves a mark, and none of the first `n` entities after
/// it changes the style or brings in another block.
pub open spec fn marks_the_end(d: DxfDrawing, b: int, n: int, i: int) -> bool {
    &&& 0 <= i < n
    &&& leaves_mark_in_block(d, b, i)
    &&& forall|j: int| i < j < n ==> !#[trigger] changes_style(d, b, j) && !brings_in(d, b, j)
}

/// Whether one of the first `n` entities of block `b` leaves a mark that is in no chunk yet.
pub open spec fn ends_with_mark(d: DxfDrawing, b: int, n: int) -> bool {
    exists|i: int| #[trigger] marks_the_end(d, b, n, i)
}

/// How many chunks are finished after the first `n` entities of block `b`: one for every
/// change of style, and for every insert that faces the viewer those that it brings in and
/// one for the marks in front of it, if there are any.
pub open spec fn finished_chunks(
    d: DxfDrawing,
    b: int,
    resolved: Map<Seq<char>, Seq<ChunkView>>,
    n: int,
) -> nat
    decreases n,
{
    if n <= 0 {
        0
    } else {
        finished_chunks(d, b, resolved, n - 1) + (if changes_style(d, b, n - 1) {
            1nat
        } else if brings_in(d, b, n - 1) && ends_with_mark(d, b, n - 1) {
            1nat
        } else {
            0nat
        }) + if brings_in(d, b, n - 1) {
            resolved[d.blocks@[b].entities@[n - 1].specific->Insert_0.name@].len()
        } else {
            0nat
        }
    }
}

proof fn lemma_marked_before(d: DxfDrawing, b: int, n: int, i: int)
    requires
        marks_the_end(d, b, n, i),
        i < n - 1,
    ensures
        marks_the_end(d, b, n - 1, i),
        ends_with_mark(d, b, n - 1),
        !changes_style(d, b, n - 1),
        !brings_in(d, b, n - 1),
{
    assert(!changes_style(d, b, n - 1));
    assert(marks_the_end(d, b, n - 1, i));
}

proof fn lemma_marked_after(d: DxfDrawing, b: int, n: int, i: int)
    requires
        marks_the_end(d, b, n - 1, i),
        !changes_style(d, b, n - 1),
        !brings_in(d, b, n - 1),
    ensures
        marks_the_end(d, b, n, i),
{
    assert forall|j: int| i < j < n implies !#[trigger] changes_style(d, b, j) && !brings_in(
        d,
        b,
        j,
    ) by {
        if j < n - 1 {
            assert(!changes_style(d, b, j));
        }
    }
}

proof fn lemma_walk_counts_chunks(
    d: DxfDrawing,
    b: int,
    resolved: Map<Seq<char>, Seq<ChunkView>>,
    n: int,
)
    requires
        0 <= n <= d.blocks@[b].entities@.len(),
        block_walk(d, b, resolved, n) matches Ok(Some(_)),
    ensures
        ({
            let st = block_walk(d, b, resolved, n)->Ok_0->Some_0;
            &&& st.chunks.len() == finished_chunks(d, b, resolved, n)
            &&& st.style == style_before(d, b, n)
            &&& st.marked <==> ends_with_mark(d, b, n)
        }),
    decreases n,
{
    let st = block_walk(d, b, resolved, n)->Ok_0->Some_0;
    if n > 0 {
        lemma_walk_counts_chunks(d, b, resolved, n - 1);
        let before = block_walk(d, b, resolved, n - 1)->Ok_0->Some_0;
        let style = entity_style(d, b, n - 1);
        let own = leaves_mark_in_block(d, b, n - 1);
        let goes_on = !changes_style(d, b, n - 1) && !brings_in(d, b, n - 1);
        assert(before.style == style_before(d, b, n - 1));
        assert(st.marked <==> own || (goes_on && before.marked));
        if own {
            assert(marks_the_end(d, b, n, n - 1));
        }
        if goes_on && before.marked {
            let i = choose|i: int| #[trigger] marks_the_end(d, b, n - 1, i);
            lemma_marked_after(d, b, n, i);
            assert(marks_the_end(d, b, n, i));
        }
        if ends_with_mark(d, b, n) && !own {
            let i = choose|i: int| #[trigger] marks_the_end(d, b, n, i);
            assert(i < n - 1);
            assert(!changes_style(d, b, n - 1));
            lemma_marked_before(d, b, n, i);
        }
    }
}

/// Chunks are cut where the style changes and where an insert brings in others, and nowhere
/// else: so many chunks a block has, and one more for what comes after the last cut if that
/// leaves a mark.
pub proof fn law_chunks_are_cut_where_needed(
    d: DxfDrawing,
    b: int,
    resolved: Map<Seq<char>, Seq<ChunkView>>,
    chunks: Seq<ChunkView>,
)
    requires
        d.blocks@[b].entities@.len() > 0,
        block_chunks(d, b, resolved) == Ok::<_, LoadError>(Some(chunks)),
    ensures
        ({
            let n = d.blocks@[b].entities@.len() as int;
            chunks.len() == finished_chunks(d, b, resolved, n) + if ends_with_mark(d, b, n) {
                1nat
            } else {
                0nat
            }
        }),
{
    lemma_walk_counts_chunks(d, b, resolved, d.blocks@[b].entities@.len() as int);
}

/// A reference without a block names an entity of the drawing, and one with a block an
/// entity of that block, by index; beyond the last there is none.
pub proof fn law_references_name_entities(d: DxfDrawing, i: usize, b: usize)
    ensures
        i < d.entities@.len() ==> entity_at(d, EntityRef { block: None, entity: i }) == Some(
            d.entities@[i as int],
        ),
        i >= d.entities@.len() ==> entity_at(d, EntityRef { block: None, entity: i }) is None,
        b < d.blocks@.len() && i < d.blocks@[b as int].entities@.len() ==> entity_at(
            d,
            EntityRef { block: Some(b), entity: i },
        ) == Some(d.blocks@[b as int].entities@[i as int]),
        b >= d.blocks@.len() || i >= d.blocks@[b as int].entities@.len() ==> entity_at(
            d,
            EntityRef { block: Some(b), entity: i },
        ) is None,
{
}

} // verus!
