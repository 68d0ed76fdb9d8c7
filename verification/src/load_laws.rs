//! What holds of loaded drawings.

use vstd::prelude::*;

#[allow(unused_imports)]
use crate::block_laws::{
    blocks_drawable, chunks_drawable, is_drawable, law_blocks_are_drawable, lemma_array_drawable,
    lemma_array_placed, path_drawable, placed_by,
};
#[allow(unused_imports)]
use crate::blocks::{
    arrayed, entity_at, layer_for, lemma_last_layer_with, lemma_layer_for, resolved_blocks,
    ChunkView, EntityRef, LoadError, PartView,
};
#[allow(unused_imports)]
use crate::color::color_enum;
use crate::dxf_file::{DxfDrawing, DxfEntity, EntityType, Insert, Layer};
#[allow(unused_imports)]
use crate::graphics::{ItemHandle, ItemView, PaintHandle};
#[allow(unused_imports)]
use crate::load::{
    entity_weight, inherited_color, inherited_weight, insert_chunks, is_drawn, layers_have_handles,
    load_step, load_walk, loaded, mtext_item, shape_item, text_item, with_item, LoadState,
    TDDrawing,
};
#[allow(unused_imports)]
use crate::paints::{
    is_paint_for, law_first_paints_are_consistent, law_paint_for_keeps_paints, lists_strokes,
    paint_for, paints_consistent, paints_grow, PaintState,
};
#[allow(unused_imports)]
use crate::path::{faces_viewer, outline, traceable};
#[allow(unused_imports)]
use crate::scene::{is_complete, item_ops};

verus! {

/// The outline of entity `i` of the drawing, in its own place.
pub open spec fn own_part(i: int) -> PartView {
    PartView {
        source: EntityRef { block: None, entity: i as usize },
        placements: Seq::empty(),
    }
}

/// Whether entity `i` is painted with a paint: with that for its line weight and color,
/// or, for what it inserts, with that for some line weight and color.
pub open spec fn is_painted(
    d: DxfDrawing,
    aci: Seq<u32>,
    paint: PaintHandle,
    i: int,
    paints: PaintState,
) -> bool {
    let e = d.entities@[i];
    let layer = d.layers@[layer_for(d.layers@, e.common.layer@)->0];
    if e.specific is Insert {
        exists|lw: i16, c: i16| #[trigger]
            is_paint_for(paints, paint, e.common, layer, aci, lw, c)
    } else {
        is_paint_for(
            paints,
            paint,
            e.common,
            layer,
            aci,
            entity_weight(e),
            color_enum(e.common.color),
        )
    }
}

/// Whether an item shows entity `i` of the drawing: text is a text, filled; a shape
/// is the entity's own outline, or what it inserts.
pub open spec fn shows(
    d: DxfDrawing,
    aci: Seq<u32>,
    item: ItemView,
    i: int,
    paints: PaintState,
) -> bool {
    let e = d.entities@[i];
    &&& 1 <= item.paint().index < paints.paints.len()
    &&& item.transform().index == 0
    &&& is_painted(d, aci, item.paint(), i, paints)
    &&& match item {
        ItemView::Text { paint, .. } => (e.specific is Text || e.specific is MText)
            && paints.paints[paint.index as int].fill_paint is Some,
        ItemView::Shape { path, .. } => {
            &&& path_drawable(d, path)
            &&& if e.specific is Insert {
                forall|k: int|
                    0 <= k < path.len() ==> #[trigger] placed_by(
                        path[k],
                        EntityRef { block: None, entity: i as usize },
                    )
            } else {
                path == seq![own_part(i)]
            }
        },
    }
}

/// The handle of the layer that entity `i` is on.
pub open spec fn layer_handle_of(d: DxfDrawing, i: int) -> u64 {
    d.layers@[layer_for(d.layers@, d.entities@[i].common.layer@)->0].handle
}

/// Whether item `k` is the last of those that entities with handle `h` own.
pub open spec fn last_owned(owners: Seq<u64>, h: u64, k: int) -> bool {
    &&& 0 <= k < owners.len()
    &&& owners[k] == h
    &&& forall|j: int| k < j < owners.len() ==> owners[j] != h
}

/// Whether item `k` is of entity `sources[k]`, which is one of the first `n`.
pub open spec fn item_traced(
    d: DxfDrawing,
    aci: Seq<u32>,
    st: LoadState,
    sources: Seq<int>,
    n: int,
    k: int,
) -> bool {
    let i = sources[k];
    &&& 0 <= i < n
    &&& i < d.entities@.len()
    &&& is_drawn(d, d.entities@[i])
    &&& d.entities@[i].common.handle != 0
    &&& layer_for(d.layers@, d.entities@[i].common.layer@) is Some
    &&& st.owners[k] == d.entities@[i].common.handle
    &&& st.entity_layers.contains_key(st.owners[k])
    &&& shows(d, aci, st.items[k], i, st.paints)
}

/// Whether the layer of handle `h` is that of the last item with an owner `h`.
pub open spec fn layer_traced(d: DxfDrawing, st: LoadState, sources: Seq<int>, h: u64) -> bool {
    exists|k: int| #[trigger]
        last_owned(st.owners, h, k) && st.entity_layers[h] == layer_handle_of(d, sources[k])
}

/// Whether every item is traced back to an entity, in the order of the entities, and
/// the layer of every entity to its items. `sources` are the entities of the items.
pub open spec fn traced(
    d: DxfDrawing,
    aci: Seq<u32>,
    st: LoadState,
    sources: Seq<int>,
    n: int,
) -> bool {
    &&& paints_consistent(st.paints)
    &&& st.owners.len() == st.items.len()
    &&& sources.len() == st.items.len()
    &&& forall|j: int, k: int|
        0 <= j < k < sources.len() ==> #[trigger] sources[j] <= #[trigger] sources[k]
    &&& forall|k: int| 0 <= k < sources.len() ==> #[trigger] item_traced(d, aci, st, sources, n, k)
    &&& forall|h: u64| #[trigger]
        st.entity_layers.contains_key(h) ==> layer_traced(d, st, sources, h)
}

/// A traced state stays traced when more paints are registered.
proof fn lemma_paints_keep_trace(
    d: DxfDrawing,
    aci: Seq<u32>,
    st: LoadState,
    sources: Seq<int>,
    n: int,
    paints: PaintState,
)
    requires
        traced(d, aci, st, sources, n),
        paints_consistent(paints),
        paints_grow(st.paints, paints),
    ensures
        traced(d, aci, LoadState { paints, ..st }, sources, n),
{
    let next = LoadState { paints, ..st };
    assert forall|k: int| 0 <= k < sources.len() implies #[trigger] item_traced(
        d,
        aci,
        next,
        sources,
        n,
        k,
    ) by {
        assert(item_traced(d, aci, st, sources, n, k));
        let paint = st.items[k].paint();
        assert(st.paints.paints =~= paints.paints.take(st.paints.paints.len() as int));
        assert(paints.paints[paint.index as int] == st.paints.paints[paint.index as int]);
        let e = d.entities@[sources[k]];
        if e.specific is Insert {
            let layer = d.layers@[layer_for(d.layers@, e.common.layer@)->0];
            let (lw, c) = choose|lw: i16, c: i16| #[trigger]
                is_paint_for(st.paints, paint, e.common, layer, aci, lw, c);
            assert(is_paint_for(paints, paint, e.common, layer, aci, lw, c));
        }
    }
    assert forall|h: u64| #[trigger] next.entity_layers.contains_key(h) implies layer_traced(
        d,
        next,
        sources,
        h,
    ) by {
        assert(layer_traced(d, st, sources, h));
        let k = choose|k: int| #[trigger]
            last_owned(st.owners, h, k) && st.entity_layers[h] == layer_handle_of(d, sources[k]);
        assert(last_owned(next.owners, h, k));
    }
}

/// A traced state stays traced with one more item of entity `i`.
proof fn lemma_item_keeps_trace(
    d: DxfDrawing,
    aci: Seq<u32>,
    st: LoadState,
    sources: Seq<int>,
    i: int,
    item: ItemView,
)
    requires
        traced(d, aci, st, sources, i + 1),
        0 <= i < d.entities@.len(),
        is_drawn(d, d.entities@[i]),
        d.entities@[i].common.handle != 0,
        layer_for(d.layers@, d.entities@[i].common.layer@) is Some,
        shows(d, aci, item, i, st.paints),
    ensures
        traced(
            d,
            aci,
            with_item(st, item, d.entities@[i].common.handle, layer_handle_of(d, i)),
            sources.push(i),
            i + 1,
        ),
{
    let handle = d.entities@[i].common.handle;
    let next = with_item(st, item, handle, layer_handle_of(d, i));
    let grown = sources.push(i);
    let last = st.items.len() as int;
    assert forall|j: int, k: int| 0 <= j < k < grown.len() implies #[trigger] grown[j]
        <= #[trigger] grown[k] by {
        assert(item_traced(d, aci, st, sources, i + 1, j));
        if k < last {
            assert(sources[j] <= sources[k]);
        }
    }
    assert forall|k: int| 0 <= k < grown.len() implies #[trigger] item_traced(
        d,
        aci,
        next,
        grown,
        i + 1,
        k,
    ) by {
        if k < last {
            assert(item_traced(d, aci, st, sources, i + 1, k));
            assert(next.owners[k] == st.owners[k]);
            assert(next.items[k] == st.items[k]);
        }
    }
    assert forall|h: u64| #[trigger] next.entity_layers.contains_key(h) implies layer_traced(
        d,
        next,
        grown,
        h,
    ) by {
        if h == handle {
            assert(last_owned(next.owners, h, last));
            assert(grown[last] == i);
        } else {
            assert(st.entity_layers.contains_key(h));
            assert(layer_traced(d, st, sources, h));
            let k = choose|k: int| #[trigger]
                last_owned(st.owners, h, k) && st.entity_layers[h] == layer_handle_of(
                    d,
                    sources[k],
                );
            assert(last_owned(next.owners, h, k)) by {
                assert forall|j: int| k < j < next.owners.len() implies next.owners[j] != h by {
                    if j < last {
                        assert(next.owners[j] == st.owners[j]);
                    }
                }
            }
            assert(grown[k] == sources[k]);
        }
    }
}

/// What later entities of a walk may count on: the trace reaches further.
proof fn lemma_trace_reaches(
    d: DxfDrawing,
    aci: Seq<u32>,
    st: LoadState,
    sources: Seq<int>,
    n: int,
    m: int,
)
    requires
        traced(d, aci, st, sources, n),
        n <= m,
    ensures
        traced(d, aci, st, sources, m),
{
    assert forall|k: int| 0 <= k < sources.len() implies #[trigger] item_traced(
        d,
        aci,
        st,
        sources,
        m,
        k,
    ) by {
        assert(item_traced(d, aci, st, sources, n, k));
    }
}

/// Inserting chunks never takes paints away.
pub(crate) proof fn lemma_chunks_grow(
    st: LoadState,
    e: DxfEntity,
    i: int,
    insert: Insert,
    layer: Layer,
    aci: Seq<u32>,
    chunks: Seq<ChunkView>,
    n: int,
)
    ensures
        st.paints.paints.len() <= insert_chunks(
            st,
            e,
            i,
            insert,
            layer,
            aci,
            chunks,
            n,
        ).paints.paints.len(),
    decreases n,
{
    if n > 0 {
        lemma_chunks_grow(st, e, i, insert, layer, aci, chunks, n - 1);
    }
}

proof fn lemma_chunks_traced(
    d: DxfDrawing,
    st: LoadState,
    sources: Seq<int>,
    i: int,
    insert: Insert,
    aci: Seq<u32>,
    chunks: Seq<ChunkView>,
    n: int,
) -> (grown: Seq<int>)
    requires
        traced(d, aci, st, sources, i + 1),
        0 <= i < d.entities@.len(),
        0 <= n <= chunks.len(),
        is_drawn(d, d.entities@[i]),
        d.entities@[i].common.handle != 0,
        d.entities@[i].specific == EntityType::Insert(insert),
        faces_viewer(insert.extrusion_direction),
        layer_for(d.layers@, d.entities@[i].common.layer@) is Some,
        chunks_drawable(d, chunks),
        insert_chunks(
            st,
            d.entities@[i],
            i,
            insert,
            d.layers@[layer_for(d.layers@, d.entities@[i].common.layer@)->0],
            aci,
            chunks,
            n,
        ).paints.paints.len() <= usize::MAX,
    ensures
        traced(
            d,
            aci,
            insert_chunks(
                st,
                d.entities@[i],
                i,
                insert,
                d.layers@[layer_for(d.layers@, d.entities@[i].common.layer@)->0],
                aci,
                chunks,
                n,
            ),
            grown,
            i + 1,
        ),
    decreases n,
{
    if n <= 0 {
        sources
    } else {
        let e = d.entities@[i];
        let layer = d.layers@[layer_for(d.layers@, e.common.layer@)->0];
        let before = insert_chunks(st, e, i, insert, layer, aci, chunks, n - 1);
        let chunk = chunks[n - 1];
        let lw = inherited_weight(chunk, e);
        let c = inherited_color(chunk, e);
        let (paints, paint) = paint_for(before.paints, e.common, layer, aci, lw, c);
        let mid = lemma_chunks_traced(d, st, sources, i, insert, aci, chunks, n - 1);
        law_paint_for_keeps_paints(before.paints, e.common, layer, aci, lw, c);
        lemma_paints_keep_trace(d, aci, before, mid, i + 1, paints);
        let at = EntityRef { block: None, entity: i as usize };
        let path = arrayed(
            chunk.path,
            at,
            insert.row_count as int,
            insert.column_count as int,
        );
        assert(d.entities.len() == d.entities@.len());
        assert(entity_at(d, at) == Some(e));
        assert(path_drawable(d, chunk.path));
        lemma_array_drawable(d, chunk.path, at, insert, insert.row_count as int);
        lemma_array_placed(
            chunk.path,
            at,
            insert.row_count as int,
            insert.column_count as int,
        );
        lemma_item_keeps_trace(
            d,
            aci,
            LoadState { paints, ..before },
            mid,
            i,
            shape_item(path, paint),
        );
        mid.push(i)
    }
}

/// A traced state stays traced after entity `i`.
proof fn lemma_step_traced(
    d: DxfDrawing,
    st: LoadState,
    sources: Seq<int>,
    i: int,
    aci: Seq<u32>,
    blocks: Map<Seq<char>, Seq<ChunkView>>,
) -> (grown: Seq<int>)
    requires
        traced(d, aci, st, sources, i),
        0 <= i < d.entities@.len(),
        blocks_drawable(d, blocks),
        load_step(st, d, i, aci, blocks) matches Ok(next) && next.paints.paints.len()
            <= usize::MAX,
    ensures
        traced(d, aci, load_step(st, d, i, aci, blocks)->Ok_0, grown, i + 1),
{
    let e = d.entities@[i];
    lemma_trace_reaches(d, aci, st, sources, i, i + 1);
    if !is_drawn(d, e) {
        sources
    } else {
        let layer = d.layers@[layer_for(d.layers@, e.common.layer@)->0];
        let lw = entity_weight(e);
        let c = color_enum(e.common.color);
        let (paints, paint) = paint_for(st.paints, e.common, layer, aci, lw, c);
        let painted = LoadState { paints, ..st };
        let next = load_step(st, d, i, aci, blocks)->Ok_0;
        assert(d.entities.len() == d.entities@.len());
        match e.specific {
            EntityType::Insert(insert) => {
                if faces_viewer(insert.extrusion_direction) && blocks.contains_key(insert.name@) {
                    let chunks = blocks[insert.name@];
                    let n = chunks.len() as int;
                    lemma_chunks_grow(painted, e, i, insert, layer, aci, chunks, n);
                    law_paint_for_keeps_paints(st.paints, e.common, layer, aci, lw, c);
                    lemma_paints_keep_trace(d, aci, st, sources, i + 1, paints);
                    lemma_chunks_traced(d, painted, sources, i, insert, aci, chunks, n)
                } else {
                    law_paint_for_keeps_paints(st.paints, e.common, layer, aci, lw, c);
                    lemma_paints_keep_trace(d, aci, st, sources, i + 1, paints);
                    sources
                }
            },
            EntityType::MText(mt) => {
                law_paint_for_keeps_paints(st.paints, e.common, layer, aci, lw, c);
                lemma_paints_keep_trace(d, aci, st, sources, i + 1, paints);
                if faces_viewer(mt.extrusion_direction) {
                    lemma_item_keeps_trace(
                        d,
                        aci,
                        painted,
                        sources,
                        i,
                        mtext_item(d.styles@, mt, paint),
                    );
                    sources.push(i)
                } else {
                    sources
                }
            },
            EntityType::Text(t) => {
                law_paint_for_keeps_paints(st.paints, e.common, layer, aci, lw, c);
                lemma_paints_keep_trace(d, aci, st, sources, i + 1, paints);
                if faces_viewer(t.normal) {
                    lemma_item_keeps_trace(
                        d,
                        aci,
                        painted,
                        sources,
                        i,
                        text_item(d.styles@, t, paint),
                    );
                    sources.push(i)
                } else {
                    sources
                }
            },
            _ => {
                law_paint_for_keeps_paints(st.paints, e.common, layer, aci, lw, c);
                lemma_paints_keep_trace(d, aci, st, sources, i + 1, paints);
                if outline(e.specific) is Some {
                    let part = own_part(i);
                    assert(entity_at(d, part.source) == Some(e));
                    assert(is_drawable(d, part));
                    let item = shape_item(seq![part], paint);
                    lemma_item_keeps_trace(d, aci, painted, sources, i, item);
                    sources.push(i)
                } else {
                    sources
                }
            },
        }
    }
}

/// An entity never takes paints away.
pub(crate) proof fn lemma_step_grows(
    d: DxfDrawing,
    st: LoadState,
    i: int,
    aci: Seq<u32>,
    blocks: Map<Seq<char>, Seq<ChunkView>>,
)
    requires
        load_step(st, d, i, aci, blocks) is Ok,
    ensures
        st.paints.paints.len() <= load_step(st, d, i, aci, blocks)->Ok_0.paints.paints.len(),
{
    let e = d.entities@[i];
    if is_drawn(d, e) {
        let layer = d.layers@[layer_for(d.layers@, e.common.layer@)->0];
        let (paints, paint) = paint_for(
            st.paints,
            e.common,
            layer,
            aci,
            entity_weight(e),
            color_enum(e.common.color),
        );
        let painted = LoadState { paints, ..st };
        match e.specific {
            EntityType::Insert(insert) => {
                let chunks = blocks[insert.name@];
                lemma_chunks_grow(painted, e, i, insert, layer, aci, chunks, chunks.len() as int);
            },
            _ => {},
        }
    }
}

proof fn lemma_walk_traced(
    d: DxfDrawing,
    aci: Seq<u32>,
    blocks: Map<Seq<char>, Seq<ChunkView>>,
    n: int,
) -> (sources: Seq<int>)
    requires
        0 <= n <= d.entities@.len(),
        blocks_drawable(d, blocks),
        load_walk(d, aci, blocks, n) matches Ok(st) && st.paints.paints.len() <= usize::MAX,
    ensures
        traced(d, aci, load_walk(d, aci, blocks, n)->Ok_0, sources, n),
    decreases n,
{
    if n <= 0 {
        law_first_paints_are_consistent();
        Seq::empty()
    } else {
        let before = load_walk(d, aci, blocks, n - 1)->Ok_0;
        lemma_step_grows(d, before, n - 1, aci, blocks);
        let sources = lemma_walk_traced(d, aci, blocks, n - 1);
        lemma_step_traced(d, before, sources, n - 1, aci, blocks)
    }
}

/// Every item of a loaded drawing shows an entity that is drawn, items come in the
/// order of their entities, and the paints, owners and layers of the items are known.
///
/// So hidden entities show nothing, handles of items lead to entities, handles of
/// entities with items lead to layers, and every path is made of outlines of entities
/// in cells of the arrays that inserts make.
pub proof fn law_items_show_entities(d: DxfDrawing, aci: Seq<u32>)
    requires
        loaded(d, aci) matches Ok(st) && st.paints.paints.len() <= usize::MAX,
    ensures
        exists|sources: Seq<int>| #[trigger]
            traced(d, aci, loaded(d, aci)->Ok_0, sources, d.entities@.len() as int),
{
    law_blocks_are_drawable(d);
    let blocks = resolved_blocks(d)->Ok_0;
    let sources = lemma_walk_traced(d, aci, blocks, d.entities@.len() as int);
}

/// An item, whatever it is painted with.
pub open spec fn unpainted(item: ItemView) -> ItemView {
    match item {
        ItemView::Shape { path, transform, paint } => ItemView::Shape {
            path,
            transform,
            paint: PaintHandle { index: 0 },
        },
        ItemView::Text {
            transform,
            paint,
            text,
            style,
            alignment,
            insertion,
            max_inline_size,
            attachment_point,
        } => ItemView::Text {
            transform,
            paint: PaintHandle { index: 0 },
            text,
            style,
            alignment,
            insertion,
            max_inline_size,
            attachment_point,
        },
    }
}

/// Items, whatever they are painted with.
pub open spec fn all_unpainted(items: Seq<ItemView>) -> Seq<ItemView> {
    items.map_values(|item: ItemView| unpainted(item))
}

/// The shape that an insert makes of a chunk.
pub open spec fn chunk_item(chunk: ChunkView, i: int, insert: Insert) -> ItemView {
    shape_item(
        arrayed(
            chunk.path,
            EntityRef { block: None, entity: i as usize },
            insert.row_count as int,
            insert.column_count as int,
        ),
        PaintHandle { index: 0 },
    )
}

/// What entity `i` shows, whatever it is painted with: nothing if it is hidden or seen
/// from elsewhere, a shape for each chunk that it inserts, its text, or its outline.
pub open spec fn entity_items(
    d: DxfDrawing,
    blocks: Map<Seq<char>, Seq<ChunkView>>,
    i: int,
) -> Seq<ItemView> {
    let e = d.entities@[i];
    let paint = PaintHandle { index: 0 };
    if !is_drawn(d, e) {
        Seq::empty()
    } else {
        match e.specific {
            EntityType::Insert(insert) => if faces_viewer(insert.extrusion_direction)
                && blocks.contains_key(insert.name@) {
                blocks[insert.name@].map_values(|chunk: ChunkView| chunk_item(chunk, i, insert))
            } else {
                Seq::empty()
            },
            EntityType::MText(mt) => if faces_viewer(mt.extrusion_direction) {
                seq![mtext_item(d.styles@, mt, paint)]
            } else {
                Seq::empty()
            },
            EntityType::Text(t) => if faces_viewer(t.normal) {
                seq![text_item(d.styles@, t, paint)]
            } else {
                Seq::empty()
            },
            _ => if outline(e.specific) is Some {
                seq![shape_item(seq![own_part(i)], paint)]
            } else {
                Seq::empty()
            },
        }
    }
}

/// What the first `n` entities show, one after the other.
pub open spec fn items_of(
    d: DxfDrawing,
    blocks: Map<Seq<char>, Seq<ChunkView>>,
    n: int,
) -> Seq<ItemView>
    decreases n,
{
    if n <= 0 {
        Seq::empty()
    } else {
        items_of(d, blocks, n - 1) + entity_items(d, blocks, n - 1)
    }
}

/// The handles of the entities that the items of the first `n` entities are of.
pub open spec fn owners_of(
    d: DxfDrawing,
    blocks: Map<Seq<char>, Seq<ChunkView>>,
    n: int,
) -> Seq<u64>
    decreases n,
{
    if n <= 0 {
        Seq::empty()
    } else {
        owners_of(d, blocks, n - 1) + Seq::new(
            entity_items(d, blocks, n - 1).len(),
            |k: int| d.entities@[n - 1].common.handle,
        )
    }
}

proof fn lemma_chunk_items(
    st: LoadState,
    e: DxfEntity,
    i: int,
    insert: Insert,
    layer: Layer,
    aci: Seq<u32>,
    chunks: Seq<ChunkView>,
    n: int,
)
    requires
        0 <= n <= chunks.len(),
    ensures
        ({
            let next = insert_chunks(st, e, i, insert, layer, aci, chunks, n);
            &&& all_unpainted(next.items) == all_unpainted(st.items) + chunks.take(n).map_values(
                |chunk: ChunkView| chunk_item(chunk, i, insert),
            )
            &&& next.owners == st.owners + Seq::new(n as nat, |k: int| e.common.handle)
        }),
    decreases n,
{
    let next = insert_chunks(st, e, i, insert, layer, aci, chunks, n);
    let shown = chunks.take(n).map_values(|chunk: ChunkView| chunk_item(chunk, i, insert));
    if n > 0 {
        lemma_chunk_items(st, e, i, insert, layer, aci, chunks, n - 1);
        let before = insert_chunks(st, e, i, insert, layer, aci, chunks, n - 1);
        let less = chunks.take(n - 1).map_values(
            |chunk: ChunkView| chunk_item(chunk, i, insert),
        );
        assert(shown =~= less.push(chunk_item(chunks[n - 1], i, insert)));
        assert(all_unpainted(next.items) =~= all_unpainted(before.items).push(
            chunk_item(chunks[n - 1], i, insert),
        ));
    }
    assert(all_unpainted(next.items) =~= all_unpainted(st.items) + shown);
    assert(next.owners =~= st.owners + Seq::new(n as nat, |k: int| e.common.handle));
}

/// An insert shows every chunk of its block, each painted with its own line weight and
/// color, or with those of the insert where it leaves them to it.
pub proof fn law_inserts_pass_their_style_on(
    st: LoadState,
    e: DxfEntity,
    i: int,
    insert: Insert,
    layer: Layer,
    aci: Seq<u32>,
    chunks: Seq<ChunkView>,
    n: int,
    k: int,
)
    requires
        0 <= k < n <= chunks.len(),
    ensures
        ({
            let next = insert_chunks(st, e, i, insert, layer, aci, chunks, n);
            let item = next.items[st.items.len() + k];
            &&& next.items.len() == st.items.len() + n
            &&& unpainted(item) == chunk_item(chunks[k], i, insert)
            &&& is_paint_for(
                next.paints,
                item.paint(),
                e.common,
                layer,
                aci,
                inherited_weight(chunks[k], e),
                inherited_color(chunks[k], e),
            )
        }),
    decreases n,
{
    lemma_chunk_count(st, e, i, insert, layer, aci, chunks, n - 1);
    if k < n - 1 {
        law_inserts_pass_their_style_on(st, e, i, insert, layer, aci, chunks, n - 1, k);
    }
}

proof fn lemma_chunk_count(
    st: LoadState,
    e: DxfEntity,
    i: int,
    insert: Insert,
    layer: Layer,
    aci: Seq<u32>,
    chunks: Seq<ChunkView>,
    n: int,
)
    requires
        0 <= n,
    ensures
        insert_chunks(st, e, i, insert, layer, aci, chunks, n).items.len() == st.items.len() + n,
    decreases n,
{
    if n > 0 {
        lemma_chunk_count(st, e, i, insert, layer, aci, chunks, n - 1);
    }
}

proof fn lemma_walk_items(
    d: DxfDrawing,
    aci: Seq<u32>,
    blocks: Map<Seq<char>, Seq<ChunkView>>,
    n: int,
)
    requires
        load_walk(d, aci, blocks, n) is Ok,
    ensures
        all_unpainted(load_walk(d, aci, blocks, n)->Ok_0.items) == items_of(d, blocks, n),
        load_walk(d, aci, blocks, n)->Ok_0.owners == owners_of(d, blocks, n),
    decreases n,
{
    let st = load_walk(d, aci, blocks, n)->Ok_0;
    if n > 0 {
        lemma_walk_items(d, aci, blocks, n - 1);
        let before = load_walk(d, aci, blocks, n - 1)->Ok_0;
        let e = d.entities@[n - 1];
        let more = entity_items(d, blocks, n - 1);
        let handles = Seq::new(more.len(), |k: int| e.common.handle);
        if is_drawn(d, e) {
            let layer = d.layers@[layer_for(d.layers@, e.common.layer@)->0];
            let (paints, paint) = paint_for(
                before.paints,
                e.common,
                layer,
                aci,
                entity_weight(e),
                color_enum(e.common.color),
            );
            let painted = LoadState { paints, ..before };
            match e.specific {
                EntityType::Insert(insert) => {
                    if faces_viewer(insert.extrusion_direction) && blocks.contains_key(
                        insert.name@,
                    ) {
                        let chunks = blocks[insert.name@];
                        lemma_chunk_items(
                            painted,
                            e,
                            n - 1,
                            insert,
                            layer,
                            aci,
                            chunks,
                            chunks.len() as int,
                        );
                        assert(chunks.take(chunks.len() as int) =~= chunks);
                    }
                },
                _ => {},
            }
        }
        assert(all_unpainted(st.items) =~= all_unpainted(before.items) + more);
        assert(st.owners =~= before.owners + handles);
    } else {
        assert(all_unpainted(st.items) =~= Seq::empty());
    }
}

/// A loaded drawing shows exactly what its entities show, one after the other, and
/// knows which entity every item is of.
pub proof fn law_drawing_shows_its_entities(d: DxfDrawing, aci: Seq<u32>)
    requires
        loaded(d, aci) is Ok,
    ensures
        ({
            let blocks = resolved_blocks(d)->Ok_0;
            let n = d.entities@.len() as int;
            &&& all_unpainted(loaded(d, aci)->Ok_0.items) == items_of(d, blocks, n)
            &&& loaded(d, aci)->Ok_0.owners == owners_of(d, blocks, n)
        }),
{
    lemma_walk_items(d, aci, resolved_blocks(d)->Ok_0, d.entities@.len() as int);
}

/// The palette decides on paints alone: with another one, a drawing loads if it loaded
/// with the first, and shows the same.
pub proof fn law_palette_only_paints(d: DxfDrawing, aci: Seq<u32>, other: Seq<u32>)
    ensures
        loaded(d, aci) is Ok <==> loaded(d, other) is Ok,
        loaded(d, aci) is Ok ==> all_unpainted(loaded(d, aci)->Ok_0.items) == all_unpainted(
            loaded(d, other)->Ok_0.items,
        ) && loaded(d, aci)->Ok_0.owners == loaded(d, other)->Ok_0.owners,
        loaded(d, aci) matches Err(e) ==> loaded(d, other) == Err::<LoadState, LoadError>(e),
{
    match resolved_blocks(d) {
        Ok(blocks) => {
            lemma_walk_outcome(d, aci, other, blocks, d.entities@.len() as int);
            if loaded(d, aci) is Ok {
                lemma_walk_items(d, aci, blocks, d.entities@.len() as int);
                lemma_walk_items(d, other, blocks, d.entities@.len() as int);
            }
        },
        Err(_) => {},
    }
}

proof fn lemma_walk_outcome(
    d: DxfDrawing,
    aci: Seq<u32>,
    other: Seq<u32>,
    blocks: Map<Seq<char>, Seq<ChunkView>>,
    n: int,
)
    ensures
        match (load_walk(d, aci, blocks, n), load_walk(d, other, blocks, n)) {
            (Ok(_), Ok(_)) => true,
            (Err(e), Err(f)) => e == f,
            _ => false,
        },
    decreases n,
{
    if n > 0 {
        lemma_walk_outcome(d, aci, other, blocks, n - 1);
    }
}

/// Whether entity `i` stands in the way of nothing: it is hidden, or it has a handle, a
/// layer that exists and an outline that can be traced.
pub open spec fn entity_loads(d: DxfDrawing, i: int) -> bool {
    let e = d.entities@[i];
    is_drawn(d, e) ==> e.common.handle != 0 && layer_for(d.layers@, e.common.layer@) is Some
        && traceable(e.specific)
}

proof fn lemma_walk_loads(
    d: DxfDrawing,
    aci: Seq<u32>,
    blocks: Map<Seq<char>, Seq<ChunkView>>,
    n: int,
)
    requires
        0 <= n <= d.entities@.len(),
    ensures
        load_walk(d, aci, blocks, n) is Ok <==> forall|i: int|
            0 <= i < n ==> #[trigger] entity_loads(d, i),
    decreases n,
{
    if n > 0 {
        lemma_walk_loads(d, aci, blocks, n - 1);
        if load_walk(d, aci, blocks, n - 1) is Ok {
            assert(load_walk(d, aci, blocks, n) is Ok <==> entity_loads(d, n - 1));
        }
    }
}

/// A drawing loads exactly if every layer has a handle, its blocks can be resolved,
/// and every entity that is drawn has a handle, a layer and an outline that can be
/// traced, if any.
pub proof fn law_loading_succeeds(d: DxfDrawing, aci: Seq<u32>)
    ensures
        loaded(d, aci) is Ok <==> layers_have_handles(d.layers@) && resolved_blocks(d) is Ok && (
        forall|i: int| 0 <= i < d.entities@.len() ==> #[trigger] entity_loads(d, i)),
{
    match resolved_blocks(d) {
        Ok(blocks) => {
            lemma_walk_loads(d, aci, blocks, d.entities@.len() as int);
        },
        Err(_) => {},
    }
}

/// Everything that a loaded drawing refers to exists: its items have their paints and
/// transforms, the render layer shows every item, items lead to entities and entities
/// to layers with names, layers that are on have names, and paints to adapt are strokes.
pub proof fn law_loaded_drawings_are_complete(td: TDDrawing, d: DxfDrawing, aci: Seq<u32>)
    requires
        loaded(d, aci) matches Ok(st) && td.is_load_of(d, st),
    ensures
        is_complete(td.graphics@, td.render_layer.indices@),
        td.graphics@.closed_under_use(),
        forall|i: usize|
            i < td.graphics@.items.len() ==> #[trigger] td.render_layer.indices@.contains(
                ItemHandle { index: i },
            ),
        forall|i: usize| #[trigger]
            td.item_entity_map@.contains_key(i) ==> td.entity_layer_map@.contains_key(
                td.item_entity_map@[i]@,
            ) && exists|j: int|
                0 <= j < d.entities@.len() && is_drawn(d, #[trigger] d.entities@[j])
                    && d.entities@[j].common.handle == td.item_entity_map@[i]@,
        forall|h: u64| #[trigger]
            td.entity_layer_map@.contains_key(h) ==> td.layer_names@.contains_key(
                td.entity_layer_map@[h]@,
            ),
        forall|h: u64| #[trigger]
            td.enabled_layers@.contains(h) ==> td.layer_names@.contains_key(h),
        forall|k: int|
            0 <= k < td.restroke_paints@.len() ==> (
            #[trigger] td.restroke_paints@[k]).handle.index < td.graphics@.paints.len(),
{
    let st = loaded(d, aci)->Ok_0;
    let n = d.entities@.len() as int;
    assert(td.graphics.paints.len() == td.graphics@.paints.len());
    assert(td.graphics.items.len() == td.graphics@.items.len());
    law_items_show_entities(d, aci);
    let sources = choose|sources: Seq<int>| #[trigger] traced(d, aci, st, sources, n);
    let items = td.graphics@.items;
    assert forall|i: int| 0 <= i < items.len() implies (#[trigger] items[i]).paint().index
        < td.graphics@.paints.len() && items[i].transform().index
        < td.graphics@.transforms.len() by {
        assert(item_traced(d, aci, st, sources, n, i));
    }
    assert forall|i: usize| i < items.len() implies #[trigger] td.render_layer.indices@.contains(
        ItemHandle { index: i },
    ) by {
        assert(td.render_layer.indices@[i as int] == ItemHandle { index: i });
    }
    assert forall|i: usize| #[trigger] td.item_entity_map@.contains_key(i) implies
        td.entity_layer_map@.contains_key(td.item_entity_map@[i]@) && exists|j: int|
        0 <= j < d.entities@.len() && is_drawn(d, #[trigger] d.entities@[j])
            && d.entities@[j].common.handle == td.item_entity_map@[i]@ by {
        assert(item_traced(d, aci, st, sources, n, i as int));
        assert(is_drawn(d, d.entities@[sources[i as int]]));
    }
    assert forall|h: u64| #[trigger] td.entity_layer_map@.contains_key(h) implies
        td.layer_names@.contains_key(td.entity_layer_map@[h]@) by {
        assert(st.entity_layers.contains_key(h));
        assert(layer_traced(d, st, sources, h));
        let k = choose|k: int| #[trigger]
            last_owned(st.owners, h, k) && st.entity_layers[h] == layer_handle_of(d, sources[k]);
        assert(item_traced(d, aci, st, sources, n, k));
        lemma_layer_for(d.layers@, d.entities@[sources[k]].common.layer@);
        let l = layer_for(d.layers@, d.entities@[sources[k]].common.layer@)->0;
        lemma_last_layer_with(d.layers@, d.layers@[l].handle, d.layers@.len() as int);
    }
    assert forall|h: u64| #[trigger] td.enabled_layers@.contains(h) implies
        td.layer_names@.contains_key(h) by {
        lemma_last_layer_with(d.layers@, h, d.layers@.len() as int);
    }
    let keys = choose|keys: Seq<u128>| #[trigger]
        lists_strokes(td.restroke_paints@, st.paints.strokes, keys);
    assert forall|k: int| 0 <= k < td.restroke_paints@.len() implies (
    #[trigger] td.restroke_paints@[k]).handle.index < td.graphics@.paints.len() by {
        assert(keys.to_set().contains(keys[k]));
        assert(st.paints.strokes.contains_key(keys[k]));
    }
}

/// A loaded drawing draws every text that it has.
pub proof fn law_loaded_texts_are_drawn(
    td: TDDrawing,
    d: DxfDrawing,
    aci: Seq<u32>,
    i: usize,
    cached: bool,
)
    requires
        loaded(d, aci) matches Ok(st) && td.is_load_of(d, st),
        i < td.graphics@.items.len(),
        td.graphics@.items[i as int] is Text,
    ensures
        item_ops(td.graphics@, ItemHandle { index: i }, cached).len() == 1,
{
    let st = loaded(d, aci)->Ok_0;
    assert(td.graphics.paints.len() == td.graphics@.paints.len());
    law_items_show_entities(d, aci);
    let n = d.entities@.len() as int;
    let sources = choose|sources: Seq<int>| #[trigger] traced(d, aci, st, sources, n);
    assert(item_traced(d, aci, st, sources, n, i as int));
}

} // verus!
