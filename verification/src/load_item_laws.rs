//! What becomes of each entity of a drawing that is loaded: the item that it is, what that
//! item looks like, and what it is painted with.

use vstd::prelude::*;

#[allow(unused_imports)]
use crate::block_style_laws::{
    is_last_with, is_layer_for, law_names_stand_for_layers, lemma_finds_last_with,
};
#[allow(unused_imports)]
use crate::blocks::{
    arrayed, last_layer_with, layer_for, resolved_blocks, ChunkView, EntityRef, LoadError,
    PartView,
};
#[allow(unused_imports)]
use crate::color::{color_enum, line_width, packed_color, unpacked, Rgba8};
#[allow(unused_imports)]
use crate::color_laws::color_for;
#[allow(unused_imports)]
use crate::dxf_file::{DxfDrawing, DxfEntity, EntityType, Insert, Layer, MText, Text};
#[allow(unused_imports)]
use crate::graphics::{ItemHandle, ItemView, PaintBrush, PaintHandle};
#[allow(unused_imports)]
use crate::load::{
    drawn_entity, entity_weight, inherited_color, inherited_weight, insert_chunks, is_drawn,
    load_step, load_walk, loaded, with_item, LoadState, TDDrawing,
};
#[allow(unused_imports)]
use crate::load_laws::{
    item_traced, last_owned, law_items_show_entities, layer_handle_of, layer_traced,
    lemma_chunks_grow, lemma_step_grows, own_part, traced,
};
#[allow(unused_imports)]
use crate::paints::{
    is_paint_for, key_color, key_width, law_stroke_keys, lists_strokes, paint_for,
    paints_consistent, stroke_key, PaintState, RestrokePaint,
};
#[allow(unused_imports)]
use crate::path::{faces_viewer, outline, traceable};
#[allow(unused_imports)]
use crate::path_laws::{is_front, lies_at};
#[allow(unused_imports)]
use crate::text::{joined, shown_mtext, shown_text};
#[allow(unused_imports)]
use crate::text_style::{
    alignment_of, attachment_code, attachment_of, inline_size, mtext_style_spec, text_style_spec,
    Alignment, TextAttachment,
};

verus! {

/// Whether one state comes after another: it has its items and paints, and more.
spec fn extends(a: LoadState, b: LoadState) -> bool {
    &&& a.items.len() <= b.items.len()
    &&& a.owners.len() <= b.owners.len()
    &&& forall|k: int| 0 <= k < a.items.len() ==> #[trigger] b.items[k] == a.items[k]
    &&& forall|k: int| 0 <= k < a.owners.len() ==> #[trigger] b.owners[k] == a.owners[k]
    &&& forall|k: u128| #[trigger]
        a.paints.strokes.contains_key(k) ==> b.paints.strokes.contains_key(k)
            && b.paints.strokes[k] == a.paints.strokes[k]
    &&& forall|k: u32| #[trigger]
        a.paints.fills.contains_key(k) ==> b.paints.fills.contains_key(k) && b.paints.fills[k]
            == a.paints.fills[k]
}

proof fn lemma_extends_on(a: LoadState, b: LoadState, c: LoadState)
    requires
        extends(a, b),
        extends(b, c),
    ensures
        extends(a, c),
{
}

proof fn lemma_paint_is_there(
    st: PaintState,
    e: DxfEntity,
    layer: Layer,
    aci: Seq<u32>,
    lw: i16,
    c: i16,
)
    ensures
        ({
            let next = paint_for(st, e.common, layer, aci, lw, c).0;
            &&& forall|k: u128| #[trigger]
                st.strokes.contains_key(k) ==> next.strokes.contains_key(k) && next.strokes[k]
                    == st.strokes[k]
            &&& forall|k: u32| #[trigger]
                st.fills.contains_key(k) ==> next.fills.contains_key(k) && next.fills[k]
                    == st.fills[k]
        }),
        is_paint_for(
            paint_for(st, e.common, layer, aci, lw, c).0,
            paint_for(st, e.common, layer, aci, lw, c).1,
            e.common,
            layer,
            aci,
            lw,
            c,
        ),
{
}

proof fn lemma_paint_stays(
    a: LoadState,
    b: LoadState,
    paint: PaintHandle,
    e: DxfEntity,
    layer: Layer,
    aci: Seq<u32>,
    lw: i16,
    c: i16,
)
    requires
        extends(a, b),
        is_paint_for(a.paints, paint, e.common, layer, aci, lw, c),
    ensures
        is_paint_for(b.paints, paint, e.common, layer, aci, lw, c),
{
    let color = packed_color(e.common, layer, aci, c) as u32;
    let key = stroke_key(color, line_width(layer, lw) as u64);
    assert(a.paints.fills.contains_key(color) || a.paints.strokes.contains_key(key));
}

proof fn lemma_chunks_extend(
    st: LoadState,
    e: DxfEntity,
    i: int,
    insert: Insert,
    layer: Layer,
    aci: Seq<u32>,
    chunks: Seq<ChunkView>,
    n: int,
    m: int,
)
    requires
        0 <= n <= m,
    ensures
        extends(
            insert_chunks(st, e, i, insert, layer, aci, chunks, n),
            insert_chunks(st, e, i, insert, layer, aci, chunks, m),
        ),
        insert_chunks(st, e, i, insert, layer, aci, chunks, m).items.len() == insert_chunks(
            st,
            e,
            i,
            insert,
            layer,
            aci,
            chunks,
            n,
        ).items.len() + (m - n),
    decreases m,
{
    if n < m {
        lemma_chunks_extend(st, e, i, insert, layer, aci, chunks, n, m - 1);
        let mid = insert_chunks(st, e, i, insert, layer, aci, chunks, m - 1);
        let last = insert_chunks(st, e, i, insert, layer, aci, chunks, m);
        lemma_paint_is_there(
            mid.paints,
            e,
            layer,
            aci,
            inherited_weight(chunks[m - 1], e),
            inherited_color(chunks[m - 1], e),
        );
        assert(extends(mid, last));
        lemma_extends_on(
            insert_chunks(st, e, i, insert, layer, aci, chunks, n),
            mid,
            last,
        );
    }
}

proof fn lemma_step_extends(
    st: LoadState,
    d: DxfDrawing,
    i: int,
    aci: Seq<u32>,
    blocks: Map<Seq<char>, Seq<ChunkView>>,
)
    requires
        load_step(st, d, i, aci, blocks) is Ok,
    ensures
        extends(st, load_step(st, d, i, aci, blocks)->Ok_0),
{
    let e = d.entities@[i];
    let next = load_step(st, d, i, aci, blocks)->Ok_0;
    if is_drawn(d, e) {
        let layer = d.layers@[layer_for(d.layers@, e.common.layer@)->0];
        lemma_paint_is_there(
            st.paints,
            e,
            layer,
            aci,
            entity_weight(e),
            color_enum(e.common.color),
        );
        let (paints, paint) = paint_for(
            st.paints,
            e.common,
            layer,
            aci,
            entity_weight(e),
            color_enum(e.common.color),
        );
        let painted = LoadState { paints, ..st };
        assert(extends(st, painted));
        match e.specific {
            EntityType::Insert(insert) => {
                if next != painted {
                    let chunks = blocks[insert.name@];
                    lemma_chunks_extend(
                        painted,
                        e,
                        i,
                        insert,
                        layer,
                        aci,
                        chunks,
                        0,
                        chunks.len() as int,
                    );
                    lemma_extends_on(st, painted, next);
                }
            },
            _ => {
                assert(extends(painted, next));
            },
        }
    }
}

proof fn lemma_walk_extends(
    d: DxfDrawing,
    aci: Seq<u32>,
    blocks: Map<Seq<char>, Seq<ChunkView>>,
    n: int,
    m: int,
)
    requires
        0 <= n <= m,
        load_walk(d, aci, blocks, m) is Ok,
    ensures
        load_walk(d, aci, blocks, n) is Ok,
        extends(load_walk(d, aci, blocks, n)->Ok_0, load_walk(d, aci, blocks, m)->Ok_0),
    decreases m,
{
    if n < m {
        lemma_walk_extends(d, aci, blocks, n, m - 1);
        let mid = load_walk(d, aci, blocks, m - 1)->Ok_0;
        lemma_step_extends(mid, d, m - 1, aci, blocks);
        lemma_extends_on(
            load_walk(d, aci, blocks, n)->Ok_0,
            mid,
            load_walk(d, aci, blocks, m)->Ok_0,
        );
    }
}

/// Whether a paint of a drawing fills in a color, and strokes nothing.
pub open spec fn fills_in(td: TDDrawing, paint: PaintHandle, color: Rgba8) -> bool {
    &&& 1 <= paint.index < td.graphics@.paints.len()
    &&& td.graphics@.paints[paint.index as int].fill_paint == Some(PaintBrush::Solid(color))
    &&& td.graphics@.paints[paint.index as int].stroke_paint is None
}

/// Whether a paint of a drawing strokes in a color, fills nothing, and is adapted to lines
/// of this physical width and no other.
pub open spec fn strokes_in(td: TDDrawing, paint: PaintHandle, color: Rgba8, width: int) -> bool {
    &&& 1 <= paint.index < td.graphics@.paints.len()
    &&& td.graphics@.paints[paint.index as int].stroke_paint == Some(PaintBrush::Solid(color))
    &&& td.graphics@.paints[paint.index as int].fill_paint is None
    &&& exists|r: int|
        0 <= r < td.restroke_paints@.len() && (#[trigger] td.restroke_paints@[r]).handle == paint
    &&& forall|r: int|
        0 <= r < td.restroke_paints@.len() && (#[trigger] td.restroke_paints@[r]).handle == paint
            ==> td.restroke_paints@[r].weight == width
}

/// Whether a paint of a drawing is one for what entity `e` on a layer shows with this line
/// weight and color number: it fills for the weight of solids, and else strokes.
pub open spec fn is_painted_as(
    td: TDDrawing,
    paint: PaintHandle,
    e: DxfEntity,
    layer: Layer,
    aci: Seq<u32>,
    lw: i16,
    c: i16,
) -> bool {
    if lw == -32768 {
        fills_in(td, paint, color_for(e.common, layer, aci, c))
    } else {
        strokes_in(td, paint, color_for(e.common, layer, aci, c), line_width(layer, lw))
    }
}

proof fn lemma_painted(
    td: TDDrawing,
    d: DxfDrawing,
    aci: Seq<u32>,
    paint: PaintHandle,
    e: DxfEntity,
    layer: Layer,
    lw: i16,
    c: i16,
)
    requires
        loaded(d, aci) matches Ok(st) && td.is_load_of(d, st) && is_paint_for(
            st.paints,
            paint,
            e.common,
            layer,
            aci,
            lw,
            c,
        ),
    ensures
        is_painted_as(td, paint, e, layer, aci, lw, c),
{
    let st = loaded(d, aci)->Ok_0;
    assert(td.graphics.paints.len() == td.graphics@.paints.len());
    law_items_show_entities(d, aci);
    let sources = choose|sources: Seq<int>| #[trigger]
        traced(d, aci, st, sources, d.entities@.len() as int);
    assert(paints_consistent(st.paints));
    let color = packed_color(e.common, layer, aci, c) as u32;
    if lw != -32768 {
        let width = line_width(layer, lw) as u64;
        assert(width == line_width(layer, lw));
        let key = stroke_key(color, width);
        law_stroke_keys(color, width, color, width);
        let keys = choose|keys: Seq<u128>| #[trigger]
            lists_strokes(td.restroke_paints@, st.paints.strokes, keys);
        assert(st.paints.strokes.contains_key(key));
        assert(keys.to_set().contains(key));
        let r = choose|r: int| 0 <= r < keys.len() && keys[r] == key;
        assert(td.restroke_paints@[r].handle == paint);
        assert forall|r: int|
            0 <= r < td.restroke_paints@.len() && (#[trigger] td.restroke_paints@[r]).handle
                == paint implies td.restroke_paints@[r].weight == width by {
            assert(keys.to_set().contains(keys[r]));
            assert(st.paints.strokes.contains_key(keys[r]));
            assert(st.paints.strokes[keys[r]] == st.paints.strokes[key]);
            assert(keys[r] == key);
        }
    }
}

/// Whether an entity is to be drawn: it is visible, and it names no layer or one of the
/// layers that it names is on.
pub open spec fn is_shown(d: DxfDrawing, e: DxfEntity) -> bool {
    &&& e.common.is_visible
    &&& e.common.layer@.len() == 0 || exists|j: int|
        0 <= j < d.layers@.len() && #[trigger] is_on(d.layers@[j], e.common.layer@)
}

/// Whether a layer has this name and is on.
pub open spec fn is_on(layer: Layer, name: Seq<char>) -> bool {
    layer.is_layer_on && layer.name@ == name
}

proof fn lemma_shown_is_drawn(d: DxfDrawing, e: DxfEntity)
    ensures
        is_shown(d, e) == is_drawn(d, e),
{
    if is_drawn(d, e) && e.common.layer@.len() > 0 {
        let j = choose|j: int|
            0 <= j < d.layers@.len() && (#[trigger] d.layers@[j]).is_layer_on
                && d.layers@[j].name@ == e.common.layer@;
        assert(is_on(d.layers@[j], e.common.layer@));
    }
}

/// What loading an entity with one item does.
proof fn lemma_single_item(
    td: TDDrawing,
    d: DxfDrawing,
    aci: Seq<u32>,
    i: int,
    l: int,
) -> (k: usize)
    requires
        loaded(d, aci) matches Ok(st) && td.is_load_of(d, st),
        0 <= i < d.entities@.len(),
        is_shown(d, d.entities@[i]),
        is_layer_for(d.layers@, d.entities@[i].common.layer@, l),
        match d.entities@[i].specific {
            EntityType::Insert(_) => false,
            EntityType::MText(mt) => is_front(mt.extrusion_direction),
            EntityType::Text(t) => is_front(t.normal),
            _ => outline(d.entities@[i].specific) is Some,
        },
    ensures
        k < td.graphics@.items.len(),
        td.item_entity_map@.contains_key(k),
        td.item_entity_map@[k]@ == d.entities@[i].common.handle,
        is_painted_as(
            td,
            td.graphics@.items[k as int].paint(),
            d.entities@[i],
            d.layers@[l],
            aci,
            entity_weight(d.entities@[i]),
            color_enum(d.entities@[i].common.color),
        ),
        td.graphics@.items[k as int] == match d.entities@[i].specific {
            EntityType::MText(mt) => crate::load::mtext_item(
                d.styles@,
                mt,
                td.graphics@.items[k as int].paint(),
            ),
            EntityType::Text(t) => crate::load::text_item(
                d.styles@,
                t,
                td.graphics@.items[k as int].paint(),
            ),
            _ => crate::load::shape_item(
                seq![own_part(i)],
                td.graphics@.items[k as int].paint(),
            ),
        },
{
    let st = loaded(d, aci)->Ok_0;
    let blocks = resolved_blocks(d)->Ok_0;
    let n = d.entities@.len() as int;
    let e = d.entities@[i];
    lemma_shown_is_drawn(d, e);
    law_names_stand_for_layers(d.layers@, e.common.layer@, l);
    lemma_walk_extends(d, aci, blocks, i + 1, n);
    let before = load_walk(d, aci, blocks, i)->Ok_0;
    let after = load_walk(d, aci, blocks, i + 1)->Ok_0;
    lemma_walk_extends(d, aci, blocks, i, i + 1);
    lemma_walk_counts(d, aci, blocks, i);
    let layer = d.layers@[l];
    lemma_paint_is_there(
        before.paints,
        e,
        layer,
        aci,
        entity_weight(e),
        color_enum(e.common.color),
    );
    let at = before.items.len() as int;
    assert(td.graphics.items.len() == td.graphics@.items.len());
    let k = at as usize;
    assert(after.items.len() == at + 1);
    assert(st.items[at] == after.items[at]);
    assert(st.owners[at] == after.owners[at]);
    assert(st.items.len() <= usize::MAX);
    assert(k == at);
    let paint = after.items[at].paint();
    lemma_paint_stays(
        after,
        st,
        paint,
        e,
        layer,
        aci,
        entity_weight(e),
        color_enum(e.common.color),
    );
    lemma_painted(
        td,
        d,
        aci,
        paint,
        e,
        layer,
        entity_weight(e),
        color_enum(e.common.color),
    );
    k
}

proof fn lemma_walk_counts(
    d: DxfDrawing,
    aci: Seq<u32>,
    blocks: Map<Seq<char>, Seq<ChunkView>>,
    n: int,
)
    requires
        load_walk(d, aci, blocks, n) is Ok,
    ensures
        load_walk(d, aci, blocks, n)->Ok_0.items.len() == load_walk(
            d,
            aci,
            blocks,
            n,
        )->Ok_0.owners.len(),
    decreases n,
{
    if n > 0 {
        lemma_walk_counts(d, aci, blocks, n - 1);
        let before = load_walk(d, aci, blocks, n - 1)->Ok_0;
        let e = d.entities@[n - 1];
        if is_drawn(d, e) {
            let layer = d.layers@[layer_for(d.layers@, e.common.layer@)->0];
            let (paints, paint) = paint_for(
                before.paints,
                e.common,
                layer,
                aci,
                entity_weight(e),
                color_enum(e.common.color),
            );
            let painted = LoadState { paints, ..before };
            match e.specific {
                EntityType::Insert(insert) => {
                    let chunks = blocks[insert.name@];
                    lemma_chunks_count(
                        painted,
                        e,
                        n - 1,
                        insert,
                        layer,
                        aci,
                        chunks,
                        chunks.len() as int,
                    );
                },
                _ => {},
            }
        }
    }
}

proof fn lemma_chunks_count(
    st: LoadState,
    e: DxfEntity,
    i: int,
    insert: Insert,
    layer: Layer,
    aci: Seq<u32>,
    chunks: Seq<ChunkView>,
    n: int,
)
    requires
        st.items.len() == st.owners.len(),
    ensures
        insert_chunks(st, e, i, insert, layer, aci, chunks, n).items.len() == insert_chunks(
            st,
            e,
            i,
            insert,
            layer,
            aci,
            chunks,
            n,
        ).owners.len(),
    decreases n,
{
    if n > 0 {
        lemma_chunks_count(st, e, i, insert, layer, aci, chunks, n - 1);
    }
}

/// Whether item `k` of a drawing is the outline of entity `i`, which is on layer `l`: a
/// solid is filled, everything else is stroked with the line weight of the entity.
pub open spec fn is_outline_of(
    td: TDDrawing,
    d: DxfDrawing,
    aci: Seq<u32>,
    k: usize,
    i: int,
    l: int,
) -> bool {
    let e = d.entities@[i];
    let color = color_for(e.common, d.layers@[l], aci, color_enum(e.common.color));
    &&& k < td.graphics@.items.len()
    &&& td.item_entity_map@.contains_key(k)
    &&& td.item_entity_map@[k]@ == e.common.handle
    &&& td.graphics@.items[k as int] matches ItemView::Shape { path, transform, paint } && {
        &&& path.len() == 1
        &&& path[0].source == (EntityRef { block: None, entity: i as usize })
        &&& path[0].placements.len() == 0
        &&& transform.index == 0
        &&& if e.specific is Solid {
            fills_in(td, paint, color)
        } else if e.common.lineweight_enum_value == -32768 {
            fills_in(td, paint, color)
        } else {
            strokes_in(
                td,
                paint,
                color,
                line_width(d.layers@[l], e.common.lineweight_enum_value),
            )
        }
    }
}

/// Every entity that is shown and has an outline is an item of its own, painted as the
/// entity and its layer say.
pub proof fn law_outlines_are_items(
    td: TDDrawing,
    d: DxfDrawing,
    aci: Seq<u32>,
    i: int,
    l: int,
)
    requires
        loaded(d, aci) matches Ok(st) && td.is_load_of(d, st),
        0 <= i < d.entities@.len(),
        is_shown(d, d.entities@[i]),
        is_layer_for(d.layers@, d.entities@[i].common.layer@, l),
        outline(d.entities@[i].specific) is Some,
    ensures
        exists|k: usize| #[trigger] is_outline_of(td, d, aci, k, i, l),
{
    let k = lemma_single_item(td, d, aci, i, l);
    assert(is_outline_of(td, d, aci, k, i, l));
}

/// Whether item `k` of a drawing is the text of the `MTEXT` that is entity `i`, on layer
/// `l`.
pub open spec fn is_mtext_of(
    td: TDDrawing,
    d: DxfDrawing,
    aci: Seq<u32>,
    k: usize,
    i: int,
    mt: MText,
    l: int,
) -> bool {
    let e = d.entities@[i];
    let code = attachment_code(mt.attachment_point);
    &&& k < td.graphics@.items.len()
    &&& td.item_entity_map@.contains_key(k)
    &&& td.item_entity_map@[k]@ == e.common.handle
    &&& td.graphics@.items[k as int] matches ItemView::Text {
        transform,
        paint,
        text,
        style,
        alignment,
        insertion,
        max_inline_size,
        attachment_point,
    } && {
        &&& transform.index == 0
        &&& fills_in(
            td,
            paint,
            color_for(e.common, d.layers@[l], aci, color_enum(e.common.color)),
        )
        &&& text == shown_mtext(
            joined(mt.text@, mt.extended_text@, mt.extended_text@.len() as int),
        )
        &&& style == mtext_style_spec(d.styles@, mt)
        &&& attachment_point == attachment_of(code)
        &&& alignment == alignment_of(attachment_of(code))
        &&& max_inline_size == inline_size(mt, alignment_of(attachment_of(code)))
        &&& insertion.rotation_angle == mt.rotation_angle
        &&& insertion.x_axis is Some
        &&& lies_at(insertion.x_axis->0, mt.x_axis_direction.x, mt.x_axis_direction.y)
        &&& lies_at(insertion.location, mt.insertion_point.x, mt.insertion_point.y)
    }
}

/// Every `MTEXT` that is shown and faces the viewer is a text of its own, filled, where the
/// entity says and turned as it says.
pub proof fn law_mtexts_are_items(
    td: TDDrawing,
    d: DxfDrawing,
    aci: Seq<u32>,
    i: int,
    mt: MText,
    l: int,
)
    requires
        loaded(d, aci) matches Ok(st) && td.is_load_of(d, st),
        0 <= i < d.entities@.len(),
        d.entities@[i].specific == EntityType::MText(mt),
        is_shown(d, d.entities@[i]),
        is_layer_for(d.layers@, d.entities@[i].common.layer@, l),
        is_front(mt.extrusion_direction),
    ensures
        exists|k: usize| #[trigger] is_mtext_of(td, d, aci, k, i, mt, l),
{
    let k = lemma_single_item(td, d, aci, i, l);
    assert(is_mtext_of(td, d, aci, k, i, mt, l));
}

/// Whether item `k` of a drawing is the text of the `TEXT` that is entity `i`, on layer `l`.
pub open spec fn is_text_of(
    td: TDDrawing,
    d: DxfDrawing,
    aci: Seq<u32>,
    k: usize,
    i: int,
    t: Text,
    l: int,
) -> bool {
    let e = d.entities@[i];
    &&& k < td.graphics@.items.len()
    &&& td.item_entity_map@.contains_key(k)
    &&& td.item_entity_map@[k]@ == e.common.handle
    &&& td.graphics@.items[k as int] matches ItemView::Text {
        transform,
        paint,
        text,
        style,
        alignment,
        insertion,
        max_inline_size,
        attachment_point,
    } && {
        &&& transform.index == 0
        &&& fills_in(
            td,
            paint,
            color_for(e.common, d.layers@[l], aci, color_enum(e.common.color)),
        )
        &&& text == shown_text(t.value@)
        &&& style == text_style_spec(d.styles@, t)
        &&& attachment_point is TopLeft
        &&& alignment is Start
        &&& max_inline_size is None
        &&& insertion.rotation_angle == t.rotation
        &&& insertion.x_axis is None
        &&& lies_at(insertion.location, t.location.x, t.location.y)
    }
}

/// Every `TEXT` that is shown and faces the viewer is a text of its own, filled, where the
/// entity says and turned as it says; its lines are never broken.
pub proof fn law_texts_are_items(
    td: TDDrawing,
    d: DxfDrawing,
    aci: Seq<u32>,
    i: int,
    t: Text,
    l: int,
)
    requires
        loaded(d, aci) matches Ok(st) && td.is_load_of(d, st),
        0 <= i < d.entities@.len(),
        d.entities@[i].specific == EntityType::Text(t),
        is_shown(d, d.entities@[i]),
        is_layer_for(d.layers@, d.entities@[i].common.layer@, l),
        is_front(t.normal),
    ensures
        exists|k: usize| #[trigger] is_text_of(td, d, aci, k, i, t, l),
{
    let k = lemma_single_item(td, d, aci, i, l);
    assert(is_text_of(td, d, aci, k, i, t, l));
}

/// Whether item `k` of a drawing is a chunk that entity `i`, on layer `l`, inserts: with the
/// array of its path, and with line weight and color of the insert where these are by block.
pub open spec fn is_chunk_of(
    td: TDDrawing,
    d: DxfDrawing,
    aci: Seq<u32>,
    k: int,
    i: int,
    insert: Insert,
    l: int,
    chunk: ChunkView,
) -> bool {
    let e = d.entities@[i];
    &&& 0 <= k < td.graphics@.items.len()
    &&& td.item_entity_map@.contains_key(k as usize)
    &&& td.item_entity_map@[k as usize]@ == e.common.handle
    &&& td.graphics@.items[k] matches ItemView::Shape { path, transform, paint } && {
        &&& path == arrayed(
            chunk.path,
            EntityRef { block: None, entity: i as usize },
            insert.row_count as int,
            insert.column_count as int,
        )
        &&& transform.index == 0
        &&& is_painted_as(
            td,
            paint,
            e,
            d.layers@[l],
            aci,
            if chunk.line_weight == -1 {
                e.common.lineweight_enum_value
            } else {
                chunk.line_weight
            },
            if chunk.color == 0 {
                color_enum(e.common.color)
            } else {
                chunk.color
            },
        )
    }
}

/// Whether the items from index `start` on are the chunks that entity `i` inserts.
pub open spec fn are_chunks_of(
    td: TDDrawing,
    d: DxfDrawing,
    aci: Seq<u32>,
    start: int,
    i: int,
    insert: Insert,
    l: int,
    chunks: Seq<ChunkView>,
) -> bool {
    forall|j: int|
        0 <= j < chunks.len() ==> is_chunk_of(
            td,
            d,
            aci,
            start + j,
            i,
            insert,
            l,
            #[trigger] chunks[j],
        )
}

proof fn lemma_chunk_is_item(
    st: LoadState,
    e: DxfEntity,
    i: int,
    insert: Insert,
    layer: Layer,
    aci: Seq<u32>,
    chunks: Seq<ChunkView>,
    j: int,
)
    requires
        0 <= j < chunks.len(),
        st.items.len() == st.owners.len(),
    ensures
        ({
            let out = insert_chunks(st, e, i, insert, layer, aci, chunks, chunks.len() as int);
            let at = st.items.len() + j;
            &&& out.items.len() == st.items.len() + chunks.len()
            &&& out.owners.len() == out.items.len()
            &&& out.owners[at] == e.common.handle
            &&& out.items[at] matches ItemView::Shape { path, transform, paint } && {
                &&& path == arrayed(
                    chunks[j].path,
                    EntityRef { block: None, entity: i as usize },
                    insert.row_count as int,
                    insert.column_count as int,
                )
                &&& transform.index == 0
                &&& is_paint_for(
                    out.paints,
                    paint,
                    e.common,
                    layer,
                    aci,
                    inherited_weight(chunks[j], e),
                    inherited_color(chunks[j], e),
                )
            }
        }),
{
    let n = chunks.len() as int;
    lemma_chunks_extend(st, e, i, insert, layer, aci, chunks, j + 1, n);
    lemma_chunks_extend(st, e, i, insert, layer, aci, chunks, 0, j);
    lemma_chunks_count(st, e, i, insert, layer, aci, chunks, j);
    lemma_chunks_count(st, e, i, insert, layer, aci, chunks, n);
    let before = insert_chunks(st, e, i, insert, layer, aci, chunks, j);
    let after = insert_chunks(st, e, i, insert, layer, aci, chunks, j + 1);
    let out = insert_chunks(st, e, i, insert, layer, aci, chunks, n);
    lemma_paint_is_there(
        before.paints,
        e,
        layer,
        aci,
        inherited_weight(chunks[j], e),
        inherited_color(chunks[j], e),
    );
    let at = st.items.len() + j;
    assert(before.items.len() == at);
    assert(after.items.len() == at + 1);
    assert(out.items[at] == after.items[at]);
    assert(out.owners[at] == after.owners[at]);
    lemma_paint_stays(
        after,
        out,
        after.items[at].paint(),
        e,
        layer,
        aci,
        inherited_weight(chunks[j], e),
        inherited_color(chunks[j], e),
    );
}

/// Every insert that is shown and faces the viewer, of a block that is resolved, is one item
/// for every chunk of the block, in their order.
pub proof fn law_inserted_chunks_are_items(
    td: TDDrawing,
    d: DxfDrawing,
    aci: Seq<u32>,
    i: int,
    insert: Insert,
    l: int,
)
    requires
        loaded(d, aci) matches Ok(st) && td.is_load_of(d, st),
        0 <= i < d.entities@.len(),
        d.entities@[i].specific == EntityType::Insert(insert),
        is_shown(d, d.entities@[i]),
        is_layer_for(d.layers@, d.entities@[i].common.layer@, l),
        is_front(insert.extrusion_direction),
        resolved_blocks(d)->Ok_0.contains_key(insert.name@),
    ensures
        exists|start: int| #[trigger]
            are_chunks_of(
                td,
                d,
                aci,
                start,
                i,
                insert,
                l,
                resolved_blocks(d)->Ok_0[insert.name@],
            ),
{
    let st = loaded(d, aci)->Ok_0;
    let blocks = resolved_blocks(d)->Ok_0;
    let n = d.entities@.len() as int;
    let e = d.entities@[i];
    lemma_shown_is_drawn(d, e);
    law_names_stand_for_layers(d.layers@, e.common.layer@, l);
    lemma_walk_extends(d, aci, blocks, i + 1, n);
    lemma_walk_extends(d, aci, blocks, i, i + 1);
    lemma_walk_counts(d, aci, blocks, i);
    let before = load_walk(d, aci, blocks, i)->Ok_0;
    let after = load_walk(d, aci, blocks, i + 1)->Ok_0;
    let layer = d.layers@[l];
    let (paints, paint) = paint_for(
        before.paints,
        e.common,
        layer,
        aci,
        entity_weight(e),
        color_enum(e.common.color),
    );
    let painted = LoadState { paints, ..before };
    let chunks = blocks[insert.name@];
    let start = before.items.len() as int;
    assert(td.graphics.items.len() == td.graphics@.items.len());
    assert forall|j: int| 0 <= j < chunks.len() implies is_chunk_of(
        td,
        d,
        aci,
        start + j,
        i,
        insert,
        l,
        #[trigger] chunks[j],
    ) by {
        lemma_chunk_is_item(painted, e, i, insert, layer, aci, chunks, j);
        let at = start + j;
        assert(st.items[at] == after.items[at]);
        assert(st.owners[at] == after.owners[at]);
        lemma_paint_stays(
            after,
            st,
            after.items[at].paint(),
            e,
            layer,
            aci,
            inherited_weight(chunks[j], e),
            inherited_color(chunks[j], e),
        );
        lemma_painted(
            td,
            d,
            aci,
            after.items[at].paint(),
            e,
            layer,
            inherited_weight(chunks[j], e),
            inherited_color(chunks[j], e),
        );
    }
    assert(are_chunks_of(td, d, aci, start, i, insert, l, chunks));
}

/// An entity that is hidden, or on a layer that is off, shows nothing.
pub proof fn law_hidden_entities_show_nothing(
    td: TDDrawing,
    d: DxfDrawing,
    aci: Seq<u32>,
    i: int,
    k: int,
)
    requires
        loaded(d, aci) matches Ok(st) && td.is_load_of(d, st),
        0 <= i < d.entities@.len(),
        !is_shown(d, d.entities@[i]),
        0 <= k < td.graphics@.items.len(),
    ensures
        td.graphics@.items[k] matches ItemView::Shape { path, .. } ==> !path.contains(own_part(i)),
{
    let st = loaded(d, aci)->Ok_0;
    let n = d.entities@.len() as int;
    lemma_shown_is_drawn(d, d.entities@[i]);
    assert(td.graphics.paints.len() == td.graphics@.paints.len());
    assert(d.entities.len() == n);
    law_items_show_entities(d, aci);
    let sources = choose|sources: Seq<int>| #[trigger] traced(d, aci, st, sources, n);
    assert(item_traced(d, aci, st, sources, n, k));
    let j = sources[k];
    match td.graphics@.items[k] {
        ItemView::Shape { path, .. } => {
            if path.contains(own_part(i)) {
                let m = choose|m: int| 0 <= m < path.len() && path[m] == own_part(i);
                if d.entities@[j].specific is Insert {
                    assert(crate::block_laws::placed_by(
                        path[m],
                        EntityRef { block: None, entity: j as usize },
                    ));
                } else {
                    assert(path[m] == own_part(j));
                    assert(own_part(i).source.entity == i as usize);
                    assert(own_part(j).source.entity == j as usize);
                }
            }
        },
        _ => {},
    }
}

/// Whether entity `i` can be loaded: it is hidden, or has a handle, a layer and an outline
/// that can be traced, if any.
pub open spec fn can_be_loaded(d: DxfDrawing, i: int) -> bool {
    let e = d.entities@[i];
    is_shown(d, e) ==> e.common.handle != 0 && layer_for(d.layers@, e.common.layer@) is Some
        && traceable(e.specific)
}

proof fn lemma_loads_before(
    d: DxfDrawing,
    aci: Seq<u32>,
    blocks: Map<Seq<char>, Seq<ChunkView>>,
    n: int,
)
    requires
        0 <= n <= d.entities@.len(),
        forall|i: int| 0 <= i < n ==> #[trigger] can_be_loaded(d, i),
    ensures
        load_walk(d, aci, blocks, n) is Ok,
    decreases n,
{
    if n > 0 {
        lemma_loads_before(d, aci, blocks, n - 1);
        assert(can_be_loaded(d, n - 1));
        lemma_shown_is_drawn(d, d.entities@[n - 1]);
    }
}

proof fn lemma_stays_failed(
    d: DxfDrawing,
    aci: Seq<u32>,
    blocks: Map<Seq<char>, Seq<ChunkView>>,
    n: int,
    m: int,
)
    requires
        0 <= n <= m,
        load_walk(d, aci, blocks, n) is Err,
    ensures
        load_walk(d, aci, blocks, m) == load_walk(d, aci, blocks, n),
    decreases m,
{
    if n < m {
        lemma_stays_failed(d, aci, blocks, n, m - 1);
    }
}

/// The first thing that is wrong decides why a drawing cannot be loaded: a layer without a
/// handle, then a block, then the first entity that is shown and has no handle, no layer or
/// an outline that cannot be traced. If nothing is wrong, the drawing is loaded.
pub proof fn law_first_fault_decides(d: DxfDrawing, aci: Seq<u32>, n: int)
    requires
        0 <= n <= d.entities@.len(),
        forall|i: int| 0 <= i < n ==> #[trigger] can_be_loaded(d, i),
    ensures
        (exists|j: int| 0 <= j < d.layers@.len() && (#[trigger] d.layers@[j]).handle == 0)
            ==> loaded(d, aci) == Err::<LoadState, _>(LoadError::NullLayerHandle),
        (forall|j: int| 0 <= j < d.layers@.len() ==> (#[trigger] d.layers@[j]).handle != 0) ==> {
            &&& resolved_blocks(d) matches Err(e) ==> loaded(d, aci) == Err::<LoadState, _>(e)
            &&& resolved_blocks(d) is Ok && n == d.entities@.len() ==> loaded(d, aci) is Ok
            &&& resolved_blocks(d) is Ok && n < d.entities@.len() && is_shown(d, d.entities@[n])
                ==> {
                let e = d.entities@[n];
                let known = layer_for(d.layers@, e.common.layer@) is Some;
                &&& e.common.handle == 0 ==> loaded(d, aci) == Err::<LoadState, _>(
                    LoadError::NullEntityHandle,
                )
                &&& e.common.handle != 0 && !known ==> loaded(d, aci) == Err::<LoadState, _>(
                    LoadError::UnknownLayer,
                )
                &&& e.common.handle != 0 && known && !traceable(e.specific) ==> loaded(d, aci)
                    == Err::<LoadState, _>(LoadError::UntraceableSpline)
            }
        },
{
    if resolved_blocks(d) is Ok {
        let blocks = resolved_blocks(d)->Ok_0;
        lemma_loads_before(d, aci, blocks, n);
        if n < d.entities@.len() {
            lemma_shown_is_drawn(d, d.entities@[n]);
            if load_walk(d, aci, blocks, n + 1) is Err {
                lemma_stays_failed(d, aci, blocks, n + 1, d.entities@.len() as int);
            }
        }
    }
}

/// The layers of a loaded drawing that are enabled are those that are on.
pub proof fn law_layers_that_are_on_are_enabled(
    td: TDDrawing,
    d: DxfDrawing,
    aci: Seq<u32>,
    i: int,
    h: u64,
)
    requires
        loaded(d, aci) matches Ok(st) && td.is_load_of(d, st),
        0 <= i < d.layers@.len(),
    ensures
        d.layers@[i].is_layer_on ==> td.enabled_layers@.contains(d.layers@[i].handle),
        (forall|j: int|
            0 <= j < d.layers@.len() && (#[trigger] d.layers@[j]).handle == h
                ==> !d.layers@[j].is_layer_on) ==> !td.enabled_layers@.contains(h),
{
}

/// The handles of layers lead to their names; of several layers with one handle, to the name
/// of the last.
pub proof fn law_handles_lead_to_names(
    td: TDDrawing,
    d: DxfDrawing,
    aci: Seq<u32>,
    i: int,
    h: u64,
)
    requires
        loaded(d, aci) matches Ok(st) && td.is_load_of(d, st),
        is_last_with(d.layers@, h, i),
    ensures
        td.layer_names@.contains_key(h),
        td.layer_names@[h]@ == d.layers@[i].name@,
{
    lemma_finds_last_with(d.layers@, h, i, d.layers@.len() as int);
    assert(td.layer_names@.contains_key(h));
}

/// A loaded drawing draws its items in their order, every one once, and keeps the file.
pub proof fn law_items_are_drawn_in_order(td: TDDrawing, d: DxfDrawing, aci: Seq<u32>, k: int)
    requires
        loaded(d, aci) matches Ok(st) && td.is_load_of(d, st),
        0 <= k < td.graphics@.items.len(),
    ensures
        td.render_layer.indices@.len() == td.graphics@.items.len(),
        td.render_layer.indices@[k].index == k,
        td.info.drawing_spec() == d,
{
    assert(td.graphics.items.len() == td.graphics@.items.len());
}

proof fn lemma_paint_comes_first(
    st: LoadState,
    d: DxfDrawing,
    i: int,
    layer: Layer,
    aci: Seq<u32>,
    blocks: Map<Seq<char>, Seq<ChunkView>>,
)
    requires
        drawn_entity(st, d, i, layer, aci, blocks) is Ok,
    ensures
        ({
            let e = d.entities@[i];
            let (paints, paint) = paint_for(
                st.paints,
                e.common,
                layer,
                aci,
                entity_weight(e),
                color_enum(e.common.color),
            );
            is_paint_for(
                drawn_entity(st, d, i, layer, aci, blocks)->Ok_0.paints,
                paint,
                e.common,
                layer,
                aci,
                entity_weight(e),
                color_enum(e.common.color),
            )
        }),
{
    let e = d.entities@[i];
    let (paints, paint) = paint_for(
        st.paints,
        e.common,
        layer,
        aci,
        entity_weight(e),
        color_enum(e.common.color),
    );
    lemma_paint_is_there(
        st.paints,
        e,
        layer,
        aci,
        entity_weight(e),
        color_enum(e.common.color),
    );
    let painted = LoadState { paints, ..st };
    let next = drawn_entity(st, d, i, layer, aci, blocks)->Ok_0;
    match e.specific {
        EntityType::Insert(insert) => {
            if next != painted {
                let chunks = blocks[insert.name@];
                lemma_chunks_extend(
                    painted,
                    e,
                    i,
                    insert,
                    layer,
                    aci,
                    chunks,
                    0,
                    chunks.len() as int,
                );
                lemma_paint_stays(
                    painted,
                    next,
                    paint,
                    e,
                    layer,
                    aci,
                    entity_weight(e),
                    color_enum(e.common.color),
                );
            }
        },
        _ => {},
    }
}

/// Whether an entity is filled.
pub open spec fn is_filled(e: DxfEntity) -> bool {
    e.specific is Solid || e.specific is Text || e.specific is MText
}

/// Every entity that is shown has its paint in the drawing, even if it has no item: a fill
/// for solids and texts, else a stroke of its line weight.
pub proof fn law_shown_entities_have_their_paint(
    td: TDDrawing,
    d: DxfDrawing,
    aci: Seq<u32>,
    i: int,
    l: int,
)
    requires
        loaded(d, aci) matches Ok(st) && td.is_load_of(d, st),
        0 <= i < d.entities@.len(),
        is_shown(d, d.entities@[i]),
        is_layer_for(d.layers@, d.entities@[i].common.layer@, l),
    ensures
        is_filled(d.entities@[i]) ==> exists|paint: PaintHandle| #[trigger]
            is_painted_as(
                td,
                paint,
                d.entities@[i],
                d.layers@[l],
                aci,
                -32768i16,
                color_enum(d.entities@[i].common.color),
            ),
        !is_filled(d.entities@[i]) ==> exists|paint: PaintHandle| #[trigger]
            is_painted_as(
                td,
                paint,
                d.entities@[i],
                d.layers@[l],
                aci,
                d.entities@[i].common.lineweight_enum_value,
                color_enum(d.entities@[i].common.color),
            ),
{
    let st = loaded(d, aci)->Ok_0;
    let blocks = resolved_blocks(d)->Ok_0;
    let e = d.entities@[i];
    let layer = d.layers@[l];
    lemma_shown_is_drawn(d, e);
    law_names_stand_for_layers(d.layers@, e.common.layer@, l);
    lemma_walk_extends(d, aci, blocks, i + 1, d.entities@.len() as int);
    lemma_walk_extends(d, aci, blocks, i, i + 1);
    let before = load_walk(d, aci, blocks, i)->Ok_0;
    let after = load_walk(d, aci, blocks, i + 1)->Ok_0;
    lemma_paint_comes_first(before, d, i, layer, aci, blocks);
    let (paints, paint) = paint_for(
        before.paints,
        e.common,
        layer,
        aci,
        entity_weight(e),
        color_enum(e.common.color),
    );
    lemma_paint_stays(
        after,
        st,
        paint,
        e,
        layer,
        aci,
        entity_weight(e),
        color_enum(e.common.color),
    );
    lemma_painted(
        td,
        d,
        aci,
        paint,
        e,
        layer,
        entity_weight(e),
        color_enum(e.common.color),
    );
    assert(is_painted_as(
        td,
        paint,
        e,
        layer,
        aci,
        entity_weight(e),
        color_enum(e.common.color),
    ));
}

/// The first paint of a loaded drawing is the default: it strokes in black, and no item
/// uses it. The one transform of a loaded drawing is the identity, which every item uses.
pub proof fn law_default_paint_is_black(td: TDDrawing, d: DxfDrawing, aci: Seq<u32>, k: int)
    requires
        loaded(d, aci) matches Ok(st) && td.is_load_of(d, st),
    ensures
        td.graphics@.paints.len() > 0,
        td.graphics@.paints[0].fill_paint is None,
        td.graphics@.paints[0].stroke_paint == Some(
            PaintBrush::Solid(Rgba8 { r: 0, g: 0, b: 0, a: 255 }),
        ),
        td.graphics@.transforms.len() == 1,
        td.graphics@.transforms[0].xx.place == 0xBFF0_0000_0000_0000,
        td.graphics@.transforms[0].yy.place == 0xBFF0_0000_0000_0000,
        td.graphics@.transforms[0].xy.place == 0x8000_0000_0000_0000,
        td.graphics@.transforms[0].yx.place == 0x8000_0000_0000_0000,
        td.graphics@.transforms[0].dx.place == 0x8000_0000_0000_0000,
        td.graphics@.transforms[0].dy.place == 0x8000_0000_0000_0000,
        0 <= k < td.graphics@.items.len() ==> td.graphics@.items[k].paint().index > 0
            && td.graphics@.items[k].transform().index == 0,
{
    let st = loaded(d, aci)->Ok_0;
    let n = d.entities@.len() as int;
    assert(td.graphics.paints.len() == td.graphics@.paints.len());
    law_items_show_entities(d, aci);
    let sources = choose|sources: Seq<int>| #[trigger] traced(d, aci, st, sources, n);
    if 0 <= k < td.graphics@.items.len() {
        assert(item_traced(d, aci, st, sources, n, k));
    }
}

/// A loaded drawing leads from an entity to the layer that it names, if no other entity that
/// is drawn has its handle.
pub proof fn law_entities_lead_to_their_layers(
    td: TDDrawing,
    d: DxfDrawing,
    aci: Seq<u32>,
    i: int,
    l: int,
)
    requires
        loaded(d, aci) matches Ok(st) && td.is_load_of(d, st),
        0 <= i < d.entities@.len(),
        is_layer_for(d.layers@, d.entities@[i].common.layer@, l),
        forall|j: int|
            0 <= j < d.entities@.len() && (#[trigger] d.entities@[j]).common.handle
                == d.entities@[i].common.handle ==> j == i,
        td.entity_layer_map@.contains_key(d.entities@[i].common.handle),
    ensures
        td.entity_layer_map@[d.entities@[i].common.handle]@ == d.layers@[l].handle,
{
    let st = loaded(d, aci)->Ok_0;
    let n = d.entities@.len() as int;
    let h = d.entities@[i].common.handle;
    assert(td.graphics.paints.len() == td.graphics@.paints.len());
    law_items_show_entities(d, aci);
    law_names_stand_for_layers(d.layers@, d.entities@[i].common.layer@, l);
    let sources = choose|sources: Seq<int>| #[trigger] traced(d, aci, st, sources, n);
    assert(st.entity_layers.contains_key(h));
    assert(layer_traced(d, st, sources, h));
    let k = choose|k: int| #[trigger]
        last_owned(st.owners, h, k) && st.entity_layers[h]
            == layer_handle_of(d, sources[k]);
    assert(item_traced(d, aci, st, sources, n, k));
    assert(d.entities@[sources[k]].common.handle == h);
}

/// The layer that entity `i` is on.
pub open spec fn layer_of(d: DxfDrawing, i: int) -> Layer {
    d.layers@[layer_for(d.layers@, d.entities@[i].common.layer@)->0]
}

/// Whether paint `p` was registered for entity `i`, with this line weight and color number.
spec fn is_origin(
    d: DxfDrawing,
    aci: Seq<u32>,
    paints: PaintState,
    n: int,
    p: int,
    i: int,
    lw: i16,
    c: i16,
) -> bool {
    &&& 0 <= i < n
    &&& is_shown(d, d.entities@[i])
    &&& is_paint_for(
        paints,
        PaintHandle { index: p as usize },
        d.entities@[i].common,
        layer_of(d, i),
        aci,
        lw,
        c,
    )
}

spec fn has_origin(d: DxfDrawing, aci: Seq<u32>, paints: PaintState, n: int, p: int) -> bool {
    exists|i: int, lw: i16, c: i16| #[trigger] is_origin(d, aci, paints, n, p, i, lw, c)
}

spec fn all_have_origins(d: DxfDrawing, aci: Seq<u32>, paints: PaintState, n: int) -> bool {
    forall|p: int| 1 <= p < paints.paints.len() ==> #[trigger] has_origin(d, aci, paints, n, p)
}

proof fn lemma_paint_has_origin(
    d: DxfDrawing,
    aci: Seq<u32>,
    st: LoadState,
    n: int,
    m: int,
    i: int,
    lw: i16,
    c: i16,
)
    requires
        all_have_origins(d, aci, st.paints, n),
        n <= m,
        0 <= i < m,
        is_shown(d, d.entities@[i]),
        st.paints.paints.len() >= 1,
        paint_for(st.paints, d.entities@[i].common, layer_of(d, i), aci, lw, c).0.paints.len()
            <= usize::MAX,
    ensures
        all_have_origins(
            d,
            aci,
            paint_for(st.paints, d.entities@[i].common, layer_of(d, i), aci, lw, c).0,
            m,
        ),
        paint_for(st.paints, d.entities@[i].common, layer_of(d, i), aci, lw, c).0.paints.len()
            >= st.paints.paints.len(),
{
    let e = d.entities@[i];
    let layer = layer_of(d, i);
    let (next, h) = paint_for(st.paints, e.common, layer, aci, lw, c);
    lemma_paint_is_there(st.paints, e, layer, aci, lw, c);
    let after = LoadState { paints: next, ..st };
    assert(extends(st, after));
    assert forall|p: int| 1 <= p < next.paints.len() implies #[trigger] has_origin(
        d,
        aci,
        next,
        m,
        p,
    ) by {
        if p < st.paints.paints.len() {
            assert(has_origin(d, aci, st.paints, n, p));
            let (j, lw1, c1) = choose|j: int, lw1: i16, c1: i16| #[trigger]
                is_origin(d, aci, st.paints, n, p, j, lw1, c1);
            lemma_paint_stays(
                st,
                after,
                PaintHandle { index: p as usize },
                d.entities@[j],
                layer_of(d, j),
                aci,
                lw1,
                c1,
            );
            assert(is_origin(d, aci, next, m, p, j, lw1, c1));
        } else {
            assert(h == PaintHandle { index: p as usize });
            assert(is_origin(d, aci, next, m, p, i, lw, c));
        }
    }
}

proof fn lemma_chunks_have_origins(
    d: DxfDrawing,
    aci: Seq<u32>,
    st: LoadState,
    i: int,
    insert: Insert,
    chunks: Seq<ChunkView>,
    n: int,
)
    requires
        all_have_origins(d, aci, st.paints, i + 1),
        st.paints.paints.len() >= 1,
        0 <= i,
        is_shown(d, d.entities@[i]),
        insert_chunks(
            st,
            d.entities@[i],
            i,
            insert,
            layer_of(d, i),
            aci,
            chunks,
            n,
        ).paints.paints.len() <= usize::MAX,
    ensures
        ({
            let out = insert_chunks(
                st,
                d.entities@[i],
                i,
                insert,
                layer_of(d, i),
                aci,
                chunks,
                n,
            );
            &&& all_have_origins(d, aci, out.paints, i + 1)
            &&& out.paints.paints.len() >= st.paints.paints.len()
        }),
    decreases n,
{
    if n > 0 {
        let e = d.entities@[i];
        let layer = layer_of(d, i);
        let before = insert_chunks(st, e, i, insert, layer, aci, chunks, n - 1);
        lemma_chunks_have_origins(d, aci, st, i, insert, chunks, n - 1);
        lemma_paint_has_origin(
            d,
            aci,
            before,
            i + 1,
            i + 1,
            i,
            inherited_weight(chunks[n - 1], e),
            inherited_color(chunks[n - 1], e),
        );
    }
}

proof fn lemma_fewer_paints_before(
    d: DxfDrawing,
    aci: Seq<u32>,
    blocks: Map<Seq<char>, Seq<ChunkView>>,
    n: int,
)
    requires
        n > 0,
        load_walk(d, aci, blocks, n) is Ok,
    ensures
        load_walk(d, aci, blocks, n - 1) is Ok,
        load_walk(d, aci, blocks, n - 1)->Ok_0.paints.paints.len() <= load_walk(
            d,
            aci,
            blocks,
            n,
        )->Ok_0.paints.paints.len(),
{
    lemma_step_grows(
        d,
        load_walk(d, aci, blocks, n - 1)->Ok_0,
        n - 1,
        aci,
        blocks,
    );
}

proof fn lemma_walk_has_origins(
    d: DxfDrawing,
    aci: Seq<u32>,
    blocks: Map<Seq<char>, Seq<ChunkView>>,
    n: int,
)
    requires
        0 <= n <= d.entities@.len(),
        load_walk(d, aci, blocks, n) matches Ok(st) && st.paints.paints.len() <= usize::MAX,
    ensures
        all_have_origins(d, aci, load_walk(d, aci, blocks, n)->Ok_0.paints, n),
        load_walk(d, aci, blocks, n)->Ok_0.paints.paints.len() >= 1,
    decreases n,
{
    if n > 0 {
        lemma_fewer_paints_before(d, aci, blocks, n);
        lemma_walk_has_origins(d, aci, blocks, n - 1);
        let before = load_walk(d, aci, blocks, n - 1)->Ok_0;
        let after = load_walk(d, aci, blocks, n)->Ok_0;
        let e = d.entities@[n - 1];
        lemma_shown_is_drawn(d, e);
        if is_drawn(d, e) {
            let layer = layer_of(d, n - 1);
            let (paints, paint) = paint_for(
                before.paints,
                e.common,
                layer,
                aci,
                entity_weight(e),
                color_enum(e.common.color),
            );
            let painted = LoadState { paints, ..before };
            match e.specific {
                EntityType::Insert(insert) => {
                    if after != painted {
                        let chunks = blocks[insert.name@];
                        lemma_chunks_grow(
                            painted,
                            e,
                            n - 1,
                            insert,
                            layer,
                            aci,
                            chunks,
                            chunks.len() as int,
                        );
                        lemma_paint_has_origin(
                            d,
                            aci,
                            before,
                            n - 1,
                            n,
                            n - 1,
                            entity_weight(e),
                            color_enum(e.common.color),
                        );
                        lemma_chunks_have_origins(
                            d,
                            aci,
                            painted,
                            n - 1,
                            insert,
                            chunks,
                            chunks.len() as int,
                        );
                    } else {
                        lemma_paint_has_origin(
                            d,
                            aci,
                            before,
                            n - 1,
                            n,
                            n - 1,
                            entity_weight(e),
                            color_enum(e.common.color),
                        );
                    }
                },
                _ => {
                    lemma_paint_has_origin(
                        d,
                        aci,
                        before,
                        n - 1,
                        n,
                        n - 1,
                        entity_weight(e),
                        color_enum(e.common.color),
                    );
                },
            }
        } else {
            assert forall|p: int| 1 <= p < after.paints.paints.len() implies #[trigger] has_origin(
                d,
                aci,
                after.paints,
                n,
                p,
            ) by {
                assert(has_origin(d, aci, before.paints, n - 1, p));
                let (j, lw1, c1) = choose|j: int, lw1: i16, c1: i16| #[trigger]
                    is_origin(d, aci, before.paints, n - 1, p, j, lw1, c1);
                assert(is_origin(d, aci, after.paints, n, p, j, lw1, c1));
            }
        }
    }
}

/// Whether paint `p` of a drawing is one for entity `i`, which is shown, or for what it
/// inserts, with this line weight and color number.
pub open spec fn is_paint_of(
    td: TDDrawing,
    d: DxfDrawing,
    aci: Seq<u32>,
    p: usize,
    i: int,
    lw: i16,
    c: i16,
) -> bool {
    &&& 0 <= i < d.entities@.len()
    &&& is_shown(d, d.entities@[i])
    &&& is_painted_as(
        td,
        PaintHandle { index: p },
        d.entities@[i],
        layer_of(d, i),
        aci,
        lw,
        c,
    )
}

/// A loaded drawing has no paint but the default that is not for an entity that is shown.
pub proof fn law_paints_are_of_shown_entities(
    td: TDDrawing,
    d: DxfDrawing,
    aci: Seq<u32>,
    p: usize,
)
    requires
        loaded(d, aci) matches Ok(st) && td.is_load_of(d, st),
        1 <= p < td.graphics@.paints.len(),
    ensures
        exists|i: int, lw: i16, c: i16| #[trigger] is_paint_of(td, d, aci, p, i, lw, c),
{
    let st = loaded(d, aci)->Ok_0;
    let n = d.entities@.len() as int;
    assert(td.graphics.paints.len() == td.graphics@.paints.len());
    lemma_walk_has_origins(d, aci, resolved_blocks(d)->Ok_0, n);
    assert(has_origin(d, aci, st.paints, n, p as int));
    let (i, lw, c) = choose|i: int, lw: i16, c: i16| #[trigger]
        is_origin(d, aci, st.paints, n, p as int, i, lw, c);
    lemma_painted(
        td,
        d,
        aci,
        PaintHandle { index: p },
        d.entities@[i],
        layer_of(d, i),
        lw,
        c,
    );
    assert(is_paint_of(td, d, aci, p, i, lw, c));
}

} // verus!
