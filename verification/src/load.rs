//! Loading: from the contents of a DXF file to things to draw.

use std::collections::{BTreeMap, BTreeSet};

use vstd::prelude::*;

use crate::blocks::{
    array_path, find_layer, resolve_blocks, BlockTable, Chunk, EntityRef, LoadError, PathPart,
};
#[allow(unused_imports)]
use crate::blocks::{
    arrayed, chunk_views, last_layer_with, layer_for, part_views, resolved_blocks, ChunkView,
    PartView,
};
use crate::color::{recover_color_enum, Rgba8, COLOR_BY_BLOCK, WEIGHT_BY_BLOCK, WEIGHT_SOLID};
#[allow(unused_imports)]
use crate::color::color_enum;
use crate::dxf_file::{DxfDrawing, DxfEntity, EntityType, Insert, Layer, MText, Style, Text};
#[allow(unused_imports)]
use crate::graphics::{identity_transform, BagView, ItemView};
use crate::graphics::{
    FatPaint, FatShape, FatText, GraphicsBag, GraphicsItem, ItemHandle, PaintHandle, RenderLayer,
    TextInsertion, TransformHandle,
};
use crate::handles::{DrawingInfo, EntityHandle, LayerHandle};
#[allow(unused_imports)]
use crate::paints::{first_paints, lists_strokes, paint_for, PaintState};
use crate::paints::{PaintTable, RestrokePaint};
use crate::path::{is_facing_viewer, is_traceable, path_from_entity, point_from_dxf_point};
#[allow(unused_imports)]
use crate::path::{faces_viewer, outline, point_of, traceable};
#[allow(unused_imports)]
use crate::text::{joined, shown_mtext, shown_text};
use crate::text::{translate_mtext, translate_text};
#[allow(unused_imports)]
use crate::text_style::{
    alignment_of, attachment_code, attachment_of, inline_size, mtext_style_spec, text_style_spec,
};
use crate::text_style::{
    alignment_for, dxf_attachment_point_to_tabulon, max_inline_size, mtext_style, text_style,
    Alignment, TextAttachment,
};

verus! {

/// What has been loaded so far.
#[verifier::ext_equal]
pub struct LoadState {
    pub paints: PaintState,
    /// The items, in drawing order.
    pub items: Seq<ItemView>,
    /// The handle of the entity that each item is of.
    pub owners: Seq<u64>,
    /// The handle of the layer that each entity with items is on.
    pub entity_layers: Map<u64, u64>,
}

/// The state before the first entity.
pub open spec fn load_start() -> LoadState {
    LoadState {
        paints: first_paints(),
        items: Seq::empty(),
        owners: Seq::empty(),
        entity_layers: Map::empty(),
    }
}

/// The state with one more item, of an entity on a layer.
pub open spec fn with_item(st: LoadState, item: ItemView, entity: u64, layer: u64) -> LoadState {
    LoadState {
        paints: st.paints,
        items: st.items.push(item),
        owners: st.owners.push(entity),
        entity_layers: st.entity_layers.insert(entity, layer),
    }
}

/// Whether a layer with this name is on. A name that is empty counts as one.
pub open spec fn shows_layer(layers: Seq<Layer>, name: Seq<char>) -> bool {
    ||| name.len() == 0
    ||| exists|i: int|
        0 <= i < layers.len() && (#[trigger] layers[i]).is_layer_on && layers[i].name@ == name
}

/// Whether an entity is looked at: it is visible itself, and its layer is on.
pub open spec fn is_drawn(d: DxfDrawing, e: DxfEntity) -> bool {
    e.common.is_visible && shows_layer(d.layers@, e.common.layer@)
}

/// The line weight that an entity is painted with; solids and text are filled.
pub open spec fn entity_weight(e: DxfEntity) -> i16 {
    if e.specific is Solid || e.specific is Text || e.specific is MText {
        WEIGHT_SOLID
    } else {
        e.common.lineweight_enum_value
    }
}

/// A path to draw.
pub open spec fn shape_item(path: Seq<PartView>, paint: PaintHandle) -> ItemView {
    ItemView::Shape { path, transform: TransformHandle { index: 0 }, paint }
}

/// The text of an `MTEXT` to draw. The attachment point also decides the alignment.
pub open spec fn mtext_item(styles: Seq<Style>, mt: MText, paint: PaintHandle) -> ItemView {
    let attachment_point = attachment_of(attachment_code(mt.attachment_point));
    let alignment = alignment_of(attachment_point);
    ItemView::Text {
        transform: TransformHandle { index: 0 },
        paint,
        text: shown_mtext(joined(mt.text@, mt.extended_text@, mt.extended_text@.len() as int)),
        style: mtext_style_spec(styles, mt),
        alignment,
        insertion: TextInsertion {
            rotation_angle: mt.rotation_angle,
            x_axis: Some(point_of(mt.x_axis_direction)),
            location: point_of(mt.insertion_point),
        },
        max_inline_size: inline_size(mt, alignment),
        attachment_point,
    }
}

/// The text of a `TEXT` to draw.
pub open spec fn text_item(styles: Seq<Style>, t: Text, paint: PaintHandle) -> ItemView {
    ItemView::Text {
        transform: TransformHandle { index: 0 },
        paint,
        text: shown_text(t.value@),
        style: text_style_spec(styles, t),
        alignment: Alignment::Start,
        insertion: TextInsertion {
            rotation_angle: t.rotation,
            x_axis: None,
            location: point_of(t.location),
        },
        max_inline_size: None,
        attachment_point: TextAttachment::TopLeft,
    }
}

/// The line weight of a chunk that entity `e` inserts: what is by block is inherited
/// from the insert.
pub open spec fn inherited_weight(chunk: ChunkView, e: DxfEntity) -> i16 {
    if chunk.line_weight == WEIGHT_BY_BLOCK {
        e.common.lineweight_enum_value
    } else {
        chunk.line_weight
    }
}

/// The color number of a chunk that entity `e` inserts: what is by block is inherited
/// from the insert.
pub open spec fn inherited_color(chunk: ChunkView, e: DxfEntity) -> i16 {
    if chunk.color == COLOR_BY_BLOCK {
        color_enum(e.common.color)
    } else {
        chunk.color
    }
}

/// The state after the first `n` chunks of a block that entity `i` inserts.
pub open spec fn insert_chunks(
    st: LoadState,
    e: DxfEntity,
    i: int,
    insert: Insert,
    layer: Layer,
    aci: Seq<u32>,
    chunks: Seq<ChunkView>,
    n: int,
) -> LoadState
    decreases n,
{
    if n <= 0 {
        st
    } else {
        let before = insert_chunks(st, e, i, insert, layer, aci, chunks, n - 1);
        let chunk = chunks[n - 1];
        let (paints, paint) = paint_for(
            before.paints,
            e.common,
            layer,
            aci,
            inherited_weight(chunk, e),
            inherited_color(chunk, e),
        );
        let path = arrayed(
            chunk.path,
            EntityRef { block: None, entity: i as usize },
            insert.row_count as int,
            insert.column_count as int,
        );
        with_item(
            LoadState { paints, ..before },
            shape_item(path, paint),
            e.common.handle,
            layer.handle,
        )
    }
}

/// The state after an entity that is drawn, on a layer that exists.
pub open spec fn drawn_entity(
    st: LoadState,
    d: DxfDrawing,
    i: int,
    layer: Layer,
    aci: Seq<u32>,
    blocks: Map<Seq<char>, Seq<ChunkView>>,
) -> Result<LoadState, LoadError> {
    let e = d.entities@[i];
    // Even an entity that turns out to show nothing gets its paint.
    let (paints, paint) = paint_for(
        st.paints,
        e.common,
        layer,
        aci,
        entity_weight(e),
        color_enum(e.common.color),
    );
    let painted = LoadState { paints, ..st };
    match e.specific {
        EntityType::Insert(insert) => if faces_viewer(insert.extrusion_direction)
            && blocks.contains_key(insert.name@) {
            let chunks = blocks[insert.name@];
            Ok(insert_chunks(painted, e, i, insert, layer, aci, chunks, chunks.len() as int))
        } else {
            Ok(painted)
        },
        EntityType::MText(mt) => if faces_viewer(mt.extrusion_direction) {
            Ok(
                with_item(
                    painted,
                    mtext_item(d.styles@, mt, paint),
                    e.common.handle,
                    layer.handle,
                ),
            )
        } else {
            Ok(painted)
        },
        EntityType::Text(t) => if faces_viewer(t.normal) {
            Ok(
                with_item(
                    painted,
                    text_item(d.styles@, t, paint),
                    e.common.handle,
                    layer.handle,
                ),
            )
        } else {
            Ok(painted)
        },
        _ => if !traceable(e.specific) {
            Err(LoadError::UntraceableSpline)
        } else if outline(e.specific) is Some {
            let part = PartView {
                source: EntityRef { block: None, entity: i as usize },
                placements: Seq::empty(),
            };
            Ok(
                with_item(painted, shape_item(seq![part], paint), e.common.handle, layer.handle),
            )
        } else {
            Ok(painted)
        },
    }
}

/// The state after entity `i`.
pub open spec fn load_step(
    st: LoadState,
    d: DxfDrawing,
    i: int,
    aci: Seq<u32>,
    blocks: Map<Seq<char>, Seq<ChunkView>>,
) -> Result<LoadState, LoadError> {
    let e = d.entities@[i];
    if !is_drawn(d, e) {
        Ok(st)
    } else if e.common.handle == 0 {
        Err(LoadError::NullEntityHandle)
    } else {
        match layer_for(d.layers@, e.common.layer@) {
            Some(l) => drawn_entity(st, d, i, d.layers@[l], aci, blocks),
            None => Err(LoadError::UnknownLayer),
        }
    }
}

/// The state after the first `n` entities.
pub open spec fn load_walk(
    d: DxfDrawing,
    aci: Seq<u32>,
    blocks: Map<Seq<char>, Seq<ChunkView>>,
    n: int,
) -> Result<LoadState, LoadError>
    decreases n,
{
    if n <= 0 {
        Ok(load_start())
    } else {
        match load_walk(d, aci, blocks, n - 1) {
            Ok(st) => load_step(st, d, n - 1, aci, blocks),
            Err(e) => Err(e),
        }
    }
}

/// Whether every layer has a handle.
pub open spec fn layers_have_handles(layers: Seq<Layer>) -> bool {
    forall|i: int| 0 <= i < layers.len() ==> (#[trigger] layers[i]).handle != 0
}

/// What a drawing loads to. Layers are looked at first, then blocks, then entities, so
/// the first thing that is wrong in this order is the error.
pub open spec fn loaded(d: DxfDrawing, aci: Seq<u32>) -> Result<LoadState, LoadError> {
    if !layers_have_handles(d.layers@) {
        Err(LoadError::NullLayerHandle)
    } else {
        match resolved_blocks(d) {
            Ok(blocks) => load_walk(d, aci, blocks, d.entities@.len() as int),
            Err(e) => Err(e),
        }
    }
}

/// The handles of the first `n` items.
pub open spec fn item_handles(n: nat) -> Seq<ItemHandle> {
    Seq::new(n, |i: int| ItemHandle { index: i as usize })
}

/// Whether `map` leads from each item to the handle of its entity.
pub open spec fn maps_items(map: Map<usize, EntityHandle>, owners: Seq<u64>) -> bool {
    &&& forall|i: usize| #[trigger] map.contains_key(i) <==> i < owners.len()
    &&& forall|i: usize| i < owners.len() ==> (#[trigger] map[i])@ == owners[i as int]
}

/// Whether `map` leads from each entity with items to the handle of its layer.
pub open spec fn maps_entities(map: Map<u64, LayerHandle>, layers: Map<u64, u64>) -> bool {
    &&& map.dom() == layers.dom()
    &&& forall|h: u64| map.contains_key(h) ==> (#[trigger] map[h])@ == layers[h]
}

/// A drawing that is being loaded.
struct Loader {
    graphics: GraphicsBag,
    paints: PaintTable,
    render_layer: RenderLayer,
    item_entity_map: BTreeMap<usize, EntityHandle>,
    entity_layer_map: BTreeMap<u64, LayerHandle>,
}

impl Loader {
    spec fn holds(&self, st: LoadState) -> bool {
        &&& self.graphics@ == (BagView {
            items: st.items,
            paints: st.paints.paints,
            transforms: seq![identity_transform()],
        })
        &&& self.paints.state(self.graphics@) == st.paints
        &&& self.render_layer.indices@ == item_handles(st.items.len())
        &&& st.owners.len() == st.items.len()
        &&& maps_items(self.item_entity_map@, st.owners)
        &&& maps_entities(self.entity_layer_map@, st.entity_layers)
    }

    fn new() -> (l: Loader)
        ensures
            l.holds(load_start()),
    {
        let mut graphics: GraphicsBag = GraphicsBag::default();
        // The paint at position 0 in the palette is the default.
        let _paint: PaintHandle = graphics.register_paint(
            FatPaint::stroking(Rgba8 { r: 0, g: 0, b: 0, a: 255 }),
        );
        let l: Loader = Loader {
            graphics,
            paints: PaintTable::new(),
            render_layer: RenderLayer::default(),
            item_entity_map: BTreeMap::new(),
            entity_layer_map: BTreeMap::new(),
        };
        assert(l.graphics@.paints =~= first_paints().paints);
        assert(l.render_layer.indices@ =~= item_handles(0));
        assert(l.paints.state(l.graphics@) == first_paints());
        l
    }

    fn push_item(
        &mut self,
        item: GraphicsItem,
        eh: EntityHandle,
        lh: LayerHandle,
        Ghost(st): Ghost<LoadState>,
    )
        requires
            old(self).holds(st),
        ensures
            final(self).holds(with_item(st, item@, eh@, lh@)),
    {
        let ghost next = with_item(st, item@, eh@, lh@);
        let ghost before = self.graphics@;
        let ih: ItemHandle = self.render_layer.push_with_bag(&mut self.graphics, item);
        self.item_entity_map.insert(ih.index, eh);
        self.entity_layer_map.insert(eh.get(), lh);
        proof {
            self.paints.lemma_state(before, self.graphics@);
            assert(self.render_layer.indices@ =~= item_handles(next.items.len()));
        }
    }

    fn resolve_paint(
        &mut self,
        e: &DxfEntity,
        layer: &Layer,
        aci: &[u32; 256],
        lw: i16,
        c: i16,
        Ghost(st): Ghost<LoadState>,
    ) -> (h: PaintHandle)
        requires
            old(self).holds(st),
        ensures
            ({
                let (paints, paint) = paint_for(st.paints, e.common, *layer, aci@, lw, c);
                final(self).holds(LoadState { paints, ..st }) && h == paint
            }),
    {
        let h: PaintHandle = self.paints.resolve_paint(
            &mut self.graphics,
            &e.common,
            layer,
            aci,
            lw,
            c,
        );
        proof {
            self.paints.lemma_state(self.graphics@, self.graphics@);
        }
        h
    }

    fn push_chunks(
        &mut self,
        e: &DxfEntity,
        i: usize,
        insert: &Insert,
        layer: &Layer,
        aci: &[u32; 256],
        chunks: &Vec<Chunk>,
        eh: EntityHandle,
        lh: LayerHandle,
        Ghost(st): Ghost<LoadState>,
    )
        requires
            old(self).holds(st),
            eh@ == e.common.handle,
            lh@ == layer.handle,
        ensures
            final(self).holds(
                insert_chunks(
                    st,
                    *e,
                    i as int,
                    *insert,
                    *layer,
                    aci@,
                    chunk_views(chunks@),
                    chunks@.len() as int,
                ),
            ),
    {
        let ghost views = chunk_views(chunks@);
        let mut k: usize = 0;
        while k < chunks.len()
            invariant
                k <= chunks@.len(),
                eh@ == e.common.handle,
                lh@ == layer.handle,
                views == chunk_views(chunks@),
                self.holds(
                    insert_chunks(st, *e, i as int, *insert, *layer, aci@, views, k as int),
                ),
            decreases chunks@.len() - k,
        {
            let ghost before = insert_chunks(
                st,
                *e,
                i as int,
                *insert,
                *layer,
                aci@,
                views,
                k as int,
            );
            let chunk: &Chunk = &chunks[k];
            let lw: i16 = if chunk.line_weight == WEIGHT_BY_BLOCK {
                e.common.lineweight_enum_value
            } else {
                chunk.line_weight
            };
            let c: i16 = if chunk.color == COLOR_BY_BLOCK {
                recover_color_enum(&e.common.color)
            } else {
                chunk.color
            };
            assert(views[k as int] == chunk@);
            let paint: PaintHandle = self.resolve_paint(e, layer, aci, lw, c, Ghost(before));
            let path: Vec<PathPart> = array_path(
                &chunk.path,
                EntityRef { block: None, entity: i },
                insert.row_count,
                insert.column_count,
            );
            let item: GraphicsItem = GraphicsItem::FatShape(
                FatShape { path, transform: TransformHandle::default(), paint },
            );
            let ghost painted = LoadState {
                paints: paint_for(before.paints, e.common, *layer, aci@, lw, c).0,
                ..before
            };
            self.push_item(item, eh, lh, Ghost(painted));
            k = k + 1;
        }
    }

    fn draw_entity(
        &mut self,
        d: &DxfDrawing,
        i: usize,
        layer: &Layer,
        aci: &[u32; 256],
        blocks: &BlockTable,
        eh: EntityHandle,
        lh: LayerHandle,
        Ghost(st): Ghost<LoadState>,
    ) -> (r: Result<(), LoadError>)
        requires
            old(self).holds(st),
            i < d.entities@.len(),
            blocks.wf(),
            eh@ == d.entities@[i as int].common.handle,
            lh@ == layer.handle,
        ensures
            match drawn_entity(st, *d, i as int, *layer, aci@, blocks@) {
                Ok(next) => r is Ok && final(self).holds(next),
                Err(e) => r == Err::<(), LoadError>(e),
            },
    {
        let e: &DxfEntity = &d.entities[i];
        let filled: bool = match &e.specific {
            EntityType::Solid(_) | EntityType::Text(_) | EntityType::MText(_) => true,
            _ => false,
        };
        let lw: i16 = if filled {
            WEIGHT_SOLID
        } else {
            e.common.lineweight_enum_value
        };
        let c: i16 = recover_color_enum(&e.common.color);
        let paint: PaintHandle = self.resolve_paint(e, layer, aci, lw, c, Ghost(st));
        let ghost painted = LoadState {
            paints: paint_for(st.paints, e.common, *layer, aci@, lw, c).0,
            ..st
        };
        match &e.specific {
            EntityType::Insert(insert) => {
                if !is_facing_viewer(&insert.extrusion_direction) {
                    return Ok(());
                }
                if let Some(chunks) = blocks.get(&insert.name) {
                    self.push_chunks(e, i, insert, layer, aci, chunks, eh, lh, Ghost(painted));
                }
                Ok(())
            },
            EntityType::MText(mt) => {
                if !is_facing_viewer(&mt.extrusion_direction) {
                    return Ok(());
                }
                let attachment_point: TextAttachment = dxf_attachment_point_to_tabulon(
                    mt.attachment_point,
                );
                let alignment: Alignment = alignment_for(attachment_point);
                let text: FatText = FatText {
                    transform: TransformHandle::default(),
                    paint,
                    text: translate_mtext(&mt.text, &mt.extended_text),
                    style: mtext_style(&d.styles, mt),
                    alignment,
                    insertion: TextInsertion {
                        rotation_angle: mt.rotation_angle,
                        x_axis: Some(point_from_dxf_point(&mt.x_axis_direction)),
                        location: point_from_dxf_point(&mt.insertion_point),
                    },
                    max_inline_size: max_inline_size(mt, alignment),
                    attachment_point,
                };
                self.push_item(GraphicsItem::FatText(text), eh, lh, Ghost(painted));
                Ok(())
            },
            EntityType::Text(t) => {
                if !is_facing_viewer(&t.normal) {
                    return Ok(());
                }
                let text: FatText = FatText {
                    transform: TransformHandle::default(),
                    paint,
                    text: translate_text(t.value.as_str()),
                    style: text_style(&d.styles, t),
                    alignment: Alignment::Start,
                    insertion: TextInsertion {
                        rotation_angle: t.rotation,
                        x_axis: None,
                        location: point_from_dxf_point(&t.location),
                    },
                    max_inline_size: None,
                    attachment_point: TextAttachment::default(),
                };
                self.push_item(GraphicsItem::FatText(text), eh, lh, Ghost(painted));
                Ok(())
            },
            _ => {
                if !is_traceable(e) {
                    return Err(LoadError::UntraceableSpline);
                }
                if path_from_entity(e).is_some() {
                    let mut path: Vec<PathPart> = Vec::new();
                    path.push(
                        PathPart {
                            source: EntityRef { block: None, entity: i },
                            placements: Vec::new(),
                        },
                    );
                    proof {
                        assert(path@[0]@.placements =~= Seq::empty());
                        assert(part_views(path@) =~= seq![path@[0]@]);
                    }
                    let item: GraphicsItem = GraphicsItem::FatShape(
                        FatShape { path, transform: TransformHandle::default(), paint },
                    );
                    self.push_item(item, eh, lh, Ghost(painted));
                }
                Ok(())
            },
        }
    }
}

/// Tabulon data for the drawing.
#[derive(Debug)]
pub struct TDDrawing {
    /// `GraphicsBag` containing drawn items.
    pub graphics: GraphicsBag,
    /// Mapping from graphics items, by index, to entity handles.
    pub item_entity_map: BTreeMap<usize, EntityHandle>,
    /// Layers for entities, by the number of their handle.
    pub entity_layer_map: BTreeMap<u64, LayerHandle>,
    /// Render layer in drawing order.
    pub render_layer: RenderLayer,
    /// Enabled layers, by the number of their handle.
    pub enabled_layers: BTreeSet<u64>,
    /// Layer names, by the number of the layer's handle.
    pub layer_names: BTreeMap<u64, String>,
    /// Drawing information object.
    pub info: DrawingInfo,
    /// Paints that need stroke widths computed relative to view.
    ///
    /// See [`RestrokePaint`].
    pub restroke_paints: Vec<RestrokePaint>,
}

/// Whether `enabled` holds the handles of the layers that are on.
pub open spec fn enables(enabled: Set<u64>, layers: Seq<Layer>) -> bool {
    forall|h: u64| #[trigger]
        enabled.contains(h) <==> exists|i: int|
            0 <= i < layers.len() && (#[trigger] layers[i]).is_layer_on && layers[i].handle == h
}

/// Whether `names` leads from the handle of each layer to its name. Of several layers
/// with one handle, the last counts.
pub open spec fn names_layers(names: Map<u64, String>, layers: Seq<Layer>) -> bool {
    forall|h: u64|
        #![trigger names.contains_key(h)]
        match last_layer_with(layers, h, layers.len() as int) {
            Some(i) => names.contains_key(h) && names[h]@ == layers[i].name@,
            None => !names.contains_key(h),
        }
}

impl TDDrawing {
    /// Whether this is what drawing `d` loads to, given where its entities lead.
    pub open spec fn is_load_of(&self, d: DxfDrawing, st: LoadState) -> bool {
        &&& self.graphics@ == (BagView {
            items: st.items,
            paints: st.paints.paints,
            transforms: seq![identity_transform()],
        })
        &&& self.render_layer.indices@ == item_handles(st.items.len())
        &&& st.owners.len() == st.items.len()
        &&& maps_items(self.item_entity_map@, st.owners)
        &&& maps_entities(self.entity_layer_map@, st.entity_layers)
        &&& enables(self.enabled_layers@, d.layers@)
        &&& names_layers(self.layer_names@, d.layers@)
        &&& self.info.drawing_spec() == d
        &&& exists|keys: Seq<u128>| #[trigger]
            lists_strokes(self.restroke_paints@, st.paints.strokes, keys)
    }
}

fn is_layer_shown(layers: &Vec<Layer>, name: &String) -> (r: bool)
    ensures
        r == shows_layer(layers@, name@),
{
    proof {
        reveal_strlit("");
        assert(name@.len() == 0 ==> name@ =~= ""@);
    }
    if *name == "".to_owned() {
        return true;
    }
    let mut i: usize = 0;
    while i < layers.len()
        invariant
            i <= layers@.len(),
            name@.len() != 0,
            forall|j: int|
                0 <= j < i ==> !((#[trigger] layers@[j]).is_layer_on && layers@[j].name@ == name@),
        decreases layers@.len() - i,
    {
        if layers[i].is_layer_on && layers[i].name == *name {
            return true;
        }
        i = i + 1;
    }
    false
}

fn all_layers_have_handles(layers: &Vec<Layer>) -> (r: bool)
    ensures
        r == layers_have_handles(layers@),
{
    let mut i: usize = 0;
    while i < layers.len()
        invariant
            i <= layers@.len(),
            forall|j: int| 0 <= j < i ==> (#[trigger] layers@[j]).handle != 0,
        decreases layers@.len() - i,
    {
        if layers[i].handle == 0 {
            return false;
        }
        i = i + 1;
    }
    true
}

fn collect_enabled(layers: &Vec<Layer>) -> (enabled: BTreeSet<u64>)
    ensures
        enables(enabled@, layers@),
{
    let mut enabled: BTreeSet<u64> = BTreeSet::new();
    let mut i: usize = 0;
    while i < layers.len()
        invariant
            i <= layers@.len(),
            forall|h: u64| #[trigger]
                enabled@.contains(h) <==> exists|j: int|
                    0 <= j < i && (#[trigger] layers@[j]).is_layer_on && layers@[j].handle == h,
        decreases layers@.len() - i,
    {
        let ghost before = enabled@;
        if layers[i].is_layer_on {
            enabled.insert(layers[i].handle);
        }
        assert forall|h: u64| #[trigger] enabled@.contains(h) <==> exists|j: int|
            0 <= j < i + 1 && (#[trigger] layers@[j]).is_layer_on && layers@[j].handle == h by {
            if enabled@.contains(h) {
                if before.contains(h) {
                    let j = choose|j: int|
                        0 <= j < i && (#[trigger] layers@[j]).is_layer_on && layers@[j].handle
                            == h;
                    assert(layers@[j].is_layer_on && layers@[j].handle == h);
                } else {
                    assert(layers@[i as int].is_layer_on && layers@[i as int].handle == h);
                }
            }
        }
        i = i + 1;
    }
    enabled
}

fn collect_names(layers: &Vec<Layer>) -> (names: BTreeMap<u64, String>)
    ensures
        names_layers(names@, layers@),
{
    let mut names: BTreeMap<u64, String> = BTreeMap::new();
    let mut i: usize = 0;
    while i < layers.len()
        invariant
            i <= layers@.len(),
            forall|h: u64|
                #![trigger names@.contains_key(h)]
                match last_layer_with(layers@, h, i as int) {
                    Some(j) => names@.contains_key(h) && names@[h]@ == layers@[j].name@,
                    None => !names@.contains_key(h),
                },
        decreases layers@.len() - i,
    {
        let ghost before = names@;
        names.insert(layers[i].handle, layers[i].name.clone());
        assert forall|h: u64|
            #![trigger names@.contains_key(h)]
            match last_layer_with(layers@, h, i + 1) {
                Some(j) => names@.contains_key(h) && names@[h]@ == layers@[j].name@,
                None => !names@.contains_key(h),
            } by {
            assert(before.contains_key(h) || !before.contains_key(h));
        }
        i = i + 1;
    }
    names
}

/// Load the contents of a DXF file into a [`TDDrawing`].
///
/// * `aci` is the color index palette.
pub fn load_default_layers(drawing: DxfDrawing, aci: &[u32; 256]) -> (r: Result<
    TDDrawing,
    LoadError,
>)
    ensures
        match loaded(drawing, aci@) {
            Ok(st) => r is Ok && r->Ok_0.is_load_of(drawing, st),
            Err(e) => r == Err::<TDDrawing, LoadError>(e),
        },
{
    if !all_layers_have_handles(&drawing.layers) {
        return Err(LoadError::NullLayerHandle);
    }
    let enabled_layers: BTreeSet<u64> = collect_enabled(&drawing.layers);
    let layer_names: BTreeMap<u64, String> = collect_names(&drawing.layers);
    let blocks: BlockTable = match resolve_blocks(&drawing) {
        Ok(blocks) => blocks,
        Err(e) => {
            return Err(e);
        },
    };
    let mut loader: Loader = Loader::new();
    let ghost mut st = load_start();
    let mut i: usize = 0;
    while i < drawing.entities.len()
        invariant
            i <= drawing.entities@.len(),
            blocks.wf(),
            layers_have_handles(drawing.layers@),
            resolved_blocks(drawing) == Ok::<_, LoadError>(blocks@),
            load_walk(drawing, aci@, blocks@, i as int) == Ok::<_, LoadError>(st),
            loader.holds(st),
        decreases drawing.entities@.len() - i,
    {
        let e: &DxfEntity = &drawing.entities[i];
        if e.common.is_visible && is_layer_shown(&drawing.layers, &e.common.layer) {
            let eh: EntityHandle = match EntityHandle::new(e.common.handle) {
                Some(eh) => eh,
                None => {
                    proof {
                        lemma_walk_stays_failed(
                            drawing,
                            aci@,
                            blocks@,
                            i + 1,
                            drawing.entities@.len() as int,
                        );
                    }
                    return Err(LoadError::NullEntityHandle);
                },
            };
            let l: usize = match find_layer(&drawing.layers, &e.common.layer) {
                Some(l) => l,
                None => {
                    proof {
                        lemma_walk_stays_failed(
                            drawing,
                            aci@,
                            blocks@,
                            i + 1,
                            drawing.entities@.len() as int,
                        );
                    }
                    return Err(LoadError::UnknownLayer);
                },
            };
            let layer: &Layer = &drawing.layers[l];
            if let Some(lh) = LayerHandle::new(layer.handle) {
                match loader.draw_entity(&drawing, i, layer, aci, &blocks, eh, lh, Ghost(st)) {
                    Ok(()) => {},
                    Err(error) => {
                        proof {
                            lemma_walk_stays_failed(
                                drawing,
                                aci@,
                                blocks@,
                                i + 1,
                                drawing.entities@.len() as int,
                            );
                        }
                        return Err(error);
                    },
                }
            }
        }
        proof {
            st = load_walk(drawing, aci@, blocks@, i + 1)->Ok_0;
        }
        i = i + 1;
    }
    let restroke_paints: Vec<RestrokePaint> = loader.paints.restroke_paints();
    let ghost keys = choose|keys: Seq<u128>|
        lists_strokes(restroke_paints@, loader.paints.strokes_spec(), keys);
    proof {
        loader.paints.lemma_state(loader.graphics@, loader.graphics@);
        assert(loader.paints.strokes_spec() == st.paints.strokes);
        assert(lists_strokes(restroke_paints@, st.paints.strokes, keys));
    }
    let td: TDDrawing = TDDrawing {
        graphics: loader.graphics,
        item_entity_map: loader.item_entity_map,
        entity_layer_map: loader.entity_layer_map,
        render_layer: loader.render_layer,
        enabled_layers,
        layer_names,
        info: DrawingInfo::new(drawing),
        restroke_paints,
    };
    assert(loaded(drawing, aci@) == Ok::<_, LoadError>(st));
    assert(lists_strokes(td.restroke_paints@, st.paints.strokes, keys));
    assert(td.is_load_of(drawing, st));
    Ok(td)
}

/// Once loading has failed, it stays so.
proof fn lemma_walk_stays_failed(
    d: DxfDrawing,
    aci: Seq<u32>,
    blocks: Map<Seq<char>, Seq<ChunkView>>,
    n: int,
    m: int,
)
    requires
        0 <= n <= m,
        load_walk(d, aci, blocks, n) is Err,
    ensures
        load_walk(d, aci, blocks, m) == load_walk(d, aci, blocks, n),
    decreases m - n,
{
    if n < m {
        lemma_walk_stays_failed(d, aci, blocks, n, m - 1);
    }
}

} // verus!
