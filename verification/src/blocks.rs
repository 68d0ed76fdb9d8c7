//! Blocks, resolved to chunks that can be inserted.
//!
//! A block is cut into chunks of equal line weight and color. Inserts within a block
//! bring in the chunks of other blocks, so blocks are resolved in passes, until
//! nothing that is left depends on resolved blocks alone.

use vstd::prelude::*;

use crate::color::{
    recover_color_enum, COLOR_BY_BLOCK, COLOR_BY_LAYER, WEIGHT_BY_BLOCK, WEIGHT_BY_LAYER,
    WEIGHT_SOLID,
};
#[allow(unused_imports)]
use crate::color::{color_enum, color_value, line_weight_value};
use crate::dxf_file::{DxfDrawing, DxfEntity, EntityType, Insert, Layer};
use crate::path::{is_facing_viewer, is_traceable, path_from_entity};
#[allow(unused_imports)]
use crate::path::{faces_viewer, outline, traceable};

verus! {

/// Why a drawing cannot be loaded.
#[derive(Debug, Clone, Copy, PartialEq, Eq, Structural)]
pub enum LoadError {
    /// A layer has no handle.
    NullLayerHandle,
    /// An entity that is drawn has no handle.
    NullEntityHandle,
    /// An entity names a layer that does not exist.
    UnknownLayer,
    /// A spline of degree zero has more than one distinct knot.
    UntraceableSpline,
}

/// Names an entity of a drawing.
#[derive(Debug, Clone, Copy, PartialEq, Eq, Structural)]
pub struct EntityRef {
    /// Index of the block that the entity belongs to, if it belongs to one.
    pub block: Option<usize>,
    /// Index of the entity in the block, or in the drawing itself.
    pub entity: usize,
}

/// The entity that a reference names, if there is one.
pub open spec fn entity_at(d: DxfDrawing, r: EntityRef) -> Option<DxfEntity> {
    match r.block {
        None => if r.entity < d.entities@.len() {
            Some(d.entities@[r.entity as int])
        } else {
            None
        },
        Some(b) => if b < d.blocks@.len() && r.entity < d.blocks@[b as int].entities@.len() {
            Some(d.blocks@[b as int].entities@[r.entity as int])
        } else {
            None
        },
    }
}

/// Look up the entity that a reference names.
pub fn find_entity(d: &DxfDrawing, r: EntityRef) -> (e: Option<&DxfEntity>)
    ensures
        match e {
            Some(found) => entity_at(*d, r) == Some(*found),
            None => entity_at(*d, r) is None,
        },
{
    let entities: &Vec<DxfEntity> = match r.block {
        None => &d.entities,
        Some(b) => {
            if b >= d.blocks.len() {
                return None;
            }
            &d.blocks[b].entities
        },
    };
    if r.entity < entities.len() {
        Some(&entities[r.entity])
    } else {
        None
    }
}

/// One cell of the array that an insert makes.
#[derive(Debug, Clone, Copy, PartialEq, Eq, Structural)]
pub struct Placement {
    /// The insert.
    pub insert: EntityRef,
    pub row: i16,
    pub column: i16,
}

/// The outline of an entity, put in its place by the inserts that bring it in.
#[derive(Debug)]
pub struct PathPart {
    /// The entity that the outline is of.
    pub source: EntityRef,
    /// The placements to apply, innermost first.
    pub placements: Vec<Placement>,
}

/// The model of a [`PathPart`].
#[verifier::ext_equal]
pub struct PartView {
    pub source: EntityRef,
    pub placements: Seq<Placement>,
}

impl View for PathPart {
    type V = PartView;

    open spec fn view(&self) -> PartView {
        PartView { source: self.source, placements: self.placements@ }
    }
}

/// The models of path parts.
pub open spec fn part_views(parts: Seq<PathPart>) -> Seq<PartView> {
    parts.map_values(|p: PathPart| p@)
}

/// Consecutive outlines of a block with one line weight and color.
#[derive(Debug)]
pub struct Chunk {
    pub line_weight: i16,
    pub color: i16,
    pub path: Vec<PathPart>,
}

/// The model of a [`Chunk`].
#[verifier::ext_equal]
pub struct ChunkView {
    pub line_weight: i16,
    pub color: i16,
    pub path: Seq<PartView>,
}

impl View for Chunk {
    type V = ChunkView;

    open spec fn view(&self) -> ChunkView {
        ChunkView {
            line_weight: self.line_weight,
            color: self.color,
            path: part_views(self.path@),
        }
    }
}

/// The models of chunks.
pub open spec fn chunk_views(chunks: Seq<Chunk>) -> Seq<ChunkView> {
    chunks.map_values(|c: Chunk| c@)
}

/// The last of the first `n` layers with this name.
pub open spec fn last_layer_named(layers: Seq<Layer>, name: Seq<char>, n: int) -> Option<int>
    decreases n,
{
    if n <= 0 {
        None
    } else if layers[n - 1].name@ == name {
        Some(n - 1)
    } else {
        last_layer_named(layers, name, n - 1)
    }
}

/// The last of the first `n` layers with this handle.
pub open spec fn last_layer_with(layers: Seq<Layer>, handle: u64, n: int) -> Option<int>
    decreases n,
{
    if n <= 0 {
        None
    } else if layers[n - 1].handle == handle {
        Some(n - 1)
    } else {
        last_layer_with(layers, handle, n - 1)
    }
}

/// The layer that a name stands for. A name stands for a handle, and a handle for a
/// layer; of several with one name or one handle, the last counts.
pub open spec fn layer_for(layers: Seq<Layer>, name: Seq<char>) -> Option<int> {
    match last_layer_named(layers, name, layers.len() as int) {
        Some(i) => last_layer_with(layers, layers[i].handle, layers.len() as int),
        None => None,
    }
}

/// A layer that a name stands for exists, and has the handle of one with the name.
pub proof fn lemma_layer_for(layers: Seq<Layer>, name: Seq<char>)
    ensures
        layer_for(layers, name) is Some ==> 0 <= layer_for(layers, name)->0 < layers.len(),
        layer_for(layers, name) is Some <==> exists|i: int|
            0 <= i < layers.len() && (#[trigger] layers[i]).name@ == name,
{
    lemma_last_layer_named(layers, name, layers.len() as int);
    match last_layer_named(layers, name, layers.len() as int) {
        Some(i) => {
            lemma_last_layer_with(layers, layers[i].handle, layers.len() as int);
        },
        None => {},
    }
}

pub(crate) proof fn lemma_last_layer_named(layers: Seq<Layer>, name: Seq<char>, n: int)
    requires
        0 <= n <= layers.len(),
    ensures
        match last_layer_named(layers, name, n) {
            Some(i) => 0 <= i < n && layers[i].name@ == name,
            None => forall|i: int| 0 <= i < n ==> (#[trigger] layers[i]).name@ != name,
        },
    decreases n,
{
    if n > 0 && layers[n - 1].name@ != name {
        lemma_last_layer_named(layers, name, n - 1);
    }
}

pub(crate) proof fn lemma_last_layer_with(layers: Seq<Layer>, handle: u64, n: int)
    requires
        0 <= n <= layers.len(),
    ensures
        match last_layer_with(layers, handle, n) {
            Some(i) => 0 <= i < n && layers[i].handle == handle,
            None => forall|i: int| 0 <= i < n ==> (#[trigger] layers[i]).handle != handle,
        },
    decreases n,
{
    if n > 0 && layers[n - 1].handle != handle {
        lemma_last_layer_with(layers, handle, n - 1);
    }
}

/// Find the layer that a name stands for.
pub fn find_layer(layers: &Vec<Layer>, name: &String) -> (found: Option<usize>)
    ensures
        match found {
            Some(i) => layer_for(layers@, name@) == Some(i as int) && i < layers@.len(),
            None => layer_for(layers@, name@) is None,
        },
{
    proof {
        lemma_layer_for(layers@, name@);
    }
    let mut i: usize = layers.len();
    while i > 0
        invariant
            i <= layers@.len(),
            layer_for(layers@, name@) is Some ==> 0 <= layer_for(layers@, name@)->0 < layers@.len(),
            last_layer_named(layers@, name@, layers@.len() as int) == last_layer_named(
                layers@,
                name@,
                i as int,
            ),
        decreases i,
    {
        if layers[i - 1].name == *name {
            let handle: u64 = layers[i - 1].handle;
            let mut j: usize = layers.len();
            while j > i
                invariant
                    1 <= i <= j <= layers@.len(),
                    handle == layers@[i - 1].handle,
                    layer_for(layers@, name@) == last_layer_with(
                        layers@,
                        handle,
                        layers@.len() as int,
                    ),
                    last_layer_with(layers@, handle, layers@.len() as int) == last_layer_with(
                        layers@,
                        handle,
                        j as int,
                    ),
                decreases j,
            {
                if layers[j - 1].handle == handle {
                    return Some(j - 1);
                }
                j = j - 1;
            }
            return Some(i - 1);
        }
        i = i - 1;
    }
    None
}

/// Line weight and color of a block's entity, as far as they are known before the
/// block is inserted: what is by layer is taken from the layer.
pub open spec fn resolved_style(layer: Layer, lw: i16, color: i16) -> (i16, i16) {
    (
        if lw != WEIGHT_BY_LAYER {
            lw
        } else if line_weight_value(layer.line_weight) < 0 {
            25
        } else {
            line_weight_value(layer.line_weight)
        },
        if color != COLOR_BY_LAYER {
            color
        } else if 1 <= color_value(layer.color) <= 255 {
            color_value(layer.color)
        } else {
            7
        },
    )
}

fn resolve_style(layer: &Layer, lw: i16, color: i16) -> (style: (i16, i16))
    ensures
        style == resolved_style(*layer, lw, color),
{
    let line_weight: i16 = if lw == WEIGHT_BY_LAYER {
        let of_layer: i16 = layer.line_weight.raw_value();
        if of_layer < 0 {
            25
        } else {
            of_layer
        }
    } else {
        lw
    };
    let resolved: i16 = if color == COLOR_BY_LAYER {
        if let Some(i) = layer.color.index() {
            i as i16
        } else {
            // White if the layer doesn't have a resolvable color.
            7
        }
    } else {
        color
    };
    (line_weight, resolved)
}

/// The line weight that an entity is drawn with; solids are filled instead.
pub open spec fn weight_in_block(e: DxfEntity) -> i16 {
    if e.specific is Solid {
        WEIGHT_SOLID
    } else {
        e.common.lineweight_enum_value
    }
}

/// A part that is brought in by one more insert.
pub open spec fn placed(p: PartView, placement: Placement) -> PartView {
    PartView { source: p.source, placements: p.placements.push(placement) }
}

/// A path that is brought in by one more insert.
pub open spec fn placed_path(path: Seq<PartView>, placement: Placement) -> Seq<PartView> {
    path.map_values(|p: PartView| placed(p, placement))
}

/// The first `columns` copies of a path in row `row` of an insert's array.
pub open spec fn arrayed_row(
    path: Seq<PartView>,
    insert: EntityRef,
    row: int,
    columns: int,
) -> Seq<PartView>
    decreases columns,
{
    if columns <= 0 {
        Seq::empty()
    } else {
        arrayed_row(path, insert, row, columns - 1) + placed_path(
            path,
            Placement { insert, row: row as i16, column: (columns - 1) as i16 },
        )
    }
}

/// The copies of a path in an insert's array, row by row.
pub open spec fn arrayed(path: Seq<PartView>, insert: EntityRef, rows: int, columns: int) -> Seq<
    PartView,
>
    decreases rows,
{
    if rows <= 0 {
        Seq::empty()
    } else {
        arrayed(path, insert, rows - 1, columns) + arrayed_row(path, insert, rows - 1, columns)
    }
}

fn copy_placements(placements: &Vec<Placement>) -> (out: Vec<Placement>)
    ensures
        out@ == placements@,
{
    let mut out: Vec<Placement> = Vec::new();
    let mut i: usize = 0;
    while i < placements.len()
        invariant
            i <= placements@.len(),
            out@ == placements@.take(i as int),
        decreases placements@.len() - i,
    {
        out.push(placements[i]);
        i = i + 1;
        assert(out@ =~= placements@.take(i as int));
    }
    assert(out@ =~= placements@);
    out
}

fn place_path(out: &mut Vec<PathPart>, path: &Vec<PathPart>, placement: Placement)
    ensures
        part_views(final(out)@) == part_views(old(out)@) + placed_path(
            part_views(path@),
            placement,
        ),
{
    let ghost before = part_views(out@);
    let ghost all = placed_path(part_views(path@), placement);
    assert(before + all.take(0) =~= before);
    let mut i: usize = 0;
    while i < path.len()
        invariant
            i <= path@.len(),
            all == placed_path(part_views(path@), placement),
            part_views(out@) == before + all.take(i as int),
        decreases path@.len() - i,
    {
        let mut placements: Vec<Placement> = copy_placements(&path[i].placements);
        placements.push(placement);
        let part: PathPart = PathPart { source: path[i].source, placements };
        assert(part@ == all[i as int]);
        let ghost sofar = out@;
        out.push(part);
        assert(part_views(out@) =~= part_views(sofar).push(part@));
        assert(all.take(i + 1) =~= all.take(i as int).push(all[i as int]));
        assert(part_views(out@) =~= before + all.take(i + 1));
        i = i + 1;
    }
    assert(all.take(path@.len() as int) =~= all);
}

/// Copy a path into every cell of an insert's array.
pub fn array_path(path: &Vec<PathPart>, insert: EntityRef, rows: i16, columns: i16) -> (out: Vec<
    PathPart,
>)
    ensures
        part_views(out@) == arrayed(part_views(path@), insert, rows as int, columns as int),
{
    let mut out: Vec<PathPart> = Vec::new();
    let ghost views = part_views(path@);
    assert(part_views(out@) =~= Seq::<PartView>::empty());
    let mut row: i16 = 0;
    while row < rows
        invariant
            0 <= row,
            row <= rows || row == 0,
            views == part_views(path@),
            part_views(out@) == arrayed(views, insert, row as int, columns as int),
        decreases rows - row,
    {
        let ghost before = part_views(out@);
        assert(before + arrayed_row(views, insert, row as int, 0) =~= before);
        let mut column: i16 = 0;
        while column < columns
            invariant
                0 <= row,
                0 <= column,
                column <= columns || column == 0,
                views == part_views(path@),
                part_views(out@) == before + arrayed_row(
                    views,
                    insert,
                    row as int,
                    column as int,
                ),
            decreases columns - column,
        {
            let placement: Placement = Placement { insert, row, column };
            place_path(&mut out, path, placement);
            column = column + 1;
            assert(part_views(out@) =~= before + arrayed_row(
                views,
                insert,
                row as int,
                column as int,
            ));
        }
        assert(columns <= 0 ==> arrayed_row(views, insert, row as int, columns as int)
            =~= arrayed_row(views, insert, row as int, 0));
        row = row + 1;
    }
    assert(rows <= 0 ==> arrayed(views, insert, rows as int, columns as int) =~= Seq::<
        PartView,
    >::empty());
    out
}

/// Where the walk over a block's entities stands.
#[verifier::ext_equal]
pub struct BlockState {
    /// The chunks that are finished.
    pub chunks: Seq<ChunkView>,
    /// The outlines that were gathered since.
    pub lines: Seq<PartView>,
    /// Whether any of these leaves a mark.
    pub marked: bool,
    /// Line weight and color of the chunk in the making.
    pub style: (i16, i16),
}

impl BlockState {
    /// The chunk in the making.
    pub open spec fn current(self) -> ChunkView {
        ChunkView { line_weight: self.style.0, color: self.style.1, path: self.lines }
    }

    /// The state after the chunk in the making was finished, for a chunk of `style`.
    pub open spec fn cut(self, style: (i16, i16)) -> BlockState {
        BlockState {
            chunks: self.chunks.push(self.current()),
            lines: Seq::empty(),
            marked: false,
            style,
        }
    }
}

/// A chunk that an insert brings in: what is by block is taken from the insert.
pub open spec fn placed_chunk(
    chunk: ChunkView,
    style: (i16, i16),
    at: EntityRef,
    insert: Insert,
) -> ChunkView {
    ChunkView {
        line_weight: if chunk.line_weight == WEIGHT_BY_BLOCK {
            style.0
        } else {
            chunk.line_weight
        },
        color: if chunk.color == COLOR_BY_BLOCK {
            style.1
        } else {
            chunk.color
        },
        path: arrayed(chunk.path, at, insert.row_count as int, insert.column_count as int),
    }
}

/// The chunks that an insert brings in.
pub open spec fn placed_chunks(
    chunks: Seq<ChunkView>,
    style: (i16, i16),
    at: EntityRef,
    insert: Insert,
) -> Seq<ChunkView> {
    chunks.map_values(|c: ChunkView| placed_chunk(c, style, at, insert))
}

/// The state after entity `i` of block `b`; `None` where the entity inserts a block
/// that is not resolved.
///
/// A change of style cuts off a chunk. An insert cuts off what left a mark so far and
/// adds the chunks of its block. Anything else adds its outline.
pub open spec fn block_step(
    d: DxfDrawing,
    b: int,
    resolved: Map<Seq<char>, Seq<ChunkView>>,
    st: BlockState,
    i: int,
) -> Result<Option<BlockState>, LoadError> {
    let e = d.blocks@[b].entities@[i];
    let at = EntityRef { block: Some(b as usize), entity: i as usize };
    match layer_for(d.layers@, e.common.layer@) {
        None => Err(LoadError::UnknownLayer),
        Some(l) => {
            let style = resolved_style(
                d.layers@[l],
                weight_in_block(e),
                color_enum(e.common.color),
            );
            let st1 = if style != st.style {
                st.cut(style)
            } else {
                st
            };
            match e.specific {
                EntityType::Insert(insert) => if !resolved.contains_key(insert.name@) {
                    Ok(None)
                } else if !faces_viewer(insert.extrusion_direction) {
                    Ok(Some(st1))
                } else {
                    let st2 = if st1.marked {
                        st1.cut(style)
                    } else {
                        st1
                    };
                    Ok(
                        Some(
                            BlockState {
                                chunks: st2.chunks + placed_chunks(
                                    resolved[insert.name@],
                                    style,
                                    at,
                                    insert,
                                ),
                                lines: Seq::empty(),
                                marked: false,
                                style,
                            },
                        ),
                    )
                },
                _ => if !traceable(e.specific) {
                    Err(LoadError::UntraceableSpline)
                } else {
                    match outline(e.specific) {
                        Some(path) => Ok(
                            Some(
                                BlockState {
                                    chunks: st1.chunks,
                                    lines: st1.lines.push(
                                        PartView { source: at, placements: Seq::empty() },
                                    ),
                                    marked: st1.marked || path.leaves_mark(e.arcs_vanish),
                                    style,
                                },
                            ),
                        ),
                        None => Ok(Some(st1)),
                    }
                },
            }
        },
    }
}

/// The state after the first `n` entities of block `b`, which is not empty.
pub open spec fn block_walk(
    d: DxfDrawing,
    b: int,
    resolved: Map<Seq<char>, Seq<ChunkView>>,
    n: int,
) -> Result<Option<BlockState>, LoadError>
    decreases n,
{
    if n <= 0 {
        let first = d.blocks@[b].entities@[0].common;
        match layer_for(d.layers@, first.layer@) {
            None => Err(LoadError::UnknownLayer),
            Some(l) => Ok(
                Some(
                    BlockState {
                        chunks: Seq::empty(),
                        lines: Seq::empty(),
                        marked: false,
                        style: resolved_style(
                            d.layers@[l],
                            first.lineweight_enum_value,
                            color_enum(first.color),
                        ),
                    },
                ),
            ),
        }
    } else {
        match block_walk(d, b, resolved, n - 1) {
            Ok(Some(st)) => block_step(d, b, resolved, st, n - 1),
            stopped => stopped,
        }
    }
}

/// The chunks of block `b`; `None` where it depends on a block that is not resolved.
pub open spec fn block_chunks(
    d: DxfDrawing,
    b: int,
    resolved: Map<Seq<char>, Seq<ChunkView>>,
) -> Result<Option<Seq<ChunkView>>, LoadError> {
    if d.blocks@[b].entities@.len() == 0 {
        Ok(Some(Seq::empty()))
    } else {
        match block_walk(d, b, resolved, d.blocks@[b].entities@.len() as int) {
            Ok(Some(st)) => Ok(
                Some(
                    if st.marked {
                        st.chunks.push(st.current())
                    } else {
                        st.chunks
                    },
                ),
            ),
            Ok(None) => Ok(None),
            Err(e) => Err(e),
        }
    }
}

/// Blocks by name, with their chunks.
#[derive(Debug)]
pub struct BlockTable {
    names: Vec<String>,
    chunks: Vec<Vec<Chunk>>,
}

impl View for BlockTable {
    type V = Map<Seq<char>, Seq<ChunkView>>;

    closed spec fn view(&self) -> Map<Seq<char>, Seq<ChunkView>> {
        Map::new(
            |name: Seq<char>| self.has(name),
            |name: Seq<char>| chunk_views(self.chunks@[self.index_of(name)]@),
        )
    }
}

impl BlockTable {
    closed spec fn has(&self, name: Seq<char>) -> bool {
        exists|i: int| 0 <= i < self.names@.len() && (#[trigger] self.names@[i])@ == name
    }

    closed spec fn index_of(&self, name: Seq<char>) -> int {
        choose|i: int| 0 <= i < self.names@.len() && (#[trigger] self.names@[i])@ == name
    }

    /// Every name occurs once, and has chunks.
    pub closed spec fn wf(&self) -> bool {
        &&& self.names@.len() == self.chunks@.len()
        &&& forall|i: int, j: int|
            0 <= i < j < self.names@.len() ==> (#[trigger] self.names@[i])@ != (
            #[trigger] self.names@[j])@
    }

    /// A table without blocks.
    pub fn new() -> (t: BlockTable)
        ensures
            t.wf(),
            t@ == Map::<Seq<char>, Seq<ChunkView>>::empty(),
    {
        let t: BlockTable = BlockTable { names: Vec::new(), chunks: Vec::new() };
        assert(t@ =~= Map::<Seq<char>, Seq<ChunkView>>::empty());
        t
    }

    fn position(&self, name: &String) -> (found: Option<usize>)
        requires
            self.wf(),
        ensures
            match found {
                Some(i) => i < self.names@.len() && self.names@[i as int]@ == name@ && self.has(
                    name@,
                ) && self.index_of(name@) == i,
                None => !self.has(name@),
            },
    {
        let mut i: usize = 0;
        while i < self.names.len()
            invariant
                self.wf(),
                i <= self.names@.len(),
                forall|j: int| 0 <= j < i ==> (#[trigger] self.names@[j])@ != name@,
            decreases self.names@.len() - i,
        {
            if self.names[i] == *name {
                proof {
                    let k = self.index_of(name@);
                    assert(self.names@[i as int]@ == name@);
                    assert(self.names@[k]@ == name@);
                }
                return Some(i);
            }
            i = i + 1;
        }
        None
    }

    /// Whether there is a block with this name.
    pub fn contains(&self, name: &String) -> (r: bool)
        requires
            self.wf(),
        ensures
            r == self@.contains_key(name@),
    {
        self.position(name).is_some()
    }

    /// The chunks of the block with this name, if there is one.
    pub fn get(&self, name: &String) -> (chunks: Option<&Vec<Chunk>>)
        requires
            self.wf(),
        ensures
            match chunks {
                Some(c) => self@.contains_key(name@) && chunk_views(c@) == self@[name@],
                None => !self@.contains_key(name@),
            },
    {
        match self.position(name) {
            Some(i) => Some(&self.chunks[i]),
            None => None,
        }
    }

    /// Set the chunks of the block with this name.
    pub fn insert(&mut self, name: &String, chunks: Vec<Chunk>)
        requires
            old(self).wf(),
        ensures
            final(self).wf(),
            final(self)@ == old(self)@.insert(name@, chunk_views(chunks@)),
    {
        let ghost before = *self;
        let ghost views = chunk_views(chunks@);
        match self.position(name) {
            Some(i) => {
                self.chunks.set(i, chunks);
                proof {
                    assert(self.names@ == before.names@);
                    assert forall|n: Seq<char>| self.has(n) == before.has(n) by {}
                    assert forall|n: Seq<char>| before.has(n) implies self.index_of(n)
                        == before.index_of(n) by {
                        let p = self.index_of(n);
                        let q = before.index_of(n);
                        assert(self.has(n));
                        assert(self.names@[p]@ == n && before.names@[q]@ == n);
                    }
                    assert forall|n: Seq<char>| before.has(n) && n != name@ implies self.index_of(n)
                        != i by {
                        assert(self.names@[self.index_of(n)]@ == n);
                    }
                    assert(self@ =~= before@.insert(name@, views));
                }
            },
            None => {
                self.names.push(name.clone());
                self.chunks.push(chunks);
                proof {
                    let last = before.names@.len() as int;
                    assert(self.names@[last]@ == name@);
                    assert forall|a: int, b: int| 0 <= a < b < self.names@.len() implies (
                    #[trigger] self.names@[a])@ != (#[trigger] self.names@[b])@ by {
                        assert(self.names@[a] == before.names@[a]);
                        if b < last {
                            assert(self.names@[b] == before.names@[b]);
                        }
                    }
                    assert forall|n: Seq<char>|
                        self.has(n) == (before.has(n) || n == name@) by {
                        if before.has(n) {
                            let q = before.index_of(n);
                            assert(self.names@[q]@ == n);
                        }
                        if self.has(n) && n != name@ {
                            let p = self.index_of(n);
                            assert(self.names@[p]@ == n);
                            assert(before.names@[p]@ == n);
                        }
                    }
                    assert forall|n: Seq<char>| before.has(n) implies self.index_of(n)
                        == before.index_of(n) by {
                        let p = self.index_of(n);
                        let q = before.index_of(n);
                        assert(self.has(n));
                        assert(before.names@[q]@ == n);
                        assert(self.names@[q]@ == n);
                        assert(self.names@[p]@ == n);
                    }
                    assert(self.has(name@));
                    assert(self.index_of(name@) == last) by {
                        let p = self.index_of(name@);
                        assert(self.names@[p]@ == name@);
                    }
                    assert(self@ =~= before@.insert(name@, views));
                }
            },
        }
    }
}

fn place_chunks(
    out: &mut Vec<Chunk>,
    chunks: &Vec<Chunk>,
    style: (i16, i16),
    at: EntityRef,
    insert: &Insert,
)
    ensures
        chunk_views(final(out)@) == chunk_views(old(out)@) + placed_chunks(
            chunk_views(chunks@),
            style,
            at,
            *insert,
        ),
{
    let ghost before = chunk_views(out@);
    let ghost all = placed_chunks(chunk_views(chunks@), style, at, *insert);
    assert(before + all.take(0) =~= before);
    let mut i: usize = 0;
    while i < chunks.len()
        invariant
            i <= chunks@.len(),
            all == placed_chunks(chunk_views(chunks@), style, at, *insert),
            chunk_views(out@) == before + all.take(i as int),
        decreases chunks@.len() - i,
    {
        let chunk: &Chunk = &chunks[i];
        let line_weight: i16 = if chunk.line_weight == WEIGHT_BY_BLOCK {
            style.0
        } else {
            chunk.line_weight
        };
        let color: i16 = if chunk.color == COLOR_BY_BLOCK {
            style.1
        } else {
            chunk.color
        };
        let path: Vec<PathPart> = array_path(
            &chunk.path,
            at,
            insert.row_count,
            insert.column_count,
        );
        let placed_one: Chunk = Chunk { line_weight, color, path };
        assert(placed_one@ == all[i as int]);
        let ghost sofar = out@;
        out.push(placed_one);
        assert(chunk_views(out@) =~= chunk_views(sofar).push(placed_one@));
        assert(all.take(i + 1) =~= all.take(i as int).push(all[i as int]));
        assert(chunk_views(out@) =~= before + all.take(i + 1));
        i = i + 1;
    }
    assert(all.take(chunks@.len() as int) =~= all);
}

/// Whether `r` is the outcome `s`.
pub open spec fn chunks_match(
    r: Result<Option<Vec<Chunk>>, LoadError>,
    s: Result<Option<Seq<ChunkView>>, LoadError>,
) -> bool {
    match (r, s) {
        (Ok(Some(chunks)), Ok(Some(views))) => chunk_views(chunks@) == views,
        (Ok(None), Ok(None)) => true,
        (Err(e), Err(f)) => e == f,
        _ => false,
    }
}

/// Once a walk has stopped, or failed, it stays so.
pub(crate) proof fn lemma_walk_stays_stopped(
    d: DxfDrawing,
    b: int,
    resolved: Map<Seq<char>, Seq<ChunkView>>,
    n: int,
    m: int,
)
    requires
        0 <= n <= m,
        !(block_walk(d, b, resolved, n) matches Ok(Some(_))),
    ensures
        block_walk(d, b, resolved, m) == block_walk(d, b, resolved, n),
    decreases m - n,
{
    if n < m {
        lemma_walk_stays_stopped(d, b, resolved, n, m - 1);
    }
}

/// Resolve block `b` to chunks, unless it depends on a block that is not resolved.
///
/// To retain drawing order, one line weight and color may occur in several chunks.
pub fn resolve_block(d: &DxfDrawing, b: usize, resolved: &BlockTable) -> (r: Result<
    Option<Vec<Chunk>>,
    LoadError,
>)
    requires
        b < d.blocks@.len(),
        resolved.wf(),
    ensures
        chunks_match(r, block_chunks(*d, b as int, resolved@)),
{
    let entities: &Vec<DxfEntity> = &d.blocks[b].entities;
    let mut chunks: Vec<Chunk> = Vec::new();
    assert(chunk_views(chunks@) =~= Seq::<ChunkView>::empty());
    if entities.len() == 0 {
        return Ok(Some(chunks));
    }
    let ghost total = entities@.len() as int;
    let first: &DxfEntity = &entities[0];
    let mut style: (i16, i16) = match find_layer(&d.layers, &first.common.layer) {
        Some(l) => resolve_style(
            &d.layers[l],
            first.common.lineweight_enum_value,
            recover_color_enum(&first.common.color),
        ),
        None => {
            proof {
                lemma_walk_stays_stopped(*d, b as int, resolved@, 0, total);
            }
            return Err(LoadError::UnknownLayer);
        },
    };
    let mut lines: Vec<PathPart> = Vec::new();
    let mut marked: bool = false;
    assert(part_views(lines@) =~= Seq::<PartView>::empty());
    let mut i: usize = 0;
    while i < entities.len()
        invariant
            b < d.blocks@.len(),
            resolved.wf(),
            *entities == d.blocks@[b as int].entities,
            total == entities@.len(),
            0 < total,
            i <= total,
            block_walk(*d, b as int, resolved@, i as int) == Ok::<Option<BlockState>, LoadError>(
                Some(
                    BlockState {
                        chunks: chunk_views(chunks@),
                        lines: part_views(lines@),
                        marked,
                        style,
                    },
                ),
            ),
        decreases total - i,
    {
        let ghost st = BlockState {
            chunks: chunk_views(chunks@),
            lines: part_views(lines@),
            marked,
            style,
        };
        let ghost next = block_walk(*d, b as int, resolved@, i + 1);
        assert(next == block_step(*d, b as int, resolved@, st, i as int));
        let e: &DxfEntity = &entities[i];
        let at: EntityRef = EntityRef { block: Some(b), entity: i };
        let layer: usize = match find_layer(&d.layers, &e.common.layer) {
            Some(l) => l,
            None => {
                proof {
                    lemma_walk_stays_stopped(*d, b as int, resolved@, i + 1, total);
                }
                return Err(LoadError::UnknownLayer);
            },
        };
        let lw: i16 = match e.specific {
            EntityType::Solid(_) => WEIGHT_SOLID,
            _ => e.common.lineweight_enum_value,
        };
        let new_style: (i16, i16) = resolve_style(
            &d.layers[layer],
            lw,
            recover_color_enum(&e.common.color),
        );
        if new_style.0 != style.0 || new_style.1 != style.1 {
            let ghost sofar = chunks@;
            let chunk: Chunk = Chunk { line_weight: style.0, color: style.1, path: lines };
            chunks.push(chunk);
            lines = Vec::new();
            marked = false;
            style = new_style;
            assert(chunk_views(chunks@) =~= chunk_views(sofar).push(chunk@));
            assert(part_views(lines@) =~= Seq::<PartView>::empty());
        }
        let ghost st1 = BlockState {
            chunks: chunk_views(chunks@),
            lines: part_views(lines@),
            marked,
            style,
        };
        assert(st1 == if new_style != st.style {
            st.cut(new_style)
        } else {
            st
        });
        match &e.specific {
            EntityType::Insert(insert) => {
                match resolved.get(&insert.name) {
                    None => {
                        proof {
                            lemma_walk_stays_stopped(*d, b as int, resolved@, i + 1, total);
                        }
                        return Ok(None);
                    },
                    Some(inserted) => {
                        if is_facing_viewer(&insert.extrusion_direction) {
                            if marked {
                                let ghost sofar = chunks@;
                                let chunk: Chunk = Chunk {
                                    line_weight: style.0,
                                    color: style.1,
                                    path: lines,
                                };
                                chunks.push(chunk);
                                assert(chunk_views(chunks@) =~= chunk_views(sofar).push(chunk@));
                            }
                            place_chunks(&mut chunks, inserted, style, at, insert);
                            lines = Vec::new();
                            marked = false;
                            assert(part_views(lines@) =~= Seq::<PartView>::empty());
                        }
                    },
                }
            },
            _ => {
                if !is_traceable(e) {
                    proof {
                        lemma_walk_stays_stopped(*d, b as int, resolved@, i + 1, total);
                    }
                    return Err(LoadError::UntraceableSpline);
                }
                match path_from_entity(e) {
                    Some(path) => {
                        let ghost sofar = lines@;
                        let part: PathPart = PathPart { source: at, placements: Vec::new() };
                        assert(part@ == PartView { source: at, placements: Seq::empty() });
                        lines.push(part);
                        if path.has_segments(e.arcs_vanish) {
                            marked = true;
                        }
                        assert(part_views(lines@) =~= part_views(sofar).push(part@));
                    },
                    None => {},
                }
            },
        }
        i = i + 1;
    }
    if marked {
        let ghost sofar = chunks@;
        let chunk: Chunk = Chunk { line_weight: style.0, color: style.1, path: lines };
        chunks.push(chunk);
        assert(chunk_views(chunks@) =~= chunk_views(sofar).push(chunk@));
    }
    Ok(Some(chunks))
}

/// Where a pass over blocks stands.
pub struct PassState {
    /// The blocks that are resolved, by name.
    pub resolved: Map<Seq<char>, Seq<ChunkView>>,
    /// Whether the pass resolved a block that is not empty.
    pub progress: bool,
}

/// The state after the first `n` of the blocks in `todo` were tried in turn.
pub open spec fn pass_walk(
    d: DxfDrawing,
    todo: Seq<usize>,
    resolved: Map<Seq<char>, Seq<ChunkView>>,
    n: int,
) -> Result<PassState, LoadError>
    decreases n,
{
    if n <= 0 {
        Ok(PassState { resolved, progress: false })
    } else {
        match pass_walk(d, todo, resolved, n - 1) {
            Err(e) => Err(e),
            Ok(st) => {
                let b = todo[n - 1] as int;
                match block_chunks(d, b, st.resolved) {
                    Err(e) => Err(e),
                    Ok(None) => Ok(st),
                    Ok(Some(chunks)) => Ok(
                        PassState {
                            resolved: st.resolved.insert(d.blocks@[b].name@, chunks),
                            progress: st.progress || d.blocks@[b].entities@.len() > 0,
                        },
                    ),
                }
            },
        }
    }
}

/// The blocks in `todo` whose names are not resolved, in order.
pub open spec fn still_open(
    d: DxfDrawing,
    todo: Seq<usize>,
    resolved: Map<Seq<char>, Seq<ChunkView>>,
) -> Seq<usize> {
    todo.filter(|b: usize| !resolved.contains_key(d.blocks@[b as int].name@))
}

/// The blocks that are resolved in the end, when those in `todo` are tried pass by
/// pass, until none is left or a pass resolves no block that has entities.
pub open spec fn passes(
    d: DxfDrawing,
    todo: Seq<usize>,
    resolved: Map<Seq<char>, Seq<ChunkView>>,
) -> Result<Map<Seq<char>, Seq<ChunkView>>, LoadError>
    decreases todo.len(),
{
    if todo.len() == 0 {
        Ok(resolved)
    } else {
        match pass_walk(d, todo, resolved, todo.len() as int) {
            Err(e) => Err(e),
            Ok(st) => {
                let rest = still_open(d, todo, st.resolved);
                if st.progress && rest.len() < todo.len() {
                    passes(d, rest, st.resolved)
                } else {
                    Ok(st.resolved)
                }
            },
        }
    }
}

/// The indices of all blocks, in order.
pub open spec fn all_blocks(d: DxfDrawing) -> Seq<usize> {
    Seq::new(d.blocks@.len(), |i: int| i as usize)
}

/// The blocks of a drawing that can be inserted, by name.
pub open spec fn resolved_blocks(d: DxfDrawing) -> Result<
    Map<Seq<char>, Seq<ChunkView>>,
    LoadError,
> {
    passes(d, all_blocks(d), Map::empty())
}

/// Once a pass has failed, it stays so.
pub(crate) proof fn lemma_pass_stays_failed(
    d: DxfDrawing,
    todo: Seq<usize>,
    resolved: Map<Seq<char>, Seq<ChunkView>>,
    n: int,
    m: int,
)
    requires
        0 <= n <= m,
        pass_walk(d, todo, resolved, n) is Err,
    ensures
        pass_walk(d, todo, resolved, m) == pass_walk(d, todo, resolved, n),
    decreases m - n,
{
    if n < m {
        lemma_pass_stays_failed(d, todo, resolved, n, m - 1);
    }
}

/// A pass keeps what was resolved, and what it resolves is named by one of its blocks.
pub(crate) proof fn lemma_pass_grows(
    d: DxfDrawing,
    todo: Seq<usize>,
    resolved: Map<Seq<char>, Seq<ChunkView>>,
    n: int,
)
    requires
        0 <= n <= todo.len(),
        pass_walk(d, todo, resolved, n) is Ok,
    ensures
        ({
            let st = pass_walk(d, todo, resolved, n)->Ok_0;
            &&& forall|name: Seq<char>|
                resolved.contains_key(name) ==> #[trigger] st.resolved.contains_key(name)
            &&& forall|name: Seq<char>| #[trigger]
                st.resolved.contains_key(name) ==> resolved.contains_key(name) || exists|j: int|
                    0 <= j < n && d.blocks@[#[trigger] todo[j] as int].name@ == name
            &&& st.progress ==> exists|j: int|
                0 <= j < n && st.resolved.contains_key(
                    d.blocks@[#[trigger] todo[j] as int].name@,
                )
        }),
    decreases n,
{
    if n > 0 {
        lemma_pass_grows(d, todo, resolved, n - 1);
        let before = pass_walk(d, todo, resolved, n - 1)->Ok_0;
        let st = pass_walk(d, todo, resolved, n)->Ok_0;
        let b = todo[n - 1] as int;
        assert forall|name: Seq<char>| #[trigger] st.resolved.contains_key(name) implies
            resolved.contains_key(name) || exists|j: int|
            0 <= j < n && d.blocks@[#[trigger] todo[j] as int].name@ == name by {
            if before.resolved.contains_key(name) {
                if !resolved.contains_key(name) {
                    let j = choose|j: int|
                        0 <= j < n - 1 && d.blocks@[#[trigger] todo[j] as int].name@ == name;
                    assert(0 <= j < n && d.blocks@[todo[j] as int].name@ == name);
                }
            } else {
                assert(d.blocks@[todo[n - 1] as int].name@ == name);
            }
        }
        if st.progress {
            if before.progress {
                let j = choose|j: int|
                    0 <= j < n - 1 && before.resolved.contains_key(
                        d.blocks@[#[trigger] todo[j] as int].name@,
                    );
                assert(st.resolved.contains_key(d.blocks@[todo[j] as int].name@));
            } else {
                assert(st.resolved.contains_key(d.blocks@[todo[n - 1] as int].name@));
            }
        }
    }
}

/// Filtering keeps no more than there is, and less where something is dropped.
pub(crate) proof fn lemma_filter_drops(s: Seq<usize>, keep: spec_fn(usize) -> bool)
    ensures
        s.filter(keep).len() <= s.len(),
        (exists|i: int| 0 <= i < s.len() && !keep(#[trigger] s[i])) ==> s.filter(keep).len()
            < s.len(),
    decreases s.len(),
{
    reveal(Seq::filter);
    if s.len() > 0 {
        let rest = s.drop_last();
        lemma_filter_drops(rest, keep);
        if exists|i: int| 0 <= i < s.len() && !keep(#[trigger] s[i]) {
            let i = choose|i: int| 0 <= i < s.len() && !keep(#[trigger] s[i]);
            if i < rest.len() {
                assert(!keep(rest[i]));
            }
        }
    }
}

/// What filtering leaves is what passes the filter.
pub(crate) proof fn lemma_filter_keeps(s: Seq<usize>, keep: spec_fn(usize) -> bool, b: usize)
    ensures
        s.filter(keep).contains(b) <==> s.contains(b) && keep(b),
    decreases s.len(),
{
    reveal(Seq::filter);
    if s.len() > 0 {
        let rest = s.drop_last();
        let kept = rest.filter(keep);
        lemma_filter_keeps(rest, keep, b);
        if s.contains(b) {
            let i = choose|i: int| 0 <= i < s.len() && s[i] == b;
            if i < rest.len() {
                assert(rest[i] == b);
            }
        }
        if rest.contains(b) {
            let i = choose|i: int| 0 <= i < rest.len() && rest[i] == b;
            assert(s[i] == b);
        }
        if keep(s.last()) {
            let all = kept.push(s.last());
            assert(s.filter(keep) == all);
            if kept.contains(b) {
                let i = choose|i: int| 0 <= i < kept.len() && kept[i] == b;
                assert(all[i] == b);
            }
            if b == s.last() {
                assert(all[kept.len() as int] == b);
                assert(s[s.len() - 1] == b);
            }
            if all.contains(b) {
                let i = choose|i: int| 0 <= i < all.len() && all[i] == b;
                if i < kept.len() {
                    assert(kept[i] == b);
                }
            }
        }
    }
}

/// A pass that resolved a block that is not empty leaves fewer blocks.
pub(crate) proof fn lemma_progress_shrinks(
    d: DxfDrawing,
    todo: Seq<usize>,
    resolved: Map<Seq<char>, Seq<ChunkView>>,
)
    requires
        pass_walk(d, todo, resolved, todo.len() as int) is Ok,
        pass_walk(d, todo, resolved, todo.len() as int)->Ok_0.progress,
    ensures
        still_open(
            d,
            todo,
            pass_walk(d, todo, resolved, todo.len() as int)->Ok_0.resolved,
        ).len() < todo.len(),
{
    lemma_pass_grows(d, todo, resolved, todo.len() as int);
    let st = pass_walk(d, todo, resolved, todo.len() as int)->Ok_0;
    let keep = |b: usize| !st.resolved.contains_key(d.blocks@[b as int].name@);
    lemma_filter_drops(todo, keep);
    let j = choose|j: int|
        0 <= j < todo.len() && st.resolved.contains_key(d.blocks@[#[trigger] todo[j] as int].name@);
    assert(!keep(todo[j]));
}

fn open_blocks(d: &DxfDrawing, todo: &Vec<usize>, resolved: &BlockTable) -> (rest: Vec<usize>)
    requires
        resolved.wf(),
        forall|i: int| 0 <= i < todo@.len() ==> (#[trigger] todo@[i]) < d.blocks@.len(),
    ensures
        rest@ == still_open(*d, todo@, resolved@),
{
    reveal(Seq::filter);
    let mut rest: Vec<usize> = Vec::new();
    assert(rest@ =~= still_open(*d, todo@.take(0), resolved@));
    let mut i: usize = 0;
    while i < todo.len()
        invariant
            resolved.wf(),
            forall|j: int| 0 <= j < todo@.len() ==> (#[trigger] todo@[j]) < d.blocks@.len(),
            i <= todo@.len(),
            rest@ == still_open(*d, todo@.take(i as int), resolved@),
        decreases todo@.len() - i,
    {
        let b: usize = todo[i];
        if !resolved.contains(&d.blocks[b].name) {
            rest.push(b);
        }
        proof {
            reveal(Seq::filter);
            assert(todo@.take(i + 1).drop_last() =~= todo@.take(i as int));
            assert(todo@.take(i + 1).last() == b);
        }
        i = i + 1;
    }
    assert(todo@.take(todo@.len() as int) =~= todo@);
    rest
}

/// Resolve the blocks of a drawing, pass by pass.
pub fn resolve_blocks(d: &DxfDrawing) -> (r: Result<BlockTable, LoadError>)
    ensures
        match (r, resolved_blocks(*d)) {
            (Ok(table), Ok(blocks)) => table.wf() && table@ == blocks,
            (Err(e), Err(f)) => e == f,
            _ => false,
        },
{
    let mut todo: Vec<usize> = Vec::new();
    let mut b: usize = 0;
    while b < d.blocks.len()
        invariant
            b <= d.blocks@.len(),
            todo@ == all_blocks(*d).take(b as int),
        decreases d.blocks@.len() - b,
    {
        todo.push(b);
        b = b + 1;
        assert(todo@ =~= all_blocks(*d).take(b as int));
    }
    assert(todo@ =~= all_blocks(*d));
    let mut resolved: BlockTable = BlockTable::new();
    while todo.len() > 0
        invariant
            resolved.wf(),
            forall|i: int| 0 <= i < todo@.len() ==> (#[trigger] todo@[i]) < d.blocks@.len(),
            passes(*d, todo@, resolved@) == resolved_blocks(*d),
        decreases todo@.len(),
    {
        let ghost start = resolved@;
        let ghost total = todo@.len() as int;
        let mut progress: bool = false;
        let mut n: usize = 0;
        while n < todo.len()
            invariant
                resolved.wf(),
                forall|i: int| 0 <= i < todo@.len() ==> (#[trigger] todo@[i]) < d.blocks@.len(),
                n <= todo@.len() == total,
                0 < total,
                passes(*d, todo@, start) == resolved_blocks(*d),
                pass_walk(*d, todo@, start, n as int) == Ok::<PassState, LoadError>(
                    PassState { resolved: resolved@, progress },
                ),
            decreases total - n,
        {
            let b: usize = todo[n];
            match resolve_block(d, b, &resolved) {
                Err(e) => {
                    proof {
                        assert(pass_walk(*d, todo@, start, n + 1) == Err::<PassState, LoadError>(e));
                        lemma_pass_stays_failed(*d, todo@, start, n + 1, total);
                    }
                    return Err(e);
                },
                Ok(None) => {},
                Ok(Some(chunks)) => {
                    resolved.insert(&d.blocks[b].name, chunks);
                    if d.blocks[b].entities.len() > 0 {
                        progress = true;
                    }
                },
            }
            n = n + 1;
        }
        if !progress {
            return Ok(resolved);
        }
        let rest: Vec<usize> = open_blocks(d, &todo, &resolved);
        proof {
            lemma_progress_shrinks(*d, todo@, start);
            assert forall|i: int| 0 <= i < rest@.len() implies (#[trigger] rest@[i])
                < d.blocks@.len() by {
                let keep = |b: usize| !resolved@.contains_key(d.blocks@[b as int].name@);
                assert(rest@ == todo@.filter(keep));
                assert(rest@.contains(rest@[i]));
                lemma_filter_keeps(todo@, keep, rest@[i]);
            }
        }
        todo = rest;
    }
    Ok(resolved)
}

} // verus!
