//! Handles of entities and layers, and what a drawing knows of them.

use vstd::prelude::*;

use crate::dxf_file::{DxfDrawing, DxfEntity, EntityCommon};

verus! {

/// A valid handle for an entity present in the drawing. Its view is its number.
#[derive(Debug, Clone, Copy, PartialEq, Eq, PartialOrd, Ord)]
pub struct EntityHandle {
    value: u64,
}

impl View for EntityHandle {
    type V = u64;

    closed spec fn view(&self) -> u64 {
        self.value
    }
}

impl EntityHandle {
    #[verifier::type_invariant]
    spec fn is_valid(self) -> bool {
        self.value != 0
    }

    /// The handle with this number; zero is none.
    pub closed spec fn numbered(value: u64) -> EntityHandle {
        EntityHandle { value }
    }

    /// A handle is known by its number.
    pub proof fn law_handles_are_numbers(self, value: u64)
        ensures
            EntityHandle::numbered(value)@ == value,
            self@ == value <==> self == EntityHandle::numbered(value),
    {
    }

    /// The handle with this number; zero is none.
    pub fn new(value: u64) -> (h: Option<EntityHandle>)
        ensures
            h is Some <==> value != 0,
            h is Some ==> h->0 == EntityHandle::numbered(value) && h->0@ == value,
    {
        if value != 0 {
            Some(EntityHandle { value })
        } else {
            None
        }
    }

    /// The number of the handle.
    pub fn get(self) -> (value: u64)
        ensures
            value == self@,
            value != 0,
    {
        proof {
            use_type_invariant(&self);
        }
        self.value
    }
}

impl TryFrom<&EntityCommon> for EntityHandle {
    type Error = ();

    fn try_from(c: &EntityCommon) -> (r: Result<EntityHandle, ()>) {
        match EntityHandle::new(c.handle) {
            Some(h) => Ok(h),
            None => Err(()),
        }
    }
}

impl vstd::std_specs::convert::TryFromSpecImpl<&EntityCommon> for EntityHandle {
    open spec fn obeys_try_from_spec() -> bool {
        true
    }

    open spec fn try_from_spec(c: &EntityCommon) -> Result<EntityHandle, ()> {
        if c.handle != 0 {
            Ok(EntityHandle::numbered(c.handle))
        } else {
            Err(())
        }
    }
}

/// A valid handle for a layer present in the drawing. Its view is its number.
#[derive(Debug, Clone, Copy, PartialEq, Eq, PartialOrd, Ord)]
pub struct LayerHandle {
    value: u64,
}

impl View for LayerHandle {
    type V = u64;

    closed spec fn view(&self) -> u64 {
        self.value
    }
}

impl LayerHandle {
    #[verifier::type_invariant]
    spec fn is_valid(self) -> bool {
        self.value != 0
    }

    /// The handle with this number; zero is none.
    pub fn new(value: u64) -> (h: Option<LayerHandle>)
        ensures
            h is Some <==> value != 0,
            h is Some ==> h->0@ == value,
    {
        if value != 0 {
            Some(LayerHandle { value })
        } else {
            None
        }
    }

    /// The number of the handle.
    pub fn get(self) -> (value: u64)
        ensures
            value == self@,
            value != 0,
    {
        proof {
            use_type_invariant(&self);
        }
        self.value
    }
}

/// The first of the entities from `i` on with this handle.
pub open spec fn first_entity_with(entities: Seq<DxfEntity>, handle: u64, i: int) -> Option<int>
    decreases entities.len() - i,
{
    if i >= entities.len() {
        None
    } else if entities[i].common.handle == handle {
        Some(i)
    } else {
        first_entity_with(entities, handle, i + 1)
    }
}

/// Whether a handle leads to an entity: one has it, and nothing hides that.
pub open spec fn leads_to_entity(d: DxfDrawing, handle: u64) -> bool {
    &&& exists|i: int|
        0 <= i < d.entities@.len() && (#[trigger] d.entities@[i]).common.handle == handle
    &&& !d.other_handles@.contains(handle)
}

/// Provide information about a drawing after loading it.
#[derive(Debug)]
pub struct DrawingInfo {
    drawing: DxfDrawing,
}

impl DrawingInfo {
    /// The drawing.
    pub closed spec fn drawing_spec(&self) -> DxfDrawing {
        self.drawing
    }

    pub(crate) fn new(drawing: DxfDrawing) -> (info: DrawingInfo)
        ensures
            info.drawing_spec() == drawing,
    {
        DrawingInfo { drawing }
    }

    /// The drawing as it was read.
    pub fn drawing(&self) -> (d: &DxfDrawing)
        ensures
            *d == self.drawing_spec(),
    {
        &self.drawing
    }

    /// Whether [`DrawingInfo::get_entity`] knows an entity by this handle.
    pub fn has_entity(&self, eh: EntityHandle) -> (r: bool)
        ensures
            r == leads_to_entity(self.drawing_spec(), eh@),
    {
        let handle: u64 = eh.get();
        let mut k: usize = 0;
        while k < self.drawing.other_handles.len()
            invariant
                k <= self.drawing.other_handles@.len(),
                forall|j: int| 0 <= j < k ==> self.drawing.other_handles@[j] != handle,
                handle == eh@,
            decreases self.drawing.other_handles@.len() - k,
        {
            if self.drawing.other_handles[k] == handle {
                assert(self.drawing.other_handles@.contains(handle));
                return false;
            }
            k = k + 1;
        }
        let mut i: usize = 0;
        while i < self.drawing.entities.len()
            invariant
                i <= self.drawing.entities@.len(),
                handle == eh@,
                !self.drawing.other_handles@.contains(handle),
                forall|j: int|
                    0 <= j < i ==> (#[trigger] self.drawing.entities@[j]).common.handle != handle,
            decreases self.drawing.entities@.len() - i,
        {
            if self.drawing.entities[i].common.handle == handle {
                return true;
            }
            i = i + 1;
        }
        false
    }

    /// Get an entity in the drawing.
    pub fn get_entity(&self, eh: EntityHandle) -> (e: &DxfEntity)
        requires
            leads_to_entity(self.drawing_spec(), eh@),
        ensures
            ({
                let entities = self.drawing_spec().entities@;
                let first = first_entity_with(entities, eh@, 0);
                first is Some && *e == entities[first->0]
            }),
    {
        let handle: u64 = eh.get();
        let total: usize = self.drawing.entities.len();
        let mut i: usize = 0;
        while self.drawing.entities[i].common.handle != handle
            invariant
                i < total,
                total == self.drawing.entities@.len(),
                handle == eh@,
                first_entity_with(self.drawing.entities@, handle, 0) == first_entity_with(
                    self.drawing.entities@,
                    handle,
                    i as int,
                ),
                exists|j: int|
                    i <= j < self.drawing.entities@.len() && (
                    #[trigger] self.drawing.entities@[j]).common.handle == handle,
            decreases self.drawing.entities@.len() - i,
        {
            i = i + 1;
        }
        &self.drawing.entities[i]
    }
}

} // verus!
