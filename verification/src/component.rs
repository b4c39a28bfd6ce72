//! Identities and metadata that the storage layer consumes.

use vstd::prelude::*;

verus! {

/// An entity identity: an index and a generation, both assigned elsewhere.
#[derive(Clone, Copy, Debug, PartialEq, Eq, Structural)]
pub struct Entity {
    pub index: u32,
    pub generation: u32,
}

/// Handle of a registered component kind.
#[derive(Clone, Copy, Debug, PartialEq, Eq, Structural)]
pub struct ComponentId(pub usize);

/// Handle of a registered bundle.
#[derive(Clone, Copy, Debug, PartialEq, Eq, Structural)]
pub struct BundleId(pub usize);

/// Handle of an archetype, owned by the archetype graph.
#[derive(Clone, Copy, Debug, PartialEq, Eq, Structural)]
pub struct ArchetypeId(pub u32);

impl ArchetypeId {
    /// The archetype of entities without components in the main region.
    pub fn main_empty() -> (id: ArchetypeId)
        ensures
            id == ArchetypeId(0),
    {
        ArchetypeId(0)
    }
}

/// Where the values of a component kind live.
#[derive(Clone, Copy, Debug, PartialEq, Eq, Structural)]
pub enum StorageType {
    Table,
    SparseSet,
}

/// Size and alignment of one element, in bytes.
#[derive(Clone, Copy, Debug, PartialEq, Eq, Structural)]
pub struct Layout {
    pub size: usize,
    pub align: usize,
}

/// Metadata of one component kind.
#[derive(Clone, Copy, Debug, PartialEq, Eq, Structural)]
pub struct ComponentInfo {
    pub id: ComponentId,
    pub layout: Layout,
    pub needs_drop: bool,
    pub storage_type: StorageType,
}

impl ComponentInfo {
    pub fn storage_type(&self) -> (t: StorageType)
        ensures
            t == self.storage_type,
    {
        self.storage_type
    }

    pub fn id(&self) -> (id: ComponentId)
        ensures
            id == self.id,
    {
        self.id
    }
}

/// The registry of component kinds, indexed by `ComponentId`.
pub struct Components {
    pub infos: Vec<ComponentInfo>,
}

impl Components {
    /// Every kind is stored at the index that its id names.
    pub open spec fn wf(&self) -> bool {
        forall|i: int| 0 <= i < self.infos@.len() ==> (#[trigger] self.infos@[i]).id.0 == i
    }

    pub open spec fn contains(&self, id: ComponentId) -> bool {
        id.0 < self.infos@.len()
    }

    pub fn new() -> (c: Components)
        ensures
            c.wf(),
            c.infos@.len() == 0,
    {
        Components { infos: Vec::new() }
    }

    /// Registers a kind with the next free id.
    pub fn register(&mut self, layout: Layout, needs_drop: bool, storage_type: StorageType) -> (id:
        ComponentId)
        requires
            old(self).wf(),
        ensures
            final(self).wf(),
            id.0 == old(self).infos@.len(),
            final(self).infos@ == old(self).infos@.push(
                (ComponentInfo { id, layout, needs_drop, storage_type }),
            ),
    {
        let id = ComponentId(self.infos.len());
        self.infos.push(ComponentInfo { id, layout, needs_drop, storage_type });
        id
    }

    /// The metadata of `id`, or `None` where no such kind is registered.
    pub fn get_info(&self, id: ComponentId) -> (info: Option<&ComponentInfo>)
        ensures
            info.is_some() == self.contains(id),
            self.contains(id) ==> *info.unwrap() == self.infos@[id.0 as int],
    {
        if id.0 < self.infos.len() {
            Some(&self.infos[id.0])
        } else {
            None
        }
    }
}

/// A registered bundle: the component kinds that it contributes, in order.
pub struct BundleInfo {
    pub id: BundleId,
    pub component_ids: Vec<ComponentId>,
}

impl BundleInfo {
    pub fn id(&self) -> (id: BundleId)
        ensures
            id == self.id,
    {
        self.id
    }

    pub fn contributed_components(&self) -> (ids: &Vec<ComponentId>)
        ensures
            ids@ == self.component_ids@,
    {
        &self.component_ids
    }
}

} // verus!
