//! Partitions of the storage space, each with its own data stores.

use crate::component::ArchetypeId;
use crate::registry::{registry_entries, registry_get, registry_insert, registry_new};
use crate::component::Entity;
use crate::storages::Storages;
use crate::table::Table;
use crate::two_mut::get_two_mut;
use bevy_utils::TypeIdMap;
use core::any::TypeId;
use vstd::prelude::*;

verus! {

/// Index of a partition. Indices are never reused.
#[derive(Clone, Copy, Debug, Hash, PartialEq, Eq, Structural)]
pub struct SubStorageId(pub u32);

impl SubStorageId {
    /// The index of the main partition.
    pub open spec fn spec_main() -> SubStorageId {
        SubStorageId(0)
    }

    /// An index that no partition ever has.
    pub open spec fn spec_invalid() -> SubStorageId {
        SubStorageId(u32::MAX)
    }

    #[verifier::when_used_as_spec(spec_main)]
    pub fn main() -> (id: SubStorageId)
        ensures
            id == Self::spec_main(),
    {
        SubStorageId(0)
    }

    #[verifier::when_used_as_spec(spec_invalid)]
    pub fn invalid() -> (id: SubStorageId)
        ensures
            id == Self::spec_invalid(),
    {
        SubStorageId(u32::MAX)
    }

    pub fn as_usize(&self) -> (index: usize)
        ensures
            index == self.0,
    {
        self.0 as usize
    }
}

/// One partition: its index, its archetypes and its data stores.
pub struct SubStorageData {
    pub id: SubStorageId,
    pub archetypes: Vec<ArchetypeId>,
    pub storages: Storages,
}

impl SubStorageData {
    /// The tables of the partition.
    pub open spec fn tables(&self) -> Seq<Table> {
        self.storages.tables.tables@
    }

    /// This partition is as `before` but for its table at position `t`.
    pub open spec fn same_but_table(&self, before: &SubStorageData, t: int) -> bool {
        &&& self.id == before.id
        &&& self.archetypes == before.archetypes
        &&& self.storages.same_but_tables(&before.storages)
        &&& self.tables().len() == before.tables().len()
        &&& forall|i: int|
            0 <= i < before.tables().len() && i != t ==> self.tables()[i] == before.tables()[i]
    }
}

/// Marks a type as the key of a partition.
pub trait SubStorage: Send + Sync + 'static {

}

/// The key of the main partition.
pub struct MainStorage;

impl SubStorage for MainStorage {

}

/// `TypeId::of` of std, at a partition's key type. Nothing is claimed of
/// the key.
#[verifier::external_body]
fn storage_key<S: SubStorage>() -> (key: TypeId) {
    TypeId::of::<S>()
}

/// The partitions, in the order in which they were registered, and the
/// registry from a partition's key to its index.
pub struct SubStorages {
    pub sub_storages: Vec<SubStorageData>,
    pub indices: TypeIdMap<u32>,
    pub main_key: TypeId,
}

impl SubStorages {
    /// The index registered for each key.
    pub open spec fn registry(&self) -> Map<TypeId, u32> {
        registry_entries(self.indices)
    }

    /// Whether `id` names a partition.
    pub open spec fn is_valid(&self, id: SubStorageId) -> bool {
        id.0 < self.sub_storages@.len()
    }

    /// The main partition comes first and is registered under the main key;
    /// every partition stands at its own index; every key names a partition,
    /// and no two keys name the same one.
    pub open spec fn wf(&self) -> bool {
        &&& 1 <= self.sub_storages@.len() <= u32::MAX
        &&& forall|i: int|
            0 <= i < self.sub_storages@.len() ==> (#[trigger] self.sub_storages@[i]).id.0 == i
                && self.sub_storages@[i].storages.wf()
        &&& self.registry().contains_key(self.main_key)
        &&& self.registry()[self.main_key] == 0
        &&& forall|k: TypeId| #[trigger]
            self.registry().contains_key(k) ==> self.registry()[k] < self.sub_storages@.len()
        &&& forall|j: TypeId, k: TypeId|
            self.registry().contains_key(j) && self.registry().contains_key(k)
                && #[trigger] self.registry()[j] == #[trigger] self.registry()[k] ==> j == k
    }

    /// What a newly registered partition is: it stands at `id`, has no
    /// archetypes, and its stores are empty, with `empty` as the archetype
    /// of entities without components.
    pub open spec fn is_fresh(data: SubStorageData, id: SubStorageId, empty: ArchetypeId) -> bool {
        &&& data.id == id
        &&& data.archetypes@.len() == 0
        &&& data.storages.wf()
        &&& data.storages.empty == empty
        &&& data.storages.sparse_sets.kinds().len() == 0
        &&& data.storages.tables.tables@.len() == 0
        &&& data.storages.resources@.dom().is_empty()
        &&& data.storages.non_send_resources@.dom().is_empty()
        &&& data.storages.prepared_bundles().is_empty()
    }

    /// How registering `key` changes the partitions: nothing changes where
    /// `key` is registered; else a fresh partition is appended and `key`
    /// names it. `id` is the partition of `key` afterwards.
    pub open spec fn registered(
        &self,
        before: &SubStorages,
        key: TypeId,
        empty: ArchetypeId,
        id: SubStorageId,
    ) -> bool {
        if before.registry().contains_key(key) {
            &&& *self == *before
            &&& id.0 == before.registry()[key]
        } else {
            &&& id.0 == before.sub_storages@.len()
            &&& self.registry() == before.registry().insert(key, id.0)
            &&& self.main_key == before.main_key
            &&& self.sub_storages@.len() == before.sub_storages@.len() + 1
            &&& self.sub_storages@.drop_last() == before.sub_storages@
            &&& Self::is_fresh(self.sub_storages@.last(), id, empty)
        }
    }

    /// The main partition alone, registered under the main key.
    pub fn new() -> (subs: SubStorages)
        ensures
            subs.wf(),
            subs.sub_storages@.len() == 1,
            subs.registry() == Map::<TypeId, u32>::empty().insert(subs.main_key, 0u32),
            Self::is_fresh(subs.sub_storages@[0], SubStorageId::main(), ArchetypeId(0)),
    {
        let key = storage_key::<MainStorage>();
        let mut indices = registry_new();
        registry_insert(&mut indices, key, 0);
        let mut sub_storages: Vec<SubStorageData> = Vec::new();
        sub_storages.push(
            SubStorageData {
                id: SubStorageId(0),
                archetypes: Vec::new(),
                storages: Storages::new(ArchetypeId::main_empty()),
            },
        );
        SubStorages { sub_storages, indices, main_key: key }
    }

    pub fn len(&self) -> (n: usize)
        ensures
            n == self.sub_storages@.len(),
    {
        self.sub_storages.len()
    }

    /// The key under which the main partition is registered.
    pub fn main_key(&self) -> (key: TypeId)
        ensures
            key == self.main_key,
    {
        self.main_key
    }

    /// The partition registered under `key`, or `None` where there is none.
    pub fn lookup(&self, key: TypeId) -> (id: Option<SubStorageId>)
        ensures
            id == (if self.registry().contains_key(key) {
                Some(SubStorageId(self.registry()[key]))
            } else {
                None
            }),
    {
        match registry_get(&self.indices, key) {
            Some(index) => Some(SubStorageId(index)),
            None => None,
        }
    }

    /// The partition registered under `key`. Where there is none, a fresh
    /// one is appended and registered, with `empty` as the archetype of
    /// entities without components.
    pub fn lookup_or_register(&mut self, key: TypeId, empty: ArchetypeId) -> (id: SubStorageId)
        requires
            old(self).wf(),
            old(self).registry().contains_key(key) || old(self).sub_storages@.len() < u32::MAX,
        ensures
            final(self).wf(),
            final(self).is_valid(id),
            final(self).registry().contains_key(key),
            final(self).registry()[key] == id.0,
            final(self).registered(old(self), key, empty, id),
    {
        match registry_get(&self.indices, key) {
            Some(index) => SubStorageId(index),
            None => {
                let count: usize = self.sub_storages.len();
                let id = SubStorageId(count as u32);
                self.sub_storages.push(
                    SubStorageData { id, archetypes: Vec::new(), storages: Storages::new(empty) },
                );
                registry_insert(&mut self.indices, key, id.0);
                proof {
                    assert(self.sub_storages@.drop_last() =~= old(self).sub_storages@);
                }
                id
            },
        }
    }

    /// As `lookup_or_register`, but gives up where `key` is new and no index
    /// is left for its partition: then nothing changes and the result is
    /// `None`.
    pub fn try_lookup_or_register(&mut self, key: TypeId, empty: ArchetypeId) -> (id: Option<
        SubStorageId,
    >)
        requires
            old(self).wf(),
        ensures
            final(self).wf(),
            id.is_none() == (!old(self).registry().contains_key(key) && old(
                self,
            ).sub_storages@.len() == u32::MAX),
            id.is_none() ==> *final(self) == *old(self),
            id.is_some() ==> final(self).is_valid(id.unwrap()) && final(self).registered(
                old(self),
                key,
                empty,
                id.unwrap(),
            ),
    {
        match registry_get(&self.indices, key) {
            Some(index) => Some(SubStorageId(index)),
            None => {
                if self.sub_storages.len() < u32::MAX as usize {
                    Some(self.lookup_or_register(key, empty))
                } else {
                    None
                }
            },
        }
    }

    /// As `lookup_or_register`, with the key that belongs to the type `S`.
    pub fn lookup_or_register_for<S: SubStorage>(&mut self, empty: ArchetypeId) -> (id:
        SubStorageId)
        requires
            old(self).wf(),
            old(self).sub_storages@.len() < u32::MAX,
        ensures
            final(self).wf(),
            final(self).is_valid(id),
            exists|key: TypeId| #[trigger] final(self).registered(old(self), key, empty, id),
    {
        let key = storage_key::<S>();
        self.lookup_or_register(key, empty)
    }

    /// The partition `id`.
    pub fn index(&self, id: SubStorageId) -> (data: &SubStorageData)
        requires
            self.is_valid(id),
        ensures
            *data == self.sub_storages@[id.0 as int],
    {
        &self.sub_storages[id.as_usize()]
    }

    /// The partition `id`, for writing. No other partition changes, nor
    /// does the registry.
    pub fn index_mut(&mut self, id: SubStorageId) -> (data: &mut SubStorageData)
        requires
            old(self).is_valid(id),
        ensures
            *data == old(self).sub_storages@[id.0 as int],
            final(self).sub_storages@ == old(self).sub_storages@.update(id.0 as int, *final(data)),
            final(self).indices == old(self).indices,
            final(self).main_key == old(self).main_key,
    {
        &mut self.sub_storages[id.as_usize()]
    }

    /// Moves row `row` of table `from_table` of partition `from` into a new
    /// last row of table `to_table` of partition `to`; see
    /// `Table::move_row_to`. Nothing else changes in either partition, and
    /// no other partition changes.
    pub fn move_row_across(
        &mut self,
        from: SubStorageId,
        from_table: usize,
        to: SubStorageId,
        to_table: usize,
        row: usize,
        fill: &Vec<Vec<u8>>,
    ) -> (moved: (usize, Option<Entity>))
        requires
            old(self).wf(),
            old(self).is_valid(from),
            old(self).is_valid(to),
            from != to,
            from_table < old(self).sub_storages@[from.0 as int].tables().len(),
            to_table < old(self).sub_storages@[to.0 as int].tables().len(),
            row < old(self).sub_storages@[from.0 as int].tables()[from_table as int].entities().len(),
            old(self).sub_storages@[from.0 as int].tables()[from_table as int].fits_into(
                &old(self).sub_storages@[to.0 as int].tables()[to_table as int],
            ),
            fill@.len() == old(self).sub_storages@[to.0 as int].tables()[to_table as int].kinds().len(),
            forall|d: int|
                0 <= d < fill@.len() ==> (#[trigger] fill@[d])@.len() == old(
                    self,
                ).sub_storages@[to.0 as int].tables()[to_table as int].column_layout(d).size,
        ensures
            final(self).wf(),
            final(self).indices == old(self).indices,
            final(self).main_key == old(self).main_key,
            final(self).sub_storages@.len() == old(self).sub_storages@.len(),
            forall|i: int|
                0 <= i < old(self).sub_storages@.len() && i != from.0 && i != to.0 ==> final(self).sub_storages@[i] == old(self).sub_storages@[i],
            final(self).sub_storages@[from.0 as int].same_but_table(
                &old(self).sub_storages@[from.0 as int],
                from_table as int,
            ),
            final(self).sub_storages@[to.0 as int].same_but_table(
                &old(self).sub_storages@[to.0 as int],
                to_table as int,
            ),
            old(self).sub_storages@[from.0 as int].tables()[from_table as int].row_moved(
                &old(self).sub_storages@[to.0 as int].tables()[to_table as int],
                &final(self).sub_storages@[from.0 as int].tables()[from_table as int],
                &final(self).sub_storages@[to.0 as int].tables()[to_table as int],
                row as int,
                fill@,
                moved,
            ),
    {
        assert(old(self).sub_storages@[from.0 as int].storages.wf());
        assert(old(self).sub_storages@[to.0 as int].storages.wf());
        let (source, target) = get_two_mut(&mut self.sub_storages, from.as_usize(), to.as_usize());
        let moved = source.storages.tables.tables[from_table].move_row_to(
            &mut target.storages.tables.tables[to_table],
            row,
            fill,
        );
        moved
    }

    /// Two distinct partitions, both for writing at once. What is written
    /// through one reaches that partition alone: no other partition
    /// changes, nor does the registry.
    pub fn get_two_mut(&mut self, a: SubStorageId, b: SubStorageId) -> (pair: (
        &mut SubStorageData,
        &mut SubStorageData,
    ))
        requires
            old(self).is_valid(a),
            old(self).is_valid(b),
            a != b,
        ensures
            *pair.0 == old(self).sub_storages@[a.0 as int],
            *pair.1 == old(self).sub_storages@[b.0 as int],
            final(self).sub_storages@ == old(self).sub_storages@.update(
                a.0 as int,
                *final(pair.0),
            ).update(b.0 as int, *final(pair.1)),
            final(self).indices == old(self).indices,
            final(self).main_key == old(self).main_key,
    {
        get_two_mut(&mut self.sub_storages, a.as_usize(), b.as_usize())
    }
}

impl Default for SubStorages {
    /// The main partition alone, as `SubStorages::new` gives it.
    fn default() -> (subs: SubStorages)
        ensures
            subs.wf(),
            subs.sub_storages@.len() == 1,
            subs.registry() == Map::<TypeId, u32>::empty().insert(subs.main_key, 0u32),
            SubStorages::is_fresh(subs.sub_storages@[0], SubStorageId::main(), ArchetypeId(0)),
    {
        SubStorages::new()
    }
}

} // verus!
