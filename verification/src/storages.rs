//! The data stores of one storage region.

use crate::component::{
    ArchetypeId, BundleId, BundleInfo, ComponentId, ComponentInfo, Components, StorageType,
};
use crate::prepared::{bundle_indices, bundle_set_contains, bundle_set_insert, bundle_set_new};
use crate::resource::Resources;
use crate::sparse_set::SparseSets;
use crate::table::Table;
use crate::two_mut::get_two_mut;
use bevy_platform_support::collections::HashSet;
use vstd::prelude::*;

verus! {

/// The tables of a storage region, in the order in which they were added.
pub struct Tables {
    pub tables: Vec<Table>,
}

impl Tables {
    pub open spec fn wf(&self) -> bool {
        forall|i: int| 0 <= i < self.tables@.len() ==> (#[trigger] self.tables@[i]).wf()
    }

    pub fn new() -> (tables: Tables)
        ensures
            tables.wf(),
            tables.tables@.len() == 0,
    {
        Tables { tables: Vec::new() }
    }

    pub fn len(&self) -> (n: usize)
        ensures
            n == self.tables@.len(),
    {
        self.tables.len()
    }

    /// Adds `table` and returns its position.
    pub fn insert(&mut self, table: Table) -> (at: usize)
        requires
            old(self).wf(),
            table.wf(),
        ensures
            final(self).wf(),
            at == old(self).tables@.len(),
            final(self).tables@ == old(self).tables@.push(table),
    {
        let at: usize = self.tables.len();
        self.tables.push(table);
        at
    }

    /// Moves row `row` of the table at `from` into a new last row of the
    /// table at `to`; see `Table::move_row_to`. No other table changes.
    pub fn move_row(&mut self, from: usize, to: usize, row: usize, fill: &Vec<Vec<u8>>) -> (moved:
        (usize, Option<crate::component::Entity>))
        requires
            old(self).wf(),
            from < old(self).tables@.len(),
            to < old(self).tables@.len(),
            from != to,
            row < old(self).tables@[from as int].entities().len(),
            old(self).tables@[from as int].fits_into(&old(self).tables@[to as int]),
            fill@.len() == old(self).tables@[to as int].kinds().len(),
            forall|d: int|
                0 <= d < fill@.len() ==> (#[trigger] fill@[d])@.len() == old(
                    self,
                ).tables@[to as int].column_layout(d).size,
        ensures
            final(self).wf(),
            final(self).tables@.len() == old(self).tables@.len(),
            forall|i: int|
                0 <= i < old(self).tables@.len() && i != from && i != to ==> final(self).tables@[i] == old(self).tables@[i],
            old(self).tables@[from as int].row_moved(
                &old(self).tables@[to as int],
                &final(self).tables@[from as int],
                &final(self).tables@[to as int],
                row as int,
                fill@,
                moved,
            ),
    {
        let (source, target) = get_two_mut(&mut self.tables, from, to);
        let moved = source.move_row_to(target, row, fill);
        moved
    }

    /// The table at position `at`, or `None` past the end.
    pub fn get(&self, at: usize) -> (table: Option<&Table>)
        ensures
            table.is_some() == (at < self.tables@.len()),
            table.is_some() ==> *table.unwrap() == self.tables@[at as int],
    {
        if at < self.tables.len() {
            Some(&self.tables[at])
        } else {
            None
        }
    }
}

/// The kinds that have a sparse set once a kind `id` stored as
/// `storage_type` is prepared: `id` joins them where it is sparse-stored
/// and new.
pub open spec fn kinds_after_component(
    kinds: Seq<ComponentId>,
    id: ComponentId,
    storage_type: StorageType,
) -> Seq<ComponentId> {
    if storage_type == StorageType::SparseSet && !kinds.contains(id) {
        kinds.push(id)
    } else {
        kinds
    }
}

/// The kinds that have a sparse set once the kinds `ids` are prepared, one
/// after the other.
pub open spec fn kinds_after_bundle(
    kinds: Seq<ComponentId>,
    infos: Seq<ComponentInfo>,
    ids: Seq<ComponentId>,
) -> Seq<ComponentId>
    decreases ids.len(),
{
    if ids.len() == 0 {
        kinds
    } else {
        kinds_after_component(
            kinds_after_bundle(kinds, infos, ids.drop_last()),
            ids.last(),
            infos[ids.last().0 as int].storage_type,
        )
    }
}

/// Every sparse-stored kind among `ids` has a sparse set.
pub open spec fn all_prepared(
    kinds: Seq<ComponentId>,
    infos: Seq<ComponentInfo>,
    ids: Seq<ComponentId>,
) -> bool {
    forall|i: int|
        0 <= i < ids.len() && infos[(#[trigger] ids[i]).0 as int].storage_type
            == StorageType::SparseSet ==> kinds.contains(ids[i])
}

/// Once a bundle is prepared, each of its sparse-stored kinds has a set.
pub proof fn lemma_bundle_prepared(
    kinds: Seq<ComponentId>,
    infos: Seq<ComponentInfo>,
    ids: Seq<ComponentId>,
)
    ensures
        all_prepared(kinds_after_bundle(kinds, infos, ids), infos, ids),
    decreases ids.len(),
{
    if ids.len() > 0 {
        let inner = kinds_after_bundle(kinds, infos, ids.drop_last());
        let outer = kinds_after_bundle(kinds, infos, ids);
        lemma_bundle_prepared(kinds, infos, ids.drop_last());
        assert(inner.is_prefix_of(outer));
        assert forall|i: int|
            0 <= i < ids.len() && infos[(#[trigger] ids[i]).0 as int].storage_type
                == StorageType::SparseSet implies outer.contains(ids[i]) by {
            if i < ids.len() - 1 {
                assert(ids.drop_last()[i] == ids[i]);
                assert(inner.contains(ids[i]));
                let at = choose|at: int| 0 <= at < inner.len() && inner[at] == ids[i];
                assert(outer[at] == ids[i]);
            } else {
                if !inner.contains(ids[i]) {
                    assert(outer[inner.len() as int] == ids[i]);
                } else {
                    assert(outer == inner);
                }
            }
        }
    }
}

/// Preparing a bundle whose sparse-stored kinds all have a set adds none.
pub proof fn lemma_prepared_is_fixed(
    kinds: Seq<ComponentId>,
    infos: Seq<ComponentInfo>,
    ids: Seq<ComponentId>,
)
    requires
        all_prepared(kinds, infos, ids),
    ensures
        kinds_after_bundle(kinds, infos, ids) == kinds,
    decreases ids.len(),
{
    if ids.len() > 0 {
        assert forall|i: int|
            0 <= i < ids.drop_last().len() && infos[(#[trigger] ids.drop_last()[i]).0 as int].storage_type
                == StorageType::SparseSet implies kinds.contains(ids.drop_last()[i]) by {
            assert(ids.drop_last()[i] == ids[i]);
        }
        lemma_prepared_is_fixed(kinds, infos, ids.drop_last());
        assert(ids.last() == ids[ids.len() - 1]);
    }
}

/// Preparing a bundle twice gives the sparse sets that preparing it once
/// gives.
pub proof fn lemma_prepare_bundle_idempotent(
    kinds: Seq<ComponentId>,
    infos: Seq<ComponentInfo>,
    ids: Seq<ComponentId>,
)
    ensures
        kinds_after_bundle(kinds_after_bundle(kinds, infos, ids), infos, ids)
            == kinds_after_bundle(kinds, infos, ids),
{
    lemma_bundle_prepared(kinds, infos, ids);
    lemma_prepared_is_fixed(kinds_after_bundle(kinds, infos, ids), infos, ids);
}

/// The data stores of one storage region.
pub struct Storages {
    /// The sparse sets, one per sparse-stored kind that has been prepared.
    pub sparse_sets: SparseSets,
    /// The tables.
    pub tables: Tables,
    /// The resources that any context may reach.
    pub resources: Resources<true>,
    /// The resources that only one context may reach.
    pub non_send_resources: Resources<false>,
    /// The archetype of entities without components.
    pub empty: ArchetypeId,
    /// The bundles whose storage is known to be prepared, by index.
    pub prepared: HashSet<usize>,
}

impl Storages {
    pub open spec fn wf(&self) -> bool {
        &&& self.sparse_sets.wf()
        &&& self.tables.wf()
    }

    /// The bundles recorded as prepared.
    pub open spec fn prepared_bundles(&self) -> Set<usize> {
        bundle_indices(self.prepared)
    }

    /// Everything but the sparse sets is as in `before`.
    pub open spec fn same_but_sparse_sets(&self, before: &Storages) -> bool {
        &&& self.tables == before.tables
        &&& self.resources == before.resources
        &&& self.non_send_resources == before.non_send_resources
        &&& self.empty == before.empty
        &&& self.prepared == before.prepared
    }

    /// Everything but the tables is as in `before`.
    pub open spec fn same_but_tables(&self, before: &Storages) -> bool {
        &&& self.sparse_sets == before.sparse_sets
        &&& self.resources == before.resources
        &&& self.non_send_resources == before.non_send_resources
        &&& self.empty == before.empty
        &&& self.prepared == before.prepared
    }

    /// The sparse sets are those of `before`, untouched, followed by empty
    /// sets for the kinds `kinds`, each with the layout and destructor that
    /// `infos` gives for its kind.
    pub open spec fn sparse_sets_extend(&self, before: &Storages, infos: Seq<ComponentInfo>) -> bool {
        &&& before.sparse_sets.kinds().is_prefix_of(self.sparse_sets.kinds())
        &&& forall|i: int|
            0 <= i < before.sparse_sets.kinds().len() ==> self.sparse_sets.set_at(i)
                == before.sparse_sets.set_at(i)
        &&& forall|i: int|
            before.sparse_sets.kinds().len() <= i < self.sparse_sets.kinds().len() ==> {
                let info = infos[self.sparse_sets.kinds()[i].0 as int];
                &&& (#[trigger] self.sparse_sets.set_at(i))@ == Map::<u32, Seq<u8>>::empty()
                &&& self.sparse_sets.set_at(i).layout() == info.layout
                &&& self.sparse_sets.set_at(i).has_destructor() == info.needs_drop
                &&& self.sparse_sets.set_at(i).destructed() == Seq::<Seq<u8>>::empty()
            }
    }

    /// Empty stores, with `empty` as the archetype of entities without
    /// components.
    pub fn new(empty: ArchetypeId) -> (storages: Storages)
        ensures
            storages.wf(),
            storages.empty == empty,
            storages.sparse_sets.kinds() == Seq::<ComponentId>::empty(),
            storages.tables.tables@.len() == 0,
            storages.resources@ == Map::<ComponentId, Seq<u8>>::empty(),
            storages.non_send_resources@ == Map::<ComponentId, Seq<u8>>::empty(),
            storages.prepared_bundles() == Set::<usize>::empty(),
    {
        Storages {
            sparse_sets: SparseSets::new(),
            tables: Tables::new(),
            resources: Resources::new(),
            non_send_resources: Resources::new(),
            empty,
            prepared: bundle_set_new(),
        }
    }

    /// The archetype of entities without components.
    pub fn empty(&self) -> (id: ArchetypeId)
        ensures
            id == self.empty,
    {
        self.empty
    }

    /// Makes sure that the kind of `component` has the storage it needs: a
    /// sparse set where it is sparse-stored, nothing where it is
    /// table-stored.
    pub fn prepare_component(&mut self, component: &ComponentInfo)
        requires
            old(self).wf(),
        ensures
            final(self).wf(),
            final(self).same_but_sparse_sets(old(self)),
            final(self).sparse_sets.kinds() == kinds_after_component(
                old(self).sparse_sets.kinds(),
                component.id,
                component.storage_type,
            ),
            final(self).sparse_sets.kinds() == old(self).sparse_sets.kinds() ==> *final(self)
                == *old(self),
            forall|i: int|
                0 <= i < old(self).sparse_sets.kinds().len() ==> final(self).sparse_sets.set_at(i)
                    == old(self).sparse_sets.set_at(i),
            forall|i: int|
                old(self).sparse_sets.kinds().len() <= i < final(self).sparse_sets.kinds().len()
                    ==> {
                    &&& (#[trigger] final(self).sparse_sets.set_at(i))@ == Map::<
                        u32,
                        Seq<u8>,
                    >::empty()
                    &&& final(self).sparse_sets.set_at(i).layout() == component.layout
                    &&& final(self).sparse_sets.set_at(i).has_destructor() == component.needs_drop
                    &&& final(self).sparse_sets.set_at(i).destructed() == Seq::<Seq<u8>>::empty()
                },
    {
        match component.storage_type() {
            StorageType::Table => {},
            StorageType::SparseSet => {
                self.sparse_sets.get_or_insert(component);
            },
        }
    }

    /// Makes sure that every kind that `bundle` contributes has the storage
    /// it needs. The kinds must be registered in `components`.
    pub fn prepare_bundle(&mut self, components: &Components, bundle: &BundleInfo)
        requires
            old(self).wf(),
            components.wf(),
            forall|i: int|
                0 <= i < bundle.component_ids@.len() ==> components.contains(
                    #[trigger] bundle.component_ids@[i],
                ),
        ensures
            final(self).wf(),
            final(self).same_but_sparse_sets(old(self)),
            final(self).sparse_sets.kinds() == kinds_after_bundle(
                old(self).sparse_sets.kinds(),
                components.infos@,
                bundle.component_ids@,
            ),
            final(self).sparse_sets_extend(old(self), components.infos@),
            final(self).sparse_sets.kinds() == old(self).sparse_sets.kinds() ==> *final(self)
                == *old(self),
    {
        let ids = bundle.contributed_components();
        let mut i: usize = 0;
        while i < ids.len()
            invariant
                i <= ids@.len(),
                ids@ == bundle.component_ids@,
                components.wf(),
                forall|k: int| 0 <= k < ids@.len() ==> components.contains(#[trigger] ids@[k]),
                self.wf(),
                self.same_but_sparse_sets(old(self)),
                self.sparse_sets.kinds() == kinds_after_bundle(
                    old(self).sparse_sets.kinds(),
                    components.infos@,
                    ids@.subrange(0, i as int),
                ),
                self.sparse_sets_extend(old(self), components.infos@),
                self.sparse_sets.kinds() == old(self).sparse_sets.kinds() ==> *self == *old(self),
            decreases ids@.len() - i,
        {
            let id: ComponentId = ids[i];
            let ghost before = self.sparse_sets.kinds();
            match components.get_info(id) {
                Some(info) => {
                    assert(info.id == id);
                    self.prepare_component(info);
                },
                None => {},
            }
            proof {
                assert(ids@.subrange(0, i + 1).drop_last() =~= ids@.subrange(0, i as int));
                assert(ids@.subrange(0, i + 1).last() == id);
                assert(old(self).sparse_sets.kinds().is_prefix_of(before));
            }
            i += 1;
        }
        proof {
            assert(ids@.subrange(0, i as int) =~= ids@);
        }
    }

    /// Whether `bundle` is recorded as prepared.
    pub fn is_prepared(&self, bundle: BundleId) -> (held: bool)
        ensures
            held == self.prepared_bundles().contains(bundle.0),
    {
        bundle_set_contains(&self.prepared, bundle.0)
    }

    /// Prepares `bundle` unless it is recorded as prepared, and records it.
    /// Returns whether the bundle was new to the record.
    pub fn prepare_bundle_once(&mut self, components: &Components, bundle: &BundleInfo) -> (fresh:
        bool)
        requires
            old(self).wf(),
            components.wf(),
            forall|i: int|
                0 <= i < bundle.component_ids@.len() ==> components.contains(
                    #[trigger] bundle.component_ids@[i],
                ),
        ensures
            final(self).wf(),
            fresh == !old(self).prepared_bundles().contains(bundle.id.0),
            !fresh ==> *final(self) == *old(self),
            fresh ==> {
                &&& final(self).prepared_bundles() == old(self).prepared_bundles().insert(
                    bundle.id.0,
                )
                &&& final(self).tables == old(self).tables
                &&& final(self).resources == old(self).resources
                &&& final(self).non_send_resources == old(self).non_send_resources
                &&& final(self).empty == old(self).empty
                &&& final(self).sparse_sets.kinds() == kinds_after_bundle(
                    old(self).sparse_sets.kinds(),
                    components.infos@,
                    bundle.component_ids@,
                )
                &&& final(self).sparse_sets_extend(old(self), components.infos@)
            },
    {
        if bundle_set_contains(&self.prepared, bundle.id.0) {
            return false;
        }
        self.prepare_bundle(components, bundle);
        bundle_set_insert(&mut self.prepared, bundle.id.0);
        true
    }
}

impl Default for Storages {
    /// Empty stores, with archetype 0 as the archetype of entities without
    /// components.
    fn default() -> (storages: Storages)
        ensures
            storages.wf(),
            storages.empty == ArchetypeId(0),
            storages.sparse_sets.kinds() == Seq::<ComponentId>::empty(),
            storages.tables.tables@.len() == 0,
            storages.resources@ == Map::<ComponentId, Seq<u8>>::empty(),
            storages.non_send_resources@ == Map::<ComponentId, Seq<u8>>::empty(),
            storages.prepared_bundles() == Set::<usize>::empty(),
    {
        Storages::new(ArchetypeId::main_empty())
    }
}

} // verus!
