//! Sparse storage of one component kind, indexed by entity.

use crate::blob_vec::TypeErasedBuffer;
use crate::component::{ComponentId, ComponentInfo, Entity, Layout};
use vstd::prelude::*;

verus! {

/// The values of one component kind, found through a sparse index from an
/// entity's index to a slot of a dense buffer. An entity is looked up by its
/// index alone; its generation is kept but not compared.
pub struct SparseSet {
    dense: TypeErasedBuffer,
    entities: Vec<Entity>,
    sparse: Vec<Option<usize>>,
}

impl View for SparseSet {
    type V = Map<u32, Seq<u8>>;

    /// The value held for each entity index that has one.
    closed spec fn view(&self) -> Map<u32, Seq<u8>> {
        Map::new(
            |k: u32| k < self.sparse@.len() && self.sparse@[k as int].is_some(),
            |k: u32| self.dense@[self.sparse@[k as int].unwrap() as int],
        )
    }
}

impl SparseSet {
    /// Every occupied sparse entry names a dense slot that belongs to that
    /// entity, and every dense slot is named by its entity's sparse entry.
    pub closed spec fn wf(&self) -> bool {
        &&& self.dense.wf()
        &&& self.dense@.len() == self.entities@.len()
        &&& forall|k: int|
            0 <= k < self.sparse@.len() && (#[trigger] self.sparse@[k]).is_some() ==> {
                &&& self.sparse@[k].unwrap() < self.entities@.len()
                &&& self.entities@[self.sparse@[k].unwrap() as int].index == k
            }
        &&& forall|d: int|
            0 <= d < self.entities@.len() ==> {
                &&& (#[trigger] self.entities@[d]).index < self.sparse@.len()
                &&& self.sparse@[self.entities@[d].index as int] == Some(d as usize)
            }
    }

    pub closed spec fn layout(&self) -> Layout {
        self.dense.layout()
    }

    pub closed spec fn has_destructor(&self) -> bool {
        self.dense.has_destructor()
    }

    /// The values dropped and not yet taken for destruction, oldest first.
    pub closed spec fn destructed(&self) -> Seq<Seq<u8>> {
        self.dense.destructed()
    }

    /// The entities that hold a value, in dense order.
    pub closed spec fn entities(&self) -> Seq<Entity> {
        self.entities@
    }

    /// The dense slot that holds the value of the entity with index `index`,
    /// where it has one.
    pub closed spec fn dense_index(&self, index: u32) -> int {
        self.sparse@[index as int].unwrap() as int
    }

    /// What the queue of dropped values becomes when the value held for
    /// entity index `index` is dropped.
    pub open spec fn log_after(&self, index: u32) -> Seq<Seq<u8>> {
        if self.has_destructor() {
            self.destructed().push(self@[index])
        } else {
            self.destructed()
        }
    }

    /// Length of the sparse index: one more than the largest entity index
    /// ever inserted, or zero.
    pub closed spec fn sparse_len(&self) -> nat {
        self.sparse@.len()
    }

    pub fn new(layout: Layout, needs_drop: bool) -> (set: SparseSet)
        ensures
            set.wf(),
            set@ == Map::<u32, Seq<u8>>::empty(),
            set.layout() == layout,
            set.has_destructor() == needs_drop,
            set.destructed() == Seq::<Seq<u8>>::empty(),
            set.entities() == Seq::<Entity>::empty(),
            set.sparse_len() == 0,
    {
        let set = SparseSet {
            dense: TypeErasedBuffer::new(layout, needs_drop),
            entities: Vec::new(),
            sparse: Vec::new(),
        };
        assert(set@ =~= Map::<u32, Seq<u8>>::empty());
        set
    }

    pub fn len(&self) -> (n: usize)
        requires
            self.wf(),
        ensures
            n == self.entities().len(),
    {
        self.entities.len()
    }

    pub fn contains(&self, entity: Entity) -> (present: bool)
        requires
            self.wf(),
        ensures
            present == self@.contains_key(entity.index),
    {
        let idx: usize = entity.index as usize;
        idx < self.sparse.len() && self.sparse[idx].is_some()
    }

    /// The value held for `entity`, or `None` where it has none.
    pub fn get(&self, entity: Entity) -> (bytes: Option<&[u8]>)
        requires
            self.wf(),
        ensures
            bytes.is_some() == self@.contains_key(entity.index),
            bytes.is_some() ==> bytes.unwrap()@ == self@[entity.index],
    {
        let idx: usize = entity.index as usize;
        if idx < self.sparse.len() {
            match self.sparse[idx] {
                Some(d) => self.dense.get(d),
                None => None,
            }
        } else {
            None
        }
    }

    /// The value held for `entity`, for writing, or `None` where it has
    /// none. What is written reaches that value alone. A slice keeps its
    /// length, and the change to the set is stated for writes that do.
    pub fn get_mut(&mut self, entity: Entity) -> (bytes: Option<&mut [u8]>)
        requires
            old(self).wf(),
        ensures
            bytes.is_some() == old(self)@.contains_key(entity.index),
            bytes.is_none() ==> *final(self) == *old(self),
            bytes.is_some() ==> {
                &&& bytes.unwrap()@ == old(self)@[entity.index]
                &&& final(bytes.unwrap())@.len() == bytes.unwrap()@.len() ==> final(self).wf()
                    && final(self)@ == old(self)@.insert(entity.index, final(bytes.unwrap())@)
                &&& final(self).layout() == old(self).layout()
                &&& final(self).has_destructor() == old(self).has_destructor()
                &&& final(self).destructed() == old(self).destructed()
                &&& final(self).entities() == old(self).entities()
                &&& final(self).sparse_len() == old(self).sparse_len()
            },
    {
        let idx: usize = entity.index as usize;
        if idx < self.sparse.len() {
            match self.sparse[idx] {
                Some(d) => self.dense.get_mut(d),
                None => None,
            }
        } else {
            None
        }
    }

    /// Hands over the values that were dropped since the last call, oldest
    /// first: the destructor is due once on each of them.
    pub fn take_destructed(&mut self) -> (gone: Vec<Vec<u8>>)
        requires
            old(self).wf(),
        ensures
            final(self).wf(),
            gone@.len() == old(self).destructed().len(),
            forall|i: int| 0 <= i < gone@.len() ==> (#[trigger] gone@[i])@ == old(self).destructed()[i],
            final(self).destructed() == Seq::<Seq<u8>>::empty(),
            final(self)@ == old(self)@,
            final(self).layout() == old(self).layout(),
            final(self).has_destructor() == old(self).has_destructor(),
            final(self).entities() == old(self).entities(),
            final(self).sparse_len() == old(self).sparse_len(),
    {
        let gone = self.dense.take_destructed();
        assert(self@ =~= old(self)@);
        gone
    }

    /// Stores `bytes` for `entity`. A value already held for it is
    /// destructed and overwritten. Returns whether there was one.
    pub fn insert(&mut self, entity: Entity, bytes: &[u8]) -> (existed: bool)
        requires
            old(self).wf(),
            bytes@.len() == old(self).layout().size,
        ensures
            final(self).wf(),
            existed == old(self)@.contains_key(entity.index),
            final(self)@ == old(self)@.insert(entity.index, bytes@),
            final(self).layout() == old(self).layout(),
            final(self).has_destructor() == old(self).has_destructor(),
            existed ==> final(self).destructed() == old(self).log_after(entity.index),
            !existed ==> final(self).destructed() == old(self).destructed(),
            existed ==> final(self).entities() == old(self).entities().update(
                old(self).dense_index(entity.index),
                entity,
            ),
            !existed ==> final(self).entities() == old(self).entities().push(entity),
            final(self).sparse_len() == (if entity.index < old(self).sparse_len() {
                old(self).sparse_len()
            } else {
                (entity.index + 1) as nat
            }),
    {
        let idx: usize = entity.index as usize;
        if idx < self.sparse.len() {
            if let Some(d) = self.sparse[idx] {
                self.dense.replace_and_drop(d, bytes);
                self.entities.set(d, entity);
                proof {
                    assert(self@ =~= old(self)@.insert(entity.index, bytes@));
                    assert(old(self).destructed() + seq![old(self)@[entity.index]] =~= old(
                        self,
                    ).destructed().push(old(self)@[entity.index]));
                }
                return true;
            }
        }
        while self.sparse.len() <= idx
            invariant
                self.sparse@.len() >= old(self).sparse@.len(),
                forall|k: int|
                    0 <= k < old(self).sparse@.len() ==> self.sparse@[k] == old(self).sparse@[k],
                forall|k: int|
                    old(self).sparse@.len() <= k < self.sparse@.len() ==> self.sparse@[k]
                        == None::<usize>,
                self.dense == old(self).dense,
                self.entities == old(self).entities,
                idx < old(self).sparse@.len() ==> self.sparse@.len() == old(self).sparse@.len(),
                idx >= old(self).sparse@.len() ==> self.sparse@.len() <= idx + 1,
            decreases idx + 1 - self.sparse@.len(),
        {
            self.sparse.push(None);
        }
        let d: usize = self.entities.len();
        self.entities.push(entity);
        let held: usize = self.entities.len();
        assert(d < held);
        self.dense.push(bytes);
        self.sparse.set(idx, Some(d));
        proof {
            assert(self@ =~= old(self)@.insert(entity.index, bytes@));
        }
        false
    }

    /// Removes the value held for `entity` and hands its bytes to the
    /// caller, undestructed, or returns `None` where it has none.
    pub fn remove(&mut self, entity: Entity) -> (removed: Option<Vec<u8>>)
        requires
            old(self).wf(),
        ensures
            final(self).wf(),
            removed.is_some() == old(self)@.contains_key(entity.index),
            removed.is_some() ==> removed.unwrap()@ == old(self)@[entity.index],
            final(self)@ == old(self)@.remove(entity.index),
            final(self).layout() == old(self).layout(),
            final(self).has_destructor() == old(self).has_destructor(),
            final(self).destructed() == old(self).destructed(),
            final(self).sparse_len() == old(self).sparse_len(),
            removed.is_some() ==> final(self).entities() == old(self).entities().update(
                old(self).dense_index(entity.index),
                old(self).entities().last(),
            ).drop_last(),
            removed.is_none() ==> final(self).entities() == old(self).entities(),
    {
        let idx: usize = entity.index as usize;
        if idx < self.sparse.len() {
            if let Some(d) = self.sparse[idx] {
                let bytes = self.dense.swap_remove(d);
                self.entities.swap_remove(d);
                self.sparse.set(idx, None);
                if d < self.entities.len() {
                    let moved: Entity = self.entities[d];
                    self.sparse.set(moved.index as usize, Some(d));
                }
                proof {
                    assert(self@ =~= old(self)@.remove(entity.index));
                }
                return Some(bytes);
            }
        }
        proof {
            assert(self@ =~= old(self)@.remove(entity.index));
        }
        None
    }
}

/// The sparse sets of a storage region, one per component kind that has one.
pub struct SparseSets {
    ids: Vec<ComponentId>,
    sets: Vec<SparseSet>,
}

impl SparseSets {
    /// One well-formed set per kind, and no kind twice.
    pub closed spec fn wf(&self) -> bool {
        &&& self.ids@.len() == self.sets@.len()
        &&& forall|i: int| 0 <= i < self.sets@.len() ==> (#[trigger] self.sets@[i]).wf()
        &&& forall|i: int, j: int|
            0 <= i < j < self.ids@.len() ==> self.ids@[i] != self.ids@[j]
    }

    /// The kinds that have a set, in the order in which they got one.
    pub closed spec fn kinds(&self) -> Seq<ComponentId> {
        self.ids@
    }

    /// The set at position `i` of `kinds`.
    pub closed spec fn set_at(&self, i: int) -> SparseSet {
        self.sets@[i]
    }

    pub open spec fn has(&self, id: ComponentId) -> bool {
        self.kinds().contains(id)
    }

    pub fn new() -> (sets: SparseSets)
        ensures
            sets.wf(),
            sets.kinds() == Seq::<ComponentId>::empty(),
    {
        SparseSets { ids: Vec::new(), sets: Vec::new() }
    }

    pub fn len(&self) -> (n: usize)
        ensures
            n == self.kinds().len(),
    {
        self.ids.len()
    }

    /// The position of `id` among the kinds, or `None` where it has no set.
    pub fn position(&self, id: ComponentId) -> (at: Option<usize>)
        ensures
            at.is_some() == self.has(id),
            at.is_some() ==> at.unwrap() < self.kinds().len() && self.kinds()[at.unwrap() as int]
                == id,
    {
        let mut i: usize = 0;
        while i < self.ids.len()
            invariant
                i <= self.ids@.len(),
                forall|k: int| 0 <= k < i ==> self.ids@[k] != id,
            decreases self.ids@.len() - i,
        {
            if self.ids[i].0 == id.0 {
                return Some(i);
            }
            i += 1;
        }
        None
    }

    /// The set of `id`, or `None` where it has none.
    pub fn get(&self, id: ComponentId) -> (set: Option<&SparseSet>)
        requires
            self.wf(),
        ensures
            set.is_some() == self.has(id),
            set.is_some() ==> exists|i: int|
                0 <= i < self.kinds().len() && self.kinds()[i] == id && *set.unwrap()
                    == #[trigger] self.set_at(i),
    {
        match self.position(id) {
            Some(i) => {
                assert(self.set_at(i as int) == self.sets@[i as int]);
                Some(&self.sets[i])
            },
            None => None,
        }
    }

    /// Makes sure that the kind of `info` has a set: an empty one is made
    /// where it has none, and nothing changes where it has one. Returns the
    /// position of the kind.
    pub fn get_or_insert(&mut self, info: &ComponentInfo) -> (at: usize)
        requires
            old(self).wf(),
        ensures
            final(self).wf(),
            at < final(self).kinds().len(),
            final(self).kinds()[at as int] == info.id,
            old(self).has(info.id) ==> *final(self) == *old(self),
            !old(self).has(info.id) ==> {
                &&& final(self).kinds() == old(self).kinds().push(info.id)
                &&& at == old(self).kinds().len()
                &&& forall|i: int|
                    0 <= i < old(self).kinds().len() ==> final(self).set_at(i) == old(self).set_at(
                        i,
                    )
                &&& final(self).set_at(at as int)@ == Map::<u32, Seq<u8>>::empty()
                &&& final(self).set_at(at as int).layout() == info.layout
                &&& final(self).set_at(at as int).has_destructor() == info.needs_drop
                &&& final(self).set_at(at as int).destructed() == Seq::<Seq<u8>>::empty()
            },
    {
        match self.position(info.id) {
            Some(i) => i,
            None => {
                let at: usize = self.ids.len();
                self.ids.push(info.id);
                self.sets.push(SparseSet::new(info.layout, info.needs_drop));
                at
            },
        }
    }

    /// Stores `bytes` for `entity` in the set at position `at`; see
    /// `SparseSet::insert`.
    pub fn insert_at(&mut self, at: usize, entity: Entity, bytes: &[u8]) -> (existed: bool)
        requires
            old(self).wf(),
            at < old(self).kinds().len(),
            bytes@.len() == old(self).set_at(at as int).layout().size,
        ensures
            final(self).wf(),
            final(self).kinds() == old(self).kinds(),
            existed == old(self).set_at(at as int)@.contains_key(entity.index),
            final(self).set_at(at as int)@ == old(self).set_at(at as int)@.insert(
                entity.index,
                bytes@,
            ),
            final(self).set_at(at as int).layout() == old(self).set_at(at as int).layout(),
            final(self).set_at(at as int).has_destructor() == old(self).set_at(
                at as int,
            ).has_destructor(),
            final(self).set_at(at as int).destructed() == (if existed {
                old(self).set_at(at as int).log_after(entity.index)
            } else {
                old(self).set_at(at as int).destructed()
            }),
            forall|i: int|
                0 <= i < old(self).kinds().len() && i != at ==> final(self).set_at(i) == old(
                    self,
                ).set_at(i),
    {
        let existed = self.sets[at].insert(entity, bytes);
        existed
    }

    /// Hands over the values that the set at position `at` dropped since
    /// the last call; see `SparseSet::take_destructed`.
    pub fn take_destructed_at(&mut self, at: usize) -> (gone: Vec<Vec<u8>>)
        requires
            old(self).wf(),
            at < old(self).kinds().len(),
        ensures
            final(self).wf(),
            final(self).kinds() == old(self).kinds(),
            gone@.len() == old(self).set_at(at as int).destructed().len(),
            forall|i: int|
                0 <= i < gone@.len() ==> (#[trigger] gone@[i])@ == old(self).set_at(
                    at as int,
                ).destructed()[i],
            final(self).set_at(at as int).destructed() == Seq::<Seq<u8>>::empty(),
            final(self).set_at(at as int)@ == old(self).set_at(at as int)@,
            final(self).set_at(at as int).layout() == old(self).set_at(at as int).layout(),
            forall|i: int|
                0 <= i < old(self).kinds().len() && i != at ==> final(self).set_at(i) == old(
                    self,
                ).set_at(i),
    {
        let gone = self.sets[at].take_destructed();
        gone
    }

    /// Removes the value of `entity` from the set at position `at`; see
    /// `SparseSet::remove`.
    pub fn remove_at(&mut self, at: usize, entity: Entity) -> (removed: Option<Vec<u8>>)
        requires
            old(self).wf(),
            at < old(self).kinds().len(),
        ensures
            final(self).wf(),
            final(self).kinds() == old(self).kinds(),
            removed.is_some() == old(self).set_at(at as int)@.contains_key(entity.index),
            removed.is_some() ==> removed.unwrap()@ == old(self).set_at(at as int)@[entity.index],
            final(self).set_at(at as int)@ == old(self).set_at(at as int)@.remove(entity.index),
            final(self).set_at(at as int).layout() == old(self).set_at(at as int).layout(),
            final(self).set_at(at as int).has_destructor() == old(self).set_at(
                at as int,
            ).has_destructor(),
            final(self).set_at(at as int).destructed() == old(self).set_at(at as int).destructed(),
            forall|i: int|
                0 <= i < old(self).kinds().len() && i != at ==> final(self).set_at(i) == old(
                    self,
                ).set_at(i),
    {
        let removed = self.sets[at].remove(entity);
        removed
    }
}

/// A value that was inserted for an entity is the value that the set holds
/// for it, and once the entity's value is removed the set holds none.
pub proof fn lemma_insert_then_get(before: Map<u32, Seq<u8>>, entity: Entity, bytes: Seq<u8>)
    ensures
        before.insert(entity.index, bytes).contains_key(entity.index),
        before.insert(entity.index, bytes)[entity.index] == bytes,
        !before.remove(entity.index).contains_key(entity.index),
        !before.insert(entity.index, bytes).remove(entity.index).contains_key(entity.index),
{
}

} // verus!
