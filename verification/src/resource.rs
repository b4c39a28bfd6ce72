//! Singleton storage: at most one value per resource kind.

use crate::component::ComponentId;
use vstd::prelude::*;

verus! {

/// A pool of resources, keyed by resource kind. `SEND` tells whether the
/// values may be reached from any execution context; the pool itself checks
/// no context.
pub struct Resources<const SEND: bool> {
    slots: Vec<Option<Vec<u8>>>,
}

impl<const SEND: bool> View for Resources<SEND> {
    type V = Map<ComponentId, Seq<u8>>;

    /// The value held for each kind that has one.
    closed spec fn view(&self) -> Map<ComponentId, Seq<u8>> {
        Map::new(
            |id: ComponentId| id.0 < self.slots@.len() && self.slots@[id.0 as int].is_some(),
            |id: ComponentId| self.slots@[id.0 as int].unwrap()@,
        )
    }
}

impl<const SEND: bool> Resources<SEND> {
    pub fn new() -> (pool: Self)
        ensures
            pool@ == Map::<ComponentId, Seq<u8>>::empty(),
    {
        let pool = Resources { slots: Vec::new() };
        assert(pool@ =~= Map::<ComponentId, Seq<u8>>::empty());
        pool
    }

    /// Whether values of this pool may be reached from any context.
    pub fn is_send(&self) -> (b: bool)
        ensures
            b == SEND,
    {
        SEND
    }

    pub fn contains(&self, id: ComponentId) -> (present: bool)
        ensures
            present == self@.contains_key(id),
    {
        id.0 < self.slots.len() && self.slots[id.0].is_some()
    }

    /// The value of kind `id`, or `None` where the pool holds none.
    pub fn get(&self, id: ComponentId) -> (value: Option<&Vec<u8>>)
        ensures
            value.is_some() == self@.contains_key(id),
            value.is_some() ==> value.unwrap()@ == self@[id],
    {
        if id.0 < self.slots.len() {
            self.slots[id.0].as_ref()
        } else {
            None
        }
    }

    /// The value of kind `id`, for writing, or `None` where the pool holds
    /// none. What is written reaches that value alone.
    pub fn get_mut(&mut self, id: ComponentId) -> (value: Option<&mut Vec<u8>>)
        ensures
            value.is_some() == old(self)@.contains_key(id),
            value.is_none() ==> final(self)@ == old(self)@,
            value.is_some() ==> value.unwrap()@ == old(self)@[id],
            value.is_some() ==> final(self)@ == old(self)@.insert(id, final(value.unwrap())@),
    {
        if id.0 < self.slots.len() {
            self.slots[id.0].as_mut()
        } else {
            None
        }
    }

    /// Stores `value` as the value of kind `id` and returns the value that
    /// it replaces, if any.
    pub fn insert(&mut self, id: ComponentId, value: Vec<u8>) -> (previous: Option<Vec<u8>>)
        ensures
            final(self)@ == old(self)@.insert(id, value@),
            previous.is_some() == old(self)@.contains_key(id),
            previous.is_some() ==> previous.unwrap()@ == old(self)@[id],
    {
        while self.slots.len() <= id.0
            invariant
                self.slots@.len() >= old(self).slots@.len(),
                forall|k: int|
                    0 <= k < old(self).slots@.len() ==> self.slots@[k] == old(self).slots@[k],
                forall|k: int|
                    old(self).slots@.len() <= k < self.slots@.len() ==> self.slots@[k]
                        == None::<Vec<u8>>,
            decreases id.0 + 1 - self.slots@.len(),
        {
            self.slots.push(None);
        }
        let mut slot: Option<Vec<u8>> = Some(value);
        core::mem::swap(&mut self.slots[id.0], &mut slot);
        proof {
            assert(self@ =~= old(self)@.insert(id, value@));
        }
        slot
    }

    /// Takes the value of kind `id` out of the pool, or returns `None`
    /// where the pool holds none.
    pub fn remove(&mut self, id: ComponentId) -> (removed: Option<Vec<u8>>)
        ensures
            final(self)@ == old(self)@.remove(id),
            removed.is_some() == old(self)@.contains_key(id),
            removed.is_some() ==> removed.unwrap()@ == old(self)@[id],
    {
        if id.0 < self.slots.len() {
            let mut slot: Option<Vec<u8>> = None;
            core::mem::swap(&mut self.slots[id.0], &mut slot);
            proof {
                assert(self@ =~= old(self)@.remove(id));
            }
            slot
        } else {
            proof {
                assert(self@ =~= old(self)@.remove(id));
            }
            None
        }
    }
}

} // verus!
