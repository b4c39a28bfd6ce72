//! Sub-worlds: named groups of archetypes within a world.

use crate::component::ArchetypeId;
use vstd::prelude::*;

verus! {

/// The sub-worlds of a world, in the order in which they were added.
pub struct SubWorlds {
    pub sub_worlds: Vec<SubWorldInfo>,
}

/// Index of a sub-world.
pub struct SubWorldId(pub u32);

/// One sub-world: its index and its archetypes.
pub struct SubWorldInfo {
    pub id: SubWorldId,
    pub archetypes: Vec<ArchetypeId>,
}

/// Marks a type as the key of a sub-world.
pub trait SubWorld: Send + Sync + 'static {

}

/// The key of the main sub-world.
pub struct MainSubWorld;

impl SubWorld for MainSubWorld {

}

impl SubWorlds {
    /// No sub-worlds.
    pub fn new() -> (worlds: SubWorlds)
        ensures
            worlds.sub_worlds@ == Seq::<SubWorldInfo>::empty(),
    {
        SubWorlds { sub_worlds: Vec::new() }
    }
}

impl Default for SubWorlds {
    fn default() -> (worlds: SubWorlds)
        ensures
            worlds.sub_worlds@ == Seq::<SubWorldInfo>::empty(),
    {
        SubWorlds::new()
    }
}

} // verus!
