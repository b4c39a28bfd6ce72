//! The set of bundles whose storage has been prepared, kept in a hash set
//! with a fixed hasher.

use bevy_platform_support::collections::HashSet;
use bevy_platform_support::hash::FixedHasher;
use vstd::prelude::*;

verus! {

/// `HashSet` of `bevy_platform_support`, carried as an opaque value.
#[verifier::external_type_specification]
#[verifier::external_body]
#[verifier::reject_recursive_types(T)]
#[verifier::reject_recursive_types(S)]
pub struct ExHashSet<T, S>(HashSet<T, S>);

/// `FixedHasher` of `bevy_platform_support`, the set's hasher.
#[verifier::external_type_specification]
#[verifier::external_body]
pub struct ExFixedHasher(FixedHasher);

/// The bundle indices that a set holds.
pub uninterp spec fn bundle_indices(set: HashSet<usize, FixedHasher>) -> Set<usize>;

/// `HashSet::new` of `bevy_platform_support`: a set that holds nothing.
#[verifier::external_body]
pub(crate) fn bundle_set_new() -> (set: HashSet<usize, FixedHasher>)
    ensures
        bundle_indices(set) == Set::<usize>::empty(),
{
    HashSet::new()
}

/// `HashSet::contains` of `bevy_platform_support`: whether the set holds
/// the index.
#[verifier::external_body]
pub(crate) fn bundle_set_contains(set: &HashSet<usize, FixedHasher>, index: usize) -> (held: bool)
    ensures
        held == bundle_indices(*set).contains(index),
{
    set.contains(&index)
}

/// `HashSet::insert` of `bevy_platform_support`: the set holds the index
/// afterwards, and what it held before; the result tells whether the index
/// is new to it.
#[verifier::external_body]
pub(crate) fn bundle_set_insert(set: &mut HashSet<usize, FixedHasher>, index: usize) -> (fresh: bool)
    ensures
        bundle_indices(*final(set)) == bundle_indices(*old(set)).insert(index),
        fresh == !bundle_indices(*old(set)).contains(index),
{
    set.insert(index)
}

} // verus!
