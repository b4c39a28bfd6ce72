//! The map from a partition's key to its index, kept in a `TypeIdMap`.

use bevy_platform_support::collections::HashMap;
use bevy_platform_support::hash::NoOpHash;
use bevy_utils::TypeIdMap;
use core::any::TypeId;
use vstd::prelude::*;

verus! {

/// `HashMap` of `bevy_platform_support`, carried as an opaque value.
#[verifier::external_type_specification]
#[verifier::external_body]
#[verifier::reject_recursive_types(K)]
#[verifier::reject_recursive_types(V)]
#[verifier::reject_recursive_types(S)]
pub struct ExHashMap<K, V, S>(HashMap<K, V, S>);

/// `NoOpHash` of `bevy_platform_support`, the hasher of a `TypeIdMap`.
#[verifier::external_type_specification]
#[verifier::external_body]
pub struct ExNoOpHash(NoOpHash);

/// `TypeId` of std, carried as an opaque value.
#[verifier::external_type_specification]
#[verifier::external_body]
pub struct ExTypeId(TypeId);

/// The index that a map holds for each key.
pub uninterp spec fn registry_entries(map: TypeIdMap<u32>) -> Map<TypeId, u32>;

/// `HashMap::default` of `bevy_platform_support`, at the hasher of
/// `bevy_utils::TypeIdMap`: a map that holds nothing.
#[verifier::external_body]
pub(crate) fn registry_new() -> (registry: TypeIdMap<u32>)
    ensures
        registry_entries(registry) == (Map::<TypeId, u32>::empty()),
{
    TypeIdMap::default()
}

/// `HashMap::get` of `bevy_platform_support`: the index held for the key,
/// if any.
#[verifier::external_body]
pub(crate) fn registry_get(map: &TypeIdMap<u32>, key: TypeId) -> (index: Option<u32>)
    ensures
        index == (if registry_entries(*map).contains_key(key) {
            Some(registry_entries(*map)[key])
        } else {
            None
        }),
{
    map.get(&key).copied()
}

/// `HashMap::insert` of `bevy_platform_support`: the map holds `index` for
/// the key afterwards, and for every other key what it held before; the
/// result is what it held for the key before.
#[verifier::external_body]
pub(crate) fn registry_insert(map: &mut TypeIdMap<u32>, key: TypeId, index: u32) -> (previous:
    Option<u32>)
    ensures
        registry_entries(*final(map)) == registry_entries(*old(map)).insert(key, index),
        previous == (if registry_entries(*old(map)).contains_key(key) {
            Some(registry_entries(*old(map))[key])
        } else {
            None
        }),
{
    map.insert(key, index)
}

} // verus!
