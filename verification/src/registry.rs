//! The registry's storage: a `clashmap::ClashMap` from keys to limiters.
//!
//! Nothing here is proved. The map is opaque to the verifier; what it holds
//! has a name, [`registry_shards`], and each call into it has a contract
//! over that name which states what the map's source shows. The calls take
//! the map by `&mut` wherever they change it, so that the verifier sees the
//! change, though the map itself would make do with `&`.

use clashmap::ClashMap;
use clashmap::Entry;
use vstd::prelude::*;

use crate::limiter::DynamicLimiter;
use crate::limiter::Key;
use crate::shards::empty_shards;
use crate::shards::holds;
use crate::shards::holds_pair;
use crate::shards::idle_keys;
use crate::shards::stored;
use crate::shards::swept;
use crate::shards::Shards;

verus! {

/// `clashmap::ClashMap`, of which the verifier sees nothing inside.
#[verifier::external_type_specification]
#[verifier::external_body]
#[verifier::reject_recursive_types(K)]
#[verifier::reject_recursive_types(V)]
#[verifier::reject_recursive_types(S)]
pub struct ExClashMap<K, V, S>(ClashMap<K, V, S>);

/// What the map holds, shard by shard: the entries of shard `i` are the map
/// at index `i`, and the length is the number of shards the map was made
/// with.
pub uninterp spec fn registry_shards(map: ClashMap<Key, DynamicLimiter>) -> Shards;

/// `clashmap::ClashMap::with_shard_amount`: a map of `shards` shards, all
/// of them empty. The call panics unless `shards` is a power of two above
/// one, which is why it is asked for.
#[verifier::external_body]
pub(crate) fn registry_with_shards(shards: usize) -> (map: ClashMap<Key, DynamicLimiter>)
    requires
        shards > 1,
        vstd::arithmetic::power2::is_pow2(shards as int),
    ensures
        registry_shards(map) == empty_shards(shards as nat),
{
    ClashMap::with_shard_amount(shards)
}

/// `clashmap::ClashMap::shards`, and the length of the slice it returns:
/// the number of shards.
#[verifier::external_body]
pub(crate) fn registry_shard_count(map: &ClashMap<Key, DynamicLimiter>) -> (count: usize)
    ensures
        count == registry_shards(*map).len(),
{
    map.shards().len()
}

/// `clashmap::ClashMap::get`: a copy of the limiter that some shard binds
/// `key` to, or `None` where no shard has an entry for the key.
#[verifier::external_body]
pub(crate) fn registry_get(map: &ClashMap<Key, DynamicLimiter>, key: &Key) -> (found: Option<
    DynamicLimiter,
>)
    ensures
        found.is_some() == holds(registry_shards(*map), *key),
        found matches Some(limiter) ==> holds_pair(registry_shards(*map), *key, limiter),
{
    match map.get(key) {
        Some(entry) => Some(*entry.value()),
        None => None,
    }
}

/// `clashmap::ClashMap::entry`, then `VacantEntry::insert` where the key
/// has no entry: the limiter that the key is bound to afterwards, and
/// whether it is the fresh one. An entry that is there already stays as it
/// is; a fresh one goes into one shard, which the key's hash picks, and
/// nothing else changes.
#[verifier::external_body]
pub(crate) fn registry_get_or_insert(
    map: &mut ClashMap<Key, DynamicLimiter>,
    key: Key,
    fresh: DynamicLimiter,
) -> (bound: (DynamicLimiter, bool))
    ensures
        bound.1 == !holds(registry_shards(*old(map)), key),
        bound.1 ==> bound.0 == fresh && stored(
            registry_shards(*old(map)),
            registry_shards(*final(map)),
            key,
            fresh,
        ),
        !bound.1 ==> registry_shards(*final(map)) == registry_shards(*old(map)) && holds_pair(
            registry_shards(*old(map)),
            key,
            bound.0,
        ),
{
    match map.entry(key) {
        Entry::Occupied(entry) => (*entry.get(), false),
        Entry::Vacant(entry) => (*entry.insert(fresh).value(), true),
    }
}

/// `clashmap::ClashMap::insert`: `key` is bound to `limiter` in the shard
/// that had its entry, or in the shard that its hash picks where it had
/// none. Nothing else changes.
#[verifier::external_body]
pub(crate) fn registry_put(map: &mut ClashMap<Key, DynamicLimiter>, key: Key, limiter: DynamicLimiter)
    ensures
        stored(registry_shards(*old(map)), registry_shards(*final(map)), key, limiter),
{
    map.insert(key, limiter);
}

/// `clashmap::ClashMap::shards`, `lock_api::RwLock::write` on the shard at
/// index `shard`, and `hashbrown::HashTable::extract_if` run to its end by
/// `Iterator::count`: every entry of that shard whose limiter is idle
/// leaves the map, the others stay, and the number of entries that left
/// comes back. The index has to be one of a shard, or the call panics.
#[verifier::external_body]
pub(crate) fn registry_sweep(map: &mut ClashMap<Key, DynamicLimiter>, shard: usize) -> (count: usize)
    requires
        shard < registry_shards(*old(map)).len(),
    ensures
        registry_shards(*final(map)) == swept(registry_shards(*old(map)), shard as int),
        count == idle_keys(registry_shards(*old(map))[shard as int]).len(),
{
    let mut guard = map.shards()[shard].write();
    guard.extract_if(|entry| entry.1.is_idle()).count()
}

} // verus!
