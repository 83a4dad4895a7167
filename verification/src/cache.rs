//! The bounded cache of terrain levels, kept by `quick_cache`.
//!
//! Nothing in this file is proved: the contracts below say what the cache
//! of `quick_cache` does, as its source shows it.

use vstd::prelude::*;

verus! {

/// `Cache` of `quick_cache::sync`: a concurrent cache of bounded size.
/// Verus sees nothing inside it.
#[verifier::external_type_specification]
#[verifier::external_body]
#[verifier::reject_recursive_types(Key)]
#[verifier::reject_recursive_types(Val)]
#[verifier::reject_recursive_types(We)]
#[verifier::reject_recursive_types(B)]
#[verifier::reject_recursive_types(L)]
pub struct ExCache<Key, Val, We, B, L>(quick_cache::sync::Cache<Key, Val, We, B, L>);

/// `UnitWeighter` of `quick_cache`, which counts every entry as one; a
/// parameter of the cache's type.
#[verifier::external_type_specification]
#[verifier::external_body]
pub struct ExUnitWeighter(quick_cache::UnitWeighter);

/// `DefaultHashBuilder` of `quick_cache`, the hasher of the keys; a parameter
/// of the cache's type.
#[verifier::external_type_specification]
#[verifier::external_body]
pub struct ExDefaultHashBuilder(quick_cache::DefaultHashBuilder);

/// `DefaultLifecycle` of `quick_cache::sync`, which does nothing when an
/// entry is evicted; a parameter of the cache's type.
#[verifier::external_type_specification]
#[verifier::external_body]
#[verifier::reject_recursive_types(Key)]
#[verifier::reject_recursive_types(Val)]
pub struct ExDefaultLifecycle<Key, Val>(quick_cache::sync::DefaultLifecycle<Key, Val>);

/// A bounded cache from tile coordinates to terrain levels.
pub type LevelCache = quick_cache::sync::Cache<(i32, i32), u32>;

/// The entries that are resident in a level cache: what `get` finds. The
/// cache is changed through `&mut` alone here, so that this is a function of
/// its value.
pub uninterp spec fn cache_entries(cache: LevelCache) -> Map<(i32, i32), u32>;

/// `Cache::new` of `quick_cache::sync`: a cache for about `capacity` items,
/// with no entry yet.
#[verifier::external_body]
pub(crate) fn cache_new(capacity: usize) -> (cache: LevelCache)
    ensures
        forall|key: (i32, i32)| !cache_entries(cache).contains_key(key),
{
    quick_cache::sync::Cache::new(capacity)
}

/// `Cache::get` of `quick_cache::sync`: a copy of the value that is resident
/// under the key, if one is. The entries stay as they are.
#[verifier::external_body]
pub(crate) fn cache_get(cache: &LevelCache, x: i32, y: i32) -> (hit: Option<u32>)
    ensures
        hit == (if cache_entries(*cache).contains_key((x, y)) {
            Some(cache_entries(*cache)[(x, y)])
        } else {
            None
        }),
{
    cache.get(&(x, y))
}

/// `Cache::insert` of `quick_cache::sync`. The cache may evict any entries to
/// stay within its capacity, the new one included, so the contract claims
/// only this: what is resident afterwards was resident before with the same
/// value, or is the new entry.
#[verifier::external_body]
pub(crate) fn cache_insert(cache: &mut LevelCache, x: i32, y: i32, level: u32)
    ensures
        cache_entries(*final(cache)).submap_of(cache_entries(*old(cache)).insert((x, y), level)),
{
    cache.insert((x, y), level)
}

} // verus!
