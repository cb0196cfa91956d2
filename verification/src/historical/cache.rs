//! The bounded caches of reconstructed properties, which `quick_cache` provides.
//!
//! A cache may drop entries whenever it is full, so nothing here promises that an entry stays.

use crate::property::{Properties, PropertyMap};
use std::sync::Arc;
use vstd::prelude::*;

verus! {

/// A cache of property maps by version.
pub type PropertyCache = quick_cache::sync::Cache<u64, Arc<PropertyMap>>;

/// Declares `quick_cache::sync::Cache`.
#[verifier::external_type_specification]
#[verifier::external_body]
#[verifier::reject_recursive_types(Key)]
#[verifier::reject_recursive_types(Val)]
#[verifier::reject_recursive_types(We)]
#[verifier::reject_recursive_types(B)]
#[verifier::reject_recursive_types(L)]
pub struct ExCache<Key, Val, We, B, L>(quick_cache::sync::Cache<Key, Val, We, B, L>);

/// Declares the weighter of a cache in which every entry weighs the same.
#[verifier::external_type_specification]
#[verifier::external_body]
pub struct ExUnitWeighter(quick_cache::UnitWeighter);

/// Declares the hasher of a cache.
#[verifier::external_type_specification]
#[verifier::external_body]
pub struct ExDefaultHashBuilder(quick_cache::DefaultHashBuilder);

/// Declares the lifecycle of a cache whose evicted entries are just dropped.
#[verifier::external_type_specification]
#[verifier::external_body]
#[verifier::reject_recursive_types(Key)]
#[verifier::reject_recursive_types(Val)]
pub struct ExDefaultLifecycle<Key, Val>(quick_cache::sync::DefaultLifecycle<Key, Val>);

/// The properties that a cache holds at present, by version.
pub uninterp spec fn cached(cache: PropertyCache) -> Map<u64, Properties>;

/// The capacity that a cache was made with.
pub uninterp spec fn limit_of(cache: PropertyCache) -> usize;

/// `quick_cache::sync::Cache::new`: the new cache holds nothing, and was made with the given
/// capacity. The capacity bounds, approximately, how many entries will stay; which ones is left
/// open.
#[verifier::external_body]
pub(crate) fn cache_new(capacity: usize) -> (r: PropertyCache)
    ensures
        cached(r).is_empty(),
        limit_of(r) == capacity,
{
    quick_cache::sync::Cache::new(capacity)
}

/// `quick_cache::sync::Cache::get`: gives back the value that the cache holds for the version, if
/// it holds one.
#[verifier::external_body]
pub(crate) fn cache_get(cache: &PropertyCache, version: u64) -> (r: Option<Arc<PropertyMap>>)
    ensures
        match r {
            Some(p) => cached(*cache).contains_key(version) && p@ == cached(*cache)[version],
            None => !cached(*cache).contains_key(version),
        },
{
    cache.get(&version)
}

/// `quick_cache::sync::Cache::insert`: afterwards the cache holds no value for the version but the
/// given one, and for other versions only what it held before. Any entry, the new one too, may
/// have been evicted. The capacity stays.
#[verifier::external_body]
pub(crate) fn cache_insert(cache: &mut PropertyCache, version: u64, properties: Arc<PropertyMap>)
    ensures
        cached(*final(cache)).submap_of(cached(*old(cache)).insert(version, properties@)),
        limit_of(*final(cache)) == limit_of(*old(cache)),
{
    cache.insert(version, properties)
}

/// `quick_cache::sync::Cache::len`: how many entries the cache holds.
#[verifier::external_body]
pub(crate) fn cache_len(cache: &PropertyCache) -> (r: usize)
    ensures
        r == cached(*cache).len(),
{
    cache.len()
}

/// `quick_cache::sync::Cache::clear`: afterwards the cache holds nothing, and its capacity
/// is what it was.
#[verifier::external_body]
pub(crate) fn cache_clear(cache: &mut PropertyCache)
    ensures
        cached(*final(cache)).is_empty(),
        limit_of(*final(cache)) == limit_of(*old(cache)),
{
    cache.clear()
}

} // verus!
