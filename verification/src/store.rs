//! The concurrent map that holds the pool, and the random numbers that choose from it.
//!
//! `dashmap::DashMap` changes through shared references. Here every call that changes a map takes
//! it by `&mut`, so that a map that is only shared keeps what it holds.

use crate::proxy::{views, PoolProxy, ProxyView};
use dashmap::DashMap;
use rand::Rng;
use vstd::prelude::*;

verus! {

/// `dashmap::DashMap`, a concurrent hash map.
#[verifier::external_type_specification]
#[verifier::external_body]
#[verifier::reject_recursive_types(K)]
#[verifier::reject_recursive_types(V)]
#[verifier::reject_recursive_types(S)]
pub struct ExDashMap<K, V, S>(dashmap::DashMap<K, V, S>);

/// What a map of proxies holds: proxies by key.
pub uninterp spec fn pool_contents(m: DashMap<String, PoolProxy>) -> Map<Seq<char>, ProxyView>;

/// Whether `keys` lists every key of `m` once.
pub open spec fn lists_keys(keys: Seq<Seq<char>>, m: Map<Seq<char>, ProxyView>) -> bool {
    keys.no_duplicates() && keys.to_set() == m.dom()
}

/// Whether `values` lists what `m` holds, one value for each key, in some order.
pub open spec fn enumerates(values: Seq<ProxyView>, m: Map<Seq<char>, ProxyView>) -> bool {
    exists|keys: Seq<Seq<char>>|
        #[trigger] lists_keys(keys, m) && values == keys.map_values(|k: Seq<char>| m[k])
}

/// Calls `DashMap::new`, which makes an empty map.
#[verifier::external_body]
pub(crate) fn new_store() -> (r: DashMap<String, PoolProxy>)
    ensures
        pool_contents(r).dom() == Set::<Seq<char>>::empty(),
{
    DashMap::new()
}

/// Calls `DashMap::insert`: the key then holds the new proxy, whatever it held before.
#[verifier::external_body]
pub(crate) fn store_insert(m: &mut DashMap<String, PoolProxy>, key: String, proxy: PoolProxy)
    ensures
        pool_contents(*final(m)) == pool_contents(*old(m)).insert(key@, proxy@),
{
    m.insert(key, proxy);
}

/// Calls `DashMap::remove`: the key then holds nothing.
#[verifier::external_body]
pub(crate) fn store_remove(m: &mut DashMap<String, PoolProxy>, key: &str)
    ensures
        pool_contents(*final(m)) == pool_contents(*old(m)).remove(key@),
{
    m.remove(key);
}

/// Calls `DashMap::get` and copies what the key holds.
#[verifier::external_body]
pub(crate) fn store_get(m: &DashMap<String, PoolProxy>, key: &str) -> (r: Option<PoolProxy>)
    ensures
        match r {
            Some(p) => pool_contents(*m).contains_pair(key@, p@),
            None => !pool_contents(*m).contains_key(key@),
        },
{
    m.get(key).map(|entry| entry.value().clone())
}

/// Calls `DashMap::get_mut` and puts a proxy in the place of the one that it reaches. Where the
/// key holds nothing, the map stays as it is.
#[verifier::external_body]
pub(crate) fn store_replace(m: &mut DashMap<String, PoolProxy>, key: &str, proxy: PoolProxy)
    ensures
        pool_contents(*final(m)) == if pool_contents(*old(m)).contains_key(key@) {
            pool_contents(*old(m)).insert(key@, proxy@)
        } else {
            pool_contents(*old(m))
        },
{
    m.get_mut(key).map(|mut entry| *entry.value_mut() = proxy);
}

/// Calls `DashMap::iter` and copies what it walks over: each entry once, in an order that the
/// map's hasher decides.
#[verifier::external_body]
pub(crate) fn store_values(m: &DashMap<String, PoolProxy>) -> (r: Vec<PoolProxy>)
    ensures
        enumerates(views(r@), pool_contents(*m)),
{
    m.iter().map(|entry| entry.value().clone()).collect()
}

/// Calls `DashMap::len`, the number of entries.
#[verifier::external_body]
pub(crate) fn store_len(m: &DashMap<String, PoolProxy>) -> (r: usize)
    ensures
        r == pool_contents(*m).len(),
{
    m.len()
}

/// Calls `rand::Rng::gen_range` on `rand::thread_rng` for a number below `bound`. Each such
/// number can come; which one does is left to chance.
#[verifier::external_body]
pub(crate) fn random_below(bound: usize) -> (r: usize)
    requires
        bound > 0,
    ensures
        r < bound,
{
    rand::thread_rng().gen_range(0..bound)
}

} // verus!
