//! Trusted view of the concurrent map that backs the component store.
//!
//! The store's index is a `dashmap::DashMap` from component type keys to
//! slot indices. Verified code reaches it only through the wrappers below,
//! whose contracts speak of `dash_view`, the map's contents as a
//! mathematical map.

use vstd::prelude::*;

verus! {

#[verifier::external_type_specification]
#[verifier::external_body]
#[verifier::reject_recursive_types(K)]
#[verifier::reject_recursive_types(V)]
#[verifier::reject_recursive_types(S)]
pub struct ExDashMap<K, V, S>(dashmap::DashMap<K, V, S>);

/// The entries that a key-to-slot map currently holds.
pub uninterp spec fn dash_view(
    m: dashmap::DashMap<u64, u64, std::collections::hash_map::RandomState>,
) -> Map<u64, u64>;

/// Relies on `DashMap::new`: a freshly created map is empty.
#[verifier::external_body]
pub fn dash_new() -> (m: dashmap::DashMap<u64, u64, std::collections::hash_map::RandomState>)
    ensures
        dash_view(m).dom().finite(),
        forall|k: u64| !dash_view(m).dom().contains(k),
{
    dashmap::DashMap::new()
}

/// Relies on `DashMap::insert`: afterwards the key maps to the value and
/// every other entry is unchanged.
#[verifier::external_body]
pub fn dash_insert(
    m: &mut dashmap::DashMap<u64, u64, std::collections::hash_map::RandomState>,
    key: u64,
    value: u64,
)
    ensures
        dash_view(*final(m)) == dash_view(*old(m)).insert(key, value),
{
    m.insert(key, value);
}

/// Relies on `DashMap::get`: returns the value the key maps to, if any.
#[verifier::external_body]
pub fn dash_get(
    m: &dashmap::DashMap<u64, u64, std::collections::hash_map::RandomState>,
    key: u64,
) -> (r: Option<u64>)
    ensures
        r == if dash_view(*m).dom().contains(key) {
            Some(dash_view(*m)[key])
        } else {
            None::<u64>
        },
{
    m.get(&key).map(|v| *v)
}

/// Relies on `DashMap::contains_key`: tells whether the key has an entry.
#[verifier::external_body]
pub fn dash_contains(
    m: &dashmap::DashMap<u64, u64, std::collections::hash_map::RandomState>,
    key: u64,
) -> (r: bool)
    ensures
        r == dash_view(*m).dom().contains(key),
{
    m.contains_key(&key)
}

/// Relies on `DashMap::len`: returns how many entries the map holds.
#[verifier::external_body]
pub fn dash_len(
    m: &dashmap::DashMap<u64, u64, std::collections::hash_map::RandomState>,
) -> (r: usize)
    ensures
        dash_view(*m).dom().finite() ==> r == dash_view(*m).dom().len(),
{
    m.len()
}

} // verus!
