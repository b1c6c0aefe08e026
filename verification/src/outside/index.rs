//! A concurrent hash map from identifiers to slot numbers, as the
//! `dashmap` crate provides it.

use vstd::prelude::*;
use dashmap::DashMap;

verus! {

/// `dashmap::DashMap`, taken as it is; what it holds is `index_entries`.
#[verifier::external_type_specification]
#[verifier::external_body]
#[verifier::reject_recursive_types(K)]
#[verifier::reject_recursive_types(V)]
#[verifier::reject_recursive_types(S)]
pub struct ExDashMap<K, V, S>(DashMap<K, V, S>);

/// The entries that the map holds: each key with its value.
pub uninterp spec fn index_entries(m: DashMap<String, usize>) -> Map<Seq<char>, usize>;

/// `DashMap::new`. Trusted: the new map holds no entry.
#[verifier::external_body]
pub(crate) fn index_new() -> (m: DashMap<String, usize>)
    ensures
        index_entries(m) =~= Map::empty(),
{
    DashMap::new()
}

/// `DashMap::insert`. Trusted: afterwards the map holds `slot` under
/// `key` and every other entry as before; the result is the value that
/// `key` had, if it had one.
#[verifier::external_body]
pub(crate) fn index_insert(m: &mut DashMap<String, usize>, key: String, slot: usize) -> (prev:
    Option<usize>)
    ensures
        index_entries(*final(m)) == index_entries(*old(m)).insert(key@, slot),
        prev == (if index_entries(*old(m)).contains_key(key@) {
            Some(index_entries(*old(m))[key@])
        } else {
            None
        }),
{
    m.insert(key, slot)
}

/// `DashMap::remove`, keeping the value of the removed pair. Trusted:
/// afterwards the map holds no entry under `key` and every other entry as
/// before; the result is the value that `key` had, if it had one.
#[verifier::external_body]
pub(crate) fn index_remove(m: &mut DashMap<String, usize>, key: &str) -> (prev: Option<usize>)
    ensures
        index_entries(*final(m)) == index_entries(*old(m)).remove(key@),
        prev == (if index_entries(*old(m)).contains_key(key@) {
            Some(index_entries(*old(m))[key@])
        } else {
            None
        }),
{
    m.remove(key).map(|pair| pair.1)
}

/// `DashMap::get`, copying the value out of the guard. Trusted: the
/// result is the value held under `key`, if there is one.
#[verifier::external_body]
pub(crate) fn index_get(m: &DashMap<String, usize>, key: &str) -> (found: Option<usize>)
    ensures
        found == (if index_entries(*m).contains_key(key@) {
            Some(index_entries(*m)[key@])
        } else {
            None
        }),
{
    m.get(key).map(|entry| *entry.value())
}

} // verus!
