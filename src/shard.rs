//! One shard of the store: a `dashmap::DashMap` from `String` keys to `u64`
//! values, seen by the verified code through the map of its entries.
use vstd::prelude::*;
use dashmap::DashMap;

verus! {

#[verifier::external_type_specification]
#[verifier::external_body]
#[verifier::reject_recursive_types(K)]
#[verifier::reject_recursive_types(V)]
#[verifier::reject_recursive_types(S)]
pub struct ExDashMap<K, V, S>(DashMap<K, V, S>);

/// The entries a shard holds, keyed by the characters of each key.
pub uninterp spec fn shard_entries(m: DashMap<String, u64>) -> Map<Seq<char>, u64>;

/// Relies on `DashMap::new`: a new map holds no entries.
#[verifier::external_body]
pub(crate) fn shard_new() -> (r: DashMap<String, u64>)
    ensures
        shard_entries(r) =~= Map::empty(),
{
    DashMap::new()
}

/// Relies on `DashMap::insert`: the key now maps to the value, and the value
/// it replaced, if any, is returned.
#[verifier::external_body]
pub(crate) fn shard_insert(m: &mut DashMap<String, u64>, key: String, value: u64) -> (r: Option<u64>)
    ensures
        shard_entries(*final(m)) == shard_entries(*old(m)).insert(key@, value),
        r == (if shard_entries(*old(m)).contains_key(key@) {
            Some(shard_entries(*old(m))[key@])
        } else {
            None::<u64>
        }),
{
    m.insert(key, value)
}

/// Relies on `DashMap::get`: the value stored under the key, if any.
#[verifier::external_body]
pub(crate) fn shard_get(m: &DashMap<String, u64>, key: &String) -> (r: Option<u64>)
    ensures
        r == (if shard_entries(*m).contains_key(key@) {
            Some(shard_entries(*m)[key@])
        } else {
            None::<u64>
        }),
{
    m.get(key).map(|e| *e.value())
}

/// Relies on `DashMap::remove`: the key no longer maps to anything, and the
/// value it held, if any, is returned.
#[verifier::external_body]
pub(crate) fn shard_remove(m: &mut DashMap<String, u64>, key: &String) -> (r: Option<u64>)
    ensures
        shard_entries(*final(m)) == shard_entries(*old(m)).remove(key@),
        r == (if shard_entries(*old(m)).contains_key(key@) {
            Some(shard_entries(*old(m))[key@])
        } else {
            None::<u64>
        }),
{
    m.remove(key).map(|(_, v)| v)
}

/// Relies on `DashMap::clear`: no entry is left.
#[verifier::external_body]
pub(crate) fn shard_clear(m: &mut DashMap<String, u64>)
    ensures
        shard_entries(*final(m)) =~= Map::empty(),
{
    m.clear()
}

/// Relies on `DashMap::len`: the number of entries.
#[verifier::external_body]
pub(crate) fn shard_len(m: &DashMap<String, u64>) -> (r: usize)
    ensures
        r as nat == shard_entries(*m).len(),
{
    m.len()
}

/// Relies on `DashMap::iter`: every key once, in no particular order.
#[verifier::external_body]
pub(crate) fn shard_keys(m: &DashMap<String, u64>) -> (r: Vec<String>)
    ensures
        r@.len() == shard_entries(*m).len(),
        forall|i: int| 0 <= i < r@.len() ==> shard_entries(*m).contains_key(#[trigger] r@[i]@),
        forall|i: int, j: int| 0 <= i < j < r@.len() ==> r@[i]@ != r@[j]@,
        forall|k: Seq<char>| #[trigger] shard_entries(*m).contains_key(k)
            ==> exists|i: int| 0 <= i < r@.len() && r@[i]@ == k,
{
    m.iter().map(|e| e.key().clone()).collect()
}

/// Relies on `DashMap::clone`: a map of its own with the same entries.
#[verifier::external_body]
pub(crate) fn shard_clone(m: &DashMap<String, u64>) -> (r: DashMap<String, u64>)
    ensures
        shard_entries(r) == shard_entries(*m),
{
    m.clone()
}

} // verus!
