//! The insertion-ordered hash map of the `indexmap` crate, keyed by 64-bit integers and
//! holding indices, as the library uses it.
use vstd::prelude::*;
use indexmap::IndexMap;

verus! {

/// The `indexmap::IndexMap` type, opaque to verification.
#[verifier::external_type_specification]
#[verifier::external_body]
#[verifier::reject_recursive_types(K)]
#[verifier::reject_recursive_types(V)]
#[verifier::reject_recursive_types(S)]
pub struct ExIndexMap<K, V, S>(IndexMap<K, V, S>);

/// The key-to-value pairs that an index map holds.
pub uninterp spec fn index_map_contents(m: IndexMap<u64, usize>) -> Map<u64, usize>;

/// `IndexMap::new`: a map with no entries.
#[verifier::external_body]
pub(crate) fn index_map_new() -> (r: IndexMap<u64, usize>)
    ensures
        index_map_contents(r).dom().is_empty(),
{
    IndexMap::new()
}

/// `IndexMap::insert`: afterwards the key maps to the value, and every other key is as
/// before; returns the value the key had before, if any.
#[verifier::external_body]
pub(crate) fn index_map_insert(m: &mut IndexMap<u64, usize>, key: u64, value: usize) -> (r: Option<usize>)
    ensures
        index_map_contents(*final(m)) == index_map_contents(*old(m)).insert(key, value),
        r == (if index_map_contents(*old(m)).contains_key(key) {
            Some(index_map_contents(*old(m))[key])
        } else {
            None
        }),
{
    m.insert(key, value)
}

/// `IndexMap::get`: the value the key maps to, if any.
#[verifier::external_body]
pub(crate) fn index_map_get(m: &IndexMap<u64, usize>, key: u64) -> (r: Option<usize>)
    ensures
        r == (if index_map_contents(*m).contains_key(key) {
            Some(index_map_contents(*m)[key])
        } else {
            None
        }),
{
    m.get(&key).copied()
}

} // verus!
