//! The table of substreams: a hash map with the hasher of the `fnv` crate.

use fnv::FnvHashMap;
use vstd::prelude::*;

verus! {

/// The hasher of the `fnv` crate.
#[verifier::external_type_specification]
#[verifier::external_body]
pub struct ExFnvHasher(fnv::FnvHasher);

/// What makes a hasher by its default, from the standard library.
#[verifier::external_type_specification]
#[verifier::external_body]
#[verifier::reject_recursive_types(H)]
pub struct ExBuildHasherDefault<H>(std::hash::BuildHasherDefault<H>);

/// Calls `FnvHashMap::len`, which counts the entries.
#[verifier::external_body]
pub(crate) fn table_len<V>(table: &FnvHashMap<usize, V>) -> (len: usize)
    ensures
        len == table@.dom().len(),
{
    table.len()
}

/// Calls `FnvHashMap::get`, which lends the entry of a key, if it has one.
#[verifier::external_body]
pub(crate) fn table_get<V>(table: &FnvHashMap<usize, V>, key: usize) -> (entry: Option<&V>)
    ensures
        match entry {
            Some(value) => table@.dom().contains(key) && *value == table@[key],
            None => !table@.dom().contains(key),
        },
{
    table.get(&key)
}

/// Calls `FnvHashMap::insert`, which sets the entry of a key.
#[verifier::external_body]
pub(crate) fn table_insert<V>(table: &mut FnvHashMap<usize, V>, key: usize, value: V)
    ensures
        final(table)@ == old(table)@.insert(key, value),
{
    table.insert(key, value);
}

/// Calls `FnvHashMap::remove`, which takes out the entry of a key, if it has one.
#[verifier::external_body]
pub(crate) fn table_remove<V>(table: &mut FnvHashMap<usize, V>, key: usize) -> (entry: Option<V>)
    ensures
        final(table)@ == old(table)@.remove(key),
        match entry {
            Some(value) => old(table)@.dom().contains(key) && value == old(table)@[key],
            None => !old(table)@.dom().contains(key),
        },
{
    table.remove(&key)
}

/// Calls `FnvHashMap::keys`, which hands out every key once, in no particular order.
#[verifier::external_body]
pub(crate) fn table_keys<V>(table: &FnvHashMap<usize, V>) -> (keys: Vec<usize>)
    ensures
        keys@.no_duplicates(),
        keys@.to_set() == table@.dom(),
{
    table.keys().copied().collect()
}

} // verus!
