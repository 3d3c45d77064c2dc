//! The concurrent associative map behind every identifier-keyed table.
//!
//! Tags keep their children and their filed items, items keep their tags and
//! a volume keeps its registry in a `DashMap` from identifier to handle. The
//! map is opaque to the verifier: what it holds is named by [`entries`], and
//! each operation the library uses is given here with what it does to those
//! entries. The contracts of these operations are taken from the map's
//! source and are not proved; what the library does with the tables is proved
//! from them.

use dashmap::DashMap;
use vstd::prelude::*;

verus! {

/// Makes `dashmap::DashMap` known as a type whose inside is not looked at.
#[verifier::external_type_specification]
#[verifier::external_body]
#[verifier::reject_recursive_types(K)]
#[verifier::reject_recursive_types(V)]
#[verifier::reject_recursive_types(S)]
pub struct ExDashMap<K, V, S>(DashMap<K, V, S>);

/// A table from identifiers to handles.
pub type HandleTable = DashMap<u128, usize>;

/// The entries that a handle table holds at the moment, as a mathematical
/// map: it is what `DashMap::get` would find under each key.
pub uninterp spec fn entries(table: DashMap<u128, usize>) -> Map<u128, usize>;

/// What a lookup of `key` in `m` yields.
pub open spec fn lookup<H>(m: Map<u128, H>, key: u128) -> Option<H> {
    if m.contains_key(key) {
        Some(m[key])
    } else {
        None
    }
}

/// The entries of a table with each handle as a mathematical integer.
pub open spec fn handles(m: Map<u128, usize>) -> Map<u128, int> {
    Map::new(|key: u128| m.contains_key(key), |key: u128| m[key] as int)
}

/// `found` is what a lookup of `key` in `m` yields.
pub open spec fn found_in(found: Option<usize>, m: Map<u128, int>, key: u128) -> bool {
    match found {
        Some(handle) => m.contains_pair(key, handle as int),
        None => !m.contains_key(key),
    }
}

/// Handles as integers are as many as the handles themselves, and an
/// insertion can be made before or after the conversion.
pub proof fn lemma_handles(m: Map<u128, usize>, key: u128, value: usize)
    ensures
        handles(m).dom() == m.dom(),
        handles(m.insert(key, value)) == handles(m).insert(key, value as int),
        handles(Map::empty()) == Map::<u128, int>::empty(),
{
    assert(handles(m).dom() =~= m.dom());
    assert(handles(m.insert(key, value)) =~= handles(m).insert(key, value as int));
    assert(handles(Map::empty()) =~= Map::<u128, int>::empty());
}

/// `DashMap::new`: a table without entries.
#[verifier::external_body]
pub(crate) fn table_new() -> (table: HandleTable)
    ensures
        entries(table) =~= Map::empty(),
{
    DashMap::new()
}

/// `DashMap::insert`: afterwards the key maps to the value and every other
/// entry is as before; the value that the key had, if any, is handed back.
#[verifier::external_body]
pub(crate) fn table_insert(table: &mut HandleTable, key: u128, value: usize) -> (previous: Option<usize>)
    ensures
        entries(*final(table)) == entries(*old(table)).insert(key, value),
        previous == lookup(entries(*old(table)), key),
{
    table.insert(key, value)
}

/// `DashMap::get`: the value stored under the key, if there is one.
#[verifier::external_body]
pub(crate) fn table_get(table: &HandleTable, key: u128) -> (found: Option<usize>)
    ensures
        found == lookup(entries(*table), key),
{
    table.get(&key).map(|entry| *entry.value())
}

/// `DashMap::len`: the number of entries.
#[verifier::external_body]
pub(crate) fn table_len(table: &HandleTable) -> (count: usize)
    ensures
        count == entries(*table).len(),
{
    table.len()
}

/// `DashMap::iter`: every entry exactly once, in an order that the map does
/// not promise.
#[verifier::external_body]
pub(crate) fn table_pairs(table: &HandleTable) -> (pairs: Vec<(u128, usize)>)
    ensures
        forall|i: int| 0 <= i < pairs@.len() ==> entries(*table).contains_pair((#[trigger] pairs@[i]).0, pairs@[i].1),
        forall|key: u128| entries(*table).contains_key(key) ==> exists|i: int| 0 <= i < pairs@.len() && (#[trigger] pairs@[i]).0 == key,
        forall|i: int, j: int| 0 <= i < j < pairs@.len() ==> (#[trigger] pairs@[i]).0 != (#[trigger] pairs@[j]).0,
{
    table.iter().map(|entry| (*entry.key(), *entry.value())).collect()
}

} // verus!
