//! The concurrent maps of the `dashmap` crate that hold the record shards,
//! and what each of the methods used does to their contents.
use vstd::prelude::*;
use dashmap::DashMap;
use serde_json::Value;

verus! {

/// dashmap's `DashMap`, a hash map split into separately locked shards.
#[verifier::external_type_specification]
#[verifier::external_body]
#[verifier::reject_recursive_types(K)]
#[verifier::reject_recursive_types(V)]
#[verifier::reject_recursive_types(S)]
pub struct ExDashMap<K, V, S>(DashMap<K, V, S>);

/// The records that a map of record identifiers to JSON values holds.
pub uninterp spec fn value_map_contents(m: DashMap<String, Value>) -> Map<Seq<char>, Value>;

/// The entries that a map of names to positions holds.
pub uninterp spec fn index_map_contents(m: DashMap<String, usize>) -> Map<Seq<char>, usize>;

pub open spec fn string_views(v: Seq<String>) -> Seq<Seq<char>> {
    v.map_values(|s: String| s@)
}

/// `DashMap::new` for record values: an empty map.
#[verifier::external_body]
pub(crate) fn value_map_new() -> (r: DashMap<String, Value>)
    ensures
        value_map_contents(r) =~= Map::empty(),
{
    DashMap::new()
}

/// `DashMap::insert` for record values: the key now maps to the value; the
/// value it replaced, if any, is handed back.
#[verifier::external_body]
pub(crate) fn value_map_insert(m: &mut DashMap<String, Value>, key: String, value: Value) -> (r: Option<Value>)
    ensures
        value_map_contents(*final(m)) == value_map_contents(*old(m)).insert(key@, value),
        match r {
            Some(v) => value_map_contents(*old(m)).contains_key(key@) && v == value_map_contents(*old(m))[key@],
            None => !value_map_contents(*old(m)).contains_key(key@),
        },
{
    m.insert(key, value)
}

/// `DashMap::get` for record values, with the value copied out of the guard
/// that `get` returns (`Value`'s clone is taken to give the same value).
#[verifier::external_body]
pub(crate) fn value_map_get(m: &DashMap<String, Value>, key: &str) -> (r: Option<Value>)
    ensures
        match r {
            Some(v) => value_map_contents(*m).contains_key(key@) && v == value_map_contents(*m)[key@],
            None => !value_map_contents(*m).contains_key(key@),
        },
{
    match m.get(key) {
        Some(entry) => Some(entry.value().clone()),
        None => None,
    }
}

/// `DashMap::remove` for record values: the key is gone; its entry, if there
/// was one, is handed back.
#[verifier::external_body]
pub(crate) fn value_map_remove(m: &mut DashMap<String, Value>, key: &str) -> (r: Option<(String, Value)>)
    ensures
        value_map_contents(*final(m)) == value_map_contents(*old(m)).remove(key@),
        match r {
            Some(e) => value_map_contents(*old(m)).contains_key(key@) && e.0@ == key@ && e.1
                == value_map_contents(*old(m))[key@],
            None => !value_map_contents(*old(m)).contains_key(key@),
        },
{
    m.remove(key)
}

/// `DashMap::len` for record values: the number of keys.
#[verifier::external_body]
pub(crate) fn value_map_len(m: &DashMap<String, Value>) -> (r: usize)
    ensures
        r == value_map_contents(*m).dom().len(),
{
    m.len()
}

/// The keys that `DashMap::iter` visits for record values: each key once, in
/// an order that the map's hashing decides.
#[verifier::external_body]
pub(crate) fn value_map_keys(m: &DashMap<String, Value>) -> (r: Vec<String>)
    ensures
        string_views(r@).no_duplicates(),
        string_views(r@).to_set() == value_map_contents(*m).dom(),
{
    m.iter().map(|entry| entry.key().clone()).collect()
}

/// `DashMap::with_capacity` for positions: an empty map.
#[verifier::external_body]
pub(crate) fn index_map_with_capacity(capacity: usize) -> (fresh: DashMap<String, usize>)
    ensures
        index_map_contents(fresh) =~= Map::empty(),
{
    DashMap::with_capacity(capacity)
}

/// `DashMap::new` for positions: an empty map.
#[verifier::external_body]
pub(crate) fn index_map_new() -> (fresh: DashMap<String, usize>)
    ensures
        index_map_contents(fresh) =~= Map::empty(),
{
    DashMap::new()
}

/// `DashMap::insert` for positions: the key now maps to the position; the
/// position it replaced, if any, is handed back.
#[verifier::external_body]
pub(crate) fn index_map_insert(m: &mut DashMap<String, usize>, key: String, value: usize) -> (r: Option<usize>)
    ensures
        index_map_contents(*final(m)) == index_map_contents(*old(m)).insert(key@, value),
        match r {
            Some(v) => index_map_contents(*old(m)).contains_key(key@) && v == index_map_contents(*old(m))[key@],
            None => !index_map_contents(*old(m)).contains_key(key@),
        },
{
    m.insert(key, value)
}

/// `DashMap::get` for positions, with the position read out of the guard.
#[verifier::external_body]
pub(crate) fn index_map_get(m: &DashMap<String, usize>, key: &str) -> (r: Option<usize>)
    ensures
        match r {
            Some(v) => index_map_contents(*m).contains_key(key@) && v == index_map_contents(*m)[key@],
            None => !index_map_contents(*m).contains_key(key@),
        },
{
    match m.get(key) {
        Some(entry) => Some(*entry.value()),
        None => None,
    }
}

/// The keys that `DashMap::iter` visits for positions: each key once, in an
/// order that the map's hashing decides.
#[verifier::external_body]
pub(crate) fn index_map_keys(m: &DashMap<String, usize>) -> (r: Vec<String>)
    ensures
        string_views(r@).no_duplicates(),
        string_views(r@).to_set() == index_map_contents(*m).dom(),
{
    m.iter().map(|entry| entry.key().clone()).collect()
}

} // verus!
