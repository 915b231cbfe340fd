//! A zone node's key-value store.
use vstd::prelude::*;
use vstd::hash_map::StringHashMap;
use serde_json::Value;
use crate::json::clone_json;

verus! {

/// Keys and the JSON values stored under them.
pub struct Store {
    data: StringHashMap<Value>,
}

impl View for Store {
    type V = Map<Seq<char>, Value>;

    closed spec fn view(&self) -> Map<Seq<char>, Value> {
        self.data@
    }
}

/// The value stored under `key`, if any.
pub open spec fn stored(m: Map<Seq<char>, Value>, key: Seq<char>) -> Option<Value> {
    if m.contains_key(key) {
        Some(m[key])
    } else {
        None
    }
}

impl Default for Store {
    fn default() -> (r: Self)
        ensures
            r@ == Map::<Seq<char>, Value>::empty(),
    {
        Store { data: StringHashMap::new() }
    }
}

impl Store {
    /// An empty store.
    pub fn new() -> (r: Self)
        ensures
            r@ == Map::<Seq<char>, Value>::empty(),
    {
        Store { data: StringHashMap::new() }
    }

    /// Stores `value` under `key`, replacing what was there.
    pub fn set(&mut self, key: String, value: Value)
        ensures
            final(self)@ == old(self)@.insert(key@, value),
    {
        self.data.insert(key, value);
    }

    /// A copy of the value stored under `key`.
    pub fn get(&self, key: &str) -> (r: Option<Value>)
        ensures
            r == stored(self@, key@),
    {
        match self.data.get(key) {
            Some(v) => Some(clone_json(v)),
            None => None,
        }
    }

    /// Removes `key` and its value.
    pub fn delete(&mut self, key: &str)
        ensures
            final(self)@ == old(self)@.remove(key@),
    {
        self.data.remove(key);
    }

    /// Removes every key.
    pub fn clear(&mut self)
        ensures
            final(self)@ == Map::<Seq<char>, Value>::empty(),
    {
        self.data.clear();
    }
}

/// A read gives back what the last write of that key wrote, and a write of
/// one key leaves every other key's value as it was.
pub proof fn law_read_after_write(m: Map<Seq<char>, Value>, key: Seq<char>, value: Value, other: Seq<char>)
    ensures
        stored(m.insert(key, value), key) == Some(value),
        other != key ==> stored(m.insert(key, value), other) == stored(m, other),
{
}

/// A deleted key reads as absent, and deleting leaves other keys as they were.
pub proof fn law_read_after_delete(m: Map<Seq<char>, Value>, key: Seq<char>, other: Seq<char>)
    ensures
        stored(m.remove(key), key) is None,
        other != key ==> stored(m.remove(key), other) == stored(m, other),
{
}

} // verus!
