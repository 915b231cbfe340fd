//! Records and the shards that hold them, shared by both lookup strategies.
use vstd::prelude::*;
use dashmap::DashMap;
use serde_json::Value;
use crate::json::clone_json;
use crate::dash::{
    string_views, value_map_contents, value_map_get, value_map_insert, value_map_keys,
    value_map_len, value_map_new, value_map_remove,
};

verus! {

/// A record: its identifier and its data.
#[derive(Debug)]
pub struct Record {
    id: String,
    data: Value,
}

impl View for Record {
    type V = (Seq<char>, Value);

    closed spec fn view(&self) -> (Seq<char>, Value) {
        (self.id@, self.data)
    }
}

impl Record {
    pub fn new(id: String, data: Value) -> (r: Self)
        ensures
            r@ == (id@, data),
    {
        Record { id, data }
    }

    /// Replaces the record's data.
    pub fn commit(&mut self, new_data: Value)
        ensures
            final(self)@ == (old(self)@.0, new_data),
    {
        self.data = new_data;
    }

    /// A copy of the record's data.
    pub fn peek(&self) -> (r: Value)
        ensures
            r == self@.1,
    {
        clone_json(&self.data)
    }
}

/// A shard: records by identifier.
pub struct Shard {
    registry: DashMap<String, Value>,
}

impl View for Shard {
    type V = Map<Seq<char>, Value>;

    closed spec fn view(&self) -> Map<Seq<char>, Value> {
        value_map_contents(self.registry)
    }
}

/// The record that `m` holds under `id`, as a value.
pub open spec fn record_in(m: Map<Seq<char>, Value>, id: Seq<char>) -> Option<(Seq<char>, Value)> {
    if m.contains_key(id) {
        Some((id, m[id]))
    } else {
        None
    }
}

impl Shard {
    /// An empty shard.
    pub fn new() -> (r: Self)
        ensures
            r@ == Map::<Seq<char>, Value>::empty(),
    {
        Shard { registry: value_map_new() }
    }

    /// Stores a record under `id`, replacing any record there; says whether
    /// the identifier was new to the shard.
    pub fn add(&mut self, id: String, data: Value) -> (added: bool)
        ensures
            final(self)@ == old(self)@.insert(id@, data),
            added == !old(self)@.contains_key(id@),
    {
        let previous = value_map_insert(&mut self.registry, id, data);
        previous.is_none()
    }

    /// The record stored under `id`, if any.
    pub fn get(&self, id: &str) -> (r: Option<Record>)
        ensures
            match r {
                Some(rec) => record_in(self@, id@) == Some(rec@),
                None => record_in(self@, id@) is None,
            },
    {
        match value_map_get(&self.registry, id) {
            Some(data) => Some(Record::new(String::from_str(id), data)),
            None => None,
        }
    }

    /// The identifiers of the stored records, each once, in no set order.
    pub fn get_ids(&self) -> (r: Vec<String>)
        ensures
            string_views(r@).no_duplicates(),
            string_views(r@).to_set() == self@.dom(),
    {
        value_map_keys(&self.registry)
    }

    /// How many records the shard holds.
    pub fn get_usage(&self) -> (r: usize)
        ensures
            r == self@.dom().len(),
    {
        value_map_len(&self.registry)
    }

    /// Replaces the data of the record under `id`; says whether there was one
    /// (an unknown identifier changes nothing).
    pub fn update(&mut self, id: &str, new_data: Value) -> (updated: bool)
        ensures
            updated == old(self)@.contains_key(id@),
            updated ==> final(self)@ == old(self)@.insert(id@, new_data),
            !updated ==> final(self)@ == old(self)@,
    {
        match value_map_get(&self.registry, id) {
            Some(_) => {
                let _ = value_map_insert(&mut self.registry, String::from_str(id), new_data);
                true
            },
            None => false,
        }
    }

    /// Removes the record under `id`; says whether there was one.
    pub fn delete(&mut self, id: &str) -> (deleted: bool)
        ensures
            final(self)@ == old(self)@.remove(id@),
            deleted == old(self)@.contains_key(id@),
    {
        value_map_remove(&mut self.registry, id).is_some()
    }
}

/// A record stored under an identifier is what a read of that identifier
/// gives back; other identifiers read as before.
pub proof fn law_shard_read_after_add(m: Map<Seq<char>, Value>, id: Seq<char>, data: Value, other: Seq<char>)
    ensures
        record_in(m.insert(id, data), id) == Some((id, data)),
        other != id ==> record_in(m.insert(id, data), other) == record_in(m, other),
{
}

/// A deleted identifier reads as absent.
pub proof fn law_shard_read_after_delete(m: Map<Seq<char>, Value>, id: Seq<char>)
    ensures
        record_in(m.remove(id), id) is None,
{
}

/// A shard's usage is the number of identifiers it lists.
pub proof fn law_usage_counts_ids(ids: Seq<Seq<char>>, m: Map<Seq<char>, Value>)
    requires
        ids.no_duplicates(),
        ids.to_set() == m.dom(),
    ensures
        m.dom().len() == ids.len(),
{
    ids.unique_seq_to_set();
}

} // verus!
