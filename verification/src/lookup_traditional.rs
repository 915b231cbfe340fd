//! Lookup by directory: named shards, and a map from each record to the shard
//! that holds it.
use vstd::prelude::*;
use dashmap::DashMap;
use serde_json::Value;
use crate::dash::{
    index_map_contents, index_map_get, index_map_insert, index_map_keys, index_map_new,
    index_map_with_capacity, string_views,
};
use crate::shared::{Record, Shard, record_in};
use crate::text::{decimal, decimal_text, lemma_decimal_injective};

verus! {

broadcast use vstd::seq::group_seq_axioms;

/// The name of the `i`-th shard.
pub open spec fn shard_name(i: nat) -> Seq<char> {
    "shard_"@ + decimal(i)
}

/// Shards found by name, and records found through the directory.
pub struct TraditionalLookUp {
    partitions: DashMap<String, usize>,
    record_lookup: DashMap<String, usize>,
    shards: Vec<Shard>,
}

impl TraditionalLookUp {
    /// Shard names and the position of each shard.
    pub closed spec fn spec_partitions(&self) -> Map<Seq<char>, usize> {
        index_map_contents(self.partitions)
    }

    /// Record identifiers and the position of the shard each was put in.
    pub closed spec fn spec_records(&self) -> Map<Seq<char>, usize> {
        index_map_contents(self.record_lookup)
    }

    /// The contents of the shards, by position.
    pub closed spec fn spec_shards(&self) -> Seq<Map<Seq<char>, Value>> {
        self.shards@.map_values(|s: Shard| s@)
    }

    /// Every name and every record leads to an existing shard.
    pub open spec fn wf(&self) -> bool {
        &&& forall|k: Seq<char>| #[trigger] self.spec_partitions().contains_key(k) ==> self.spec_partitions()[k]
            < self.spec_shards().len()
        &&& forall|k: Seq<char>| #[trigger] self.spec_records().contains_key(k) ==> self.spec_records()[k]
            < self.spec_shards().len()
    }

    /// `shard_count` empty shards named `shard_0`, `shard_1`, ...
    pub fn new(shard_count: usize) -> (r: Self)
        ensures
            r.wf(),
            r.spec_shards().len() == shard_count,
            forall|i: int| 0 <= i < shard_count ==> #[trigger] r.spec_shards()[i] == Map::<Seq<char>, Value>::empty(),
            forall|i: nat| i < shard_count ==> r.spec_partitions().contains_key(#[trigger] shard_name(i))
                && r.spec_partitions()[shard_name(i)] == i,
            forall|k: Seq<char>| #[trigger] r.spec_partitions().contains_key(k) ==> exists|i: nat|
                i < shard_count && k == shard_name(i),
            r.spec_records() == Map::<Seq<char>, usize>::empty(),
    {
        let mut partitions = index_map_with_capacity(shard_count);
        let mut shards: Vec<Shard> = Vec::new();
        let mut i: usize = 0;
        while i < shard_count
            invariant
                i <= shard_count,
                shards@.len() == i,
                forall|j: int| 0 <= j < i ==> #[trigger] shards@[j]@ == Map::<Seq<char>, Value>::empty(),
                forall|j: nat| j < i ==> index_map_contents(partitions).contains_key(#[trigger] shard_name(j))
                    && index_map_contents(partitions)[shard_name(j)] == j,
                forall|k: Seq<char>| #[trigger] index_map_contents(partitions).contains_key(k) ==> exists|j: nat|
                    j < i && k == shard_name(j),
            decreases shard_count - i,
        {
            let name = String::from_str("shard_").concat(decimal_text(i as u64).as_str());
            let ghost before = index_map_contents(partitions);
            let _ = index_map_insert(&mut partitions, name, i);
            shards.push(Shard::new());
            proof {
                reveal_strlit("shard_");
                assert(name@ == shard_name(i as nat));
                assert forall|j: nat| j < i + 1 implies index_map_contents(partitions).contains_key(
                    #[trigger] shard_name(j),
                ) && index_map_contents(partitions)[shard_name(j)] == j by {
                    if j < i {
                        if shard_name(j) == shard_name(i as nat) {
                            assert(shard_name(j).skip(6) =~= decimal(j));
                            assert(shard_name(i as nat).skip(6) =~= decimal(i as nat));
                            lemma_decimal_injective(j, i as nat);
                        }
                    }
                }
                assert forall|k: Seq<char>| #[trigger] index_map_contents(partitions).contains_key(k) implies exists|j: nat|
                    j < i + 1 && k == shard_name(j) by {
                    if k != name@ {
                        assert(before.contains_key(k));
                    } else {
                        assert(k == shard_name(i as nat));
                    }
                }
            }
            i = i + 1;
        }
        let record_lookup = index_map_new();
        let r = TraditionalLookUp { partitions, record_lookup, shards };
        proof {
            assert forall|k: Seq<char>| #[trigger] r.spec_partitions().contains_key(k) implies r.spec_partitions()[k]
                < r.spec_shards().len() by {
                let j = choose|j: nat| j < shard_count && k == shard_name(j);
            }
        }
        r
    }

    /// The shard named `shard_id`, if any.
    pub fn get_shard(&self, shard_id: &str) -> (r: Option<&Shard>)
        requires
            self.wf(),
        ensures
            match r {
                Some(s) => self.spec_partitions().contains_key(shard_id@) && s@ == self.spec_shards()[self.spec_partitions()[shard_id@] as int],
                None => !self.spec_partitions().contains_key(shard_id@),
            },
    {
        match index_map_get(&self.partitions, shard_id) {
            Some(k) => {
                proof {
                    assert(self.spec_partitions().contains_key(shard_id@));
                    assert(self.spec_shards().len() == self.shards@.len());
                }
                Some(&self.shards[k])
            },
            None => None,
        }
    }

    /// Stores a record in the shard named `shard_id` and notes that shard as
    /// the record's; says whether the record was new to that shard (false
    /// when there is no such shard, which changes nothing).
    pub fn insert_record(&mut self, shard_id: &str, record_id: &str, data: Value) -> (added: bool)
        requires
            old(self).wf(),
        ensures
            final(self).wf(),
            final(self).spec_partitions() == old(self).spec_partitions(),
            !old(self).spec_partitions().contains_key(shard_id@) ==> !added && final(self).spec_records()
                == old(self).spec_records() && final(self).spec_shards() == old(self).spec_shards(),
            old(self).spec_partitions().contains_key(shard_id@) ==> ({
                let k = old(self).spec_partitions()[shard_id@];
                &&& added == !old(self).spec_shards()[k as int].contains_key(record_id@)
                &&& final(self).spec_shards() == old(self).spec_shards().update(
                    k as int,
                    old(self).spec_shards()[k as int].insert(record_id@, data),
                )
                &&& final(self).spec_records() == old(self).spec_records().insert(record_id@, k)
            }),
    {
        match index_map_get(&self.partitions, shard_id) {
            Some(k) => {
                proof {
                    assert(self.spec_partitions().contains_key(shard_id@));
                    assert(self.spec_shards().len() == self.shards@.len());
                }
                let added = self.shards[k].add(String::from_str(record_id), data);
                let _ = index_map_insert(&mut self.record_lookup, String::from_str(record_id), k);
                proof {
                    assert(self.spec_shards().len() == self.shards@.len());
                    assert(self.spec_partitions() == old(self).spec_partitions());
                    assert forall|key: Seq<char>| #[trigger] self.spec_records().contains_key(key) implies self.spec_records()[key]
                        < self.spec_shards().len() by {
                        if key != record_id@ {
                            assert(old(self).spec_records().contains_key(key));
                        }
                    }
                    assert(self.spec_shards() =~= old(self).spec_shards().update(
                        k as int,
                        old(self).spec_shards()[k as int].insert(record_id@, data),
                    ));
                }
                added
            },
            None => false,
        }
    }

    /// Whether the directory knows the record.
    pub fn has_record(&self, record_id: &str) -> (r: bool)
        ensures
            r == self.spec_records().contains_key(record_id@),
    {
        index_map_get(&self.record_lookup, record_id).is_some()
    }

    /// The record, looked up in the shard that the directory names for it.
    pub fn get_record(&self, record_id: &str) -> (r: Option<Record>)
        requires
            self.wf(),
            self.spec_records().contains_key(record_id@),
        ensures
            match r {
                Some(rec) => record_in(self.spec_shards()[self.spec_records()[record_id@] as int], record_id@) == Some(rec@),
                None => record_in(self.spec_shards()[self.spec_records()[record_id@] as int], record_id@) is None,
            },
    {
        let k = match index_map_get(&self.record_lookup, record_id) {
            Some(k) => {
                proof {
                    assert(self.spec_records().contains_key(record_id@));
                    assert(self.spec_shards().len() == self.shards@.len());
                }
                k
            },
            None => {
                proof {
                    assert(false);
                }
                return None;
            },
        };
        self.shards[k].get(record_id)
    }

    /// Replaces the record's data in the shard that the directory names for
    /// it; says whether the record was there.
    pub fn update_record(&mut self, record_id: &str, data: Value) -> (updated: bool)
        requires
            old(self).wf(),
            old(self).spec_records().contains_key(record_id@),
        ensures
            final(self).wf(),
            final(self).spec_partitions() == old(self).spec_partitions(),
            final(self).spec_records() == old(self).spec_records(),
            ({
                let k = old(self).spec_records()[record_id@] as int;
                &&& updated == old(self).spec_shards()[k].contains_key(record_id@)
                &&& updated ==> final(self).spec_shards() == old(self).spec_shards().update(
                    k,
                    old(self).spec_shards()[k].insert(record_id@, data),
                )
                &&& !updated ==> final(self).spec_shards() == old(self).spec_shards()
            }),
    {
        let k = match index_map_get(&self.record_lookup, record_id) {
            Some(k) => {
                proof {
                    assert(self.spec_records().contains_key(record_id@));
                    assert(self.spec_shards().len() == self.shards@.len());
                }
                k
            },
            None => {
                proof {
                    assert(false);
                }
                return false;
            },
        };
        let updated = self.shards[k].update(record_id, data);
        proof {
            assert(self.spec_shards().len() == self.shards@.len());
            assert(self.spec_partitions() == old(self).spec_partitions());
            assert(self.spec_records() == old(self).spec_records());
            if updated {
                assert(self.spec_shards() =~= old(self).spec_shards().update(
                    k as int,
                    old(self).spec_shards()[k as int].insert(record_id@, data),
                ));
            } else {
                assert(self.spec_shards() =~= old(self).spec_shards());
            }
        }
        updated
    }

    /// Removes the record from the shard that the directory names for it (the
    /// directory keeps the record's entry).
    pub fn delete_record(&mut self, record_id: &str)
        requires
            old(self).wf(),
            old(self).spec_records().contains_key(record_id@),
        ensures
            final(self).wf(),
            final(self).spec_partitions() == old(self).spec_partitions(),
            final(self).spec_records() == old(self).spec_records(),
            ({
                let k = old(self).spec_records()[record_id@] as int;
                final(self).spec_shards() == old(self).spec_shards().update(
                    k,
                    old(self).spec_shards()[k].remove(record_id@),
                )
            }),
    {
        let k = match index_map_get(&self.record_lookup, record_id) {
            Some(k) => {
                proof {
                    assert(self.spec_records().contains_key(record_id@));
                    assert(self.spec_shards().len() == self.shards@.len());
                }
                k
            },
            None => {
                proof {
                    assert(false);
                }
                return;
            },
        };
        let _ = self.shards[k].delete(record_id);
        proof {
            assert(self.spec_shards().len() == self.shards@.len());
            assert(self.spec_partitions() == old(self).spec_partitions());
            assert(self.spec_records() == old(self).spec_records());
            assert(self.spec_shards() =~= old(self).spec_shards().update(
                k as int,
                old(self).spec_shards()[k as int].remove(record_id@),
            ));
        }
    }

    /// The names of the shards, each once, in an order that the directory's
    /// hashing decides.
    pub fn shard_ids(&self) -> (r: Vec<String>)
        ensures
            string_views(r@).no_duplicates(),
            string_views(r@).to_set() == self.spec_partitions().dom(),
    {
        index_map_keys(&self.partitions)
    }
}

/// A record put into a named shard is what a lookup of the record gives back.
pub proof fn law_record_read_after_insert(
    shards: Seq<Map<Seq<char>, Value>>,
    records: Map<Seq<char>, usize>,
    k: usize,
    record_id: Seq<char>,
    data: Value,
)
    requires
        k < shards.len(),
    ensures
        ({
            let shards2 = shards.update(k as int, shards[k as int].insert(record_id, data));
            let records2 = records.insert(record_id, k);
            record_in(shards2[records2[record_id] as int], record_id) == Some((record_id, data))
        }),
{
}

} // verus!
