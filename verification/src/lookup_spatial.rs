//! Lookup by range: record `n` lives in shard `n / shard_size`.
use vstd::prelude::*;
use serde_json::Value;
use crate::shared::Shard;
use crate::text::{decimal, decimal_text};

verus! {

/// Shards that each own a run of `shard_size` consecutive record numbers.
pub struct SpatialLookup {
    total_size: u64,
    shard_size: u64,
    shards: Vec<Shard>,
}

impl SpatialLookup {
    pub closed spec fn spec_total_size(&self) -> u64 {
        self.total_size
    }

    pub closed spec fn spec_shard_size(&self) -> u64 {
        self.shard_size
    }

    /// The contents of each shard, in order.
    pub closed spec fn spec_shards(&self) -> Seq<Map<Seq<char>, Value>> {
        self.shards@.map_values(|s: Shard| s@)
    }

    /// The shard that owns record `record_id`: none past the total size, and
    /// none where the division runs past the last shard.
    pub open spec fn shard_index(&self, record_id: u64) -> Option<int> {
        if record_id >= self.spec_total_size() {
            None
        } else if (record_id / self.spec_shard_size()) < self.spec_shards().len() {
            Some((record_id / self.spec_shard_size()) as int)
        } else {
            None
        }
    }

    /// Whether locating `record_id` divides by a shard size of zero (which
    /// happens when there are more shards than records).
    pub open spec fn locates(&self, record_id: u64) -> bool {
        record_id >= self.spec_total_size() || self.spec_shard_size() > 0
    }

    /// `shard_count` empty shards over record numbers below `total_size`.
    pub fn new(shard_count: u64, total_size: u64) -> (r: Self)
        requires
            shard_count > 0,
            total_size > 0,
        ensures
            r.spec_total_size() == total_size,
            r.spec_shard_size() == total_size / shard_count,
            r.spec_shards().len() == shard_count,
            forall|i: int| 0 <= i < shard_count ==> #[trigger] r.spec_shards()[i] == Map::<Seq<char>, Value>::empty(),
    {
        let shard_size = total_size / shard_count;
        let mut shards: Vec<Shard> = Vec::new();
        let mut i: u64 = 0;
        while i < shard_count
            invariant
                i <= shard_count,
                shards@.len() == i,
                forall|j: int| 0 <= j < i ==> #[trigger] shards@[j]@ == Map::<Seq<char>, Value>::empty(),
            decreases shard_count - i,
        {
            shards.push(Shard::new());
            i = i + 1;
        }
        SpatialLookup { total_size, shard_size, shards }
    }

    /// The shard that owns record `record_id` (see `shard_index`).
    pub fn get_shard(&self, record_id: u64) -> (r: Option<&Shard>)
        requires
            self.locates(record_id),
        ensures
            match r {
                Some(s) => self.shard_index(record_id) is Some && s@ == self.spec_shards()[self.shard_index(
                    record_id,
                )->0],
                None => self.shard_index(record_id) is None,
            },
    {
        if record_id >= self.total_size {
            return None;
        }
        let index = record_id / self.shard_size;
        if index < self.shards.len() as u64 {
            Some(&self.shards[index as usize])
        } else {
            None
        }
    }

    /// Stores a record under the decimal text of `record_id` in its shard;
    /// says whether it was new there (false when no shard owns the number).
    pub fn insert_record(&mut self, record_id: u64, data: Value) -> (added: bool)
        requires
            old(self).locates(record_id),
        ensures
            final(self).spec_total_size() == old(self).spec_total_size(),
            final(self).spec_shard_size() == old(self).spec_shard_size(),
            match old(self).shard_index(record_id) {
                None => !added && final(self).spec_shards() == old(self).spec_shards(),
                Some(k) => added == !old(self).spec_shards()[k].contains_key(decimal(record_id as nat))
                    && final(self).spec_shards() == old(self).spec_shards().update(
                    k,
                    old(self).spec_shards()[k].insert(decimal(record_id as nat), data),
                ),
            },
    {
        if record_id >= self.total_size {
            return false;
        }
        let index = record_id / self.shard_size;
        if index >= self.shards.len() as u64 {
            return false;
        }
        let key = decimal_text(record_id);
        let added = self.shards[index as usize].add(key, data);
        proof {
            assert(self.spec_shards() =~= old(self).spec_shards().update(
                index as int,
                old(self).spec_shards()[index as int].insert(decimal(record_id as nat), data),
            ));
        }
        added
    }

    /// Replaces the data of record `record_id` in its shard; says whether it
    /// was there.
    pub fn update_record(&mut self, record_id: u64, data: Value) -> (updated: bool)
        requires
            old(self).locates(record_id),
        ensures
            final(self).spec_total_size() == old(self).spec_total_size(),
            final(self).spec_shard_size() == old(self).spec_shard_size(),
            match old(self).shard_index(record_id) {
                None => !updated && final(self).spec_shards() == old(self).spec_shards(),
                Some(k) => updated == old(self).spec_shards()[k].contains_key(decimal(record_id as nat))
                    && (updated ==> final(self).spec_shards() == old(self).spec_shards().update(
                    k,
                    old(self).spec_shards()[k].insert(decimal(record_id as nat), data),
                )) && (!updated ==> final(self).spec_shards() == old(self).spec_shards()),
            },
    {
        if record_id >= self.total_size {
            return false;
        }
        let index = record_id / self.shard_size;
        if index >= self.shards.len() as u64 {
            return false;
        }
        let key = decimal_text(record_id);
        let updated = self.shards[index as usize].update(key.as_str(), data);
        proof {
            if updated {
                assert(self.spec_shards() =~= old(self).spec_shards().update(
                    index as int,
                    old(self).spec_shards()[index as int].insert(decimal(record_id as nat), data),
                ));
            } else {
                assert(self.spec_shards() =~= old(self).spec_shards());
            }
        }
        updated
    }

    /// Removes record `record_id` from its shard; says whether it was there.
    pub fn delete_record(&mut self, record_id: u64) -> (deleted: bool)
        requires
            old(self).locates(record_id),
        ensures
            final(self).spec_total_size() == old(self).spec_total_size(),
            final(self).spec_shard_size() == old(self).spec_shard_size(),
            match old(self).shard_index(record_id) {
                None => !deleted && final(self).spec_shards() == old(self).spec_shards(),
                Some(k) => deleted == old(self).spec_shards()[k].contains_key(decimal(record_id as nat))
                    && final(self).spec_shards() == old(self).spec_shards().update(
                    k,
                    old(self).spec_shards()[k].remove(decimal(record_id as nat)),
                ),
            },
    {
        if record_id >= self.total_size {
            return false;
        }
        let index = record_id / self.shard_size;
        if index >= self.shards.len() as u64 {
            return false;
        }
        let key = decimal_text(record_id);
        let deleted = self.shards[index as usize].delete(key.as_str());
        proof {
            assert(self.spec_shards() =~= old(self).spec_shards().update(
                index as int,
                old(self).spec_shards()[index as int].remove(decimal(record_id as nat)),
            ));
        }
        deleted
    }
}

/// With `count` shards of `total / count` numbers each, every number below
/// `count * (total / count)` falls in one of the shards.
pub proof fn law_every_number_in_range_has_a_shard(total: u64, count: u64, n: u64)
    requires
        count > 0,
        total / count > 0,
        n < count * (total / count),
    ensures
        n / (total / count) < count,
{
    let size = total / count;
    assert(n / size < count) by (nonlinear_arith)
        requires size > 0, n < count * size;
}

/// Record `n` belongs to the shard numbered `n / shard_size` whenever `n` is
/// below the total size and that shard exists: its run of `shard_size`
/// numbers is owned there, numbers of one run share a shard, and numbers of
/// the next run go to the next shard.  Numbers at or past the total size
/// belong to no shard.
pub proof fn law_record_belongs_to_its_run(l: SpatialLookup, n: u64, m: u64)
    requires
        l.spec_shard_size() > 0,
    ensures
        n < l.spec_total_size() && n / l.spec_shard_size() < l.spec_shards().len() ==> l.shard_index(n) == Some(
            (n / l.spec_shard_size()) as int,
        ),
        n >= l.spec_total_size() ==> l.shard_index(n) is None,
        n < l.spec_total_size() && m < l.spec_total_size() && n / l.spec_shard_size() == m / l.spec_shard_size()
            && n / l.spec_shard_size() < l.spec_shards().len() ==> l.shard_index(n) == l.shard_index(m),
        n < l.spec_total_size() && m == n + l.spec_shard_size() && m < l.spec_total_size()
            && m / l.spec_shard_size() < l.spec_shards().len() ==> l.shard_index(m) == Some(
            (n / l.spec_shard_size()) as int + 1,
        ),
{
    let z = l.spec_shard_size() as int;
    let ni = n as int;
    if m == ni + z {
        assert((ni + z) / z == ni / z + 1) by (nonlinear_arith)
            requires z > 0, ni >= 0;
    }
}

/// In a fresh lookup of `count` shards over `total` numbers, every number
/// below `count * (total / count)` has a shard, the one numbered
/// `n / (total / count)`; so, with `total` a multiple of `count`, every
/// number below `total` has one.
pub proof fn law_fresh_lookup_covers_every_run(l: SpatialLookup, count: u64, total: u64, n: u64)
    requires
        count > 0,
        total / count > 0,
        l.spec_total_size() == total,
        l.spec_shard_size() == total / count,
        l.spec_shards().len() == count,
        n < total,
        n < count * (total / count),
    ensures
        l.shard_index(n) == Some((n / (total / count)) as int),
{
    law_every_number_in_range_has_a_shard(total, count, n);
}

} // verus!
