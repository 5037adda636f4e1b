//! The counting side of a bucket set: the count of each bucket, under an integer key that
//! orders as the bucket's midpoint does, and the total of all counts.
use vstd::prelude::*;
use std::collections::BTreeMap;

verus! {

/// The count held for `key`: zero where there is no bucket for it.
pub open spec fn count_at(m: Map<u64, u64>, key: u64) -> int {
    if m.contains_key(key) {
        m[key] as int
    } else {
        0
    }
}

/// The buckets made by adding up `entries` in order, each count under its key: `None`
/// where a bucket's count would pass `u64::MAX` on the way.
pub open spec fn merged_counts(entries: Seq<(u64, u64)>) -> Option<Map<u64, u64>>
    decreases entries.len(),
{
    if entries.len() == 0 {
        Some(Map::empty())
    } else {
        match merged_counts(entries.drop_last()) {
            None => None,
            Some(m) => {
                let (k, c) = entries.last();
                if count_at(m, k) + c > u64::MAX {
                    None
                } else {
                    Some(m.insert(k, (count_at(m, k) + c) as u64))
                }
            },
        }
    }
}

/// Which count an observation would overflow.
#[derive(Clone, Copy, Debug, PartialEq, Eq, Structural)]
pub enum CountOverflow {
    /// The count of the observed bucket.
    Bucket,
    /// The total of all counts.
    Total,
}

/// The outcome of adding `count` to the bucket `key` of `buckets` with total `total`.
pub open spec fn observe_outcome(buckets: Map<u64, u64>, total: u64, key: u64, count: u64) -> Result<(), CountOverflow> {
    if count_at(buckets, key) + count > u64::MAX {
        Err(CountOverflow::Bucket)
    } else if total + count > u64::MAX {
        Err(CountOverflow::Total)
    } else {
        Ok(())
    }
}

/// The counts of a bucket set: each bucket's count by its key, and the total count.
#[derive(Clone, Debug, Default, PartialEq, Eq)]
pub struct BucketCounts {
    total: u64,
    buckets: BTreeMap<u64, u64>,
}

impl BucketCounts {
    /// Each bucket's count, by key.
    pub closed spec fn buckets_spec(&self) -> Map<u64, u64> {
        self.buckets@
    }

    /// The total count.
    pub closed spec fn total_spec(&self) -> u64 {
        self.total
    }

    /// No buckets, and a total of zero.
    pub fn new() -> (r: Self)
        ensures
            r.buckets_spec() == Map::<u64, u64>::empty(),
            r.total_spec() == 0,
    {
        BucketCounts { total: 0, buckets: BTreeMap::new() }
    }

    /// The count of the bucket `key`: zero where there is none.
    fn count(&self, key: u64) -> (r: u64)
        ensures
            r == count_at(self.buckets_spec(), key),
    {
        broadcast use vstd::std_specs::btree::group_btree_axioms;
        broadcast use vstd::laws_cmp::group_laws_cmp;

        match self.buckets.get(&key) {
            Some(c) => *c,
            None => 0,
        }
    }

    /// Add `count` observations to the bucket `key`, and to the total. Where that would
    /// overflow the bucket's count, or else the total, nothing changes and the error says
    /// which.
    pub fn observe_all(&mut self, key: u64, count: u64) -> (r: Result<(), CountOverflow>)
        ensures
            r == observe_outcome(old(self).buckets_spec(), old(self).total_spec(), key, count),
            r is Ok ==> final(self).buckets_spec() == old(self).buckets_spec().insert(
                key,
                (count_at(old(self).buckets_spec(), key) + count) as u64,
            ) && final(self).total_spec() == old(self).total_spec() + count,
            r is Err ==> final(self).buckets_spec() == old(self).buckets_spec()
                && final(self).total_spec() == old(self).total_spec(),
    {
        let held = self.count(key);
        let bucket = match held.checked_add(count) {
            Some(b) => b,
            None => {
                return Err(CountOverflow::Bucket);
            },
        };
        let total = match self.total.checked_add(count) {
            Some(t) => t,
            None => {
                return Err(CountOverflow::Total);
            },
        };
        self.put(key, bucket);
        self.total = total;
        Ok(())
    }

    /// Set the count of the bucket `key`.
    fn put(&mut self, key: u64, count: u64)
        ensures
            final(self).buckets_spec() == old(self).buckets_spec().insert(key, count),
            final(self).total_spec() == old(self).total_spec(),
    {
        broadcast use vstd::std_specs::btree::group_btree_axioms;
        broadcast use vstd::laws_cmp::group_laws_cmp;

        self.buckets.insert(key, count);
    }

    /// Add a bucket read from text: `false`, with nothing changed, where there already is
    /// a bucket for `key` or the total would overflow.
    pub fn insert_new(&mut self, key: u64, count: u64) -> (r: bool)
        ensures
            r == (!old(self).buckets_spec().contains_key(key) && old(self).total_spec() + count
                <= u64::MAX),
            r ==> final(self).buckets_spec() == old(self).buckets_spec().insert(key, count)
                && final(self).total_spec() == old(self).total_spec() + count,
            !r ==> final(self).buckets_spec() == old(self).buckets_spec()
                && final(self).total_spec() == old(self).total_spec(),
    {
        if self.contains(key) {
            return false;
        }
        let total = match self.total.checked_add(count) {
            Some(t) => t,
            None => {
                return false;
            },
        };
        self.put(key, count);
        self.total = total;
        true
    }

    /// Whether there is a bucket for `key`.
    fn contains(&self, key: u64) -> (r: bool)
        ensures
            r == self.buckets_spec().contains_key(key),
    {
        broadcast use vstd::std_specs::btree::group_btree_axioms;
        broadcast use vstd::laws_cmp::group_laws_cmp;

        self.buckets.contains_key(&key)
    }

    /// Replace the buckets by `entries` added up in order, each count under its key, where
    /// buckets moved to the same key merge; the total is kept. `false`, with nothing
    /// changed, where a merged count would overflow.
    pub fn remap(&mut self, entries: &[(u64, u64)]) -> (r: bool)
        ensures
            r == merged_counts(entries@) is Some,
            r ==> final(self).buckets_spec() == merged_counts(entries@)->0,
            !r ==> final(self).buckets_spec() == old(self).buckets_spec(),
            final(self).total_spec() == old(self).total_spec(),
    {
        let mut merged = BucketCounts::new();
        let mut i: usize = 0;
        assert(entries@.take(0) =~= Seq::<(u64, u64)>::empty());
        while i < entries.len()
            invariant
                i <= entries@.len(),
                merged_counts(entries@.take(i as int)) == Some(merged.buckets_spec()),
            decreases entries@.len() - i,
        {
            let (k, c) = entries[i];
            assert(entries@.take(i + 1).drop_last() =~= entries@.take(i as int));
            assert(entries@.take(i + 1).last() == entries@[i as int]);
            let held = merged.count(k);
            match held.checked_add(c) {
                Some(b) => merged.put(k, b),
                None => {
                    proof {
                        lemma_merged_none_extends(entries@, i as int + 1);
                    }
                    return false;
                },
            }
            i = i + 1;
        }
        assert(entries@.take(i as int) =~= entries@);
        self.buckets = merged.buckets;
        true
    }

    /// Remove every bucket, and set the total to zero.
    pub fn clear(&mut self)
        ensures
            final(self).buckets_spec() == Map::<u64, u64>::empty(),
            final(self).total_spec() == 0,
    {
        self.buckets.clear();
        self.total = 0;
    }

    /// The buckets, by key in increasing order.
    pub fn buckets(&self) -> (r: &BTreeMap<u64, u64>)
        ensures
            r@ == self.buckets_spec(),
    {
        &self.buckets
    }

    /// The total count.
    pub fn total(&self) -> (r: u64)
        ensures
            r == self.total_spec(),
    {
        self.total
    }
}

/// Where adding up a prefix of `entries` overflows, adding up all of them does too.
proof fn lemma_merged_none_extends(entries: Seq<(u64, u64)>, n: int)
    requires
        0 <= n <= entries.len(),
        merged_counts(entries.take(n)) is None,
    ensures
        merged_counts(entries) is None,
    decreases entries.len() - n,
{
    if n < entries.len() {
        assert(entries.take(n + 1).drop_last() =~= entries.take(n));
        lemma_merged_none_extends(entries, n + 1);
    } else {
        assert(entries.take(n) =~= entries);
    }
}

} // verus!
