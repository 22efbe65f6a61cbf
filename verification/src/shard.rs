//! One shard: a fixed slice of the engine's capacity driven by exactly one
//! eviction-policy instance, dispatched over the closed policy sum type.

use vstd::prelude::*;

use crate::config::{ratio_of, EvictionConfig};
use crate::fifo::FifoShard;
use crate::lfu::LfuShard;
use crate::lru::LruShard;
use crate::s3fifo::S3FifoShard;
use crate::types::{CacheEntry, CacheError};

verus! {

pub enum Shard {
    Fifo(FifoShard),
    S3Fifo(S3FifoShard),
    Lru(LruShard),
    Lfu(LfuShard),
}

impl Shard {
    pub open spec fn wf(self) -> bool {
        match self {
            Shard::Fifo(s) => s.wf(),
            Shard::S3Fifo(s) => s.wf(),
            Shard::Lru(s) => s.wf(),
            Shard::Lfu(s) => s.wf(),
        }
    }

    pub open spec fn contains_spec(self, k: Seq<u8>) -> bool {
        match self {
            Shard::Fifo(s) => s.contains_spec(k),
            Shard::S3Fifo(s) => s.contains_spec(k),
            Shard::Lru(s) => s.contains_spec(k),
            Shard::Lfu(s) => s.contains_spec(k),
        }
    }

    pub open spec fn value_spec(self, k: Seq<u8>) -> Seq<u8> {
        match self {
            Shard::Fifo(s) => s.value_spec(k),
            Shard::S3Fifo(s) => s.value_spec(k),
            Shard::Lru(s) => s.value_spec(k),
            Shard::Lfu(s) => s.value_spec(k),
        }
    }

    pub open spec fn usage_spec(self) -> nat {
        match self {
            Shard::Fifo(s) => s.usage as nat,
            Shard::S3Fifo(s) => s.usage as nat,
            Shard::Lru(s) => s.usage as nat,
            Shard::Lfu(s) => s.usage as nat,
        }
    }

    pub open spec fn capacity_spec(self) -> nat {
        match self {
            Shard::Fifo(s) => s.capacity as nat,
            Shard::S3Fifo(s) => s.capacity as nat,
            Shard::Lru(s) => s.capacity as nat,
            Shard::Lfu(s) => s.capacity as nat,
        }
    }

    /// The shard runs exactly the configured policy variant, with the
    /// config's parameters: per-mille ratios turned into byte capacities of
    /// the shard's own capacity, and thresholds passed through unchanged.
    pub open spec fn runs(self, config: EvictionConfig, capacity: nat) -> bool {
        match config {
            EvictionConfig::Fifo(_) => self is Fifo,
            EvictionConfig::S3Fifo(c) => self matches Shard::S3Fifo(x)
                && x.small_capacity == crate::config::ratio_of_spec(
                capacity,
                c.small_queue_capacity_ratio as nat,
            ) && x.ghost_capacity == crate::config::ratio_of_spec(
                capacity,
                c.ghost_queue_capacity_ratio as nat,
            ) && x.freq_threshold == c.small_to_main_freq_threshold,
            EvictionConfig::Lru(c) => self matches Shard::Lru(x) && x.protected_capacity
                == crate::config::ratio_of_spec(capacity, c.high_priority_pool_ratio as nat),
            EvictionConfig::Lfu(c) => self matches Shard::Lfu(x) && x.window_capacity
                == crate::config::ratio_of_spec(capacity, c.window_capacity_ratio as nat)
                && x.protected_capacity == crate::config::ratio_of_spec(
                capacity,
                c.protected_capacity_ratio as nat,
            ),
        }
    }

    /// A fresh shard of the given capacity under the given policy. Segment
    /// sizes are integer per-mille fractions of the shard capacity; the LFU
    /// sketch's width grows with the inverse of its error bound and its
    /// depth with its confidence.
    pub fn new(capacity: usize, config: &EvictionConfig) -> (s: Self)
        requires
            config.valid(),
        ensures
            s.wf(),
            s.capacity_spec() == capacity,
            s.usage_spec() == 0,
            forall|k: Seq<u8>| !s.contains_spec(k),
            s.runs(*config, capacity as nat),
    {
        match config {
            EvictionConfig::Fifo(_) => Shard::Fifo(FifoShard::new(capacity)),
            EvictionConfig::S3Fifo(c) => {
                let small_capacity = ratio_of(capacity, c.small_queue_capacity_ratio);
                let ghost_capacity = ratio_of(capacity, c.ghost_queue_capacity_ratio);
                Shard::S3Fifo(
                    S3FifoShard::new(
                        capacity,
                        small_capacity,
                        ghost_capacity,
                        c.small_to_main_freq_threshold,
                    ),
                )
            },
            EvictionConfig::Lru(c) => {
                let protected_capacity = ratio_of(capacity, c.high_priority_pool_ratio);
                Shard::Lru(LruShard::new(capacity, protected_capacity))
            },
            EvictionConfig::Lfu(c) => {
                let window_capacity = ratio_of(capacity, c.window_capacity_ratio);
                let protected_capacity = ratio_of(capacity, c.protected_capacity_ratio);
                let rest = capacity - window_capacity;
                let probation_capacity = if protected_capacity <= rest {
                    rest - protected_capacity
                } else {
                    0
                };
                let width = 2718 / (c.cmsketch_eps as usize) + 1;
                let depth = 1 + (c.cmsketch_confidence as usize) / 250;
                let sample = width * 10;
                Shard::Lfu(
                    LfuShard::new(
                        capacity,
                        window_capacity,
                        probation_capacity,
                        protected_capacity,
                        width,
                        depth,
                        sample,
                    ),
                )
            },
        }
    }

    pub fn insert(&mut self, key: Vec<u8>, value: Vec<u8>) -> (r: Result<CacheEntry, CacheError>)
        requires
            old(self).wf(),
        ensures
            final(self).wf(),
            final(self).capacity_spec() == old(self).capacity_spec(),
            match r {
                Ok(e) => {
                    &&& crate::types::kv_weight(key@, value@) <= old(self).capacity_spec()
                    &&& e.key@ == key@
                    &&& e.value@ == value@
                    &&& final(self).contains_spec(key@)
                    &&& final(self).value_spec(key@) == value@
                    &&& (forall|k: Seq<u8>| #![auto]
                        final(self).contains_spec(k) && k != key@ ==> old(self).contains_spec(k)
                            && final(self).value_spec(k) == old(self).value_spec(k))
                },
                Err(er) => {
                    &&& er == CacheError::OversizedEntry
                    &&& crate::types::kv_weight(key@, value@) > old(self).capacity_spec()
                    &&& *final(self) == *old(self)
                },
            },
            *old(self) is Fifo ==> *final(self) is Fifo,
            (*old(self) is Fifo && r is Ok) ==> (exists|d: int|
                crate::fifo::fifo_insert_shape(
                    (*old(self))->Fifo_0.entries@,
                    (*final(self))->Fifo_0.entries@,
                    key@,
                    value@,
                    old(self).capacity_spec(),
                    d,
                )),
            *old(self) is Lru ==> *final(self) is Lru,
            (*old(self) is Lru && !old(self).contains_spec(key@) && crate::types::kv_weight(
                key@,
                value@,
            ) + (*old(self))->Lru_0.protected_usage <= old(self).capacity_spec())
                ==> (*final(self))->Lru_0.protected@ == (*old(self))->Lru_0.protected@,
            *old(self) is Lfu ==> *final(self) is Lfu,
            (*old(self) is Lfu && !old(self).contains_spec(key@) && crate::types::kv_weight(
                key@,
                value@,
            ) + (*old(self))->Lfu_0.protected_usage <= old(self).capacity_spec())
                ==> (*final(self))->Lfu_0.protected@ == (*old(self))->Lfu_0.protected@,
            *old(self) is S3Fifo ==> *final(self) is S3Fifo,
            (*old(self) is S3Fifo && r is Ok) ==> (forall|k: Seq<u8>| #![auto]
                crate::types::has_key_e((*final(self))->S3Fifo_0.main@, k)
                    ==> crate::types::has_key_e((*old(self))->S3Fifo_0.main@, k)
                    || crate::types::has_key_e((*old(self))->S3Fifo_0.small@, k)),
    {
        match self {
            Shard::Fifo(s) => s.insert(key, value),
            Shard::S3Fifo(s) => s.insert(key, value),
            Shard::Lru(s) => s.insert(key, value),
            Shard::Lfu(s) => s.insert(key, value),
        }
    }

    pub fn get(&mut self, key: &Vec<u8>) -> (r: Option<CacheEntry>)
        requires
            old(self).wf(),
        ensures
            final(self).wf(),
            final(self).capacity_spec() == old(self).capacity_spec(),
            final(self).usage_spec() == old(self).usage_spec(),
            forall|k: Seq<u8>| #![auto]
                final(self).contains_spec(k) == old(self).contains_spec(k),
            forall|k: Seq<u8>| #![auto]
                old(self).contains_spec(k) ==> final(self).value_spec(k) == old(
                    self,
                ).value_spec(k),
            match r {
                Some(e) => old(self).contains_spec(key@) && e.key@ == key@ && e.value@ == old(
                    self,
                ).value_spec(key@),
                None => !old(self).contains_spec(key@),
            },
    {
        match self {
            Shard::Fifo(s) => s.get(key),
            Shard::S3Fifo(s) => s.get(key),
            Shard::Lru(s) => s.get(key),
            Shard::Lfu(s) => s.get(key),
        }
    }

    pub fn contains(&self, key: &Vec<u8>) -> (r: bool)
        ensures
            r == self.contains_spec(key@),
    {
        match self {
            Shard::Fifo(s) => s.contains(key),
            Shard::S3Fifo(s) => s.contains(key),
            Shard::Lru(s) => s.contains(key),
            Shard::Lfu(s) => s.contains(key),
        }
    }

    pub fn remove(&mut self, key: &Vec<u8>) -> (r: Option<CacheEntry>)
        requires
            old(self).wf(),
        ensures
            final(self).wf(),
            final(self).capacity_spec() == old(self).capacity_spec(),
            match r {
                Some(e) => {
                    &&& old(self).contains_spec(key@)
                    &&& e.key@ == key@
                    &&& e.value@ == old(self).value_spec(key@)
                    &&& !final(self).contains_spec(key@)
                    &&& final(self).usage_spec() + e.weight_spec() == old(self).usage_spec()
                },
                None => !old(self).contains_spec(key@) && *final(self) == *old(self),
            },
            forall|k: Seq<u8>| #![auto]
                k != key@ ==> final(self).contains_spec(k) == old(self).contains_spec(k),
            forall|k: Seq<u8>| #![auto]
                k != key@ && old(self).contains_spec(k) ==> final(self).value_spec(k) == old(
                    self,
                ).value_spec(k),
    {
        match self {
            Shard::Fifo(s) => s.remove(key),
            Shard::S3Fifo(s) => s.remove(key),
            Shard::Lru(s) => s.remove(key),
            Shard::Lfu(s) => s.remove(key),
        }
    }

    pub fn clear(&mut self)
        requires
            old(self).wf(),
        ensures
            final(self).wf(),
            final(self).capacity_spec() == old(self).capacity_spec(),
            final(self).usage_spec() == 0,
            forall|k: Seq<u8>| !final(self).contains_spec(k),
    {
        match self {
            Shard::Fifo(s) => s.clear(),
            Shard::S3Fifo(s) => s.clear(),
            Shard::Lru(s) => s.clear(),
            Shard::Lfu(s) => s.clear(),
        }
    }

    pub fn usage(&self) -> (r: usize)
        ensures
            r == self.usage_spec(),
    {
        match self {
            Shard::Fifo(s) => s.usage(),
            Shard::S3Fifo(s) => s.usage(),
            Shard::Lru(s) => s.usage(),
            Shard::Lfu(s) => s.usage(),
        }
    }

    pub fn capacity(&self) -> (r: usize)
        ensures
            r == self.capacity_spec(),
    {
        match self {
            Shard::Fifo(s) => s.capacity(),
            Shard::S3Fifo(s) => s.capacity(),
            Shard::Lru(s) => s.capacity(),
            Shard::Lfu(s) => s.capacity(),
        }
    }
}

/// Total usage of a sequence of shards.
pub open spec fn sum_usage(s: Seq<Shard>) -> nat
    decreases s.len(),
{
    if s.len() == 0 {
        0
    } else {
        sum_usage(s.drop_last()) + s.last().usage_spec()
    }
}

/// Total capacity of a sequence of shards.
pub open spec fn sum_capacity(s: Seq<Shard>) -> nat
    decreases s.len(),
{
    if s.len() == 0 {
        0
    } else {
        sum_capacity(s.drop_last()) + s.last().capacity_spec()
    }
}

pub proof fn lemma_sum_usage_update(s: Seq<Shard>, i: int, x: Shard)
    requires
        0 <= i < s.len(),
    ensures
        sum_usage(s.update(i, x)) + s[i].usage_spec() == sum_usage(s) + x.usage_spec(),
    decreases s.len(),
{
    if i == s.len() - 1 {
        assert(s.update(i, x).drop_last() =~= s.drop_last());
        assert(s.update(i, x).last() == x);
    } else {
        assert(s.update(i, x).drop_last() =~= s.drop_last().update(i, x));
        lemma_sum_usage_update(s.drop_last(), i, x);
        assert(s.update(i, x).last() == s.last());
    }
}

pub proof fn lemma_sum_capacity_update(s: Seq<Shard>, i: int, x: Shard)
    requires
        0 <= i < s.len(),
    ensures
        sum_capacity(s.update(i, x)) + s[i].capacity_spec() == sum_capacity(s)
            + x.capacity_spec(),
    decreases s.len(),
{
    if i == s.len() - 1 {
        assert(s.update(i, x).drop_last() =~= s.drop_last());
        assert(s.update(i, x).last() == x);
    } else {
        assert(s.update(i, x).drop_last() =~= s.drop_last().update(i, x));
        lemma_sum_capacity_update(s.drop_last(), i, x);
        assert(s.update(i, x).last() == s.last());
    }
}

/// Per-shard usage bounds give a bound on the whole sum.
pub proof fn lemma_sum_usage_le_capacity(s: Seq<Shard>)
    requires
        forall|i: int| #![auto] 0 <= i < s.len() ==> s[i].wf(),
    ensures
        sum_usage(s) <= sum_capacity(s),
    decreases s.len(),
{
    if s.len() > 0 {
        assert(forall|i: int| #![auto] 0 <= i < s.drop_last().len() ==> s.drop_last()[i] == s[i]);
        lemma_sum_usage_le_capacity(s.drop_last());
        assert(s.last() == s[s.len() - 1]);
        assert(s.last().wf());
        assert(s.last().usage_spec() <= s.last().capacity_spec()) by {
            match s.last() {
                Shard::Fifo(x) => {},
                Shard::S3Fifo(x) => {},
                Shard::Lru(x) => {},
                Shard::Lfu(x) => {},
            }
        }
    }
}

pub proof fn lemma_sum_usage_zero(s: Seq<Shard>)
    requires
        forall|i: int| #![auto] 0 <= i < s.len() ==> s[i].usage_spec() == 0,
    ensures
        sum_usage(s) == 0,
    decreases s.len(),
{
    if s.len() > 0 {
        assert(forall|i: int| #![auto] 0 <= i < s.drop_last().len() ==> s.drop_last()[i] == s[i]);
        lemma_sum_usage_zero(s.drop_last());
        assert(s.last() == s[s.len() - 1]);
    }
}

pub proof fn lemma_sum_usage_prefix(s: Seq<Shard>, i: int)
    requires
        0 <= i <= s.len(),
    ensures
        sum_usage(s.subrange(0, i)) <= sum_usage(s),
        sum_capacity(s.subrange(0, i)) <= sum_capacity(s),
    decreases s.len() - i,
{
    if i == s.len() {
        assert(s.subrange(0, i) =~= s);
    } else {
        assert(s.subrange(0, i) =~= s.subrange(0, i + 1).drop_last());
        lemma_sum_usage_prefix(s, i + 1);
    }
}

pub proof fn lemma_sum_usage_step(s: Seq<Shard>, i: int)
    requires
        0 <= i < s.len(),
    ensures
        sum_usage(s.subrange(0, i + 1)) == sum_usage(s.subrange(0, i)) + s[i].usage_spec(),
        sum_capacity(s.subrange(0, i + 1)) == sum_capacity(s.subrange(0, i))
            + s[i].capacity_spec(),
{
    assert(s.subrange(0, i + 1).drop_last() =~= s.subrange(0, i));
    assert(s.subrange(0, i + 1).last() == s[i]);
}

} // verus!
