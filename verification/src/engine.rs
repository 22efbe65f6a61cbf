//! The cache engine: a fixed array of shards, a router mapping each key to
//! exactly one shard by its hash, and the public operation set. The sum of
//! the shard capacities is the engine capacity, so the capacity bound
//! `usage() <= capacity()` holds after every operation.

use vstd::prelude::*;

use vstd::arithmetic::div_mod::lemma_fundamental_div_mod;

use crate::config::{EvictionConfig, LruConfig};
use crate::router::{route, route_spec};
use crate::shard::{
    lemma_sum_capacity_update, lemma_sum_usage_le_capacity, lemma_sum_usage_prefix,
    lemma_sum_usage_step, lemma_sum_usage_update, lemma_sum_usage_zero, sum_capacity, sum_usage,
    Shard,
};
use crate::types::{kv_weight, CacheEntry, CacheError};

verus! {

/// Shard count used when the builder is not told otherwise.
pub const DEFAULT_SHARD_COUNT: usize = 8;

/// The capacity of shard `i` out of `n`: an even split of `capacity` with
/// the remainder going to the first shards.
pub open spec fn split_capacity(capacity: nat, n: nat, i: int) -> nat
    recommends
        n > 0,
{
    capacity / n + (if i < capacity % n {
        1nat
    } else {
        0nat
    })
}

pub struct CacheEngine {
    pub shards: Vec<Shard>,
    pub capacity: usize,
    pub name: Option<String>,
}

impl CacheEngine {
    /// Internal consistency: at least one shard, each shard well-formed, the
    /// shard capacities partition the engine capacity, and every resident
    /// key lives in exactly the shard it routes to.
    pub open spec fn wf(self) -> bool {
        &&& self.shards@.len() > 0
        &&& (forall|i: int| #![auto] 0 <= i < self.shards@.len() ==> self.shards@[i].wf())
        &&& sum_capacity(self.shards@) == self.capacity
        &&& (forall|i: int, k: Seq<u8>| #![auto]
            0 <= i < self.shards@.len() && self.shards@[i].contains_spec(k) ==> route_spec(
                k,
                self.shards@.len() as nat,
            ) == i)
    }

    /// The shard the key routes to.
    pub open spec fn shard_of(self, k: Seq<u8>) -> int {
        route_spec(k, self.shards@.len() as nat) as int
    }

    pub open spec fn contains_spec(self, k: Seq<u8>) -> bool {
        self.shards@[self.shard_of(k)].contains_spec(k)
    }

    pub open spec fn value_spec(self, k: Seq<u8>) -> Seq<u8> {
        self.shards@[self.shard_of(k)].value_spec(k)
    }

    pub open spec fn usage_spec(self) -> nat {
        sum_usage(self.shards@)
    }

    /// What a lookup observes: the stored value of a resident key, nothing
    /// for an absent one. `get` returns exactly this, as its contract states.
    pub open spec fn lookup_spec(self, k: Seq<u8>) -> Option<Seq<u8>> {
        if self.contains_spec(k) {
            Some(self.value_spec(k))
        } else {
            None
        }
    }

    /// The capacity of the shard the key routes to: the bound against which
    /// a single entry is judged oversized.
    pub open spec fn shard_capacity_of(self, k: Seq<u8>) -> nat {
        self.shards@[self.shard_of(k)].capacity_spec()
    }

    /// Builds an engine, splitting the capacity as evenly as possible over
    /// the shards with the remainder going to the first shards. Fails with
    /// `ConfigError` exactly when the shard count is zero or a policy ratio
    /// is out of range.
    pub fn construct(
        capacity: usize,
        shard_count: usize,
        config: EvictionConfig,
        name: Option<String>,
    ) -> (r: Result<CacheEngine, CacheError>)
        ensures
            match r {
                Ok(e) => {
                    &&& shard_count != 0
                    &&& config.valid()
                    &&& e.wf()
                    &&& e.capacity == capacity
                    &&& e.shards@.len() == shard_count
                    &&& e.usage_spec() == 0
                    &&& (forall|k: Seq<u8>| !e.contains_spec(k))
                    &&& e.name == name
                    &&& (forall|i: int| #![auto]
                        0 <= i < shard_count ==> e.shards@[i].capacity_spec() == split_capacity(
                            capacity as nat,
                            shard_count as nat,
                            i,
                        ) && e.shards@[i].runs(
                            config,
                            split_capacity(capacity as nat, shard_count as nat, i),
                        ))
                },
                Err(er) => {
                    &&& er == CacheError::ConfigError
                    &&& (shard_count == 0 || !config.valid())
                },
            },
    {
        if shard_count == 0 {
            return Err(CacheError::ConfigError);
        }
        if !config.is_valid() {
            return Err(CacheError::ConfigError);
        }
        let q = capacity / shard_count;
        let rem = capacity % shard_count;
        proof {
            lemma_fundamental_div_mod(capacity as int, shard_count as int);
        }
        let mut shards: Vec<Shard> = Vec::new();
        let mut i: usize = 0;
        while i < shard_count
            invariant
                i <= shard_count,
                shard_count > 0,
                config.valid(),
                q == capacity / shard_count,
                rem == capacity % shard_count,
                rem < shard_count,
                capacity == shard_count * q + rem,
                shards@.len() == i,
                forall|j: int| #![auto] 0 <= j < i ==> shards@[j].wf(),
                forall|j: int| #![auto]
                    0 <= j < i ==> shards@[j].capacity_spec() == split_capacity(
                        capacity as nat,
                        shard_count as nat,
                        j,
                    ) && shards@[j].runs(
                        config,
                        split_capacity(capacity as nat, shard_count as nat, j),
                    ),
                forall|j: int| #![auto] 0 <= j < i ==> shards@[j].usage_spec() == 0,
                forall|j: int, k: Seq<u8>| #![auto] 0 <= j < i ==> !shards@[j].contains_spec(k),
                sum_capacity(shards@) == q * (i as int) + (if i <= rem {
                    i as int
                } else {
                    rem as int
                }),
            decreases shard_count - i,
        {
            let cap_i: usize = if i < rem {
                proof {
                    assert(shard_count >= 2);
                    assert(shard_count * q >= 2 * q) by (nonlinear_arith)
                        requires
                            shard_count >= 2,
                            q >= 0,
                    ;
                }
                q + 1
            } else {
                q
            };
            let sh = Shard::new(cap_i, &config);
            let ghost prev = shards@;
            shards.push(sh);
            proof {
                assert(shards@.drop_last() =~= prev);
                assert(q * ((i + 1) as int) == q * (i as int) + q) by (nonlinear_arith);
            }
            i = i + 1;
        }
        let e = CacheEngine { shards, capacity, name };
        proof {
            lemma_sum_usage_zero(e.shards@);
            assert(q * (shard_count as int) == (shard_count as int) * q) by (nonlinear_arith);
            assert(sum_capacity(e.shards@) == capacity);
        }
        Ok(e)
    }

    /// An engine with the default shard count and eviction policy: the LRU
    /// policy with the default priority-pool ratio, over the default number
    /// of shards, unnamed.
    pub fn new(capacity: usize) -> (e: CacheEngine)
        ensures
            e.wf(),
            e.capacity == capacity,
            e.usage_spec() == 0,
            forall|k: Seq<u8>| !e.contains_spec(k),
            e.shards@.len() == DEFAULT_SHARD_COUNT,
            e.name is None,
            forall|i: int| #![auto]
                0 <= i < e.shards@.len() ==> e.shards@[i].capacity_spec() == split_capacity(
                    capacity as nat,
                    DEFAULT_SHARD_COUNT as nat,
                    i,
                ) && e.shards@[i].runs(
                    EvictionConfig::Lru(LruConfig { high_priority_pool_ratio: 100 }),
                    split_capacity(capacity as nat, DEFAULT_SHARD_COUNT as nat, i),
                ),
    {
        let cfg = EvictionConfig::Lru(LruConfig::default());
        match CacheEngine::construct(capacity, DEFAULT_SHARD_COUNT, cfg, None) {
            Ok(e) => e,
            Err(_) => {
                proof {
                    assert(false);
                }
                CacheEngine { shards: Vec::new(), capacity, name: None }
            },
        }
    }

    /// Inserts a key/value pair, replacing any existing entry for the key
    /// and evicting as needed; fails with `OversizedEntry` exactly when the
    /// single item cannot fit its shard's capacity, leaving the cache
    /// unchanged.
    pub fn insert(&mut self, key: Vec<u8>, value: Vec<u8>) -> (r: Result<CacheEntry, CacheError>)
        requires
            old(self).wf(),
        ensures
            final(self).wf(),
            final(self).capacity == old(self).capacity,
            final(self).shards@.len() == old(self).shards@.len(),
            final(self).name == old(self).name,
            final(self).usage_spec() <= final(self).capacity,
            match r {
                Ok(e) => {
                    &&& kv_weight(key@, value@) <= old(self).shard_capacity_of(key@)
                    &&& e.key@ == key@
                    &&& e.value@ == value@
                    &&& final(self).contains_spec(key@)
                    &&& final(self).value_spec(key@) == value@
                    &&& (forall|k: Seq<u8>| #![auto]
                        final(self).contains_spec(k) && k != key@ ==> old(self).contains_spec(k)
                            && final(self).value_spec(k) == old(self).value_spec(k))
                },
                Err(er) => {
                    &&& er == CacheError::OversizedEntry
                    &&& kv_weight(key@, value@) > old(self).shard_capacity_of(key@)
                    &&& final(self).shards@ == old(self).shards@
                },
            },
            (r is Ok && old(self).shards@[old(self).shard_of(key@)] is Fifo)
                ==> final(self).shards@[old(self).shard_of(key@)] is Fifo && (exists|d: int|
                crate::fifo::fifo_insert_shape(
                    old(self).shards@[old(self).shard_of(key@)]->Fifo_0.entries@,
                    final(self).shards@[old(self).shard_of(key@)]->Fifo_0.entries@,
                    key@,
                    value@,
                    old(self).shard_capacity_of(key@),
                    d,
                )),
            (old(self).shards@[old(self).shard_of(key@)] is Lru && !old(self).contains_spec(key@)
                && kv_weight(key@, value@) + old(self).shards@[old(
                self,
            ).shard_of(key@)]->Lru_0.protected_usage <= old(self).shard_capacity_of(key@))
                ==> final(self).shards@[old(self).shard_of(key@)]->Lru_0.protected@ == old(
                self,
            ).shards@[old(self).shard_of(key@)]->Lru_0.protected@,
            (old(self).shards@[old(self).shard_of(key@)] is Lfu && !old(self).contains_spec(key@)
                && kv_weight(key@, value@) + old(self).shards@[old(
                self,
            ).shard_of(key@)]->Lfu_0.protected_usage <= old(self).shard_capacity_of(key@))
                ==> final(self).shards@[old(self).shard_of(key@)]->Lfu_0.protected@ == old(
                self,
            ).shards@[old(self).shard_of(key@)]->Lfu_0.protected@,
            (r is Ok && old(self).shards@[old(self).shard_of(key@)] is S3Fifo) ==> (forall|
                k: Seq<u8>,
            | #![auto]
                crate::types::has_key_e(
                    final(self).shards@[old(self).shard_of(key@)]->S3Fifo_0.main@,
                    k,
                ) ==> crate::types::has_key_e(
                    old(self).shards@[old(self).shard_of(key@)]->S3Fifo_0.main@,
                    k,
                ) || crate::types::has_key_e(
                    old(self).shards@[old(self).shard_of(key@)]->S3Fifo_0.small@,
                    k,
                )),
    {
        let idx = route(&key, self.shards.len());
        let ghost shards0 = self.shards@;
        let mut sh = self.shards.remove(idx);
        let ghost sh0 = sh;
        let r = sh.insert(key, value);
        let ghost sh1 = sh;
        self.shards.insert(idx, sh);
        proof {
            assert(self.shards@ =~= shards0.update(idx as int, sh1));
            lemma_sum_usage_update(shards0, idx as int, sh1);
            lemma_sum_capacity_update(shards0, idx as int, sh1);
            assert(forall|i: int| #![auto]
                0 <= i < self.shards@.len() && i != idx ==> self.shards@[i] == shards0[i]);
            lemma_sum_usage_le_capacity(self.shards@);
            if old(self).contains_spec(key@) {
                assert(sh0.contains_spec(key@));
            } else {
                assert(!sh0.contains_spec(key@));
            }
            if r is Ok && sh0 is S3Fifo {
                assert forall|k: Seq<u8>| #![auto]
                    crate::types::has_key_e(
                        self.shards@[old(self).shard_of(key@)]->S3Fifo_0.main@,
                        k,
                    ) implies crate::types::has_key_e(
                    old(self).shards@[old(self).shard_of(key@)]->S3Fifo_0.main@,
                    k,
                ) || crate::types::has_key_e(
                    old(self).shards@[old(self).shard_of(key@)]->S3Fifo_0.small@,
                    k,
                ) by {
                    assert(crate::types::has_key_e(sh1->S3Fifo_0.main@, k));
                }
            }
            if r is Ok && sh0 is Fifo {
                let d = choose|d: int|
                    #[trigger] crate::fifo::fifo_insert_shape(
                        sh0->Fifo_0.entries@,
                        sh1->Fifo_0.entries@,
                        key@,
                        value@,
                        sh0.capacity_spec(),
                        d,
                    );
                assert(crate::fifo::fifo_insert_shape(
                    old(self).shards@[old(self).shard_of(key@)]->Fifo_0.entries@,
                    self.shards@[old(self).shard_of(key@)]->Fifo_0.entries@,
                    key@,
                    value@,
                    old(self).shard_capacity_of(key@),
                    d,
                ));
            }
        }
        match r {
            Ok(e) => Ok(e),
            Err(er) => {
                proof {
                    assert(self.shards@ =~= shards0);
                }
                Err(er)
            },
        }
    }

    /// Lookup with the policy's touch-on-access bookkeeping; a miss is a
    /// successful negative result, and neither membership nor values nor
    /// usage change.
    pub fn get(&mut self, key: &Vec<u8>) -> (r: Option<CacheEntry>)
        requires
            old(self).wf(),
        ensures
            final(self).wf(),
            final(self).capacity == old(self).capacity,
            final(self).shards@.len() == old(self).shards@.len(),
            final(self).name == old(self).name,
            final(self).usage_spec() == old(self).usage_spec(),
            forall|k: Seq<u8>| #![auto]
                final(self).contains_spec(k) == old(self).contains_spec(k),
            forall|k: Seq<u8>| #![auto]
                old(self).contains_spec(k) ==> final(self).value_spec(k) == old(
                    self,
                ).value_spec(k),
            match r {
                Some(e) => old(self).contains_spec(key@) && e.key@ == key@ && e.value@ == old(
                    self,
                ).value_spec(key@),
                None => !old(self).contains_spec(key@),
            },
    {
        let idx = route(key, self.shards.len());
        let ghost shards0 = self.shards@;
        let mut sh = self.shards.remove(idx);
        let r = sh.get(key);
        let ghost sh1 = sh;
        self.shards.insert(idx, sh);
        proof {
            assert(self.shards@ =~= shards0.update(idx as int, sh1));
            lemma_sum_usage_update(shards0, idx as int, sh1);
            lemma_sum_capacity_update(shards0, idx as int, sh1);
            assert(forall|i: int| #![auto]
                0 <= i < self.shards@.len() && i != idx ==> self.shards@[i] == shards0[i]);
        }
        r
    }

    /// Pure index probe: no bookkeeping mutation.
    pub fn contains(&self, key: &Vec<u8>) -> (r: bool)
        requires
            self.wf(),
        ensures
            r == self.contains_spec(key@),
    {
        let idx = route(key, self.shards.len());
        let sh = &self.shards[idx];
        sh.contains(key)
    }

    /// Detaches and returns the entry for the key; fails with `NotFound`
    /// exactly when the key is absent, leaving the cache unchanged.
    pub fn remove(&mut self, key: &Vec<u8>) -> (r: Result<CacheEntry, CacheError>)
        requires
            old(self).wf(),
        ensures
            final(self).wf(),
            final(self).capacity == old(self).capacity,
            final(self).shards@.len() == old(self).shards@.len(),
            final(self).name == old(self).name,
            match r {
                Ok(e) => {
                    &&& old(self).contains_spec(key@)
                    &&& e.key@ == key@
                    &&& e.value@ == old(self).value_spec(key@)
                    &&& !final(self).contains_spec(key@)
                    &&& final(self).usage_spec() + e.weight_spec() == old(self).usage_spec()
                },
                Err(er) => {
                    &&& er == CacheError::NotFound
                    &&& !old(self).contains_spec(key@)
                    &&& final(self).shards@ == old(self).shards@
                },
            },
            forall|k: Seq<u8>| #![auto]
                k != key@ ==> final(self).contains_spec(k) == old(self).contains_spec(k),
            forall|k: Seq<u8>| #![auto]
                k != key@ && old(self).contains_spec(k) ==> final(self).value_spec(k) == old(
                    self,
                ).value_spec(k),
    {
        let idx = route(key, self.shards.len());
        let ghost shards0 = self.shards@;
        let mut sh = self.shards.remove(idx);
        let r = sh.remove(key);
        let ghost sh1 = sh;
        self.shards.insert(idx, sh);
        proof {
            assert(self.shards@ =~= shards0.update(idx as int, sh1));
            lemma_sum_usage_update(shards0, idx as int, sh1);
            lemma_sum_capacity_update(shards0, idx as int, sh1);
            assert(forall|i: int| #![auto]
                0 <= i < self.shards@.len() && i != idx ==> self.shards@[i] == shards0[i]);
        }
        match r {
            Some(e) => Ok(e),
            None => {
                proof {
                    assert(self.shards@ =~= shards0);
                }
                Err(CacheError::NotFound)
            },
        }
    }

    /// Empties every shard, shard by shard; usage drops to zero.
    pub fn clear(&mut self)
        requires
            old(self).wf(),
        ensures
            final(self).wf(),
            final(self).capacity == old(self).capacity,
            final(self).shards@.len() == old(self).shards@.len(),
            final(self).name == old(self).name,
            final(self).usage_spec() == 0,
            forall|k: Seq<u8>| !final(self).contains_spec(k),
    {
        let ghost orig = *old(self);
        let mut i: usize = 0;
        while i < self.shards.len()
            invariant
                i <= self.shards@.len(),
                self.shards@.len() == orig.shards@.len(),
                self.capacity == orig.capacity,
                self.name == orig.name,
                forall|j: int| #![auto] 0 <= j < self.shards@.len() ==> self.shards@[j].wf(),
                forall|j: int| #![auto]
                    0 <= j < self.shards@.len() ==> self.shards@[j].capacity_spec()
                        == orig.shards@[j].capacity_spec(),
                sum_capacity(self.shards@) == self.capacity,
                forall|j: int, k: Seq<u8>| #![auto]
                    0 <= j < self.shards@.len() && self.shards@[j].contains_spec(k)
                        ==> orig.shards@[j].contains_spec(k),
                forall|j: int, k: Seq<u8>| #![auto]
                    0 <= j < i ==> !self.shards@[j].contains_spec(k),
                forall|j: int| #![auto] 0 <= j < i ==> self.shards@[j].usage_spec() == 0,
            decreases self.shards@.len() - i,
        {
            let ghost shards0 = self.shards@;
            let mut sh = self.shards.remove(i);
            sh.clear();
            let ghost sh1 = sh;
            self.shards.insert(i, sh);
            proof {
                assert(self.shards@ =~= shards0.update(i as int, sh1));
                lemma_sum_capacity_update(shards0, i as int, sh1);
                assert(forall|j: int| #![auto]
                    0 <= j < self.shards@.len() && j != i ==> self.shards@[j] == shards0[j]);
            }
            i = i + 1;
        }
        proof {
            lemma_sum_usage_zero(self.shards@);
        }
    }

    /// Current total usage over all shards.
    pub fn usage(&self) -> (r: usize)
        requires
            self.wf(),
        ensures
            r == self.usage_spec(),
            r <= self.capacity,
    {
        let mut acc: usize = 0;
        let mut i: usize = 0;
        proof {
            lemma_sum_usage_le_capacity(self.shards@);
        }
        while i < self.shards.len()
            invariant
                self.wf(),
                i <= self.shards@.len(),
                acc == sum_usage(self.shards@.subrange(0, i as int)),
                acc <= sum_capacity(self.shards@.subrange(0, i as int)),
            decreases self.shards@.len() - i,
        {
            proof {
                lemma_sum_usage_step(self.shards@, i as int);
                lemma_sum_usage_prefix(self.shards@, i + 1 as int);
                lemma_sum_usage_le_capacity(self.shards@.subrange(0, i + 1 as int));
                assert(forall|j: int| #![auto]
                    0 <= j < i + 1 ==> self.shards@.subrange(0, i + 1 as int)[j]
                        == self.shards@[j]);
            }
            let u = self.shards[i].usage();
            acc = acc + u;
            i = i + 1;
        }
        proof {
            assert(self.shards@.subrange(0, self.shards@.len() as int) =~= self.shards@);
        }
        acc
    }

    /// The fixed total capacity.
    pub fn capacity(&self) -> (r: usize)
        ensures
            r == self.capacity,
    {
        self.capacity
    }

    /// The fixed shard count.
    pub fn shards(&self) -> (r: usize)
        ensures
            r == self.shards@.len(),
    {
        self.shards.len()
    }
}

/// Order-independent accumulation of the engine's construction parameters,
/// consumed by a single `build` call.
pub struct CacheBuilder {
    pub capacity: usize,
    pub shard_count: usize,
    pub config: EvictionConfig,
    pub name: Option<String>,
}

impl CacheBuilder {
    pub fn new(capacity: usize) -> (b: Self)
        ensures
            b.capacity == capacity,
            b.shard_count == DEFAULT_SHARD_COUNT,
            b.config == EvictionConfig::Lru(LruConfig { high_priority_pool_ratio: 100 }),
            b.name is None,
    {
        CacheBuilder {
            capacity,
            shard_count: DEFAULT_SHARD_COUNT,
            config: EvictionConfig::Lru(LruConfig::default()),
            name: None,
        }
    }

    pub fn with_name(self, name: String) -> (b: Self)
        ensures
            b.capacity == self.capacity,
            b.shard_count == self.shard_count,
            b.config == self.config,
            b.name == Some(name),
    {
        CacheBuilder { name: Some(name), ..self }
    }

    pub fn with_shards(self, shard_count: usize) -> (b: Self)
        ensures
            b.capacity == self.capacity,
            b.shard_count == shard_count,
            b.config == self.config,
            b.name == self.name,
    {
        CacheBuilder { shard_count, ..self }
    }

    pub fn with_eviction_config(self, config: EvictionConfig) -> (b: Self)
        ensures
            b.capacity == self.capacity,
            b.shard_count == self.shard_count,
            b.config == config,
            b.name == self.name,
    {
        CacheBuilder { config, ..self }
    }

    pub fn build(self) -> (r: Result<CacheEngine, CacheError>)
        ensures
            match r {
                Ok(e) => {
                    &&& self.shard_count != 0
                    &&& self.config.valid()
                    &&& e.wf()
                    &&& e.capacity == self.capacity
                    &&& e.shards@.len() == self.shard_count
                    &&& e.usage_spec() == 0
                    &&& (forall|k: Seq<u8>| !e.contains_spec(k))
                    &&& e.name == self.name
                    &&& (forall|i: int| #![auto]
                        0 <= i < self.shard_count ==> e.shards@[i].capacity_spec()
                            == split_capacity(
                            self.capacity as nat,
                            self.shard_count as nat,
                            i,
                        ) && e.shards@[i].runs(
                            self.config,
                            split_capacity(self.capacity as nat, self.shard_count as nat, i),
                        ))
                },
                Err(er) => {
                    &&& er == CacheError::ConfigError
                    &&& (self.shard_count == 0 || !self.config.valid())
                },
            },
    {
        CacheEngine::construct(self.capacity, self.shard_count, self.config, self.name)
    }
}

} // verus!
