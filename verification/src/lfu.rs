//! Window/protected LFU eviction (TinyLFU style): new entries start in a
//! window segment; under pressure the window candidate is admitted to the
//! probation segment when it has room, and otherwise must beat the probation
//! tail's sketch frequency to displace it — ties favour the incumbent.
//! Touches promote probation entries to the protected segment, whose
//! overflow demotes back to probation. Eviction never touches the protected
//! segment while the window or probation segment still holds an entry.

use vstd::prelude::*;

use crate::sketch::FrequencySketch;
use crate::types::{
    copy_bytes, distinct_keys_e, find_entry, has_key_e, kv_weight, lemma_insert_preserves_e,
    lemma_key_index_unique_e, lemma_remove_preserves_e, lemma_weight_sum_concat_e,
    lemma_weight_sum_insert_e, lemma_weight_sum_remove_e, value_at_e, weight_sum_e, CacheEntry,
    CacheError,
};

verus! {

/// One shard's state under the LFU policy.
pub struct LfuShard {
    pub window: Vec<CacheEntry>,
    pub probation: Vec<CacheEntry>,
    pub protected: Vec<CacheEntry>,
    pub sketch: FrequencySketch,
    pub usage: usize,
    pub window_usage: usize,
    pub probation_usage: usize,
    pub protected_usage: usize,
    pub capacity: usize,
    pub window_capacity: usize,
    pub probation_capacity: usize,
    pub protected_capacity: usize,
}

impl LfuShard {
    /// All live entries: window, then probation, then protected.
    pub open spec fn live(self) -> Seq<CacheEntry> {
        self.window@ + self.probation@ + self.protected@
    }

    pub open spec fn wf(self) -> bool {
        &&& distinct_keys_e(self.live())
        &&& self.usage == weight_sum_e(self.live())
        &&& self.usage <= self.capacity
        &&& self.window_usage == weight_sum_e(self.window@)
        &&& self.probation_usage == weight_sum_e(self.probation@)
        &&& self.protected_usage == weight_sum_e(self.protected@)
        &&& self.protected_usage <= self.protected_capacity
        &&& self.window_capacity <= self.capacity
        &&& self.probation_capacity <= self.capacity
        &&& self.protected_capacity <= self.capacity
        &&& self.sketch.wf()
    }

    pub open spec fn contains_spec(self, k: Seq<u8>) -> bool {
        has_key_e(self.live(), k)
    }

    pub open spec fn value_spec(self, k: Seq<u8>) -> Seq<u8> {
        value_at_e(self.live(), k)
    }

    pub fn new(
        capacity: usize,
        window_capacity: usize,
        probation_capacity: usize,
        protected_capacity: usize,
        sketch_width: usize,
        sketch_depth: usize,
        sketch_sample: usize,
    ) -> (s: Self)
        requires
            window_capacity <= capacity,
            probation_capacity <= capacity,
            protected_capacity <= capacity,
            sketch_width > 0,
            0 < sketch_depth <= 16,
            sketch_sample > 0,
        ensures
            s.wf(),
            s.capacity == capacity,
            s.window_capacity == window_capacity,
            s.probation_capacity == probation_capacity,
            s.protected_capacity == protected_capacity,
            s.usage == 0,
            s.live().len() == 0,
    {
        let s = LfuShard {
            window: Vec::new(),
            probation: Vec::new(),
            protected: Vec::new(),
            sketch: FrequencySketch::new(sketch_width, sketch_depth, sketch_sample),
            usage: 0,
            window_usage: 0,
            probation_usage: 0,
            protected_usage: 0,
            capacity,
            window_capacity,
            probation_capacity,
            protected_capacity,
        };
        proof {
            assert(s.live() =~= Seq::<CacheEntry>::empty());
        }
        s
    }

    proof fn lemma_miss(self, k: Seq<u8>)
        requires
            !has_key_e(self.window@, k),
            !has_key_e(self.probation@, k),
            !has_key_e(self.protected@, k),
        ensures
            !self.contains_spec(k),
    {
        if has_key_e(self.live(), k) {
            let j = choose|j: int| 0 <= j < self.live().len() && self.live()[j].key@ == k;
            let wl = self.window@.len() as int;
            let pl = self.probation@.len() as int;
            if j < wl {
                assert(self.live()[j] == self.window@[j]);
            } else if j < wl + pl {
                assert(self.live()[j] == self.probation@[j - wl]);
            } else {
                assert(self.live()[j] == self.protected@[j - wl - pl]);
            }
        }
    }

    pub fn contains(&self, key: &Vec<u8>) -> (r: bool)
        ensures
            r == self.contains_spec(key@),
    {
        let ghost live0 = self.live();
        match find_entry(&self.window, key) {
            Some(i) => {
                proof {
                    assert(live0[i as int] == self.window@[i as int]);
                }
                true
            },
            None => match find_entry(&self.probation, key) {
                Some(i) => {
                    proof {
                        assert(live0[self.window@.len() + i] == self.probation@[i as int]);
                    }
                    true
                },
                None => match find_entry(&self.protected, key) {
                    Some(i) => {
                        proof {
                            assert(live0[self.window@.len() + self.probation@.len() + i]
                                == self.protected@[i as int]);
                        }
                        true
                    },
                    None => {
                        proof {
                            self.lemma_miss(key@);
                        }
                        false
                    },
                },
            },
        }
    }

    /// Lookup with touch-on-access: a hit is recorded in the sketch; a
    /// window hit refreshes window recency, a probation hit promotes the
    /// entry to the protected head (demoting protected tails while the
    /// protected segment is over its reserved capacity), a protected hit
    /// refreshes protected recency. Membership, values and usage are
    /// unchanged.
    #[verifier::rlimit(100)]
    pub fn get(&mut self, key: &Vec<u8>) -> (r: Option<CacheEntry>)
        requires
            old(self).wf(),
        ensures
            final(self).wf(),
            final(self).capacity == old(self).capacity,
            final(self).window_capacity == old(self).window_capacity,
            final(self).probation_capacity == old(self).probation_capacity,
            final(self).protected_capacity == old(self).protected_capacity,
            final(self).usage == old(self).usage,
            forall|k: Seq<u8>| #![auto]
                final(self).contains_spec(k) == old(self).contains_spec(k),
            forall|k: Seq<u8>| #![auto]
                old(self).contains_spec(k) ==> final(self).value_spec(k) == old(
                    self,
                ).value_spec(k),
            match r {
                Some(e) => old(self).contains_spec(key@) && e.key@ == key@ && e.value@ == old(
                    self,
                ).value_spec(key@),
                None => !old(self).contains_spec(key@),
            },
            (r is Some && !has_key_e(old(self).window@, key@) && kv_weight(
                key@,
                old(self).value_spec(key@),
            ) <= old(self).protected_capacity) ==> has_key_e(final(self).protected@, key@),
            old(self).contains_spec(key@) ==> crate::sketch::sketch_touched(
                old(self).sketch,
                final(self).sketch,
                key@,
            ),
            !old(self).contains_spec(key@) ==> final(self).sketch == old(self).sketch,
    {
        let ghost live0 = self.live();
        match find_entry(&self.window, key) {
            Some(i) => {
                proof {
                    assert(live0[i as int] == self.window@[i as int]);
                    assert(has_key_e(self.window@, key@));
                    lemma_key_index_unique_e(live0, i as int, key@);
                    lemma_remove_preserves_e(live0, i as int);
                    lemma_weight_sum_remove_e(live0, i as int);
                    lemma_weight_sum_remove_e(self.window@, i as int);
                }
                let e = self.window.remove(i);
                let ghost ge = e;
                let ghost live1 = self.live();
                proof {
                    assert(live1 =~= live0.remove(i as int));
                    lemma_insert_preserves_e(live1, 0, ge);
                    lemma_weight_sum_insert_e(live1, 0, ge);
                    lemma_weight_sum_insert_e(self.window@, 0, ge);
                }
                let rk = copy_bytes(&e.key);
                let rv = copy_bytes(&e.value);
                self.window.insert(0, e);
                self.sketch.increment(key);
                proof {
                    assert(self.live() =~= live1.insert(0, ge));
                }
                Some(CacheEntry { key: rk, value: rv })
            },
            None => match find_entry(&self.probation, key) {
                Some(i) => {
                    let ghost j = self.window@.len() + i;
                    proof {
                        assert(live0[j] == self.probation@[i as int]);
                        lemma_key_index_unique_e(live0, j, key@);
                        lemma_remove_preserves_e(live0, j);
                        lemma_weight_sum_remove_e(live0, j);
                        lemma_weight_sum_remove_e(self.probation@, i as int);
                        lemma_weight_sum_concat_e(self.window@ + self.probation@, self.protected@);
                        lemma_weight_sum_concat_e(self.window@, self.probation@);
                    }
                    let e = self.probation.remove(i);
                    let ghost ge = e;
                    let w = e.key.len() + e.value.len();
                    self.probation_usage = self.probation_usage - w;
                    let ghost live1 = self.live();
                    let ghost pp = self.window@.len() + self.probation@.len();
                    proof {
                        assert(live1 =~= live0.remove(j));
                        lemma_insert_preserves_e(live1, pp as int, ge);
                        lemma_weight_sum_insert_e(live1, pp as int, ge);
                        lemma_weight_sum_insert_e(self.protected@, 0, ge);
                    }
                    let rk = copy_bytes(&e.key);
                    let rv = copy_bytes(&e.value);
                    self.protected.insert(0, e);
                    self.protected_usage = self.protected_usage + w;
                    self.sketch.increment(key);
                    proof {
                        assert(self.live() =~= live1.insert(pp as int, ge));
                        assert(self.protected@[0] == ge);
                    }
                    self.rebalance();
                    proof {
                        if kv_weight(key@, ge.value@) <= self.protected_capacity {
                            assert(ge.weight_spec() <= self.protected_capacity);
                            assert(self.protected@[0] == ge);
                            assert(has_key_e(self.protected@, key@));
                        }
                    }
                    Some(CacheEntry { key: rk, value: rv })
                },
                None => match find_entry(&self.protected, key) {
                    Some(i) => {
                        let ghost j = self.window@.len() + self.probation@.len() + i;
                        proof {
                            assert(live0[j] == self.protected@[i as int]);
                            lemma_key_index_unique_e(live0, j, key@);
                            lemma_remove_preserves_e(live0, j);
                            lemma_weight_sum_remove_e(live0, j);
                            lemma_weight_sum_remove_e(self.protected@, i as int);
                        }
                        let e = self.protected.remove(i);
                        let ghost ge = e;
                        let ghost live1 = self.live();
                        let ghost pp = self.window@.len() + self.probation@.len();
                        proof {
                            assert(live1 =~= live0.remove(j));
                            lemma_insert_preserves_e(live1, pp as int, ge);
                            lemma_weight_sum_insert_e(live1, pp as int, ge);
                            lemma_weight_sum_insert_e(self.protected@, 0, ge);
                        }
                        let rk = copy_bytes(&e.key);
                        let rv = copy_bytes(&e.value);
                        self.protected.insert(0, e);
                        self.sketch.increment(key);
                        proof {
                            assert(self.live() =~= live1.insert(pp as int, ge));
                            assert(self.protected@[0] == ge);
                            assert(has_key_e(self.protected@, key@));
                        }
                        Some(CacheEntry { key: rk, value: rv })
                    },
                    None => {
                        proof {
                            self.lemma_miss(key@);
                        }
                        None
                    },
                },
            },
        }
    }

    /// Demotes protected tails to the probation head until the protected
    /// segment fits its reserved capacity again.
    fn rebalance(&mut self)
        requires
            distinct_keys_e(old(self).live()),
            old(self).usage == weight_sum_e(old(self).live()),
            old(self).usage <= old(self).capacity,
            old(self).window_usage == weight_sum_e(old(self).window@),
            old(self).probation_usage == weight_sum_e(old(self).probation@),
            old(self).protected_usage == weight_sum_e(old(self).protected@),
            old(self).window_capacity <= old(self).capacity,
            old(self).probation_capacity <= old(self).capacity,
            old(self).protected_capacity <= old(self).capacity,
            old(self).sketch.wf(),
        ensures
            final(self).wf(),
            final(self).capacity == old(self).capacity,
            final(self).window_capacity == old(self).window_capacity,
            final(self).probation_capacity == old(self).probation_capacity,
            final(self).protected_capacity == old(self).protected_capacity,
            final(self).usage == old(self).usage,
            final(self).window@ == old(self).window@,
            forall|k: Seq<u8>| #![auto]
                final(self).contains_spec(k) == old(self).contains_spec(k),
            forall|k: Seq<u8>| #![auto]
                old(self).contains_spec(k) ==> final(self).value_spec(k) == old(
                    self,
                ).value_spec(k),
            final(self).sketch == old(self).sketch,
            (old(self).protected@.len() > 0
                && old(self).protected@[0].weight_spec() <= old(self).protected_capacity)
                ==> final(self).protected@.len() > 0
                && final(self).protected@[0] == old(self).protected@[0],
    {
        let ghost orig = *old(self);
        let ghost keephead = orig.protected@.len() > 0
            && orig.protected@[0].weight_spec() <= orig.protected_capacity;
        while self.protected_usage > self.protected_capacity
            invariant
                distinct_keys_e(self.live()),
                self.usage == weight_sum_e(self.live()),
                self.usage == orig.usage,
                self.capacity == orig.capacity,
                self.window_capacity == orig.window_capacity,
                self.probation_capacity == orig.probation_capacity,
                self.protected_capacity == orig.protected_capacity,
                self.usage <= self.capacity,
                self.window@ == orig.window@,
                self.window_usage == orig.window_usage,
                self.window_usage == weight_sum_e(self.window@),
                self.probation_usage == weight_sum_e(self.probation@),
                self.protected_usage == weight_sum_e(self.protected@),
                self.sketch == orig.sketch,
                self.sketch.wf(),
                keephead == (orig.protected@.len() > 0
                    && orig.protected@[0].weight_spec() <= orig.protected_capacity),
                keephead ==> self.protected@.len() > 0
                    && self.protected@[0] == orig.protected@[0],
                forall|k: Seq<u8>| #![auto]
                    has_key_e(self.live(), k) == has_key_e(orig.live(), k),
                forall|k: Seq<u8>| #![auto]
                    has_key_e(orig.live(), k) ==> value_at_e(self.live(), k) == value_at_e(
                        orig.live(),
                        k,
                    ),
            decreases self.protected@.len(),
        {
            proof {
                if self.protected@.len() == 0 {
                    assert(false);
                }
                if keephead && self.protected@.len() == 1 {
                    assert(self.protected@.last() == self.protected@[0]);
                    assert(weight_sum_e(self.protected@.drop_last()) == 0);
                    assert(false);
                }
            }
            let ghost live0 = self.live();
            let j = self.protected.len() - 1;
            let ghost lj = self.window@.len() + self.probation@.len() + j;
            proof {
                assert(live0[lj] == self.protected@[j as int]);
                lemma_key_index_unique_e(live0, lj, live0[lj].key@);
                lemma_remove_preserves_e(live0, lj);
                lemma_weight_sum_remove_e(live0, lj);
                lemma_weight_sum_remove_e(self.protected@, j as int);
                lemma_weight_sum_concat_e(self.window@ + self.probation@, self.protected@);
                lemma_weight_sum_concat_e(self.window@, self.probation@);
            }
            let e = self.protected.remove(j);
            let ghost ge = e;
            let w = e.key.len() + e.value.len();
            self.protected_usage = self.protected_usage - w;
            let ghost live1 = self.live();
            let ghost wl = self.window@.len() as int;
            proof {
                assert(live1 =~= live0.remove(lj));
                lemma_insert_preserves_e(live1, wl, ge);
                lemma_weight_sum_insert_e(live1, wl, ge);
                lemma_weight_sum_insert_e(self.probation@, 0, ge);
            }
            self.probation.insert(0, e);
            self.probation_usage = self.probation_usage + w;
            proof {
                assert(self.live() =~= live1.insert(wl, ge));
                if keephead {
                    assert(self.protected@[0] == orig.protected@[0]);
                }
            }
        }
    }

    pub fn remove(&mut self, key: &Vec<u8>) -> (r: Option<CacheEntry>)
        requires
            old(self).wf(),
        ensures
            final(self).wf(),
            final(self).capacity == old(self).capacity,
            final(self).window_capacity == old(self).window_capacity,
            final(self).probation_capacity == old(self).probation_capacity,
            final(self).protected_capacity == old(self).protected_capacity,
            match r {
                Some(e) => {
                    &&& old(self).contains_spec(key@)
                    &&& e.key@ == key@
                    &&& e.value@ == old(self).value_spec(key@)
                    &&& !final(self).contains_spec(key@)
                    &&& final(self).usage + e.weight_spec() == old(self).usage
                },
                None => !old(self).contains_spec(key@) && *final(self) == *old(self),
            },
            forall|k: Seq<u8>| #![auto]
                k != key@ ==> final(self).contains_spec(k) == old(self).contains_spec(k),
            forall|k: Seq<u8>| #![auto]
                k != key@ && old(self).contains_spec(k) ==> final(self).value_spec(k) == old(
                    self,
                ).value_spec(k),
            final(self).sketch == old(self).sketch,
    {
        let ghost live0 = self.live();
        match find_entry(&self.window, key) {
            Some(i) => {
                proof {
                    assert(live0[i as int] == self.window@[i as int]);
                    lemma_key_index_unique_e(live0, i as int, key@);
                    lemma_remove_preserves_e(live0, i as int);
                    lemma_weight_sum_remove_e(live0, i as int);
                    lemma_weight_sum_remove_e(self.window@, i as int);
                }
                let e = self.window.remove(i);
                let w = e.key.len() + e.value.len();
                self.usage = self.usage - w;
                self.window_usage = self.window_usage - w;
                proof {
                    assert(self.live() =~= live0.remove(i as int));
                }
                Some(e)
            },
            None => match find_entry(&self.probation, key) {
                Some(i) => {
                    let ghost j = self.window@.len() + i;
                    proof {
                        assert(live0[j] == self.probation@[i as int]);
                        lemma_key_index_unique_e(live0, j, key@);
                        lemma_remove_preserves_e(live0, j);
                        lemma_weight_sum_remove_e(live0, j);
                        lemma_weight_sum_remove_e(self.probation@, i as int);
                    }
                    let e = self.probation.remove(i);
                    let w = e.key.len() + e.value.len();
                    self.usage = self.usage - w;
                    self.probation_usage = self.probation_usage - w;
                    proof {
                        assert(self.live() =~= live0.remove(j));
                    }
                    Some(e)
                },
                None => match find_entry(&self.protected, key) {
                    Some(i) => {
                        let ghost j = self.window@.len() + self.probation@.len() + i;
                        proof {
                            assert(live0[j] == self.protected@[i as int]);
                            lemma_key_index_unique_e(live0, j, key@);
                            lemma_remove_preserves_e(live0, j);
                            lemma_weight_sum_remove_e(live0, j);
                            lemma_weight_sum_remove_e(self.protected@, i as int);
                        }
                        let e = self.protected.remove(i);
                        let w = e.key.len() + e.value.len();
                        self.usage = self.usage - w;
                        self.protected_usage = self.protected_usage - w;
                        proof {
                            assert(self.live() =~= live0.remove(j));
                        }
                        Some(e)
                    },
                    None => {
                        proof {
                            self.lemma_miss(key@);
                        }
                        None
                    },
                },
            },
        }
    }

    pub fn clear(&mut self)
        requires
            old(self).wf(),
        ensures
            final(self).wf(),
            final(self).capacity == old(self).capacity,
            final(self).window_capacity == old(self).window_capacity,
            final(self).probation_capacity == old(self).probation_capacity,
            final(self).protected_capacity == old(self).protected_capacity,
            final(self).usage == 0,
            forall|k: Seq<u8>| !final(self).contains_spec(k),
    {
        self.window.clear();
        self.probation.clear();
        self.protected.clear();
        self.usage = 0;
        self.window_usage = 0;
        self.probation_usage = 0;
        self.protected_usage = 0;
        proof {
            assert(self.live() =~= Seq::<CacheEntry>::empty());
        }
    }

    /// One step of eviction pressure. Either evicts exactly one entry, or
    /// moves the window candidate into probation without evicting. The
    /// protected segment is never touched while the window or probation
    /// segment holds an entry, and a window candidate that does not beat the
    /// probation tail's sketch frequency (ties favour the incumbent) is the
    /// entry evicted.
    #[verifier::rlimit(100)]
    pub fn evict_one(&mut self) -> (victim: Option<CacheEntry>)
        requires
            old(self).wf(),
            old(self).live().len() > 0,
        ensures
            final(self).wf(),
            final(self).capacity == old(self).capacity,
            final(self).window_capacity == old(self).window_capacity,
            final(self).probation_capacity == old(self).probation_capacity,
            final(self).protected_capacity == old(self).protected_capacity,
            match victim {
                Some(e) => {
                    &&& final(self).live().len() == old(self).live().len() - 1
                    &&& final(self).usage + e.weight_spec() == old(self).usage
                    &&& old(self).contains_spec(e.key@)
                    &&& e.value@ == old(self).value_spec(e.key@)
                    &&& !final(self).contains_spec(e.key@)
                },
                None => {
                    &&& final(self).live().len() == old(self).live().len()
                    &&& final(self).window@.len() < old(self).window@.len()
                    &&& final(self).usage == old(self).usage
                },
            },
            forall|k: Seq<u8>| #![auto]
                final(self).contains_spec(k) ==> old(self).contains_spec(k)
                    && final(self).value_spec(k) == old(self).value_spec(k),
            final(self).sketch == old(self).sketch,
            (old(self).probation@.len() > 0 || old(self).window@.len() > 0)
                ==> final(self).protected@ == old(self).protected@,
            (old(self).window@.len() > 0 && old(self).window_usage > old(self).window_capacity
                && old(self).probation@.len() > 0 && !(old(self).probation_usage <= old(
                self,
            ).probation_capacity && old(self).window@.last().weight_spec() <= old(
                self,
            ).probation_capacity - old(self).probation_usage) && old(self).sketch.estimate_spec(
                old(self).window@.last().key@,
            ) <= old(self).sketch.estimate_spec(old(self).probation@.last().key@)) ==> {
                &&& victim == Some(old(self).window@.last())
                &&& final(self).probation@ == old(self).probation@
                &&& final(self).window@ == old(self).window@.drop_last()
            },
    {
        let ghost live0 = self.live();
        if self.window.len() > 0 && self.window_usage > self.window_capacity {
            // The window is over its share: its tail is the admission
            // candidate.
            let wi = self.window.len() - 1;
            proof {
                assert(live0[wi as int] == self.window@[wi as int]);
                lemma_key_index_unique_e(live0, wi as int, live0[wi as int].key@);
                lemma_remove_preserves_e(live0, wi as int);
                lemma_weight_sum_remove_e(live0, wi as int);
                lemma_weight_sum_remove_e(self.window@, wi as int);
            }
            let cand = self.window.remove(wi);
            let ghost gc = cand;
            let cw = cand.key.len() + cand.value.len();
            self.window_usage = self.window_usage - cw;
            let ghost live1 = self.live();
            let ghost wl = self.window@.len() as int;
            proof {
                assert(live1 =~= live0.remove(wi as int));
            }
            if self.probation_usage <= self.probation_capacity && cw <= self.probation_capacity
                - self.probation_usage {
                // Room in probation: admit without eviction.
                proof {
                    lemma_insert_preserves_e(live1, wl, gc);
                    lemma_weight_sum_insert_e(live1, wl, gc);
                    lemma_weight_sum_insert_e(self.probation@, 0, gc);
                }
                self.probation.insert(0, cand);
                self.probation_usage = self.probation_usage + cw;
                proof {
                    assert(self.live() =~= live1.insert(wl, gc));
                    assert forall|k: Seq<u8>| #![auto]
                        has_key_e(self.live(), k) implies has_key_e(live0, k) && value_at_e(
                        self.live(),
                        k,
                    ) == value_at_e(live0, k) by {
                        if k == gc.key@ {
                            lemma_key_index_unique_e(live0, wi as int, k);
                        }
                    }
                }
                None
            } else if self.probation.len() == 0 {
                // No probation incumbent to compare against and no room: the
                // candidate itself is evicted.
                self.usage = self.usage - cw;
                Some(cand)
            } else {
                let fc = self.sketch.estimate(&cand.key);
                let ii = self.probation.len() - 1;
                let fi = self.sketch.estimate(&self.probation[ii].key);
                if fc > fi {
                    // The candidate wins: the probation tail is evicted and
                    // the candidate takes its place.
                    let ghost lj = wl + ii;
                    proof {
                        assert(live1[lj] == self.probation@[ii as int]);
                        lemma_key_index_unique_e(live1, lj, live1[lj].key@);
                        lemma_remove_preserves_e(live1, lj);
                        lemma_weight_sum_remove_e(live1, lj);
                        lemma_weight_sum_remove_e(self.probation@, ii as int);
                    }
                    let inc = self.probation.remove(ii);
                    let iw = inc.key.len() + inc.value.len();
                    self.usage = self.usage - iw;
                    self.probation_usage = self.probation_usage - iw;
                    let ghost live2 = self.live();
                    proof {
                        assert(live2 =~= live1.remove(lj));
                        lemma_insert_preserves_e(live2, wl, gc);
                        lemma_weight_sum_insert_e(live2, wl, gc);
                        lemma_weight_sum_insert_e(self.probation@, 0, gc);
                        lemma_weight_sum_concat_e(
                            self.window@ + self.probation@,
                            self.protected@,
                        );
                        lemma_weight_sum_concat_e(self.window@, self.probation@);
                    }
                    self.probation.insert(0, cand);
                    self.probation_usage = self.probation_usage + cw;
                    proof {
                        assert(self.live() =~= live2.insert(wl, gc));
                        assert forall|k: Seq<u8>| #![auto]
                            has_key_e(self.live(), k) implies has_key_e(live0, k) && value_at_e(
                            self.live(),
                            k,
                        ) == value_at_e(live0, k) by {
                            if k == gc.key@ {
                                lemma_key_index_unique_e(live0, wi as int, k);
                            }
                        }
                    }
                    Some(inc)
                } else {
                    // Ties favour the incumbent: the newcomer is evicted.
                    self.usage = self.usage - cw;
                    Some(cand)
                }
            }
        } else if self.probation.len() > 0 {
            let ii = self.probation.len() - 1;
            let ghost lj = self.window@.len() + ii;
            proof {
                assert(live0[lj] == self.probation@[ii as int]);
                lemma_key_index_unique_e(live0, lj, live0[lj].key@);
                lemma_remove_preserves_e(live0, lj);
                lemma_weight_sum_remove_e(live0, lj);
                lemma_weight_sum_remove_e(self.probation@, ii as int);
            }
            let e = self.probation.remove(ii);
            let w = e.key.len() + e.value.len();
            self.usage = self.usage - w;
            self.probation_usage = self.probation_usage - w;
            proof {
                assert(self.live() =~= live0.remove(lj));
            }
            Some(e)
        } else if self.window.len() > 0 {
            let wi = self.window.len() - 1;
            proof {
                assert(live0[wi as int] == self.window@[wi as int]);
                lemma_key_index_unique_e(live0, wi as int, live0[wi as int].key@);
                lemma_remove_preserves_e(live0, wi as int);
                lemma_weight_sum_remove_e(live0, wi as int);
                lemma_weight_sum_remove_e(self.window@, wi as int);
            }
            let e = self.window.remove(wi);
            let w = e.key.len() + e.value.len();
            self.usage = self.usage - w;
            self.window_usage = self.window_usage - w;
            proof {
                assert(self.live() =~= live0.remove(wi as int));
            }
            Some(e)
        } else {
            // Only the protected segment holds entries.
            proof {
                assert(live0 =~= self.protected@);
            }
            let pi = self.protected.len() - 1;
            let ghost lj = self.window@.len() + self.probation@.len() + pi;
            proof {
                assert(live0[lj] == self.protected@[pi as int]);
                lemma_key_index_unique_e(live0, lj, live0[lj].key@);
                lemma_remove_preserves_e(live0, lj);
                lemma_weight_sum_remove_e(live0, lj);
                lemma_weight_sum_remove_e(self.protected@, pi as int);
            }
            let e = self.protected.remove(pi);
            let w = e.key.len() + e.value.len();
            self.usage = self.usage - w;
            self.protected_usage = self.protected_usage - w;
            proof {
                assert(self.live() =~= live0.remove(lj));
            }
            Some(e)
        }
    }

    pub fn insert(&mut self, key: Vec<u8>, value: Vec<u8>) -> (r: Result<CacheEntry, CacheError>)
        requires
            old(self).wf(),
        ensures
            final(self).wf(),
            final(self).capacity == old(self).capacity,
            final(self).window_capacity == old(self).window_capacity,
            final(self).probation_capacity == old(self).probation_capacity,
            final(self).protected_capacity == old(self).protected_capacity,
            match r {
                Ok(e) => {
                    &&& kv_weight(key@, value@) <= old(self).capacity
                    &&& e.key@ == key@
                    &&& e.value@ == value@
                    &&& final(self).contains_spec(key@)
                    &&& final(self).value_spec(key@) == value@
                    &&& (forall|k: Seq<u8>| #![auto]
                        final(self).contains_spec(k) && k != key@ ==> old(self).contains_spec(k)
                            && final(self).value_spec(k) == old(self).value_spec(k))
                },
                Err(er) => {
                    &&& er == CacheError::OversizedEntry
                    &&& kv_weight(key@, value@) > old(self).capacity
                    &&& *final(self) == *old(self)
                },
            },
            (!old(self).contains_spec(key@) && kv_weight(key@, value@) + old(
                self,
            ).protected_usage <= old(self).capacity) ==> final(self).protected@ == old(
                self,
            ).protected@,
            r is Ok ==> crate::sketch::sketch_touched(
                old(self).sketch,
                final(self).sketch,
                key@,
            ),
    {
        if key.len() > self.capacity || value.len() > self.capacity - key.len() {
            return Err(CacheError::OversizedEntry);
        }
        let w: usize = key.len() + value.len();
        let ghost hp = !old(self).contains_spec(key@) && kv_weight(key@, value@) + old(
            self,
        ).protected_usage <= old(self).capacity;
        let ghost prot0 = old(self).protected@;
        let ghost pu0 = old(self).protected_usage;
        match self.remove(&key) {
            Some(_) => {},
            None => {},
        }
        let ghost after_rm = *self;
        // An insert counts as one touch of the key.
        self.sketch.increment(&key);
        let ghost mid = *self;
        while w > self.capacity - self.usage
            invariant
                self.wf(),
                self.capacity == mid.capacity,
                self.window_capacity == mid.window_capacity,
                self.probation_capacity == mid.probation_capacity,
                self.protected_capacity == mid.protected_capacity,
                w == kv_weight(key@, value@),
                w <= self.capacity,
                !has_key_e(self.live(), key@),
                self.sketch == mid.sketch,
                hp ==> self.protected@ == prot0 && self.protected_usage == pu0 && w + pu0
                    <= self.capacity,
                forall|k: Seq<u8>| #![auto]
                    has_key_e(self.live(), k) ==> has_key_e(mid.live(), k) && value_at_e(
                        self.live(),
                        k,
                    ) == value_at_e(mid.live(), k),
            decreases self.live().len(), self.window@.len(),
        {
            proof {
                if self.live().len() == 0 {
                    assert(self.usage == 0);
                    assert(false);
                }
                if hp && self.window@.len() == 0 && self.probation@.len() == 0 {
                    lemma_weight_sum_concat_e(self.window@ + self.probation@, self.protected@);
                    lemma_weight_sum_concat_e(self.window@, self.probation@);
                    assert(self.usage == self.protected_usage);
                    assert(false);
                }
            }
            let ghost before = *self;
            let victim = self.evict_one();
            proof {
                assert forall|k: Seq<u8>| #![auto]
                    has_key_e(self.live(), k) implies has_key_e(mid.live(), k) && value_at_e(
                    self.live(),
                    k,
                ) == value_at_e(mid.live(), k) by {
                    assert(self.contains_spec(k));
                    assert(before.contains_spec(k));
                    assert(self.value_spec(k) == before.value_spec(k));
                    assert(has_key_e(mid.live(), k));
                }
                if has_key_e(self.live(), key@) {
                    assert(before.contains_spec(key@));
                    assert(false);
                }
                if hp {
                    assert(self.protected@ == prot0);
                    assert(self.protected_usage == weight_sum_e(self.protected@));
                }
            }
        }
        let handle_key = copy_bytes(&key);
        let handle_value = copy_bytes(&value);
        let ghost live0 = self.live();
        let ghost newe = CacheEntry { key, value };
        proof {
            lemma_weight_sum_concat_e(self.window@ + self.probation@, self.protected@);
            lemma_weight_sum_concat_e(self.window@, self.probation@);
            lemma_insert_preserves_e(live0, 0, newe);
            lemma_weight_sum_insert_e(live0, 0, newe);
            lemma_weight_sum_insert_e(self.window@, 0, newe);
        }
        self.window.insert(0, CacheEntry { key, value });
        self.window_usage = self.window_usage + w;
        self.usage = self.usage + w;
        proof {
            assert(self.live() =~= live0.insert(0, newe));
            assert(mid.live() == after_rm.live());
            assert forall|k: Seq<u8>| #![auto]
                has_key_e(self.live(), k) && k != key@ implies has_key_e(old(self).live(), k)
                && value_at_e(self.live(), k) == value_at_e(old(self).live(), k) by {
                assert(has_key_e(live0, k));
                assert(value_at_e(self.live(), k) == value_at_e(live0, k));
                assert(has_key_e(mid.live(), k));
                assert(value_at_e(live0, k) == value_at_e(mid.live(), k));
                assert(after_rm.contains_spec(k));
                assert(old(self).contains_spec(k));
                assert(value_at_e(after_rm.live(), k) == value_at_e(old(self).live(), k));
            }
        }
        Ok(CacheEntry { key: handle_key, value: handle_value })
    }

    pub fn usage(&self) -> (r: usize)
        ensures
            r == self.usage,
    {
        self.usage
    }

    pub fn capacity(&self) -> (r: usize)
        ensures
            r == self.capacity,
    {
        self.capacity
    }
}

} // verus!
