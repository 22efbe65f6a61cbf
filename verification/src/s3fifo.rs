//! S3-FIFO eviction: three queues, head first. New entries enter the small
//! queue with an 8-bit saturating frequency counter, seeded from the ghost
//! queue when the key was recently evicted. When the small queue is over its
//! ratio of capacity (or the main queue is empty), its head is promoted to
//! the main tail if its frequency reached the promotion threshold, else
//! demoted to the ghost queue (key and frequency only, no value) and evicted.
//! The main queue evicts with a clock scan: a head with positive frequency is
//! decremented and requeued, a head at zero is evicted. The ghost queue is
//! bounded by its own ratio and drops its oldest records first.

use vstd::prelude::*;

use crate::types::{
    bump, copy_bytes, distinct_keys_e, find_entry, find_vkey, freq_sum, has_key_e, has_vkey,
    key_index_e, key_len_sum, kv_weight, lemma_freq_sum_push, lemma_freq_sum_remove,
    lemma_insert_preserves_e, lemma_key_index_unique_e, lemma_key_len_sum_push,
    lemma_key_len_sum_remove, lemma_push_preserves_e, lemma_remove_preserves_e,
    lemma_subrange_preserves_e, lemma_weight_sum_concat_e, lemma_weight_sum_insert_e,
    lemma_weight_sum_push_e, lemma_weight_sum_remove_e, value_at_e, weight_sum_e, CacheEntry,
    CacheError,
};

verus! {

/// One shard's state under the S3-FIFO policy.
pub struct S3FifoShard {
    pub small: Vec<CacheEntry>,
    pub small_freqs: Vec<u8>,
    pub main: Vec<CacheEntry>,
    pub main_freqs: Vec<u8>,
    pub ghosts: Vec<Vec<u8>>,
    pub ghost_freqs: Vec<u8>,
    pub small_usage: usize,
    pub ghost_usage: usize,
    pub usage: usize,
    pub capacity: usize,
    pub small_capacity: usize,
    pub ghost_capacity: usize,
    pub freq_threshold: u8,
}

impl S3FifoShard {
    /// All live entries: the small queue, then the main queue. Ghost records
    /// are not live and are never returned by a lookup.
    pub open spec fn live(self) -> Seq<CacheEntry> {
        self.small@ + self.main@
    }

    pub open spec fn wf(self) -> bool {
        &&& distinct_keys_e(self.live())
        &&& self.usage == weight_sum_e(self.live())
        &&& self.usage <= self.capacity
        &&& self.small_usage == weight_sum_e(self.small@)
        &&& self.small_freqs@.len() == self.small@.len()
        &&& self.main_freqs@.len() == self.main@.len()
        &&& self.ghost_freqs@.len() == self.ghosts@.len()
        &&& self.ghost_usage == key_len_sum(self.ghosts@)
        &&& self.ghost_usage <= self.ghost_capacity
        &&& self.small_capacity <= self.capacity
    }

    pub open spec fn contains_spec(self, k: Seq<u8>) -> bool {
        has_key_e(self.live(), k)
    }

    pub open spec fn value_spec(self, k: Seq<u8>) -> Seq<u8> {
        value_at_e(self.live(), k)
    }

    /// Eviction pressure is answered from the small queue when it is over
    /// its own capacity, or when the main queue has nothing to offer.
    pub open spec fn small_eviction_due(self) -> bool {
        self.small@.len() > 0 && (self.small_usage > self.small_capacity || self.main@.len()
            == 0)
    }

    pub fn new(capacity: usize, small_capacity: usize, ghost_capacity: usize, freq_threshold: u8) -> (s: Self)
        requires
            small_capacity <= capacity,
        ensures
            s.wf(),
            s.capacity == capacity,
            s.small_capacity == small_capacity,
            s.ghost_capacity == ghost_capacity,
            s.freq_threshold == freq_threshold,
            s.usage == 0,
            s.live().len() == 0,
    {
        let s = S3FifoShard {
            small: Vec::new(),
            small_freqs: Vec::new(),
            main: Vec::new(),
            main_freqs: Vec::new(),
            ghosts: Vec::new(),
            ghost_freqs: Vec::new(),
            small_usage: 0,
            ghost_usage: 0,
            usage: 0,
            capacity,
            small_capacity,
            ghost_capacity,
            freq_threshold,
        };
        proof {
            assert(s.live() =~= Seq::<CacheEntry>::empty());
        }
        s
    }

    pub fn contains(&self, key: &Vec<u8>) -> (r: bool)
        ensures
            r == self.contains_spec(key@),
    {
        let ghost live0 = self.live();
        match find_entry(&self.small, key) {
            Some(i) => {
                proof {
                    assert(live0[i as int] == self.small@[i as int]);
                }
                true
            },
            None => match find_entry(&self.main, key) {
                Some(i) => {
                    proof {
                        assert(live0[self.small@.len() + i] == self.main@[i as int]);
                    }
                    true
                },
                None => {
                    proof {
                        if has_key_e(live0, key@) {
                            let j = choose|j: int| 0 <= j < live0.len() && live0[j].key@ == key@;
                            if j < self.small@.len() {
                                assert(live0[j] == self.small@[j]);
                            } else {
                                assert(live0[j] == self.main@[j - self.small@.len()]);
                            }
                        }
                    }
                    false
                },
            },
        }
    }

    /// Lookup with touch-on-access: a hit bumps the entry's saturating
    /// frequency counter. Queue contents, membership, values and usage are
    /// unchanged.
    pub fn get(&mut self, key: &Vec<u8>) -> (r: Option<CacheEntry>)
        requires
            old(self).wf(),
        ensures
            final(self).wf(),
            final(self).capacity == old(self).capacity,
            final(self).small_capacity == old(self).small_capacity,
            final(self).ghost_capacity == old(self).ghost_capacity,
            final(self).freq_threshold == old(self).freq_threshold,
            final(self).usage == old(self).usage,
            final(self).small@ == old(self).small@,
            final(self).main@ == old(self).main@,
            final(self).ghosts@ == old(self).ghosts@,
            forall|k: Seq<u8>| #![auto]
                final(self).contains_spec(k) == old(self).contains_spec(k),
            forall|k: Seq<u8>| #![auto]
                old(self).contains_spec(k) ==> final(self).value_spec(k) == old(
                    self,
                ).value_spec(k),
            match r {
                Some(e) => old(self).contains_spec(key@) && e.key@ == key@ && e.value@ == old(
                    self,
                ).value_spec(key@),
                None => !old(self).contains_spec(key@),
            },
            !old(self).contains_spec(key@) ==> final(self).small_freqs@ == old(self).small_freqs@
                && final(self).main_freqs@ == old(self).main_freqs@,
            has_key_e(old(self).small@, key@) ==> final(self).main_freqs@ == old(self).main_freqs@
                && final(self).small_freqs@ == old(self).small_freqs@.update(
                key_index_e(old(self).small@, key@),
                bump(old(self).small_freqs@[key_index_e(old(self).small@, key@)]),
            ),
            (!has_key_e(old(self).small@, key@) && has_key_e(old(self).main@, key@))
                ==> final(self).small_freqs@ == old(self).small_freqs@
                && final(self).main_freqs@ == old(self).main_freqs@.update(
                key_index_e(old(self).main@, key@),
                bump(old(self).main_freqs@[key_index_e(old(self).main@, key@)]),
            ),
    {
        let ghost live0 = self.live();
        match find_entry(&self.small, key) {
            Some(i) => {
                proof {
                    assert(live0[i as int] == self.small@[i as int]);
                    lemma_key_index_unique_e(live0, i as int, key@);
                    lemma_subrange_preserves_e(live0, 0, self.small@.len() as int);
                    assert(live0.subrange(0, self.small@.len() as int) =~= self.small@);
                    lemma_key_index_unique_e(self.small@, i as int, key@);
                    assert(has_key_e(self.small@, key@));
                }
                let f = self.small_freqs[i];
                if f < 255 {
                    self.small_freqs[i] = f + 1;
                }
                proof {
                    assert(self.small_freqs@ =~= old(self).small_freqs@.update(
                        i as int,
                        bump(f),
                    ));
                }
                let e = &self.small[i];
                Some(CacheEntry { key: copy_bytes(&e.key), value: copy_bytes(&e.value) })
            },
            None => match find_entry(&self.main, key) {
                Some(i) => {
                    proof {
                        assert(live0[self.small@.len() + i] == self.main@[i as int]);
                        lemma_key_index_unique_e(live0, self.small@.len() + i, key@);
                        lemma_subrange_preserves_e(
                            live0,
                            self.small@.len() as int,
                            live0.len() as int,
                        );
                        assert(live0.subrange(self.small@.len() as int, live0.len() as int)
                            =~= self.main@);
                        lemma_key_index_unique_e(self.main@, i as int, key@);
                        assert(has_key_e(self.main@, key@));
                    }
                    let f = self.main_freqs[i];
                    if f < 255 {
                        self.main_freqs[i] = f + 1;
                    }
                    proof {
                        assert(self.main_freqs@ =~= old(self).main_freqs@.update(
                            i as int,
                            bump(f),
                        ));
                    }
                    let e = &self.main[i];
                    Some(CacheEntry { key: copy_bytes(&e.key), value: copy_bytes(&e.value) })
                },
                None => {
                    proof {
                        if has_key_e(live0, key@) {
                            let j = choose|j: int| 0 <= j < live0.len() && live0[j].key@ == key@;
                            if j < self.small@.len() {
                                assert(live0[j] == self.small@[j]);
                            } else {
                                assert(live0[j] == self.main@[j - self.small@.len()]);
                            }
                        }
                    }
                    None
                },
            },
        }
    }

    pub fn remove(&mut self, key: &Vec<u8>) -> (r: Option<CacheEntry>)
        requires
            old(self).wf(),
        ensures
            final(self).wf(),
            final(self).capacity == old(self).capacity,
            final(self).small_capacity == old(self).small_capacity,
            final(self).ghost_capacity == old(self).ghost_capacity,
            final(self).freq_threshold == old(self).freq_threshold,
            match r {
                Some(e) => {
                    &&& old(self).contains_spec(key@)
                    &&& e.key@ == key@
                    &&& e.value@ == old(self).value_spec(key@)
                    &&& !final(self).contains_spec(key@)
                    &&& final(self).usage + e.weight_spec() == old(self).usage
                },
                None => !old(self).contains_spec(key@) && *final(self) == *old(self),
            },
            forall|k: Seq<u8>| #![auto]
                k != key@ ==> final(self).contains_spec(k) == old(self).contains_spec(k),
            forall|k: Seq<u8>| #![auto]
                k != key@ && old(self).contains_spec(k) ==> final(self).value_spec(k) == old(
                    self,
                ).value_spec(k),
            forall|k: Seq<u8>| #![auto]
                has_key_e(final(self).main@, k) ==> has_key_e(old(self).main@, k),
            forall|k: Seq<u8>| #![auto]
                has_key_e(final(self).small@, k) ==> has_key_e(old(self).small@, k),
    {
        let ghost live0 = self.live();
        match find_entry(&self.small, key) {
            Some(i) => {
                proof {
                    assert(live0[i as int] == self.small@[i as int]);
                    lemma_key_index_unique_e(live0, i as int, key@);
                    lemma_remove_preserves_e(live0, i as int);
                    lemma_weight_sum_remove_e(live0, i as int);
                    lemma_weight_sum_remove_e(self.small@, i as int);
                }
                let ghost sm0 = self.small@;
                let e = self.small.remove(i);
                let _f = self.small_freqs.remove(i);
                let w = e.key.len() + e.value.len();
                self.usage = self.usage - w;
                self.small_usage = self.small_usage - w;
                proof {
                    assert(self.live() =~= live0.remove(i as int));
                    assert forall|k: Seq<u8>| #![auto]
                        has_key_e(self.small@, k) implies has_key_e(sm0, k) by {
                        let x = choose|x: int|
                            0 <= x < self.small@.len() && self.small@[x].key@ == k;
                        if x < i {
                            assert(self.small@[x] == sm0[x]);
                        } else {
                            assert(self.small@[x] == sm0[x + 1]);
                        }
                    }
                }
                Some(e)
            },
            None => match find_entry(&self.main, key) {
                Some(i) => {
                    let ghost j = self.small@.len() + i;
                    proof {
                        assert(live0[j] == self.main@[i as int]);
                        lemma_key_index_unique_e(live0, j, key@);
                        lemma_remove_preserves_e(live0, j);
                        lemma_weight_sum_remove_e(live0, j);
                    }
                    let ghost mn0 = self.main@;
                    let e = self.main.remove(i);
                    let _f = self.main_freqs.remove(i);
                    let w = e.key.len() + e.value.len();
                    self.usage = self.usage - w;
                    proof {
                        assert(self.live() =~= live0.remove(j));
                        assert forall|k: Seq<u8>| #![auto]
                            has_key_e(self.main@, k) implies has_key_e(mn0, k) by {
                            let x = choose|x: int|
                                0 <= x < self.main@.len() && self.main@[x].key@ == k;
                            if x < i {
                                assert(self.main@[x] == mn0[x]);
                            } else {
                                assert(self.main@[x] == mn0[x + 1]);
                            }
                        }
                    }
                    Some(e)
                },
                None => {
                    proof {
                        if has_key_e(live0, key@) {
                            let j = choose|j: int| 0 <= j < live0.len() && live0[j].key@ == key@;
                            if j < self.small@.len() {
                                assert(live0[j] == self.small@[j]);
                            } else {
                                assert(live0[j] == self.main@[j - self.small@.len()]);
                            }
                        }
                    }
                    None
                },
            },
        }
    }

    pub fn clear(&mut self)
        requires
            old(self).small_capacity <= old(self).capacity,
        ensures
            final(self).wf(),
            final(self).capacity == old(self).capacity,
            final(self).small_capacity == old(self).small_capacity,
            final(self).ghost_capacity == old(self).ghost_capacity,
            final(self).freq_threshold == old(self).freq_threshold,
            final(self).usage == 0,
            forall|k: Seq<u8>| !final(self).contains_spec(k),
    {
        self.small.clear();
        self.small_freqs.clear();
        self.main.clear();
        self.main_freqs.clear();
        self.ghosts.clear();
        self.ghost_freqs.clear();
        self.small_usage = 0;
        self.ghost_usage = 0;
        self.usage = 0;
        proof {
            assert(self.live() =~= Seq::<CacheEntry>::empty());
        }
    }

    /// One step of eviction pressure. Either evicts exactly one entry
    /// (returned), or promotes the small head to the main tail without
    /// evicting. A small-queue head below the promotion threshold is demoted
    /// to the ghost queue and evicted, never promoted to the main queue.
    pub fn evict_one(&mut self) -> (victim: Option<CacheEntry>)
        requires
            old(self).wf(),
            old(self).live().len() > 0,
        ensures
            final(self).wf(),
            final(self).capacity == old(self).capacity,
            final(self).small_capacity == old(self).small_capacity,
            final(self).ghost_capacity == old(self).ghost_capacity,
            final(self).freq_threshold == old(self).freq_threshold,
            match victim {
                Some(e) => {
                    &&& final(self).live().len() == old(self).live().len() - 1
                    &&& final(self).usage + e.weight_spec() == old(self).usage
                    &&& old(self).contains_spec(e.key@)
                    &&& e.value@ == old(self).value_spec(e.key@)
                    &&& !final(self).contains_spec(e.key@)
                },
                None => {
                    &&& final(self).live().len() == old(self).live().len()
                    &&& final(self).small@.len() < old(self).small@.len()
                    &&& final(self).usage == old(self).usage
                },
            },
            forall|k: Seq<u8>| #![auto]
                final(self).contains_spec(k) ==> old(self).contains_spec(k)
                    && final(self).value_spec(k) == old(self).value_spec(k),
            (old(self).small_eviction_due() && old(self).small_freqs@[0] < old(self).freq_threshold)
                ==> {
                &&& victim == Some(old(self).small@[0])
                &&& final(self).main@ == old(self).main@
                &&& final(self).main_freqs@ == old(self).main_freqs@
                &&& final(self).small@ == old(self).small@.remove(0)
                &&& final(self).small_freqs@ == old(self).small_freqs@.remove(0)
                &&& (old(self).small@[0].key@.len() <= old(self).ghost_capacity ==> has_vkey(
                    final(self).ghosts@,
                    old(self).small@[0].key@,
                ))
            },
            (old(self).small_eviction_due() && old(self).small_freqs@[0] >= old(
                self,
            ).freq_threshold) ==> {
                &&& victim == None::<CacheEntry>
                &&& final(self).main@ == old(self).main@.push(old(self).small@[0])
                &&& final(self).main_freqs@ == old(self).main_freqs@.push(0)
                &&& final(self).small@ == old(self).small@.remove(0)
            },
            !old(self).small_eviction_due() ==> {
                &&& final(self).small@ == old(self).small@
                &&& final(self).small_freqs@ == old(self).small_freqs@
                &&& victim matches Some(_)
            },
            forall|k: Seq<u8>| #![auto]
                has_key_e(final(self).main@, k) ==> has_key_e(old(self).main@, k) || (old(
                    self,
                ).small_eviction_due() && old(self).small_freqs@[0] >= old(self).freq_threshold
                    && k == old(self).small@[0].key@),
    {
        let ghost live0 = self.live();
        let small_due = self.small.len() > 0 && (self.small_usage > self.small_capacity
            || self.main.len() == 0);
        if small_due {
            let f = self.small_freqs[0];
            if f >= self.freq_threshold {
                // Promotion: small head joins the main tail, frequency reset.
                proof {
                    assert(live0[0] == self.small@[0]);
                    lemma_remove_preserves_e(live0, 0);
                    lemma_weight_sum_remove_e(live0, 0);
                    lemma_weight_sum_remove_e(self.small@, 0);
                }
                let e = self.small.remove(0);
                let ghost ge = e;
                let _f0 = self.small_freqs.remove(0);
                let w = e.key.len() + e.value.len();
                self.small_usage = self.small_usage - w;
                let ghost live1 = self.live();
                proof {
                    assert(live1 =~= live0.remove(0));
                    lemma_push_preserves_e(live1, ge);
                    lemma_weight_sum_push_e(live1, ge);
                }
                self.main.push(e);
                self.main_freqs.push(0);
                proof {
                    assert(self.live() =~= live1.push(ge));
                    assert forall|k: Seq<u8>| #![auto]
                        has_key_e(self.live(), k) implies has_key_e(live0, k) && value_at_e(
                        self.live(),
                        k,
                    ) == value_at_e(live0, k) by {
                        if k == ge.key@ {
                            lemma_key_index_unique_e(live0, 0, k);
                        }
                    }
                }
                None
            } else {
                // Demotion: small head becomes a ghost record and is evicted.
                proof {
                    assert(live0[0] == self.small@[0]);
                    lemma_key_index_unique_e(live0, 0, live0[0].key@);
                    lemma_remove_preserves_e(live0, 0);
                    lemma_weight_sum_remove_e(live0, 0);
                    lemma_weight_sum_remove_e(self.small@, 0);
                }
                let e = self.small.remove(0);
                let _f0 = self.small_freqs.remove(0);
                let w = e.key.len() + e.value.len();
                self.small_usage = self.small_usage - w;
                self.usage = self.usage - w;
                proof {
                    assert(self.live() =~= live0.remove(0));
                }
                let klen = e.key.len();
                let ghost pre = *self;
                // Make room in the ghost queue, oldest records first.
                while self.ghost_usage > 0 && klen > self.ghost_capacity - self.ghost_usage
                    invariant
                        self.ghost_freqs@.len() == self.ghosts@.len(),
                        self.ghost_usage == key_len_sum(self.ghosts@),
                        self.ghost_usage <= self.ghost_capacity,
                        self.small@ == pre.small@,
                        self.small_freqs@ == pre.small_freqs@,
                        self.main@ == pre.main@,
                        self.main_freqs@ == pre.main_freqs@,
                        self.small_usage == pre.small_usage,
                        self.usage == pre.usage,
                        self.capacity == pre.capacity,
                        self.small_capacity == pre.small_capacity,
                        self.ghost_capacity == pre.ghost_capacity,
                        self.freq_threshold == pre.freq_threshold,
                    decreases self.ghosts@.len(),
                {
                    proof {
                        if self.ghosts@.len() == 0 {
                            assert(false);
                        }
                        lemma_key_len_sum_remove(self.ghosts@, 0);
                    }
                    let dropped = self.ghosts.remove(0);
                    let _df = self.ghost_freqs.remove(0);
                    self.ghost_usage = self.ghost_usage - dropped.len();
                }
                if klen <= self.ghost_capacity - self.ghost_usage {
                    let gk = copy_bytes(&e.key);
                    let ghost ggk = gk;
                    proof {
                        lemma_key_len_sum_push(self.ghosts@, ggk);
                    }
                    self.ghosts.push(gk);
                    self.ghost_freqs.push(_f0);
                    self.ghost_usage = self.ghost_usage + klen;
                    proof {
                        assert(self.ghosts@[self.ghosts@.len() - 1] == ggk);
                        assert(has_vkey(self.ghosts@, ggk@));
                    }
                } else {
                    proof {
                        assert(self.ghost_usage == 0);
                        assert(klen > self.ghost_capacity);
                    }
                }
                Some(e)
            }
        } else {
            // Main-queue eviction: clock scan from the head.
            proof {
                if self.small@.len() == 0 {
                    assert(live0 =~= self.main@);
                }
                assert(self.main@.len() > 0);
            }
            let ghost sl = self.small@.len() as int;
            let ghost pre = *self;
            while self.main_freqs[0] > 0
                invariant
                    self.main@.len() > 0,
                    self.small@ == pre.small@,
                    self.small_freqs@ == pre.small_freqs@,
                    self.small_usage == pre.small_usage,
                    self.usage == pre.usage,
                    self.capacity == pre.capacity,
                    self.small_capacity == pre.small_capacity,
                    self.ghost_capacity == pre.ghost_capacity,
                    self.freq_threshold == pre.freq_threshold,
                    self.ghosts@ == pre.ghosts@,
                    self.ghost_freqs@ == pre.ghost_freqs@,
                    self.ghost_usage == pre.ghost_usage,
                    self.main@.len() == pre.main@.len(),
                    sl == self.small@.len() as int,
                    self.main_freqs@.len() == self.main@.len(),
                    self.small_freqs@.len() == self.small@.len(),
                    distinct_keys_e(self.live()),
                    self.usage == weight_sum_e(self.live()),
                    self.usage <= self.capacity,
                    self.small_usage == weight_sum_e(self.small@),
                    self.ghost_usage == key_len_sum(self.ghosts@),
                    self.ghost_usage <= self.ghost_capacity,
                    self.small_capacity <= self.capacity,
                    forall|k: Seq<u8>| #![auto]
                        has_key_e(self.main@, k) ==> has_key_e(pre.main@, k),
                    forall|k: Seq<u8>| #![auto]
                        has_key_e(self.live(), k) ==> has_key_e(live0, k) && value_at_e(
                            self.live(),
                            k,
                        ) == value_at_e(live0, k),
                decreases freq_sum(self.main_freqs@),
            {
                let ghost livec = self.live();
                let ghost mc0 = self.main@;
                proof {
                    lemma_freq_sum_remove(self.main_freqs@, 0);
                    assert(livec[sl] == self.main@[0]);
                    lemma_remove_preserves_e(livec, sl);
                    lemma_weight_sum_remove_e(livec, sl);
                }
                let f = self.main_freqs.remove(0);
                let e = self.main.remove(0);
                let ghost ge = e;
                let ghost live1 = self.live();
                proof {
                    assert(live1 =~= livec.remove(sl));
                    lemma_push_preserves_e(live1, ge);
                    lemma_weight_sum_push_e(live1, ge);
                    lemma_freq_sum_push(self.main_freqs@, (f - 1) as u8);
                }
                self.main.push(e);
                self.main_freqs.push(f - 1);
                proof {
                    assert(self.live() =~= live1.push(ge));
                    assert forall|k: Seq<u8>| #![auto]
                        has_key_e(self.live(), k) implies has_key_e(live0, k) && value_at_e(
                        self.live(),
                        k,
                    ) == value_at_e(live0, k) by {
                        if k == ge.key@ {
                            lemma_key_index_unique_e(livec, sl, k);
                        }
                    }
                    assert forall|k: Seq<u8>| #![auto]
                        has_key_e(self.main@, k) implies has_key_e(mc0, k) by {
                        let j = choose|j: int|
                            0 <= j < self.main@.len() && self.main@[j].key@ == k;
                        if j < self.main@.len() - 1 {
                            assert(self.main@[j] == mc0[j + 1]);
                        } else {
                            assert(self.main@[j] == ge);
                            assert(ge == mc0[0]);
                        }
                    }
                }
            }
            // Head frequency is zero: evict it.
            let ghost livec = self.live();
            let ghost mc1 = self.main@;
            proof {
                assert(livec[sl] == self.main@[0]);
                lemma_key_index_unique_e(livec, sl, livec[sl].key@);
                lemma_remove_preserves_e(livec, sl);
                lemma_weight_sum_remove_e(livec, sl);
            }
            let _f0 = self.main_freqs.remove(0);
            let e = self.main.remove(0);
            let w = e.key.len() + e.value.len();
            self.usage = self.usage - w;
            proof {
                assert(self.live() =~= livec.remove(sl));
                assert forall|k: Seq<u8>| #![auto]
                    has_key_e(self.main@, k) implies has_key_e(mc1, k) by {
                    let j = choose|j: int| 0 <= j < self.main@.len() && self.main@[j].key@ == k;
                    assert(self.main@[j] == mc1[j + 1]);
                }
            }
            Some(e)
        }
    }

    pub fn insert(&mut self, key: Vec<u8>, value: Vec<u8>) -> (r: Result<CacheEntry, CacheError>)
        requires
            old(self).wf(),
        ensures
            final(self).wf(),
            final(self).capacity == old(self).capacity,
            final(self).small_capacity == old(self).small_capacity,
            final(self).ghost_capacity == old(self).ghost_capacity,
            final(self).freq_threshold == old(self).freq_threshold,
            match r {
                Ok(e) => {
                    &&& kv_weight(key@, value@) <= old(self).capacity
                    &&& e.key@ == key@
                    &&& e.value@ == value@
                    &&& final(self).contains_spec(key@)
                    &&& final(self).value_spec(key@) == value@
                    &&& final(self).small@.len() > 0
                    &&& final(self).small@.last().key@ == key@
                    &&& (forall|k: Seq<u8>| #![auto]
                        final(self).contains_spec(k) && k != key@ ==> old(self).contains_spec(k)
                            && final(self).value_spec(k) == old(self).value_spec(k))
                    &&& (forall|k: Seq<u8>| #![auto]
                        has_key_e(final(self).main@, k) ==> has_key_e(old(self).main@, k)
                            || has_key_e(old(self).small@, k))
                },
                Err(er) => {
                    &&& er == CacheError::OversizedEntry
                    &&& kv_weight(key@, value@) > old(self).capacity
                    &&& *final(self) == *old(self)
                },
            },
    {
        if key.len() > self.capacity || value.len() > self.capacity - key.len() {
            return Err(CacheError::OversizedEntry);
        }
        let w: usize = key.len() + value.len();
        match self.remove(&key) {
            Some(_) => {},
            None => {},
        }
        let ghost after_rm = *self;
        // A matching ghost record seeds the new entry's frequency.
        let seed: u8 = match find_vkey(&self.ghosts, &key) {
            Some(i) => {
                proof {
                    lemma_key_len_sum_remove(self.ghosts@, i as int);
                }
                let gk = self.ghosts.remove(i);
                let gf = self.ghost_freqs.remove(i);
                self.ghost_usage = self.ghost_usage - gk.len();
                gf
            },
            None => 0,
        };
        let ghost mid = *self;
        while w > self.capacity - self.usage
            invariant
                self.wf(),
                self.capacity == mid.capacity,
                self.small_capacity == mid.small_capacity,
                self.ghost_capacity == mid.ghost_capacity,
                self.freq_threshold == mid.freq_threshold,
                w == kv_weight(key@, value@),
                w <= self.capacity,
                !has_key_e(self.live(), key@),
                forall|k: Seq<u8>| #![auto]
                    has_key_e(self.small@, k) ==> has_key_e(mid.small@, k),
                forall|k: Seq<u8>| #![auto]
                    has_key_e(self.main@, k) ==> has_key_e(mid.main@, k) || has_key_e(
                        mid.small@,
                        k,
                    ),
                forall|k: Seq<u8>| #![auto]
                    has_key_e(self.live(), k) ==> has_key_e(mid.live(), k) && value_at_e(
                        self.live(),
                        k,
                    ) == value_at_e(mid.live(), k),
            decreases self.live().len(), self.small@.len(),
        {
            proof {
                if self.live().len() == 0 {
                    assert(self.usage == 0);
                    assert(false);
                }
            }
            let ghost before = *self;
            let victim = self.evict_one();
            proof {
                assert forall|k: Seq<u8>| #![auto]
                    has_key_e(self.live(), k) implies has_key_e(mid.live(), k) && value_at_e(
                    self.live(),
                    k,
                ) == value_at_e(mid.live(), k) by {
                    assert(self.contains_spec(k));
                    assert(before.contains_spec(k));
                    assert(self.value_spec(k) == before.value_spec(k));
                    assert(has_key_e(mid.live(), k));
                }
                if has_key_e(self.live(), key@) {
                    assert(before.contains_spec(key@));
                    assert(false);
                }
                assert forall|k: Seq<u8>| #![auto]
                    has_key_e(self.small@, k) implies has_key_e(mid.small@, k) by {
                    assert(has_key_e(before.small@, k)) by {
                        let x = choose|x: int|
                            0 <= x < self.small@.len() && self.small@[x].key@ == k;
                        if self.small@ == before.small@ {
                        } else {
                            assert(self.small@ == before.small@.remove(0));
                            assert(self.small@[x] == before.small@[x + 1]);
                        }
                    }
                }
                assert forall|k: Seq<u8>| #![auto]
                    has_key_e(self.main@, k) implies has_key_e(mid.main@, k) || has_key_e(
                    mid.small@,
                    k,
                ) by {
                    assert(has_key_e(before.main@, k) || (before.small@.len() > 0 && k
                        == before.small@[0].key@ && has_key_e(before.small@, k)));
                }
            }
        }
        let handle_key = copy_bytes(&key);
        let handle_value = copy_bytes(&value);
        let ghost live0 = self.live();
        let ghost newe = CacheEntry { key, value };
        let ghost sl = self.small@.len() as int;
        proof {
            lemma_weight_sum_concat_e(self.small@, self.main@);
            lemma_insert_preserves_e(live0, sl, newe);
            lemma_weight_sum_insert_e(live0, sl, newe);
            lemma_weight_sum_push_e(self.small@, newe);
        }
        self.small.push(CacheEntry { key, value });
        self.small_freqs.push(seed);
        self.small_usage = self.small_usage + w;
        self.usage = self.usage + w;
        proof {
            assert(self.live() =~= live0.insert(sl, newe));
            assert(mid.live() == after_rm.live());
            assert forall|k: Seq<u8>| #![auto]
                has_key_e(self.live(), k) && k != key@ implies has_key_e(old(self).live(), k)
                && value_at_e(self.live(), k) == value_at_e(old(self).live(), k) by {
                assert(has_key_e(live0, k));
                assert(value_at_e(self.live(), k) == value_at_e(live0, k));
                assert(has_key_e(mid.live(), k));
                assert(value_at_e(live0, k) == value_at_e(mid.live(), k));
                assert(after_rm.contains_spec(k));
                assert(old(self).contains_spec(k));
                assert(value_at_e(after_rm.live(), k) == value_at_e(old(self).live(), k));
            }
        }
        Ok(CacheEntry { key: handle_key, value: handle_value })
    }

    pub fn usage(&self) -> (r: usize)
        ensures
            r == self.usage,
    {
        self.usage
    }

    pub fn capacity(&self) -> (r: usize)
        ensures
            r == self.capacity,
    {
        self.capacity
    }
}

} // verus!
