//! LRU eviction with priority segmentation: a probationary and a protected
//! recency list (head first, least-recent at the tail). New entries start
//! probationary; a touch moves an entry to the head of the protected segment,
//! demoting the protected tail back to probation while the protected segment
//! is over its reserved capacity. Eviction always takes the probationary
//! tail, falling back to the protected tail only when probation is empty, so
//! the protected pool never starves eviction.

use vstd::prelude::*;

use crate::types::{
    copy_bytes, distinct_keys_e, find_entry, has_key_e, kv_weight, lemma_insert_preserves_e,
    lemma_key_index_unique_e, lemma_remove_preserves_e, lemma_weight_sum_concat_e,
    lemma_weight_sum_insert_e, lemma_weight_sum_remove_e, value_at_e, weight_sum_e, CacheEntry,
    CacheError,
};

verus! {

/// One shard's state under the segmented LRU policy.
pub struct LruShard {
    pub probationary: Vec<CacheEntry>,
    pub protected: Vec<CacheEntry>,
    pub usage: usize,
    pub protected_usage: usize,
    pub capacity: usize,
    pub protected_capacity: usize,
}

impl LruShard {
    /// All live entries: probationary then protected.
    pub open spec fn live(self) -> Seq<CacheEntry> {
        self.probationary@ + self.protected@
    }

    pub open spec fn wf(self) -> bool {
        &&& distinct_keys_e(self.live())
        &&& self.usage == weight_sum_e(self.live())
        &&& self.usage <= self.capacity
        &&& self.protected_usage == weight_sum_e(self.protected@)
        &&& self.protected_usage <= self.protected_capacity
        &&& self.protected_capacity <= self.capacity
    }

    pub open spec fn contains_spec(self, k: Seq<u8>) -> bool {
        has_key_e(self.live(), k)
    }

    pub open spec fn value_spec(self, k: Seq<u8>) -> Seq<u8> {
        value_at_e(self.live(), k)
    }

    pub fn new(capacity: usize, protected_capacity: usize) -> (s: Self)
        requires
            protected_capacity <= capacity,
        ensures
            s.wf(),
            s.capacity == capacity,
            s.protected_capacity == protected_capacity,
            s.usage == 0,
            s.live().len() == 0,
    {
        let s = LruShard {
            probationary: Vec::new(),
            protected: Vec::new(),
            usage: 0,
            protected_usage: 0,
            capacity,
            protected_capacity,
        };
        proof {
            assert(s.live() =~= Seq::<CacheEntry>::empty());
        }
        s
    }

    pub fn contains(&self, key: &Vec<u8>) -> (r: bool)
        ensures
            r == self.contains_spec(key@),
    {
        let ghost live0 = self.live();
        match find_entry(&self.probationary, key) {
            Some(i) => {
                proof {
                    assert(live0[i as int] == self.probationary@[i as int]);
                }
                true
            },
            None => match find_entry(&self.protected, key) {
                Some(i) => {
                    proof {
                        assert(live0[self.probationary@.len() + i] == self.protected@[i as int]);
                    }
                    true
                },
                None => {
                    proof {
                        if has_key_e(live0, key@) {
                            let j = choose|j: int|
                                0 <= j < live0.len() && live0[j].key@ == key@;
                            if j < self.probationary@.len() {
                                assert(live0[j] == self.probationary@[j]);
                            } else {
                                assert(live0[j] == self.protected@[
                                    j - self.probationary@.len()
                                ]);
                            }
                        }
                    }
                    false
                },
            },
        }
    }

    /// Lookup with touch-on-access: a hit moves the entry to the head of the
    /// protected segment, demoting protected tails to probation while the
    /// protected segment is over its reserved capacity. Membership, values
    /// and usage are unchanged.
    pub fn get(&mut self, key: &Vec<u8>) -> (r: Option<CacheEntry>)
        requires
            old(self).wf(),
        ensures
            final(self).wf(),
            final(self).capacity == old(self).capacity,
            final(self).protected_capacity == old(self).protected_capacity,
            final(self).usage == old(self).usage,
            forall|k: Seq<u8>| #![auto]
                final(self).contains_spec(k) == old(self).contains_spec(k),
            forall|k: Seq<u8>| #![auto]
                old(self).contains_spec(k) ==> final(self).value_spec(k) == old(
                    self,
                ).value_spec(k),
            match r {
                Some(e) => old(self).contains_spec(key@) && e.key@ == key@ && e.value@ == old(
                    self,
                ).value_spec(key@),
                None => !old(self).contains_spec(key@),
            },
            (r is Some && kv_weight(key@, old(self).value_spec(key@)) <= old(
                self,
            ).protected_capacity) ==> has_key_e(final(self).protected@, key@),
    {
        let ghost live0 = self.live();
        let found_protected = find_entry(&self.protected, key);
        match found_protected {
            Some(i) => {
                let ghost j = self.probationary@.len() + i;
                proof {
                    assert(live0[j] == self.protected@[i as int]);
                    lemma_key_index_unique_e(live0, j, key@);
                    lemma_remove_preserves_e(live0, j);
                    lemma_weight_sum_remove_e(self.protected@, i as int);
                }
                let e = self.protected.remove(i);
                let ghost ge = e;
                let ghost live1 = self.live();
                proof {
                    assert(live1 =~= live0.remove(j));
                    lemma_weight_sum_remove_e(live0, j);
                    lemma_insert_preserves_e(live1, self.probationary@.len() as int, ge);
                    lemma_weight_sum_insert_e(live1, self.probationary@.len() as int, ge);
                    lemma_weight_sum_insert_e(self.protected@, 0, ge);
                }
                let rk = copy_bytes(&e.key);
                let rv = copy_bytes(&e.value);
                let ghost pl = self.probationary@.len() as int;
                self.protected.insert(0, e);
                proof {
                    assert(self.live() =~= live1.insert(pl, ge));
                    assert(self.protected@[0] == ge);
                    assert(has_key_e(self.protected@, key@));
                }
                Some(CacheEntry { key: rk, value: rv })
            },
            None => {
                let found_prob = find_entry(&self.probationary, key);
                match found_prob {
                    Some(i) => {
                        proof {
                            assert(live0[i as int] == self.probationary@[i as int]);
                            lemma_key_index_unique_e(live0, i as int, key@);
                            lemma_remove_preserves_e(live0, i as int);
                            lemma_weight_sum_remove_e(self.probationary@, i as int);
                            lemma_weight_sum_concat_e(self.probationary@, self.protected@);
                        }
                        let e = self.probationary.remove(i);
                        let ghost ge = e;
                        let w = e.key.len() + e.value.len();
                        let ghost live1 = self.live();
                        proof {
                            assert(live1 =~= live0.remove(i as int));
                            lemma_weight_sum_remove_e(live0, i as int);
                            lemma_insert_preserves_e(
                                live1,
                                self.probationary@.len() as int,
                                ge,
                            );
                            lemma_weight_sum_insert_e(
                                live1,
                                self.probationary@.len() as int,
                                ge,
                            );
                            lemma_weight_sum_insert_e(self.protected@, 0, ge);
                        }
                        let rk = copy_bytes(&e.key);
                        let rv = copy_bytes(&e.value);
                        let ghost pl = self.probationary@.len() as int;
                        self.protected.insert(0, e);
                        self.protected_usage = self.protected_usage + w;
                        proof {
                            assert(self.live() =~= live1.insert(pl, ge));
                            assert(self.protected@[0] == ge);
                        }
                        self.rebalance();
                        proof {
                            if kv_weight(key@, ge.value@) <= self.protected_capacity {
                                assert(ge.weight_spec() <= self.protected_capacity);
                                assert(self.protected@[0] == ge);
                                assert(has_key_e(self.protected@, key@));
                            }
                        }
                        Some(CacheEntry { key: rk, value: rv })
                    },
                    None => {
                        proof {
                            if has_key_e(live0, key@) {
                                let j = choose|j: int|
                                    0 <= j < live0.len() && live0[j].key@ == key@;
                                if j < self.probationary@.len() {
                                    assert(live0[j] == self.probationary@[j]);
                                } else {
                                    assert(live0[j] == self.protected@[
                                        j - self.probationary@.len()
                                    ]);
                                }
                            }
                        }
                        None
                    },
                }
            },
        }
    }

    /// Demotes protected tails to the probationary head until the protected
    /// segment fits its reserved capacity again.
    fn rebalance(&mut self)
        requires
            distinct_keys_e(old(self).live()),
            old(self).usage == weight_sum_e(old(self).live()),
            old(self).usage <= old(self).capacity,
            old(self).protected_usage == weight_sum_e(old(self).protected@),
            old(self).protected_capacity <= old(self).capacity,
        ensures
            final(self).wf(),
            final(self).capacity == old(self).capacity,
            final(self).protected_capacity == old(self).protected_capacity,
            final(self).usage == old(self).usage,
            forall|k: Seq<u8>| #![auto]
                final(self).contains_spec(k) == old(self).contains_spec(k),
            forall|k: Seq<u8>| #![auto]
                old(self).contains_spec(k) ==> final(self).value_spec(k) == old(
                    self,
                ).value_spec(k),
            (old(self).protected@.len() > 0
                && old(self).protected@[0].weight_spec() <= old(self).protected_capacity)
                ==> final(self).protected@.len() > 0
                && final(self).protected@[0] == old(self).protected@[0],
    {
        let ghost orig = *old(self);
        let ghost keephead = orig.protected@.len() > 0
            && orig.protected@[0].weight_spec() <= orig.protected_capacity;
        while self.protected_usage > self.protected_capacity
            invariant
                distinct_keys_e(self.live()),
                self.usage == weight_sum_e(self.live()),
                self.usage == orig.usage,
                self.capacity == orig.capacity,
                self.protected_capacity == orig.protected_capacity,
                self.usage <= self.capacity,
                self.protected_usage == weight_sum_e(self.protected@),
                keephead == (orig.protected@.len() > 0
                    && orig.protected@[0].weight_spec() <= orig.protected_capacity),
                keephead ==> self.protected@.len() > 0
                    && self.protected@[0] == orig.protected@[0],
                forall|k: Seq<u8>| #![auto]
                    has_key_e(self.live(), k) == has_key_e(orig.live(), k),
                forall|k: Seq<u8>| #![auto]
                    has_key_e(orig.live(), k) ==> value_at_e(self.live(), k) == value_at_e(
                        orig.live(),
                        k,
                    ),
            decreases self.protected@.len(),
        {
            proof {
                if self.protected@.len() == 0 {
                    assert(false);
                }
                if keephead && self.protected@.len() == 1 {
                    assert(self.protected@.last() == self.protected@[0]);
                    assert(weight_sum_e(self.protected@.drop_last()) == 0);
                    assert(false);
                }
            }
            let ghost live0 = self.live();
            let j = self.protected.len() - 1;
            let ghost lj = self.probationary@.len() + j;
            proof {
                assert(live0[lj] == self.protected@[j as int]);
                lemma_key_index_unique_e(live0, lj, live0[lj].key@);
                lemma_remove_preserves_e(live0, lj);
                lemma_weight_sum_remove_e(self.protected@, j as int);
            }
            let e = self.protected.remove(j);
            let ghost ge = e;
            let w = e.key.len() + e.value.len();
            self.protected_usage = self.protected_usage - w;
            let ghost live1 = self.live();
            proof {
                assert(live1 =~= live0.remove(lj));
                lemma_insert_preserves_e(live1, 0, ge);
                lemma_weight_sum_remove_e(live0, lj);
                lemma_weight_sum_insert_e(live1, 0, ge);
            }
            self.probationary.insert(0, e);
            proof {
                assert(self.live() =~= live1.insert(0, ge));
                if keephead {
                    assert(self.protected@[0] == orig.protected@[0]);
                }
            }
        }
    }

    /// Removes exactly one entry and returns it: the probationary tail, or
    /// the protected tail only when probation is empty, so a touch-protected
    /// entry is never the victim while any probationary entry remains.
    pub fn evict_one(&mut self) -> (victim: CacheEntry)
        requires
            old(self).wf(),
            old(self).live().len() > 0,
        ensures
            final(self).wf(),
            final(self).capacity == old(self).capacity,
            final(self).protected_capacity == old(self).protected_capacity,
            final(self).live().len() == old(self).live().len() - 1,
            final(self).usage + victim.weight_spec() == old(self).usage,
            old(self).contains_spec(victim.key@),
            victim.value@ == old(self).value_spec(victim.key@),
            !final(self).contains_spec(victim.key@),
            forall|k: Seq<u8>| #![auto]
                k != victim.key@ ==> final(self).contains_spec(k) == old(self).contains_spec(k),
            forall|k: Seq<u8>| #![auto]
                k != victim.key@ && old(self).contains_spec(k) ==> final(self).value_spec(k)
                    == old(self).value_spec(k),
            old(self).probationary@.len() > 0 ==> victim == old(self).probationary@.last()
                && final(self).protected@ == old(self).protected@,
            old(self).probationary@.len() == 0 ==> victim == old(self).protected@.last(),
    {
        let ghost live0 = self.live();
        if self.probationary.len() > 0 {
            let j = self.probationary.len() - 1;
            proof {
                assert(live0[j as int] == self.probationary@[j as int]);
                lemma_key_index_unique_e(live0, j as int, live0[j as int].key@);
                lemma_remove_preserves_e(live0, j as int);
                lemma_weight_sum_remove_e(live0, j as int);
                lemma_weight_sum_remove_e(self.probationary@, j as int);
            }
            let e = self.probationary.remove(j);
            let w = e.key.len() + e.value.len();
            self.usage = self.usage - w;
            proof {
                assert(self.live() =~= live0.remove(j as int));
            }
            e
        } else {
            proof {
                assert(live0 =~= self.protected@);
            }
            let j = self.protected.len() - 1;
            proof {
                assert(live0[j as int] == self.protected@[j as int]);
                lemma_key_index_unique_e(live0, j as int, live0[j as int].key@);
                lemma_remove_preserves_e(live0, j as int);
                lemma_weight_sum_remove_e(live0, j as int);
                lemma_weight_sum_remove_e(self.protected@, j as int);
            }
            let e = self.protected.remove(j);
            let w = e.key.len() + e.value.len();
            self.usage = self.usage - w;
            self.protected_usage = self.protected_usage - w;
            proof {
                assert(self.live() =~= live0.remove(j as int));
            }
            e
        }
    }

    pub fn remove(&mut self, key: &Vec<u8>) -> (r: Option<CacheEntry>)
        requires
            old(self).wf(),
        ensures
            final(self).wf(),
            final(self).capacity == old(self).capacity,
            final(self).protected_capacity == old(self).protected_capacity,
            match r {
                Some(e) => {
                    &&& old(self).contains_spec(key@)
                    &&& e.key@ == key@
                    &&& e.value@ == old(self).value_spec(key@)
                    &&& !final(self).contains_spec(key@)
                    &&& final(self).usage + e.weight_spec() == old(self).usage
                },
                None => !old(self).contains_spec(key@) && *final(self) == *old(self),
            },
            forall|k: Seq<u8>| #![auto]
                k != key@ ==> final(self).contains_spec(k) == old(self).contains_spec(k),
            forall|k: Seq<u8>| #![auto]
                k != key@ && old(self).contains_spec(k) ==> final(self).value_spec(k) == old(
                    self,
                ).value_spec(k),
    {
        let ghost live0 = self.live();
        match find_entry(&self.probationary, key) {
            Some(i) => {
                proof {
                    assert(live0[i as int] == self.probationary@[i as int]);
                    lemma_key_index_unique_e(live0, i as int, key@);
                    lemma_remove_preserves_e(live0, i as int);
                    lemma_weight_sum_remove_e(live0, i as int);
                }
                let e = self.probationary.remove(i);
                let w = e.key.len() + e.value.len();
                self.usage = self.usage - w;
                proof {
                    assert(self.live() =~= live0.remove(i as int));
                }
                Some(e)
            },
            None => match find_entry(&self.protected, key) {
                Some(i) => {
                    let ghost j = self.probationary@.len() + i;
                    proof {
                        assert(live0[j] == self.protected@[i as int]);
                        lemma_key_index_unique_e(live0, j, key@);
                        lemma_remove_preserves_e(live0, j);
                        lemma_weight_sum_remove_e(live0, j);
                        lemma_weight_sum_remove_e(self.protected@, i as int);
                    }
                    let e = self.protected.remove(i);
                    let w = e.key.len() + e.value.len();
                    self.usage = self.usage - w;
                    self.protected_usage = self.protected_usage - w;
                    proof {
                        assert(self.live() =~= live0.remove(j));
                    }
                    Some(e)
                },
                None => {
                    proof {
                        if has_key_e(live0, key@) {
                            let j = choose|j: int|
                                0 <= j < live0.len() && live0[j].key@ == key@;
                            if j < self.probationary@.len() {
                                assert(live0[j] == self.probationary@[j]);
                            } else {
                                assert(live0[j] == self.protected@[
                                    j - self.probationary@.len()
                                ]);
                            }
                        }
                    }
                    None
                },
            },
        }
    }

    pub fn clear(&mut self)
        requires
            old(self).protected_capacity <= old(self).capacity,
        ensures
            final(self).wf(),
            final(self).capacity == old(self).capacity,
            final(self).protected_capacity == old(self).protected_capacity,
            final(self).usage == 0,
            forall|k: Seq<u8>| !final(self).contains_spec(k),
    {
        self.probationary.clear();
        self.protected.clear();
        self.usage = 0;
        self.protected_usage = 0;
        proof {
            assert(self.live() =~= Seq::<CacheEntry>::empty());
        }
    }

    pub fn insert(&mut self, key: Vec<u8>, value: Vec<u8>) -> (r: Result<CacheEntry, CacheError>)
        requires
            old(self).wf(),
        ensures
            final(self).wf(),
            final(self).capacity == old(self).capacity,
            final(self).protected_capacity == old(self).protected_capacity,
            match r {
                Ok(e) => {
                    &&& kv_weight(key@, value@) <= old(self).capacity
                    &&& e.key@ == key@
                    &&& e.value@ == value@
                    &&& final(self).contains_spec(key@)
                    &&& final(self).value_spec(key@) == value@
                    &&& (forall|k: Seq<u8>| #![auto]
                        final(self).contains_spec(k) && k != key@ ==> old(self).contains_spec(k)
                            && final(self).value_spec(k) == old(self).value_spec(k))
                },
                Err(er) => {
                    &&& er == CacheError::OversizedEntry
                    &&& kv_weight(key@, value@) > old(self).capacity
                    &&& *final(self) == *old(self)
                },
            },
            (!old(self).contains_spec(key@) && kv_weight(key@, value@) + old(
                self,
            ).protected_usage <= old(self).capacity) ==> final(self).protected@ == old(
                self,
            ).protected@,
    {
        if key.len() > self.capacity || value.len() > self.capacity - key.len() {
            return Err(CacheError::OversizedEntry);
        }
        let w: usize = key.len() + value.len();
        let ghost hp = !old(self).contains_spec(key@) && kv_weight(key@, value@) + old(
            self,
        ).protected_usage <= old(self).capacity;
        let ghost prot0 = old(self).protected@;
        let ghost pu0 = old(self).protected_usage;
        match self.remove(&key) {
            Some(_) => {},
            None => {},
        }
        let ghost mid = *self;
        // Evict until the new entry fits.
        while w > self.capacity - self.usage
            invariant
                self.wf(),
                self.capacity == mid.capacity,
                self.protected_capacity == mid.protected_capacity,
                w == kv_weight(key@, value@),
                w <= self.capacity,
                !has_key_e(self.live(), key@),
                hp ==> self.protected@ == prot0 && self.protected_usage == pu0 && w + pu0
                    <= self.capacity,
                forall|k: Seq<u8>| #![auto]
                    has_key_e(self.live(), k) ==> has_key_e(mid.live(), k) && value_at_e(
                        self.live(),
                        k,
                    ) == value_at_e(mid.live(), k),
            decreases self.live().len(),
        {
            proof {
                if self.live().len() == 0 {
                    assert(self.usage == 0);
                    assert(false);
                }
                if hp && self.probationary@.len() == 0 {
                    lemma_weight_sum_concat_e(self.probationary@, self.protected@);
                    assert(self.usage == self.protected_usage);
                    assert(false);
                }
            }
            let ghost before = *self;
            let victim = self.evict_one();
            proof {
                assert forall|k: Seq<u8>| #![auto]
                    has_key_e(self.live(), k) implies has_key_e(mid.live(), k) && value_at_e(
                    self.live(),
                    k,
                ) == value_at_e(mid.live(), k) by {
                    assert(k != victim.key@);
                    assert(self.contains_spec(k) == before.contains_spec(k));
                    assert(before.contains_spec(k));
                    assert(self.value_spec(k) == before.value_spec(k));
                    assert(has_key_e(mid.live(), k));
                    assert(value_at_e(before.live(), k) == value_at_e(mid.live(), k));
                }
                if has_key_e(self.live(), key@) {
                    assert(key@ != victim.key@);
                    assert(self.contains_spec(key@) == before.contains_spec(key@));
                    assert(false);
                }
                if hp {
                    assert(self.protected@ == prot0);
                    assert(self.protected_usage == weight_sum_e(self.protected@));
                }
            }
        }
        let handle_key = copy_bytes(&key);
        let handle_value = copy_bytes(&value);
        let ghost live0 = self.live();
        let ghost newe = CacheEntry { key, value };
        proof {
            lemma_insert_preserves_e(live0, 0, newe);
            lemma_weight_sum_insert_e(live0, 0, newe);
        }
        self.probationary.insert(0, CacheEntry { key, value });
        self.usage = self.usage + w;
        proof {
            assert(self.live() =~= live0.insert(0, newe));
        }
        Ok(CacheEntry { key: handle_key, value: handle_value })
    }

    pub fn usage(&self) -> (r: usize)
        ensures
            r == self.usage,
    {
        self.usage
    }

    pub fn capacity(&self) -> (r: usize)
        ensures
            r == self.capacity,
    {
        self.capacity
    }
}

} // verus!
