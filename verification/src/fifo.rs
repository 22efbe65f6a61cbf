//! FIFO eviction: a strict insertion-order queue. Insert appends at the
//! tail, eviction always removes the head, and lookups do no bookkeeping.

use vstd::prelude::*;

use crate::types::{
    copy_bytes, distinct_keys_e, find_entry, has_key_e, kv_weight, lemma_key_index_unique_e,
    lemma_push_preserves_e, lemma_remove_preserves_e, lemma_subrange_preserves_e,
    lemma_weight_sum_push_e, lemma_weight_sum_remove_e, remove_key_e, value_at_e, weight_sum_e,
    CacheEntry, CacheError,
};

verus! {

/// The exact shape of a FIFO insert: the surviving entries are a suffix of
/// the queue after any overwrite of `k`, starting at the least cut `d` that
/// makes room for the new entry, which sits at the tail.
pub open spec fn fifo_insert_shape(
    olds: Seq<CacheEntry>,
    news: Seq<CacheEntry>,
    k: Seq<u8>,
    v: Seq<u8>,
    cap: nat,
    d: int,
) -> bool {
    let base = remove_key_e(olds, k);
    &&& 0 <= d <= base.len()
    &&& news.len() == base.len() - d + 1
    &&& (forall|j: int| 0 <= j < base.len() - d ==> news[j] == base[d + j])
    &&& news.last().key@ == k
    &&& news.last().value@ == v
    &&& weight_sum_e(base.subrange(d, base.len() as int)) + kv_weight(k, v) <= cap
    &&& (d > 0 ==> weight_sum_e(base.subrange(d - 1, base.len() as int)) + kv_weight(k, v) > cap)
}

/// One shard's state under the FIFO policy: the queue, head first.
pub struct FifoShard {
    pub entries: Vec<CacheEntry>,
    pub usage: usize,
    pub capacity: usize,
}

impl FifoShard {
    /// Internal consistency: distinct keys, usage is the total weight, and
    /// usage never exceeds capacity.
    pub open spec fn wf(self) -> bool {
        &&& distinct_keys_e(self.entries@)
        &&& self.usage == weight_sum_e(self.entries@)
        &&& self.usage <= self.capacity
    }

    pub open spec fn contains_spec(self, k: Seq<u8>) -> bool {
        has_key_e(self.entries@, k)
    }

    pub open spec fn value_spec(self, k: Seq<u8>) -> Seq<u8> {
        value_at_e(self.entries@, k)
    }

    pub fn new(capacity: usize) -> (s: Self)
        ensures
            s.wf(),
            s.capacity == capacity,
            s.usage == 0,
            s.entries@.len() == 0,
    {
        FifoShard { entries: Vec::new(), usage: 0, capacity }
    }

    pub fn contains(&self, key: &Vec<u8>) -> (r: bool)
        ensures
            r == self.contains_spec(key@),
    {
        match find_entry(&self.entries, key) {
            Some(_) => true,
            None => false,
        }
    }

    pub fn get(&self, key: &Vec<u8>) -> (r: Option<CacheEntry>)
        requires
            self.wf(),
        ensures
            match r {
                Some(e) => self.contains_spec(key@) && e.key@ == key@ && e.value@
                    == self.value_spec(key@),
                None => !self.contains_spec(key@),
            },
    {
        match find_entry(&self.entries, key) {
            Some(i) => {
                proof {
                    lemma_key_index_unique_e(self.entries@, i as int, key@);
                }
                let e = &self.entries[i];
                Some(CacheEntry { key: copy_bytes(&e.key), value: copy_bytes(&e.value) })
            },
            None => None,
        }
    }

    pub fn remove(&mut self, key: &Vec<u8>) -> (r: Option<CacheEntry>)
        requires
            old(self).wf(),
        ensures
            final(self).wf(),
            final(self).capacity == old(self).capacity,
            match r {
                Some(e) => {
                    &&& old(self).contains_spec(key@)
                    &&& e.key@ == key@
                    &&& e.value@ == old(self).value_spec(key@)
                    &&& !final(self).contains_spec(key@)
                    &&& final(self).usage + e.weight_spec() == old(self).usage
                },
                None => !old(self).contains_spec(key@) && *final(self) == *old(self),
            },
            forall|k: Seq<u8>| #![auto]
                k != key@ ==> final(self).contains_spec(k) == old(self).contains_spec(k),
            forall|k: Seq<u8>| #![auto]
                k != key@ && old(self).contains_spec(k) ==> final(self).value_spec(k) == old(
                    self,
                ).value_spec(k),
    {
        match find_entry(&self.entries, key) {
            Some(i) => {
                proof {
                    lemma_key_index_unique_e(self.entries@, i as int, key@);
                    lemma_weight_sum_remove_e(self.entries@, i as int);
                    lemma_remove_preserves_e(self.entries@, i as int);
                }
                let e = self.entries.remove(i);
                let w = e.key.len() + e.value.len();
                self.usage = self.usage - w;
                Some(e)
            },
            None => None,
        }
    }

    pub fn clear(&mut self)
        ensures
            final(self).wf(),
            final(self).capacity == old(self).capacity,
            final(self).usage == 0,
            forall|k: Seq<u8>| !final(self).contains_spec(k),
    {
        self.entries.clear();
        self.usage = 0;
    }

    pub fn insert(&mut self, key: Vec<u8>, value: Vec<u8>) -> (r: Result<CacheEntry, CacheError>)
        requires
            old(self).wf(),
        ensures
            final(self).wf(),
            final(self).capacity == old(self).capacity,
            match r {
                Ok(e) => {
                    &&& kv_weight(key@, value@) <= old(self).capacity
                    &&& e.key@ == key@
                    &&& e.value@ == value@
                    &&& final(self).contains_spec(key@)
                    &&& final(self).value_spec(key@) == value@
                    &&& (forall|k: Seq<u8>| #![auto]
                        final(self).contains_spec(k) && k != key@ ==> old(self).contains_spec(k)
                            && final(self).value_spec(k) == old(self).value_spec(k))
                    &&& (exists|d: int|
                        fifo_insert_shape(
                            old(self).entries@,
                            final(self).entries@,
                            key@,
                            value@,
                            old(self).capacity as nat,
                            d,
                        ))
                },
                Err(er) => {
                    &&& er == CacheError::OversizedEntry
                    &&& kv_weight(key@, value@) > old(self).capacity
                    &&& *final(self) == *old(self)
                },
            },
    {
        if key.len() > self.capacity || value.len() > self.capacity - key.len() {
            return Err(CacheError::OversizedEntry);
        }
        let w: usize = key.len() + value.len();
        // Overwrite: drop any existing entry for this key first.
        match find_entry(&self.entries, &key) {
            Some(i) => {
                proof {
                    lemma_key_index_unique_e(self.entries@, i as int, key@);
                    lemma_weight_sum_remove_e(self.entries@, i as int);
                    lemma_remove_preserves_e(self.entries@, i as int);
                }
                let e = self.entries.remove(i);
                let w0 = e.key.len() + e.value.len();
                self.usage = self.usage - w0;
            },
            None => {},
        }
        let ghost base = self.entries@;
        let ghost orig = *old(self);
        let ghost mut d: int = 0;
        proof {
            assert(base.subrange(0, base.len() as int) =~= base);
        }
        // Evict from the head until the new entry fits.
        while w > self.capacity - self.usage
            invariant
                self.wf(),
                self.capacity == orig.capacity,
                w == kv_weight(key@, value@),
                w <= self.capacity,
                0 <= d <= base.len(),
                distinct_keys_e(base),
                !has_key_e(base, key@),
                self.entries@ == base.subrange(d, base.len() as int),
                d > 0 ==> weight_sum_e(base.subrange(d - 1, base.len() as int)) + kv_weight(
                    key@,
                    value@,
                ) > orig.capacity,
                forall|k: Seq<u8>| #![auto]
                    has_key_e(self.entries@, k) ==> orig.contains_spec(k) && value_at_e(
                        self.entries@,
                        k,
                    ) == orig.value_spec(k),
            decreases self.entries@.len(),
        {
            proof {
                if self.entries@.len() == 0 {
                    assert(self.usage == 0);
                    assert(false);
                }
                lemma_weight_sum_remove_e(self.entries@, 0);
                lemma_remove_preserves_e(self.entries@, 0);
                assert(self.entries@.remove(0) =~= base.subrange(d + 1, base.len() as int));
            }
            let victim = self.entries.remove(0);
            let w0 = victim.key.len() + victim.value.len();
            self.usage = self.usage - w0;
            proof {
                d = d + 1;
            }
        }
        let handle_key = copy_bytes(&key);
        let handle_value = copy_bytes(&value);
        proof {
            lemma_subrange_preserves_e(base, d, base.len() as int);
            lemma_push_preserves_e(self.entries@, CacheEntry { key, value });
            lemma_weight_sum_push_e(self.entries@, CacheEntry { key, value });
        }
        self.entries.push(CacheEntry { key, value });
        self.usage = self.usage + w;
        proof {
            assert(remove_key_e(orig.entries@, key@) == base);
            assert(fifo_insert_shape(
                orig.entries@,
                self.entries@,
                key@,
                value@,
                orig.capacity as nat,
                d,
            ));
        }
        Ok(CacheEntry { key: handle_key, value: handle_value })
    }

    pub fn usage(&self) -> (r: usize)
        ensures
            r == self.usage,
    {
        self.usage
    }

    pub fn capacity(&self) -> (r: usize)
        ensures
            r == self.capacity,
    {
        self.capacity
    }
}

} // verus!
