//! Shared vocabulary of the engine: the error taxonomy, the entry handle,
//! and specification helpers over sequences of stored entries.

use vstd::prelude::*;

verus! {

/// Failure taxonomy of the engine.
///
/// `ConfigError` is fatal to construction (bad ratio or zero shard count),
/// `NotFound` is the normal outcome of removing an absent key, and
/// `OversizedEntry` rejects an insert whose single item cannot fit in its
/// shard; the cache state is unchanged by a failed operation.
#[derive(Clone, Copy, Debug, PartialEq, Eq, Structural)]
pub enum CacheError {
    ConfigError,
    NotFound,
    OversizedEntry,
}

/// A stored key/value pair. The engine hands detached copies to callers, so a
/// handle obtained from `insert`, `get` or `remove` stays valid even after
/// the entry is evicted from the index.
#[derive(Debug)]
pub struct CacheEntry {
    pub key: Vec<u8>,
    pub value: Vec<u8>,
}

impl CacheEntry {
    /// Charged weight of an entry: key bytes plus value bytes.
    pub open spec fn weight_spec(self) -> nat {
        self.key@.len() + self.value@.len()
    }

    pub fn key(&self) -> (r: &Vec<u8>)
        ensures
            r@ == self.key@,
    {
        &self.key
    }

    pub fn value(&self) -> (r: &Vec<u8>)
        ensures
            r@ == self.value@,
    {
        &self.value
    }
}

/// Weight charged against capacity for a key/value pair.
pub open spec fn kv_weight(k: Seq<u8>, v: Seq<u8>) -> nat {
    k.len() + v.len()
}

/// Whether some entry of `s` stores the key `k`.
pub open spec fn has_key_e(s: Seq<CacheEntry>, k: Seq<u8>) -> bool {
    exists|i: int| 0 <= i < s.len() && s[i].key@ == k
}

/// An index of an entry of `s` storing `k` (unique when keys are distinct).
pub open spec fn key_index_e(s: Seq<CacheEntry>, k: Seq<u8>) -> int {
    choose|i: int| 0 <= i < s.len() && s[i].key@ == k
}

/// The value stored for `k` in `s`.
pub open spec fn value_at_e(s: Seq<CacheEntry>, k: Seq<u8>) -> Seq<u8> {
    s[key_index_e(s, k)].value@
}

/// Total weight of a sequence of entries.
pub open spec fn weight_sum_e(s: Seq<CacheEntry>) -> nat
    decreases s.len(),
{
    if s.len() == 0 {
        0
    } else {
        weight_sum_e(s.drop_last()) + s.last().weight_spec()
    }
}

/// Pairwise-distinct keys.
pub open spec fn distinct_keys_e(s: Seq<CacheEntry>) -> bool {
    forall|i: int, j: int| 0 <= i < j < s.len() ==> s[i].key@ != s[j].key@
}

/// `s` with the entry for `k` (if any) taken out.
pub open spec fn remove_key_e(s: Seq<CacheEntry>, k: Seq<u8>) -> Seq<CacheEntry> {
    if has_key_e(s, k) {
        s.remove(key_index_e(s, k))
    } else {
        s
    }
}

pub proof fn lemma_weight_sum_push_e(s: Seq<CacheEntry>, e: CacheEntry)
    ensures
        weight_sum_e(s.push(e)) == weight_sum_e(s) + e.weight_spec(),
{
    assert(s.push(e).drop_last() =~= s);
    assert(s.push(e).last() == e);
}

pub proof fn lemma_weight_sum_remove_e(s: Seq<CacheEntry>, i: int)
    requires
        0 <= i < s.len(),
    ensures
        weight_sum_e(s.remove(i)) + s[i].weight_spec() == weight_sum_e(s),
    decreases s.len(),
{
    if i == s.len() - 1 {
        assert(s.remove(i) =~= s.drop_last());
    } else {
        assert(s.remove(i).drop_last() =~= s.drop_last().remove(i));
        lemma_weight_sum_remove_e(s.drop_last(), i);
        assert(s.remove(i).last() == s.last());
    }
}

pub proof fn lemma_weight_sum_concat_e(a: Seq<CacheEntry>, b: Seq<CacheEntry>)
    ensures
        weight_sum_e(a + b) == weight_sum_e(a) + weight_sum_e(b),
    decreases b.len(),
{
    if b.len() == 0 {
        assert(a + b =~= a);
    } else {
        assert((a + b).drop_last() =~= a + b.drop_last());
        lemma_weight_sum_concat_e(a, b.drop_last());
        assert((a + b).last() == b.last());
    }
}

/// With distinct keys, the entry found at `i` is the entry `value_at_e`
/// speaks of.
pub proof fn lemma_key_index_unique_e(s: Seq<CacheEntry>, i: int, k: Seq<u8>)
    requires
        distinct_keys_e(s),
        0 <= i < s.len(),
        s[i].key@ == k,
    ensures
        has_key_e(s, k),
        key_index_e(s, k) == i,
        value_at_e(s, k) == s[i].value@,
{
    assert(has_key_e(s, k));
    let ci = key_index_e(s, k);
    assert(0 <= ci < s.len() && s[ci].key@ == k);
    if ci != i {
        if ci < i {
            assert(s[ci].key@ != s[i].key@);
        } else {
            assert(s[i].key@ != s[ci].key@);
        }
        assert(false);
    }
}

/// Removing the entry at `i` keeps every other key and its value, keeps keys
/// distinct, and removes the key at `i` entirely.
pub proof fn lemma_remove_preserves_e(s: Seq<CacheEntry>, i: int)
    requires
        distinct_keys_e(s),
        0 <= i < s.len(),
    ensures
        distinct_keys_e(s.remove(i)),
        !has_key_e(s.remove(i), s[i].key@),
        forall|k: Seq<u8>| #![auto]
            k != s[i].key@ ==> (has_key_e(s.remove(i), k) == has_key_e(s, k)),
        forall|k: Seq<u8>| #![auto]
            k != s[i].key@ && has_key_e(s, k) ==> value_at_e(s.remove(i), k) == value_at_e(s, k),
{
    let t = s.remove(i);
    assert(forall|j: int| 0 <= j < i ==> t[j] == s[j]);
    assert(forall|j: int| i <= j < t.len() ==> t[j] == s[j + 1]);
    assert forall|a: int, b: int| 0 <= a < b < t.len() implies t[a].key@ != t[b].key@ by {
        let a0 = if a < i {
            a
        } else {
            a + 1
        };
        let b0 = if b < i {
            b
        } else {
            b + 1
        };
        assert(t[a] == s[a0]);
        assert(t[b] == s[b0]);
    }
    assert(!has_key_e(t, s[i].key@)) by {
        if has_key_e(t, s[i].key@) {
            let j = choose|j: int| 0 <= j < t.len() && t[j].key@ == s[i].key@;
            let j0 = if j < i {
                j
            } else {
                j + 1
            };
            assert(t[j] == s[j0]);
            if j0 < i {
                assert(s[j0].key@ != s[i].key@);
            } else {
                assert(s[i].key@ != s[j0].key@);
            }
        }
    }
    assert forall|k: Seq<u8>| k != s[i].key@ implies (has_key_e(t, k) == has_key_e(s, k)) by {
        if has_key_e(s, k) {
            let j = choose|j: int| 0 <= j < s.len() && s[j].key@ == k;
            let j1 = if j < i {
                j
            } else {
                j - 1
            };
            assert(t[j1] == s[j]);
            assert(has_key_e(t, k));
        }
        if has_key_e(t, k) {
            let j = choose|j: int| 0 <= j < t.len() && t[j].key@ == k;
            let j0 = if j < i {
                j
            } else {
                j + 1
            };
            assert(t[j] == s[j0]);
            assert(has_key_e(s, k));
        }
    }
    assert forall|k: Seq<u8>| k != s[i].key@ && has_key_e(s, k) implies value_at_e(t, k)
        == value_at_e(s, k) by {
        let j = key_index_e(s, k);
        assert(0 <= j < s.len() && s[j].key@ == k);
        lemma_key_index_unique_e(s, j, k);
        let j1 = if j < i {
            j
        } else {
            j - 1
        };
        assert(t[j1] == s[j]);
        lemma_key_index_unique_e(t, j1, k);
    }
}

/// Appending an entry with a fresh key keeps every old key and its value and
/// makes the new key map to the new value.
pub proof fn lemma_push_preserves_e(s: Seq<CacheEntry>, e: CacheEntry)
    requires
        distinct_keys_e(s),
        !has_key_e(s, e.key@),
    ensures
        distinct_keys_e(s.push(e)),
        has_key_e(s.push(e), e.key@),
        value_at_e(s.push(e), e.key@) == e.value@,
        forall|k: Seq<u8>| #![auto] k != e.key@ ==> has_key_e(s.push(e), k) == has_key_e(s, k),
        forall|k: Seq<u8>| #![auto]
            k != e.key@ && has_key_e(s, k) ==> value_at_e(s.push(e), k) == value_at_e(s, k),
{
    let t = s.push(e);
    assert(forall|j: int| 0 <= j < s.len() ==> t[j] == s[j]);
    assert(t[s.len() as int] == e);
    assert forall|a: int, b: int| 0 <= a < b < t.len() implies t[a].key@ != t[b].key@ by {
        if b == s.len() {
            assert(t[a] == s[a]);
            if t[a].key@ == e.key@ {
                assert(has_key_e(s, e.key@));
            }
        } else {
            assert(t[a] == s[a]);
            assert(t[b] == s[b]);
        }
    }
    lemma_key_index_unique_e(t, s.len() as int, e.key@);
    assert forall|k: Seq<u8>| k != e.key@ implies has_key_e(t, k) == has_key_e(s, k) by {
        if has_key_e(s, k) {
            let j = choose|j: int| 0 <= j < s.len() && s[j].key@ == k;
            assert(t[j] == s[j]);
            assert(has_key_e(t, k));
        }
        if has_key_e(t, k) {
            let j = choose|j: int| 0 <= j < t.len() && t[j].key@ == k;
            assert(j != s.len());
            assert(t[j] == s[j]);
            assert(has_key_e(s, k));
        }
    }
    assert forall|k: Seq<u8>| k != e.key@ && has_key_e(s, k) implies value_at_e(t, k)
        == value_at_e(s, k) by {
        let j = key_index_e(s, k);
        assert(0 <= j < s.len() && s[j].key@ == k);
        lemma_key_index_unique_e(s, j, k);
        assert(t[j] == s[j]);
        lemma_key_index_unique_e(t, j, k);
    }
}

/// Inserting an entry with a fresh key at any position keeps every old key
/// and its value and makes the new key map to the new value.
pub proof fn lemma_insert_preserves_e(s: Seq<CacheEntry>, i: int, e: CacheEntry)
    requires
        distinct_keys_e(s),
        !has_key_e(s, e.key@),
        0 <= i <= s.len(),
    ensures
        distinct_keys_e(s.insert(i, e)),
        has_key_e(s.insert(i, e), e.key@),
        value_at_e(s.insert(i, e), e.key@) == e.value@,
        forall|k: Seq<u8>| #![auto] k != e.key@ ==> has_key_e(s.insert(i, e), k) == has_key_e(s, k),
        forall|k: Seq<u8>| #![auto]
            k != e.key@ && has_key_e(s, k) ==> value_at_e(s.insert(i, e), k) == value_at_e(s, k),
{
    let t = s.insert(i, e);
    assert(forall|j: int| 0 <= j < i ==> t[j] == s[j]);
    assert(t[i] == e);
    assert(forall|j: int| i < j < t.len() ==> t[j] == s[j - 1]);
    assert forall|a: int, b: int| 0 <= a < b < t.len() implies t[a].key@ != t[b].key@ by {
        if a == i {
            assert(t[b] == s[b - 1]);
            if t[b].key@ == e.key@ {
                assert(has_key_e(s, e.key@));
            }
        } else if b == i {
            assert(t[a] == s[a]);
            if t[a].key@ == e.key@ {
                assert(has_key_e(s, e.key@));
            }
        } else {
            let a0 = if a < i {
                a
            } else {
                a - 1
            };
            let b0 = if b < i {
                b
            } else {
                b - 1
            };
            assert(t[a] == s[a0]);
            assert(t[b] == s[b0]);
        }
    }
    lemma_key_index_unique_e(t, i, e.key@);
    assert forall|k: Seq<u8>| k != e.key@ implies has_key_e(t, k) == has_key_e(s, k) by {
        if has_key_e(s, k) {
            let j = choose|j: int| 0 <= j < s.len() && s[j].key@ == k;
            let j1 = if j < i {
                j
            } else {
                j + 1
            };
            assert(t[j1] == s[j]);
            assert(has_key_e(t, k));
        }
        if has_key_e(t, k) {
            let j = choose|j: int| 0 <= j < t.len() && t[j].key@ == k;
            assert(j != i);
            let j0 = if j < i {
                j
            } else {
                j - 1
            };
            assert(t[j] == s[j0]);
            assert(has_key_e(s, k));
        }
    }
    assert forall|k: Seq<u8>| k != e.key@ && has_key_e(s, k) implies value_at_e(t, k)
        == value_at_e(s, k) by {
        let j = key_index_e(s, k);
        assert(0 <= j < s.len() && s[j].key@ == k);
        lemma_key_index_unique_e(s, j, k);
        let j1 = if j < i {
            j
        } else {
            j + 1
        };
        assert(t[j1] == s[j]);
        lemma_key_index_unique_e(t, j1, k);
    }
}

pub proof fn lemma_weight_sum_insert_e(s: Seq<CacheEntry>, i: int, e: CacheEntry)
    requires
        0 <= i <= s.len(),
    ensures
        weight_sum_e(s.insert(i, e)) == weight_sum_e(s) + e.weight_spec(),
{
    lemma_weight_sum_remove_e(s.insert(i, e), i);
    assert(s.insert(i, e).remove(i) =~= s);
    assert(s.insert(i, e)[i] == e);
}

/// A contiguous slice of a distinct-key sequence keeps distinct keys, and any
/// key found in the slice is found in the whole with the same value.
pub proof fn lemma_subrange_preserves_e(s: Seq<CacheEntry>, a: int, b: int)
    requires
        distinct_keys_e(s),
        0 <= a <= b <= s.len(),
    ensures
        distinct_keys_e(s.subrange(a, b)),
        forall|k: Seq<u8>| #![auto]
            has_key_e(s.subrange(a, b), k) ==> has_key_e(s, k) && value_at_e(s.subrange(a, b), k)
                == value_at_e(s, k),
{
    let t = s.subrange(a, b);
    assert(forall|j: int| 0 <= j < t.len() ==> t[j] == s[a + j]);
    assert forall|x: int, y: int| 0 <= x < y < t.len() implies t[x].key@ != t[y].key@ by {
        assert(t[x] == s[a + x]);
        assert(t[y] == s[a + y]);
    }
    assert forall|k: Seq<u8>| has_key_e(t, k) implies has_key_e(s, k) && value_at_e(t, k)
        == value_at_e(s, k) by {
        let j = choose|j: int| 0 <= j < t.len() && t[j].key@ == k;
        assert(t[j] == s[a + j]);
        lemma_key_index_unique_e(s, a + j, k);
        lemma_key_index_unique_e(t, j, k);
    }
}

/// Whether a sequence of bare keys holds `k`.
pub open spec fn has_vkey(s: Seq<Vec<u8>>, k: Seq<u8>) -> bool {
    exists|i: int| 0 <= i < s.len() && s[i]@ == k
}

/// Total length of a sequence of bare keys.
pub open spec fn key_len_sum(s: Seq<Vec<u8>>) -> nat
    decreases s.len(),
{
    if s.len() == 0 {
        0
    } else {
        key_len_sum(s.drop_last()) + s.last()@.len()
    }
}

pub proof fn lemma_key_len_sum_push(s: Seq<Vec<u8>>, v: Vec<u8>)
    ensures
        key_len_sum(s.push(v)) == key_len_sum(s) + v@.len(),
{
    assert(s.push(v).drop_last() =~= s);
    assert(s.push(v).last() == v);
}

pub proof fn lemma_key_len_sum_remove(s: Seq<Vec<u8>>, i: int)
    requires
        0 <= i < s.len(),
    ensures
        key_len_sum(s.remove(i)) + s[i]@.len() == key_len_sum(s),
    decreases s.len(),
{
    if i == s.len() - 1 {
        assert(s.remove(i) =~= s.drop_last());
    } else {
        assert(s.remove(i).drop_last() =~= s.drop_last().remove(i));
        lemma_key_len_sum_remove(s.drop_last(), i);
        assert(s.remove(i).last() == s.last());
    }
}

/// Saturating increment of an 8-bit counter.
pub open spec fn bump(c: u8) -> u8 {
    if c < 255 {
        (c + 1) as u8
    } else {
        255u8
    }
}

/// Sum of a sequence of 8-bit counters.
pub open spec fn freq_sum(s: Seq<u8>) -> nat
    decreases s.len(),
{
    if s.len() == 0 {
        0
    } else {
        freq_sum(s.drop_last()) + s.last() as nat
    }
}

pub proof fn lemma_freq_sum_push(s: Seq<u8>, f: u8)
    ensures
        freq_sum(s.push(f)) == freq_sum(s) + f,
{
    assert(s.push(f).drop_last() =~= s);
    assert(s.push(f).last() == f);
}

pub proof fn lemma_freq_sum_remove(s: Seq<u8>, i: int)
    requires
        0 <= i < s.len(),
    ensures
        freq_sum(s.remove(i)) + s[i] == freq_sum(s),
    decreases s.len(),
{
    if i == s.len() - 1 {
        assert(s.remove(i) =~= s.drop_last());
    } else {
        assert(s.remove(i).drop_last() =~= s.drop_last().remove(i));
        lemma_freq_sum_remove(s.drop_last(), i);
        assert(s.remove(i).last() == s.last());
    }
}

/// Byte-wise equality of two byte vectors.
pub fn bytes_eq(a: &Vec<u8>, b: &Vec<u8>) -> (r: bool)
    ensures
        r <==> (a@ == b@),
{
    if a.len() != b.len() {
        return false;
    }
    let mut i: usize = 0;
    while i < a.len()
        invariant
            i <= a.len(),
            a@.len() == b@.len(),
            forall|j: int| 0 <= j < i ==> a@[j] == b@[j],
        decreases a.len() - i,
    {
        if a[i] != b[i] {
            return false;
        }
        i = i + 1;
    }
    proof {
        assert(a@ =~= b@);
    }
    true
}

/// A detached copy of a byte vector.
pub fn copy_bytes(v: &Vec<u8>) -> (r: Vec<u8>)
    ensures
        r@ == v@,
{
    let mut r: Vec<u8> = Vec::new();
    let mut i: usize = 0;
    while i < v.len()
        invariant
            i <= v.len(),
            r@ == v@.subrange(0, i as int),
        decreases v.len() - i,
    {
        r.push(v[i]);
        proof {
            assert(r@ =~= v@.subrange(0, i + 1 as int));
        }
        i = i + 1;
    }
    proof {
        assert(r@ =~= v@);
    }
    r
}

/// Index of the first bare key of `s` equal to `k`, if any.
pub fn find_vkey(s: &Vec<Vec<u8>>, k: &Vec<u8>) -> (r: Option<usize>)
    ensures
        match r {
            Some(i) => i < s@.len() && s@[i as int]@ == k@ && (forall|j: int|
                0 <= j < i ==> s@[j]@ != k@),
            None => !has_vkey(s@, k@),
        },
{
    let mut i: usize = 0;
    while i < s.len()
        invariant
            i <= s@.len(),
            forall|j: int| 0 <= j < i ==> s@[j]@ != k@,
        decreases s@.len() - i,
    {
        if bytes_eq(&s[i], k) {
            return Some(i);
        }
        i = i + 1;
    }
    None
}

/// Index of the first entry of `s` storing `k`, if any.
pub fn find_entry(s: &Vec<CacheEntry>, k: &Vec<u8>) -> (r: Option<usize>)
    ensures
        match r {
            Some(i) => i < s@.len() && s@[i as int].key@ == k@ && (forall|j: int|
                0 <= j < i ==> s@[j].key@ != k@),
            None => !has_key_e(s@, k@),
        },
{
    let mut i: usize = 0;
    while i < s.len()
        invariant
            i <= s@.len(),
            forall|j: int| 0 <= j < i ==> s@[j].key@ != k@,
        decreases s@.len() - i,
    {
        if bytes_eq(&s[i].key, k) {
            return Some(i);
        }
        i = i + 1;
    }
    None
}

} // verus!
