//! Engine-wide laws, stated over the same views the operation contracts
//! use, so that each follows from what the operations ensure.

use vstd::prelude::*;

use crate::engine::CacheEngine;
use crate::fifo::fifo_insert_shape;
use crate::shard::lemma_sum_usage_le_capacity;
use crate::types::{
    has_key_e, kv_weight, weight_sum_e, CacheEntry,
};

verus! {

/// Round trip: in any state `insert(k, v)` leaves behind — one where `k` is
/// resident with stored value `v` — a lookup of `k` observes exactly `v`.
pub proof fn lemma_insert_then_get(e: CacheEngine, k: Seq<u8>, v: Seq<u8>)
    requires
        e.wf(),
        e.contains_spec(k),
        e.value_spec(k) == v,
    ensures
        e.lookup_spec(k) == Some(v),
{
}

/// Capacity bound: in every well-formed engine state — and every operation
/// both requires and re-establishes well-formedness — total usage never
/// exceeds total capacity.
pub proof fn lemma_capacity_bound(e: CacheEngine)
    requires
        e.wf(),
    ensures
        e.usage_spec() <= e.capacity,
{
    lemma_sum_usage_le_capacity(e.shards@);
}

/// Removal: in any state `remove(k)` leaves behind — one where `k` is no
/// longer resident — `contains(k)` observes false and a lookup observes
/// nothing.
pub proof fn lemma_removed_key_absent(e: CacheEngine, k: Seq<u8>)
    requires
        e.wf(),
        !e.contains_spec(k),
    ensures
        e.lookup_spec(k) == None::<Seq<u8>>,
{
}

/// `weight_sum_e` of a suffix, unfolded one entry at the head.
proof fn lemma_weight_sum_skip_step(s: Seq<CacheEntry>, a: int)
    requires
        0 <= a < s.len(),
    ensures
        weight_sum_e(s.subrange(a, s.len() as int)) == s[a].weight_spec() + weight_sum_e(
            s.subrange(a + 1, s.len() as int),
        ),
{
    crate::types::lemma_weight_sum_remove_e(s.subrange(a, s.len() as int), 0);
    assert(s.subrange(a, s.len() as int).remove(0) =~= s.subrange(a + 1, s.len() as int));
    assert(s.subrange(a, s.len() as int)[0] == s[a]);
}

/// Dropping more of the head never increases the remaining weight.
proof fn lemma_weight_sum_skip_mono(s: Seq<CacheEntry>, a: int, b: int)
    requires
        0 <= a <= b <= s.len(),
    ensures
        weight_sum_e(s.subrange(b, s.len() as int)) <= weight_sum_e(
            s.subrange(a, s.len() as int),
        ),
    decreases b - a,
{
    if a < b {
        lemma_weight_sum_skip_step(s, a);
        lemma_weight_sum_skip_mono(s, a + 1, b);
    }
}

/// FIFO fill-up: inserting a fresh key that still fits evicts nothing — the
/// old queue survives in order with the new entry at the tail. Repeated from
/// an empty queue, the first N distinct unit-weight keys of a capacity-N
/// queue all stay resident in insertion order.
pub proof fn lemma_fifo_insert_without_eviction(
    olds: Seq<CacheEntry>,
    news: Seq<CacheEntry>,
    k: Seq<u8>,
    v: Seq<u8>,
    cap: nat,
    d: int,
)
    requires
        fifo_insert_shape(olds, news, k, v, cap, d),
        !has_key_e(olds, k),
        weight_sum_e(olds) + kv_weight(k, v) <= cap,
    ensures
        d == 0,
        news.len() == olds.len() + 1,
        forall|j: int| 0 <= j < olds.len() ==> news[j] == olds[j],
        news.last().key@ == k,
        news.last().value@ == v,
{
    assert(olds.subrange(0, olds.len() as int) =~= olds);
    if d > 0 {
        lemma_weight_sum_skip_mono(olds, 0, d - 1);
        assert(weight_sum_e(olds.subrange(d - 1, olds.len() as int)) + kv_weight(k, v) > cap);
        assert(false);
    }
}

/// FIFO eviction order: inserting one more key, of the same weight as the
/// queue head, into a full FIFO queue holding only other keys evicts exactly
/// the first-inserted entry — the head — and nothing else. With unit-weight
/// entries this is the capacity-N queue receiving its (N+1)-th distinct key.
pub proof fn lemma_fifo_evicts_exactly_head(
    olds: Seq<CacheEntry>,
    news: Seq<CacheEntry>,
    k: Seq<u8>,
    v: Seq<u8>,
    cap: nat,
    d: int,
)
    requires
        fifo_insert_shape(olds, news, k, v, cap, d),
        !has_key_e(olds, k),
        weight_sum_e(olds) == cap,
        olds.len() > 0,
        kv_weight(k, v) == olds[0].weight_spec(),
        kv_weight(k, v) > 0,
    ensures
        d == 1,
        news.len() == olds.len(),
        forall|j: int| 0 <= j < olds.len() - 1 ==> news[j] == olds[j + 1],
        news.last().key@ == k,
        news.last().value@ == v,
{
    let w = kv_weight(k, v);
    assert(olds.subrange(0, olds.len() as int) =~= olds);
    if d == 0 {
        assert(weight_sum_e(olds.subrange(0, olds.len() as int)) + w <= cap);
        assert(false);
    }
    lemma_weight_sum_skip_step(olds, 0);
    if d >= 2 {
        assert(weight_sum_e(olds.subrange(d - 1, olds.len() as int)) + w > cap);
        lemma_weight_sum_skip_mono(olds, 1, d - 1);
        assert(weight_sum_e(olds.subrange(1, olds.len() as int)) + w == cap);
        assert(false);
    }
}

/// The first `i` inserts of distinct unit-weight keys into an empty
/// capacity-`cap` FIFO queue evict nothing: the queue holds exactly those
/// keys, in insertion order.
pub open spec fn fifo_unit_run(
    keys: Seq<Seq<u8>>,
    vals: Seq<Seq<u8>>,
    states: Seq<Seq<CacheEntry>>,
    cap: nat,
) -> bool {
    &&& vals.len() == keys.len()
    &&& states.len() == keys.len() + 1
    &&& states[0].len() == 0
    &&& (forall|a: int, b: int| 0 <= a < b < keys.len() ==> keys[a] != keys[b])
    &&& (forall|j: int| 0 <= j < keys.len() ==> kv_weight(keys[j], vals[j]) == 1)
    &&& (forall|j: int| #![trigger keys[j]]
        0 <= j < keys.len() ==> exists|d: int|
            #[trigger] fifo_insert_shape(states[j], states[j + 1], keys[j], vals[j], cap, d))
}

pub proof fn lemma_fifo_fill_in_order(
    keys: Seq<Seq<u8>>,
    vals: Seq<Seq<u8>>,
    states: Seq<Seq<CacheEntry>>,
    cap: nat,
    i: int,
)
    requires
        0 <= i <= cap,
        i <= keys.len(),
        fifo_unit_run(keys, vals, states, cap),
    ensures
        states[i].len() == i,
        weight_sum_e(states[i]) == i,
        forall|j: int| #![auto]
            0 <= j < i ==> states[i][j].key@ == keys[j] && states[i][j].value@ == vals[j],
    decreases i,
{
    if i > 0 {
        lemma_fifo_fill_in_order(keys, vals, states, cap, i - 1);
        let olds = states[i - 1];
        let news = states[i];
        let d = choose|d: int|
            #[trigger] fifo_insert_shape(olds, news, keys[i - 1], vals[i - 1], cap, d);
        assert(!has_key_e(olds, keys[i - 1])) by {
            if has_key_e(olds, keys[i - 1]) {
                let j = choose|j: int| 0 <= j < olds.len() && olds[j].key@ == keys[i - 1];
                assert(keys[j] != keys[i - 1]);
            }
        }
        lemma_fifo_insert_without_eviction(olds, news, keys[i - 1], vals[i - 1], cap, d);
        assert(news =~= olds.push(news.last()));
        crate::types::lemma_weight_sum_push_e(olds, news.last());
    }
}

/// FIFO eviction order, whole run: inserting `cap + 1` distinct unit-weight
/// keys into an empty capacity-`cap` FIFO queue evicts exactly the
/// first-inserted key — the rest remain resident, still in insertion order,
/// with the newest at the tail.
pub proof fn lemma_fifo_eviction_order(
    keys: Seq<Seq<u8>>,
    vals: Seq<Seq<u8>>,
    states: Seq<Seq<CacheEntry>>,
    cap: nat,
)
    requires
        cap > 0,
        keys.len() == cap + 1,
        fifo_unit_run(keys, vals, states, cap),
    ensures
        states[keys.len() as int].len() == cap,
        !has_key_e(states[keys.len() as int], keys[0]),
        forall|j: int| #![auto]
            0 <= j < cap ==> states[keys.len() as int][j].key@ == keys[j + 1],
{
    let n = keys.len() as int;
    lemma_fifo_fill_in_order(keys, vals, states, cap, n - 1);
    let olds = states[n - 1];
    let news = states[n];
    let d = choose|d: int| #[trigger] fifo_insert_shape(olds, news, keys[n - 1], vals[n - 1], cap, d);
    assert(!has_key_e(olds, keys[n - 1])) by {
        if has_key_e(olds, keys[n - 1]) {
            let j = choose|j: int| 0 <= j < olds.len() && olds[j].key@ == keys[n - 1];
            assert(keys[j] != keys[n - 1]);
        }
    }
    assert(olds[0].key@ == keys[0] && olds[0].value@ == vals[0]);
    assert(kv_weight(keys[0], vals[0]) == 1);
    assert(kv_weight(keys[n - 1], vals[n - 1]) == 1);
    lemma_fifo_evicts_exactly_head(olds, news, keys[n - 1], vals[n - 1], cap, d);
    assert forall|j: int| #![auto] 0 <= j < cap implies news[j].key@ == keys[j + 1] by {
        if j < cap - 1 {
            assert(news[j] == olds[j + 1]);
        } else {
            assert(news[j] == news.last());
        }
    }
    assert(!has_key_e(news, keys[0])) by {
        if has_key_e(news, keys[0]) {
            let j = choose|j: int| 0 <= j < news.len() && news[j].key@ == keys[0];
            assert(news[j].key@ == keys[j + 1]);
            assert(keys[0] != keys[j + 1]);
        }
    }
}

} // verus!
