use cache_engine::config::{EvictionConfig, LfuConfig};
use cache_engine::engine::CacheBuilder;
use cache_engine::fifo::FifoShard;
use cache_engine::lfu::LfuShard;
use cache_engine::lru::LruShard;
use cache_engine::s3fifo::S3FifoShard;
use cache_engine::sketch::FrequencySketch;

fn b(s: &str) -> Vec<u8> {
    s.as_bytes().to_vec()
}

#[test]
fn fifo_shard_keeps_insertion_order_on_eviction() {
    let mut shard = FifoShard::new(2);
    shard.insert(b("a"), vec![]).unwrap();
    shard.insert(b("b"), vec![]).unwrap();
    shard.insert(b("c"), vec![]).unwrap();
    assert!(!shard.contains(&b("a")));
    assert!(shard.contains(&b("b")));
    assert!(shard.contains(&b("c")));
    assert_eq!(shard.usage(), 2);
}

#[test]
fn fifo_shard_get_does_not_protect() {
    let mut shard = FifoShard::new(2);
    shard.insert(b("a"), vec![]).unwrap();
    shard.insert(b("b"), vec![]).unwrap();
    // FIFO has no touch bookkeeping: "a" is evicted regardless of the hit.
    assert!(shard.get(&b("a")).is_some());
    shard.insert(b("c"), vec![]).unwrap();
    assert!(!shard.contains(&b("a")));
}

#[test]
fn lru_shard_eviction_prefers_probationary_tail() {
    let mut shard = LruShard::new(4, 2);
    shard.insert(b("p"), vec![]).unwrap();
    shard.get(&b("p")).unwrap();  // promoted to protected
    shard.insert(b("x"), vec![]).unwrap();
    shard.insert(b("y"), vec![]).unwrap();
    let victim = shard.evict_one();
    // The probationary tail ("x", the older probationary entry) goes first;
    // the protected entry is untouched.
    assert_eq!(victim.key, b("x"));
    assert!(shard.contains(&b("p")));
    assert!(shard.contains(&b("y")));
}

#[test]
fn s3fifo_shard_demotes_cold_head_and_promotes_warm_head() {
    // Small capacity zero: the small queue is always over its share.
    let mut shard = S3FifoShard::new(8, 0, 8, 1);
    shard.insert(b("cold"), vec![]).unwrap();
    shard.insert(b("warm"), vec![]).unwrap();
    shard.get(&b("warm")).unwrap();
    // Head of the small queue is "cold" with frequency zero: demoted.
    let victim = shard.evict_one().unwrap();
    assert_eq!(victim.key, b("cold"));
    assert!(!shard.contains(&b("cold")));
    // Next head is "warm" with frequency one: promoted to main, not evicted.
    assert!(shard.evict_one().is_none());
    assert!(shard.contains(&b("warm")));
}

#[test]
fn s3fifo_ghost_frequency_seeds_reinserted_key() {
    let mut shard = S3FifoShard::new(4, 0, 16, 2);
    shard.insert(b("k"), vec![]).unwrap();
    shard.get(&b("k")).unwrap();  // frequency 1, still under threshold 2
    let victim = shard.evict_one().unwrap();
    assert_eq!(victim.key, b("k"));
    // Reinsert: the ghost record carries frequency 1; one more touch reaches
    // the threshold, so the next small-queue decision promotes instead of
    // evicting.
    shard.insert(b("k"), vec![]).unwrap();
    shard.get(&b("k")).unwrap();
    assert!(shard.evict_one().is_none());
    assert!(shard.contains(&b("k")));
}

#[test]
fn lfu_low_frequency_newcomer_loses_admission() {
    let mut shard = LfuShard::new(3, 1, 1, 0, 64, 2, 1000);
    shard.insert(b("a"), vec![]).unwrap();
    shard.insert(b("b"), vec![]).unwrap();
    shard.insert(b("f"), vec![]).unwrap();
    // Move "a" (the window tail) into probation without eviction.
    assert!(shard.evict_one().is_none());
    // Build up the incumbent's sketch frequency.
    for _ in 0..3 {
        shard.get(&b("a")).unwrap();
    }
    // Pressure now compares the window candidate "b" (frequency 1) with the
    // probation tail "a" (frequency 4): the newcomer loses.
    let victim = shard.evict_one().unwrap();
    assert_eq!(victim.key, b("b"));
    assert!(shard.contains(&b("a")));
    assert!(shard.contains(&b("f")));
}

#[test]
fn lfu_protected_entry_not_evicted_under_pressure() {
    let mut cache = CacheBuilder::new(4)
        .with_shards(1)
        .with_eviction_config(EvictionConfig::Lfu(LfuConfig {
            window_capacity_ratio: 250,
            protected_capacity_ratio: 250,
            cmsketch_eps: 100,
            cmsketch_confidence: 900,
        }))
        .build()
        .unwrap();
    for k in ["a", "b", "c", "d"] {
        cache.insert(b(k), vec![]).unwrap();
    }
    cache.insert(b("e"), vec![]).unwrap();
    // Promote a surviving key into the protected segment.
    let protected_key = if cache.contains(&b("a")) { "a" } else { "b" };
    cache.get(&b(protected_key)).unwrap();
    // Further pressure evicts from window and probation, never from the
    // protected segment while those are nonempty.
    cache.insert(b("f"), vec![]).unwrap();
    cache.insert(b("g"), vec![]).unwrap();
    assert!(cache.contains(&b(protected_key)));
    assert!(cache.usage() <= cache.capacity());
}

#[test]
fn sketch_counts_touches_and_ages() {
    let key = b("hot");
    let mut sketch = FrequencySketch::new(64, 2, 1000);
    assert_eq!(sketch.estimate(&key), 0);
    sketch.increment(&key);
    sketch.increment(&key);
    sketch.increment(&key);
    assert_eq!(sketch.estimate(&key), 3);
    // With a sample size of four, the fourth touch halves every counter.
    let mut aged = FrequencySketch::new(64, 2, 4);
    for _ in 0..4 {
        aged.increment(&key);
    }
    assert_eq!(aged.estimate(&key), 2);
}
