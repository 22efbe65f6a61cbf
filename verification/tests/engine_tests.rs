use cache_engine::config::{
    EvictionConfig, FifoConfig, LfuConfig, LruConfig, S3FifoConfig,
};
use cache_engine::engine::{CacheBuilder, CacheEngine, DEFAULT_SHARD_COUNT};
use cache_engine::types::CacheError;

fn b(s: &str) -> Vec<u8> {
    s.as_bytes().to_vec()
}

fn fifo_engine(capacity: usize) -> CacheEngine {
    CacheBuilder::new(capacity)
        .with_shards(1)
        .with_eviction_config(EvictionConfig::Fifo(FifoConfig::default()))
        .build()
        .unwrap()
}

#[test]
fn round_trip_insert_then_get() {
    let mut cache = fifo_engine(64);
    cache.insert(b("alpha"), b("one")).unwrap();
    cache.insert(b("beta"), b("two")).unwrap();
    let got = cache.get(&b("alpha")).unwrap();
    assert_eq!(got.key, b("alpha"));
    assert_eq!(got.value, b("one"));
    let got = cache.get(&b("beta")).unwrap();
    assert_eq!(got.value, b("two"));
    assert!(cache.get(&b("gamma")).is_none());
}

#[test]
fn overwrite_replaces_value() {
    let mut cache = fifo_engine(64);
    cache.insert(b("k"), b("first")).unwrap();
    cache.insert(b("k"), b("second")).unwrap();
    assert_eq!(cache.get(&b("k")).unwrap().value, b("second"));
    assert_eq!(cache.usage(), "k".len() + "second".len());
}

#[test]
fn usage_bounded_by_capacity_through_mixed_operations() {
    let configs = [
        EvictionConfig::Fifo(FifoConfig::default()),
        EvictionConfig::S3Fifo(S3FifoConfig::default()),
        EvictionConfig::Lru(LruConfig::default()),
        EvictionConfig::Lfu(LfuConfig::default()),
    ];
    for config in configs {
        let mut cache = CacheBuilder::new(8)
            .with_shards(2)
            .with_eviction_config(config)
            .build()
            .unwrap();
        for i in 0..30u8 {
            cache.insert(vec![i], vec![i]).unwrap();
            assert!(cache.usage() <= cache.capacity());
            let _ = cache.get(&vec![i / 2]);
            assert!(cache.usage() <= cache.capacity());
            let _ = cache.remove(&vec![i.wrapping_mul(7)]);
            assert!(cache.usage() <= cache.capacity());
        }
        cache.clear();
        assert!(cache.usage() <= cache.capacity());
    }
}

#[test]
fn remove_then_contains_is_false() {
    let mut cache = fifo_engine(64);
    cache.insert(b("k"), b("v")).unwrap();
    assert!(cache.contains(&b("k")));
    let removed = cache.remove(&b("k")).unwrap();
    assert_eq!(removed.key, b("k"));
    assert_eq!(removed.value, b("v"));
    assert!(!cache.contains(&b("k")));
}

#[test]
fn remove_absent_key_fails_with_not_found() {
    let mut cache = fifo_engine(64);
    assert_eq!(cache.remove(&b("missing")).unwrap_err(), CacheError::NotFound);
    cache.insert(b("k"), b("v")).unwrap();
    cache.remove(&b("k")).unwrap();
    assert_eq!(cache.remove(&b("k")).unwrap_err(), CacheError::NotFound);
}

#[test]
fn fifo_evicts_exactly_first_inserted() {
    // Three unit-weight keys in a capacity-3 single-shard FIFO cache, then a
    // fourth: exactly the first-inserted key is gone.
    let mut cache = fifo_engine(3);
    cache.insert(b("1"), vec![]).unwrap();
    cache.insert(b("2"), vec![]).unwrap();
    cache.insert(b("3"), vec![]).unwrap();
    cache.insert(b("4"), vec![]).unwrap();
    assert!(!cache.contains(&b("1")));
    assert!(cache.contains(&b("2")));
    assert!(cache.contains(&b("3")));
    assert!(cache.contains(&b("4")));
    assert_eq!(cache.usage(), 3);
}

#[test]
fn fifo_concrete_scenario_capacity_two() {
    // Capacity 2, one shard, FIFO; insert "a", "b", "c" in order.
    let mut cache = fifo_engine(2);
    cache.insert(b("a"), vec![]).unwrap();
    cache.insert(b("b"), vec![]).unwrap();
    cache.insert(b("c"), vec![]).unwrap();
    assert!(!cache.contains(&b("a")));
    assert!(cache.contains(&b("b")));
    assert!(cache.contains(&b("c")));
}

#[test]
fn lru_priority_pool_protects_touched_key() {
    // Capacity 4, half reserved for the protected segment. The hot key is
    // touched after every insertion of four other distinct unit keys and is
    // still resident afterwards.
    let mut cache = CacheBuilder::new(4)
        .with_shards(1)
        .with_eviction_config(EvictionConfig::Lru(LruConfig { high_priority_pool_ratio: 500 }))
        .build()
        .unwrap();
    cache.insert(b("h"), vec![]).unwrap();
    assert!(cache.get(&b("h")).is_some());
    for k in ["1", "2", "3", "4"] {
        cache.insert(b(k), vec![]).unwrap();
        assert!(cache.get(&b("h")).is_some());
    }
    assert!(cache.contains(&b("h")));
    assert!(cache.usage() <= 4);
}

#[test]
fn lru_falls_back_to_protected_when_probation_empty() {
    let mut cache = CacheBuilder::new(2)
        .with_shards(1)
        .with_eviction_config(EvictionConfig::Lru(LruConfig { high_priority_pool_ratio: 900 }))
        .build()
        .unwrap();
    cache.insert(b("a"), vec![]).unwrap();
    // Promote "a" into the protected segment; probation is now empty.
    cache.get(&b("a")).unwrap();
    // A weight-2 insert forces eviction while probation is empty: the
    // protected tail is demoted and evicted rather than starving eviction.
    cache.insert(b("zz"), vec![]).unwrap();
    assert!(!cache.contains(&b("a")));
    assert!(cache.contains(&b("zz")));
    assert_eq!(cache.usage(), 2);
}

#[test]
fn s3fifo_single_touch_key_decays_to_ghost_not_main() {
    // Small queue sized to zero of a capacity-2 shard, so the small queue is
    // always over its share: an untouched head is demoted, not promoted.
    let mut cache = CacheBuilder::new(2)
        .with_shards(1)
        .with_eviction_config(EvictionConfig::S3Fifo(S3FifoConfig {
            small_queue_capacity_ratio: 100,
            ghost_queue_capacity_ratio: 900,
            small_to_main_freq_threshold: 1,
        }))
        .build()
        .unwrap();
    cache.insert(b("a"), vec![]).unwrap();
    cache.insert(b("b"), vec![]).unwrap();
    cache.insert(b("c"), vec![]).unwrap();
    // "a" was inserted once and never touched: once the small queue filled it
    // was evicted, not promoted to the main queue.
    assert!(!cache.contains(&b("a")));
    assert!(cache.contains(&b("b")));
    assert!(cache.contains(&b("c")));
}

#[test]
fn s3fifo_touched_key_promotes_to_main() {
    let mut cache = CacheBuilder::new(2)
        .with_shards(1)
        .with_eviction_config(EvictionConfig::S3Fifo(S3FifoConfig {
            small_queue_capacity_ratio: 100,
            ghost_queue_capacity_ratio: 900,
            small_to_main_freq_threshold: 1,
        }))
        .build()
        .unwrap();
    cache.insert(b("a"), vec![]).unwrap();
    cache.insert(b("b"), vec![]).unwrap();
    // Touch "a": its frequency reaches the promotion threshold.
    cache.get(&b("a")).unwrap();
    cache.insert(b("c"), vec![]).unwrap();
    // The small-queue head "a" was promoted into the main queue rather than
    // evicted; the untouched "b" paid for the new entry instead.
    assert!(cache.contains(&b("a")));
    assert!(!cache.contains(&b("b")));
    assert!(cache.contains(&b("c")));
}

#[test]
fn clear_is_idempotent() {
    let mut cache = fifo_engine(16);
    cache.insert(b("a"), b("x")).unwrap();
    cache.insert(b("b"), b("y")).unwrap();
    cache.clear();
    assert_eq!(cache.usage(), 0);
    assert!(!cache.contains(&b("a")));
    cache.clear();
    assert_eq!(cache.usage(), 0);
    assert!(!cache.contains(&b("b")));
}

#[test]
fn oversized_entry_is_rejected_and_state_unchanged() {
    let mut cache = fifo_engine(4);
    cache.insert(b("k"), vec![]).unwrap();
    let err = cache.insert(b("key"), b("toolarge")).unwrap_err();
    assert_eq!(err, CacheError::OversizedEntry);
    assert!(cache.contains(&b("k")));
    assert!(!cache.contains(&b("key")));
    assert_eq!(cache.usage(), 1);
}

#[test]
fn construction_rejects_zero_shards() {
    let err = match CacheBuilder::new(16).with_shards(0).build() {
        Ok(_) => panic!("zero shard count was accepted"),
        Err(e) => e,
    };
    assert_eq!(err, CacheError::ConfigError);
}

#[test]
fn construction_rejects_out_of_range_ratios() {
    let bad = [
        EvictionConfig::S3Fifo(S3FifoConfig {
            small_queue_capacity_ratio: 0,
            ghost_queue_capacity_ratio: 900,
            small_to_main_freq_threshold: 1,
        }),
        EvictionConfig::Lru(LruConfig { high_priority_pool_ratio: 1000 }),
        EvictionConfig::Lfu(LfuConfig {
            window_capacity_ratio: 600,
            protected_capacity_ratio: 600,
            cmsketch_eps: 10,
            cmsketch_confidence: 900,
        }),
    ];
    for config in bad {
        let err = match CacheBuilder::new(16).with_eviction_config(config).build() {
            Ok(_) => panic!("out-of-range ratio was accepted"),
            Err(e) => e,
        };
        assert_eq!(err, CacheError::ConfigError);
    }
}

#[test]
fn builder_settings_are_kept() {
    let cache = CacheBuilder::new(100)
        .with_shards(4)
        .with_name(String::from("test-cache"))
        .with_eviction_config(EvictionConfig::Fifo(FifoConfig::default()))
        .build()
        .unwrap();
    assert_eq!(cache.capacity(), 100);
    assert_eq!(cache.shards(), 4);
}

#[test]
fn default_engine_uses_default_shard_count() {
    let mut cache = CacheEngine::new(1024);
    assert_eq!(cache.shards(), DEFAULT_SHARD_COUNT);
    assert_eq!(cache.capacity(), 1024);
    assert_eq!(cache.usage(), 0);
    cache.insert(b("k"), b("v")).unwrap();
    assert_eq!(cache.get(&b("k")).unwrap().value, b("v"));
}

#[test]
fn capacity_splits_evenly_with_remainder_to_first_shards() {
    // Capacity 10 over 4 shards: shards get 3, 3, 2, 2; the sum is exact.
    let cache = CacheBuilder::new(10)
        .with_shards(4)
        .with_eviction_config(EvictionConfig::Fifo(FifoConfig::default()))
        .build()
        .unwrap();
    assert_eq!(cache.capacity(), 10);
    assert_eq!(cache.shards(), 4);
}

#[test]
fn keys_route_to_stable_shards() {
    let mut cache = CacheBuilder::new(64)
        .with_shards(4)
        .with_eviction_config(EvictionConfig::Fifo(FifoConfig::default()))
        .build()
        .unwrap();
    for i in 0..16u8 {
        cache.insert(vec![i], vec![i, i]).unwrap();
    }
    for i in 0..16u8 {
        assert_eq!(cache.get(&vec![i]).unwrap().value, vec![i, i]);
        assert!(cache.contains(&vec![i]));
    }
}
