//! Eviction-policy configuration. Ratio parameters are expressed in
//! per-mille (thousandths) so that segment capacities are exact integer
//! fractions of a shard's capacity; a ratio is valid when it lies strictly
//! between 0 and 1, that is between 1 and 999 per-mille.

use vstd::prelude::*;

verus! {

/// Denominator of all ratio parameters.
pub const RATIO_SCALE: u64 = 1000;

/// A ratio parameter lies strictly inside (0, 1).
pub open spec fn valid_ratio(r: u64) -> bool {
    0 < r < 1000
}

/// FIFO has no tuning parameters.
#[derive(Clone, Copy, Debug, PartialEq, Eq, Structural)]
pub struct FifoConfig {}

impl Default for FifoConfig {
    fn default() -> (r: Self)
        ensures
            r == (FifoConfig {  }),
    {
        FifoConfig {  }
    }
}

/// S3-FIFO: sizes of the small and ghost queues as per-mille of shard
/// capacity, and the minimum observed frequency required to promote an entry
/// from the small queue to the main queue.
#[derive(Clone, Copy, Debug, PartialEq, Eq, Structural)]
pub struct S3FifoConfig {
    pub small_queue_capacity_ratio: u64,
    pub ghost_queue_capacity_ratio: u64,
    pub small_to_main_freq_threshold: u8,
}

impl S3FifoConfig {
    pub open spec fn valid(self) -> bool {
        valid_ratio(self.small_queue_capacity_ratio) && valid_ratio(
            self.ghost_queue_capacity_ratio,
        )
    }
}

impl Default for S3FifoConfig {
    fn default() -> (r: Self)
        ensures
            r == (S3FifoConfig {
                small_queue_capacity_ratio: 100,
                ghost_queue_capacity_ratio: 900,
                small_to_main_freq_threshold: 1,
            }),
            r.valid(),
    {
        S3FifoConfig {
            small_queue_capacity_ratio: 100,
            ghost_queue_capacity_ratio: 900,
            small_to_main_freq_threshold: 1,
        }
    }
}

/// LRU: fraction of shard capacity reserved for the protected segment.
#[derive(Clone, Copy, Debug, PartialEq, Eq, Structural)]
pub struct LruConfig {
    pub high_priority_pool_ratio: u64,
}

impl LruConfig {
    pub open spec fn valid(self) -> bool {
        valid_ratio(self.high_priority_pool_ratio)
    }
}

impl Default for LruConfig {
    fn default() -> (r: Self)
        ensures
            r == (LruConfig { high_priority_pool_ratio: 100 }),
            r.valid(),
    {
        LruConfig { high_priority_pool_ratio: 100 }
    }
}

/// LFU: window and protected segment sizes as per-mille of shard capacity
/// (probation is the remainder, so the two must sum below 1), and the
/// count-min sketch's error bound and confidence, also in per-mille.
#[derive(Clone, Copy, Debug, PartialEq, Eq, Structural)]
pub struct LfuConfig {
    pub window_capacity_ratio: u64,
    pub protected_capacity_ratio: u64,
    pub cmsketch_eps: u64,
    pub cmsketch_confidence: u64,
}

impl LfuConfig {
    pub open spec fn valid(self) -> bool {
        valid_ratio(self.window_capacity_ratio) && valid_ratio(self.protected_capacity_ratio)
            && self.window_capacity_ratio + self.protected_capacity_ratio < 1000 && valid_ratio(
            self.cmsketch_eps,
        ) && valid_ratio(self.cmsketch_confidence)
    }
}

impl Default for LfuConfig {
    fn default() -> (r: Self)
        ensures
            r == (LfuConfig {
                window_capacity_ratio: 10,
                protected_capacity_ratio: 800,
                cmsketch_eps: 10,
                cmsketch_confidence: 900,
            }),
            r.valid(),
    {
        LfuConfig {
            window_capacity_ratio: 10,
            protected_capacity_ratio: 800,
            cmsketch_eps: 10,
            cmsketch_confidence: 900,
        }
    }
}

/// The closed set of eviction policies a shard can be built with.
#[derive(Clone, Copy, Debug, PartialEq, Eq, Structural)]
pub enum EvictionConfig {
    Fifo(FifoConfig),
    S3Fifo(S3FifoConfig),
    Lru(LruConfig),
    Lfu(LfuConfig),
}

impl EvictionConfig {
    pub open spec fn valid(self) -> bool {
        match self {
            EvictionConfig::Fifo(_) => true,
            EvictionConfig::S3Fifo(c) => c.valid(),
            EvictionConfig::Lru(c) => c.valid(),
            EvictionConfig::Lfu(c) => c.valid(),
        }
    }

    /// Runtime validation, mirroring `valid` exactly.
    pub fn is_valid(&self) -> (r: bool)
        ensures
            r == self.valid(),
    {
        match self {
            EvictionConfig::Fifo(_) => true,
            EvictionConfig::S3Fifo(c) => 0 < c.small_queue_capacity_ratio
                && c.small_queue_capacity_ratio < 1000 && 0 < c.ghost_queue_capacity_ratio
                && c.ghost_queue_capacity_ratio < 1000,
            EvictionConfig::Lru(c) => 0 < c.high_priority_pool_ratio && c.high_priority_pool_ratio
                < 1000,
            EvictionConfig::Lfu(c) => 0 < c.window_capacity_ratio && c.window_capacity_ratio < 1000
                && 0 < c.protected_capacity_ratio && c.protected_capacity_ratio < 1000
                && c.window_capacity_ratio + c.protected_capacity_ratio < 1000 && 0
                < c.cmsketch_eps && c.cmsketch_eps < 1000 && 0 < c.cmsketch_confidence
                && c.cmsketch_confidence < 1000,
        }
    }
}

/// The integer part of `cap * ratio / 1000`: the byte capacity a per-mille
/// ratio grants out of a shard capacity `cap`.
pub open spec fn ratio_of_spec(cap: nat, ratio: nat) -> nat {
    (cap * ratio) / 1000
}

/// Computes `ratio_of_spec` without overflow.
pub fn ratio_of(cap: usize, ratio: u64) -> (r: usize)
    requires
        ratio < 1000,
    ensures
        r == ratio_of_spec(cap as nat, ratio as nat),
        r <= cap,
{
    proof {
        assert(cap * ratio <= cap * 999) by (nonlinear_arith)
            requires
                ratio <= 999,
                0 <= cap,
        ;
        assert(cap * 999 / 1000 <= cap) by (nonlinear_arith)
            requires
                0 <= cap,
        ;
        assert(cap * ratio / 1000 <= cap * 999 / 1000) by (nonlinear_arith)
            requires
                cap * ratio <= cap * 999,
        ;
    }
    let wide: u128 = (cap as u128) * (ratio as u128) / 1000;
    wide as usize
}

} // verus!
