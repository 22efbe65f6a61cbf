//! An in-memory, capacity-bounded key/value cache with sharded storage and a
//! choice of eviction policy: FIFO, S3-FIFO, LRU with priority segmentation,
//! and a window/protected LFU backed by a count-min frequency sketch.
//!
//! Keys and values are opaque byte sequences. Every public operation routes a
//! key to exactly one shard; each shard owns a fixed slice of the total
//! capacity and one eviction-policy instance.

pub mod config;
pub mod engine;
pub mod fifo;
pub mod laws;
pub mod lfu;
pub mod lru;
pub mod s3fifo;
pub mod shard;
pub mod sketch;
pub mod router;
pub mod types;
