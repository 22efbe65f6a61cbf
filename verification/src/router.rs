//! Key hashing and shard routing. The hash is a polynomial rolling hash over
//! the key bytes, reduced modulo a 32-bit prime so that every step stays well
//! inside `u64`; the router then takes the hash modulo the shard count. The
//! assignment is a pure function of the key, fixed for the engine's lifetime.

use vstd::prelude::*;

verus! {

/// Modulus of the rolling hash.
pub const HASH_MODULUS: u64 = 4294967291;

/// Multiplier of the rolling hash.
pub const HASH_BASE: u64 = 31;

/// One step of the rolling hash.
pub open spec fn hash_step(h: u64, b: u8) -> u64 {
    (((h * 31) % 4294967291) + b) as u64 % 4294967291
}

/// Hash of a key, folded left to right over its bytes.
pub open spec fn hash_bytes_spec(s: Seq<u8>) -> u64
    decreases s.len(),
{
    if s.len() == 0 {
        17
    } else {
        hash_step(hash_bytes_spec(s.drop_last()), s.last())
    }
}

/// The shard a key is routed to, out of `n` shards.
pub open spec fn route_spec(s: Seq<u8>, n: nat) -> nat
    recommends
        n > 0,
{
    (hash_bytes_spec(s) as nat) % n
}

/// Computes `hash_bytes_spec`.
pub fn hash_bytes(key: &Vec<u8>) -> (r: u64)
    ensures
        r == hash_bytes_spec(key@),
        r < HASH_MODULUS,
{
    let mut h: u64 = 17;
    let mut i: usize = 0;
    while i < key.len()
        invariant
            i <= key@.len(),
            h == hash_bytes_spec(key@.subrange(0, i as int)),
            h < 4294967291,
        decreases key@.len() - i,
    {
        let b = key[i];
        h = ((h * 31) % 4294967291 + b as u64) % 4294967291;
        proof {
            assert(key@.subrange(0, i + 1 as int).drop_last() =~= key@.subrange(0, i as int));
            assert(key@.subrange(0, i + 1 as int).last() == key@[i as int]);
        }
        i = i + 1;
    }
    proof {
        assert(key@.subrange(0, key@.len() as int) =~= key@);
    }
    h
}

/// Computes `route_spec`.
pub fn route(key: &Vec<u8>, shard_count: usize) -> (r: usize)
    requires
        shard_count > 0,
    ensures
        r == route_spec(key@, shard_count as nat),
        r < shard_count,
{
    let h = hash_bytes(key);
    (h % (shard_count as u64)) as usize
}

} // verus!
