//! Deterministic routing of byte keys to shards.
//!
//! The router hashes the key with 64-bit FNV-1a and takes the top
//! [`NUM_SHARD_BITS`] bits of the low 32 hash bits as the shard index.
//! With a power-of-two shard count the mapping is a mask and a shift, and
//! it depends on nothing but the key's bytes, so a key lands on the same
//! shard for the life of the cache.

use vstd::prelude::*;
use vstd::wrapping::u64_specs;

verus! {

/// How many bits of the hash select the shard.
pub const NUM_SHARD_BITS: usize = 4;

/// The fixed shard count, two to the power of [`NUM_SHARD_BITS`].
pub const NUM_SHARDS: usize = 16;

pub const FNV_OFFSET_BASIS: u64 = 0xcbf29ce484222325;

pub const FNV_PRIME: u64 = 0x100000001b3;

/// The 64-bit FNV-1a hash of a byte sequence.
pub open spec fn fnv1a(bytes: Seq<u8>) -> u64
    decreases bytes.len(),
{
    if bytes.len() == 0 {
        FNV_OFFSET_BASIS
    } else {
        u64_specs::wrapping_mul(fnv1a(bytes.drop_last()) ^ (bytes.last() as u64), FNV_PRIME)
    }
}

/// The shard index of a key: a pure function of the key's bytes.
pub open spec fn route_spec(key: Seq<u8>) -> int {
    ((fnv1a(key) & 0xffffffff) >> 28) as int
}

pub proof fn lemma_route_spec_bound(key: Seq<u8>)
    ensures
        0 <= route_spec(key) < NUM_SHARDS,
{
    let h = fnv1a(key);
    assert((h & 0xffffffff) >> 28 < 16) by (bit_vector);
}

fn fnv1a_hash(key: &Vec<u8>) -> (h: u64)
    ensures
        h == fnv1a(key@),
{
    let mut h: u64 = FNV_OFFSET_BASIS;
    let mut i: usize = 0;
    while i < key.len()
        invariant
            i <= key.len(),
            h == fnv1a(key@.take(i as int)),
        decreases key.len() - i,
    {
        h = (h ^ (key[i] as u64)).wrapping_mul(FNV_PRIME);
        proof {
            let t = key@.take(i + 1 as int);
            assert(t.drop_last() =~= key@.take(i as int));
            assert(t.last() == key@[i as int]);
        }
        i = i + 1;
    }
    proof {
        assert(key@.take(key@.len() as int) =~= key@);
    }
    h
}

/// Routes a key to its shard. Repeated calls on equal keys return the same
/// index: the result is a pure function of the key's bytes.
pub fn route(key: &Vec<u8>) -> (idx: usize)
    ensures
        idx == route_spec(key@),
        idx < NUM_SHARDS,
{
    let h = fnv1a_hash(key);
    let top: u64 = (h & 0xffffffff) >> 28;
    proof {
        assert((h & 0xffffffff) >> 28 < 16) by (bit_vector);
    }
    top as usize
}

} // verus!
