//! Deterministic content hashing for cache keys.

use vstd::prelude::*;
use crate::text::bytes_of;

verus! {

/// The 64-bit FNV-1a offset basis.
pub const FNV_OFFSET_BASIS: u64 = 14695981039346656037u64;

/// The 64-bit FNV-1a prime.
pub const FNV_PRIME: u64 = 1099511628211u64;

/// One FNV-1a step: xor the byte in, then multiply by the prime modulo 2^64.
pub open spec fn fnv1a_step(hash: u64, byte: u8) -> u64 {
    (((hash ^ (byte as u64)) as int * FNV_PRIME as int) % 0x1_0000_0000_0000_0000) as u64
}

/// The FNV-1a hash of a byte sequence: a left fold of `fnv1a_step` from the offset basis.
pub open spec fn fnv1a(bytes: Seq<u8>) -> u64
    decreases bytes.len(),
{
    if bytes.len() == 0 {
        FNV_OFFSET_BASIS
    } else {
        fnv1a_step(fnv1a(bytes.drop_last()), bytes.last())
    }
}

/// Hashes a byte slice with 64-bit FNV-1a.
pub fn hash_bytes(bytes: &[u8]) -> (hash: u64)
    ensures
        hash == fnv1a(bytes@),
{
    let mut hash: u64 = FNV_OFFSET_BASIS;
    let mut i: usize = 0;
    while i < bytes.len()
        invariant
            i <= bytes.len(),
            hash == fnv1a(bytes@.take(i as int)),
        decreases bytes.len() - i,
    {
        proof {
            assert(bytes@.take(i + 1).drop_last() =~= bytes@.take(i as int));
        }
        hash = (hash ^ (bytes[i] as u64)).wrapping_mul(FNV_PRIME);
        i += 1;
    }
    proof {
        assert(bytes@.take(i as int) =~= bytes@);
    }
    hash
}

/// Hashes the content of a file for use in cache keys. The result depends on
/// the content alone, so it is the same in every run.
pub fn calculate_content_hash(content: &str) -> (hash: u64)
    ensures
        hash == fnv1a(bytes_of(content@)),
{
    hash_bytes(content.as_bytes())
}

} // verus!
