//! Shared primitives of the 64-bit xxHash algorithm: the five prime
//! constants, the per-lane round and merge functions and the final
//! avalanche.

use vstd::prelude::*;

verus! {

pub const PRIME_1: u64 = 0x9E3779B185EBCA87;
pub const PRIME_2: u64 = 0xC2B2AE3D27D4EB4F;
pub const PRIME_3: u64 = 0x165667B19E3779F9;
pub const PRIME_4: u64 = 0x85EBCA77C2B2AE63;
pub const PRIME_5: u64 = 0x27D4EB2F165667C5;

/// Bytes consumed per accumulator step (four 64-bit lanes).
pub const CHUNK_SIZE: usize = 32;

/// Left rotation of a 64-bit word.
pub open spec fn spec_rotl64(x: u64, r: u64) -> u64 {
    (x << r) | (x >> (64 - r))
}

#[verifier::when_used_as_spec(spec_rotl64)]
#[inline(always)]
pub fn rotl64(x: u64, r: u64) -> (res: u64)
    requires
        0 < r < 64,
    ensures
        res == spec_rotl64(x, r),
{
    (x << r) | (x >> (64 - r))
}

/// One accumulator round: absorb a 64-bit lane.
pub open spec fn spec_round(acc: u64, input: u64) -> u64 {
    spec_rotl64(acc.wrapping_add(input.wrapping_mul(PRIME_2)), 31).wrapping_mul(PRIME_1)
}

#[verifier::when_used_as_spec(spec_round)]
#[inline(always)]
pub fn round(acc: u64, input: u64) -> (res: u64)
    ensures
        res == spec_round(acc, input),
{
    rotl64(acc.wrapping_add(input.wrapping_mul(PRIME_2)), 31).wrapping_mul(PRIME_1)
}

/// Folds one lane into the digest accumulator.
pub open spec fn spec_merge_round(acc: u64, val: u64) -> u64 {
    ((acc ^ spec_round(0, val)).wrapping_mul(PRIME_1)).wrapping_add(PRIME_4)
}

#[verifier::when_used_as_spec(spec_merge_round)]
#[inline(always)]
pub fn merge_round(acc: u64, val: u64) -> (res: u64)
    ensures
        res == spec_merge_round(acc, val),
{
    ((acc ^ round(0, val)).wrapping_mul(PRIME_1)).wrapping_add(PRIME_4)
}

/// Final mixing that spreads every input bit across the 64-bit digest.
pub open spec fn spec_avalanche(input: u64) -> u64 {
    let a = (input ^ (input >> 33)).wrapping_mul(PRIME_2);
    let b = (a ^ (a >> 29)).wrapping_mul(PRIME_3);
    b ^ (b >> 32)
}

#[verifier::when_used_as_spec(spec_avalanche)]
#[inline(always)]
pub fn avalanche(input: u64) -> (res: u64)
    ensures
        res == spec_avalanche(input),
{
    let a = (input ^ (input >> 33u64)).wrapping_mul(PRIME_2);
    let b = (a ^ (a >> 29u64)).wrapping_mul(PRIME_3);
    b ^ (b >> 32u64)
}

} // verus!
