//! Shared primitives of the 32-bit xxHash algorithm: the five prime
//! constants, the per-lane round function and the final avalanche.

use vstd::prelude::*;

verus! {

pub const PRIME_1: u32 = 0x9E3779B1;
pub const PRIME_2: u32 = 0x85EBCA77;
pub const PRIME_3: u32 = 0xC2B2AE3D;
pub const PRIME_4: u32 = 0x27D4EB2F;
pub const PRIME_5: u32 = 0x165667B1;

/// Bytes consumed per accumulator step (four 32-bit lanes).
pub const CHUNK_SIZE: usize = 16;

/// Left rotation of a 32-bit word.
pub open spec fn spec_rotl32(x: u32, r: u32) -> u32 {
    (x << r) | (x >> (32 - r))
}

#[verifier::when_used_as_spec(spec_rotl32)]
#[inline(always)]
pub fn rotl32(x: u32, r: u32) -> (res: u32)
    requires
        0 < r < 32,
    ensures
        res == spec_rotl32(x, r),
{
    (x << r) | (x >> (32 - r))
}

/// One accumulator round: absorb a 32-bit lane.
pub open spec fn spec_round(acc: u32, input: u32) -> u32 {
    spec_rotl32(acc.wrapping_add(input.wrapping_mul(PRIME_2)), 13).wrapping_mul(PRIME_1)
}

#[verifier::when_used_as_spec(spec_round)]
#[inline(always)]
pub fn round(acc: u32, input: u32) -> (res: u32)
    ensures
        res == spec_round(acc, input),
{
    rotl32(acc.wrapping_add(input.wrapping_mul(PRIME_2)), 13).wrapping_mul(PRIME_1)
}

/// Final mixing that spreads every input bit across the 32-bit digest.
pub open spec fn spec_avalanche(input: u32) -> u32 {
    let a = (input ^ (input >> 15)).wrapping_mul(PRIME_2);
    let b = (a ^ (a >> 13)).wrapping_mul(PRIME_3);
    b ^ (b >> 16)
}

#[verifier::when_used_as_spec(spec_avalanche)]
#[inline(always)]
pub fn avalanche(input: u32) -> (res: u32)
    ensures
        res == spec_avalanche(input),
{
    let a = (input ^ (input >> 15u32)).wrapping_mul(PRIME_2);
    let b = (a ^ (a >> 13u32)).wrapping_mul(PRIME_3);
    b ^ (b >> 16u32)
}

} // verus!
