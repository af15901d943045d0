//! Entry points mirroring the compile-time-friendly variant of the XXH3
//! 64-bit algorithm. Both variants compute the same digests, so one
//! verified implementation backs them.

use vstd::prelude::*;

use crate::xxh3::{spec_xxh3_64, spec_xxh3_64_with_seed, spec_xxh3_64_with_secret};
use crate::xxh3_common::{spec_derived_secret, custom_default_secret, DEFAULT_SECRET_SIZE};

verus! {

/// Returns the 64-bit digest of the provided input.
pub fn xxh3_64(input: &[u8]) -> (res: u64)
    ensures
        res == spec_xxh3_64(input@),
{
    crate::xxh3::xxh3_64(input)
}

/// Returns the 64-bit digest of the provided input under the given seed.
pub fn xxh3_64_with_seed(input: &[u8], seed: u64) -> (res: u64)
    ensures
        res == spec_xxh3_64_with_seed(input@, seed),
{
    crate::xxh3::xxh3_64_with_seed(input, seed)
}

/// Returns the 64-bit digest of the provided input under a custom
/// full-size secret.
pub fn xxh3_64_with_secret(input: &[u8], secret: &[u8; 192]) -> (res: u64)
    ensures
        res == spec_xxh3_64_with_secret(input@, secret@),
{
    crate::xxh3::xxh3_64_with_secret(input, secret.as_slice())
}

/// Returns the 128-bit digest of the provided input.
pub fn xxh3_128(input: &[u8]) -> (res: u128)
    ensures
        res == crate::xxh3::spec_xxh3_128(input@),
{
    crate::xxh3::xxh3_128(input)
}

/// Returns the 128-bit digest of the provided input under the given seed.
pub fn xxh3_128_with_seed(input: &[u8], seed: u64) -> (res: u128)
    ensures
        res == crate::xxh3::spec_xxh3_128_with_seed(input@, seed),
{
    crate::xxh3::xxh3_128_with_seed(input, seed)
}

/// Generates the secret derived from the default secret and the provided
/// seed.
pub fn const_custom_default_secret(seed: u64) -> (res: [u8; DEFAULT_SECRET_SIZE])
    ensures
        res@ == spec_derived_secret(seed),
{
    custom_default_secret(seed)
}

} // verus!
