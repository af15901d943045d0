//! Entry point mirroring the compile-time-friendly variant of the 64-bit
//! algorithm. Both variants compute the same digest, so one verified
//! implementation backs them.

use vstd::prelude::*;

use crate::xxh64::spec_xxh64;

verus! {

/// Returns the digest of the provided input.
pub fn xxh64(input: &[u8], seed: u64) -> (res: u64)
    ensures
        res == spec_xxh64(input@, seed),
{
    crate::xxh64::xxh64(input, seed)
}

} // verus!
