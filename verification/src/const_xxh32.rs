//! Entry point mirroring the compile-time-friendly variant of the 32-bit
//! algorithm. Both variants compute the same digest, so one verified
//! implementation backs them.

use vstd::prelude::*;

use crate::xxh32::spec_xxh32;

verus! {

/// Returns the digest of the provided input.
pub fn xxh32(input: &[u8], seed: u32) -> (res: u32)
    ensures
        res == spec_xxh32(input@, seed),
{
    crate::xxh32::xxh32(input, seed)
}

} // verus!
