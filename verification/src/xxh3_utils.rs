//! XXH3 related utilities.

use vstd::prelude::*;

use crate::xxh3_common::{spec_derived_secret, custom_default_secret, DEFAULT_SECRET_SIZE};

verus! {

/// Generates the secret derived from the default secret and the provided
/// seed, for use with the custom-secret entry points.
pub fn const_custom_default_secret(seed: u64) -> (res: [u8; DEFAULT_SECRET_SIZE])
    ensures
        res@ == spec_derived_secret(seed),
{
    custom_default_secret(seed)
}

} // verus!
