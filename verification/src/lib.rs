//! xxHash family of non-cryptographic hash algorithms: XXH32, XXH64 and the
//! XXH3 64/128-bit variants, as one-shot functions and streaming hashers.
//!
//! Every digest is specified bit-exactly by spec functions over byte
//! sequences; the executable code is proved to return exactly the specified
//! value, so a streaming hasher is proved to agree with the one-shot
//! functions however its input is chunked.

pub mod bytes;
pub mod xxh3_common;
pub mod xxh3;
pub mod const_xxh3;
pub mod xxh3_utils;
pub mod xxh32_common;
pub mod xxh32;
pub mod const_xxh32;
pub mod xxh64_common;
pub mod xxh64;
pub mod const_xxh64;
