//! Shared primitives of the XXH3 algorithm family: constants, the default
//! secret, seed-derived secrets, and the wide-multiply mixing functions.

use vstd::prelude::*;
use vstd::arithmetic::div_mod::lemma_div_multiples_vanish_fancy;

use crate::bytes::{spec_read64le, read64le};

verus! {

/// Bytes consumed per accumulator stripe.
pub const STRIPE_LEN: usize = 64;

/// Number of 64-bit accumulator lanes.
pub const ACC_NB: usize = 8;

/// Bytes the secret cursor advances per stripe.
pub const SECRET_CONSUME_RATE: usize = 8;

/// Secret offset the final merge reads from.
pub const SECRET_MERGEACCS_START: usize = 11;

/// Distance from the secret's end to the last-stripe key, beyond the
/// stripe-sized window.
pub const SECRET_LASTACC_START: usize = 7;

/// Smallest accepted custom secret.
pub const SECRET_SIZE_MIN: usize = 136;

/// Size of the default (and every derived) secret.
pub const DEFAULT_SECRET_SIZE: usize = 192;

/// Largest input handled by the short-input paths.
pub const MID_SIZE_MAX: usize = 240;

pub const PRIME_MX1: u64 = 0x165667919E3779F9;
pub const PRIME_MX2: u64 = 0x9FB21C651E98DF25;

/// The fixed keying material used when no custom secret is supplied.
pub open spec fn spec_default_secret() -> Seq<u8> {
    seq![
        0xb8u8, 0xfeu8, 0x6cu8, 0x39u8, 0x23u8, 0xa4u8, 0x4bu8, 0xbeu8, 0x7cu8, 0x01u8, 0x81u8, 0x2cu8,
        0xf7u8, 0x21u8, 0xadu8, 0x1cu8, 0xdeu8, 0xd4u8, 0x6du8, 0xe9u8, 0x83u8, 0x90u8, 0x97u8, 0xdbu8,
        0x72u8, 0x40u8, 0xa4u8, 0xa4u8, 0xb7u8, 0xb3u8, 0x67u8, 0x1fu8, 0xcbu8, 0x79u8, 0xe6u8, 0x4eu8,
        0xccu8, 0xc0u8, 0xe5u8, 0x78u8, 0x82u8, 0x5au8, 0xd0u8, 0x7du8, 0xccu8, 0xffu8, 0x72u8, 0x21u8,
        0xb8u8, 0x08u8, 0x46u8, 0x74u8, 0xf7u8, 0x43u8, 0x24u8, 0x8eu8, 0xe0u8, 0x35u8, 0x90u8, 0xe6u8,
        0x81u8, 0x3au8, 0x26u8, 0x4cu8, 0x3cu8, 0x28u8, 0x52u8, 0xbbu8, 0x91u8, 0xc3u8, 0x00u8, 0xcbu8,
        0x88u8, 0xd0u8, 0x65u8, 0x8bu8, 0x1bu8, 0x53u8, 0x2eu8, 0xa3u8, 0x71u8, 0x64u8, 0x48u8, 0x97u8,
        0xa2u8, 0x0du8, 0xf9u8, 0x4eu8, 0x38u8, 0x19u8, 0xefu8, 0x46u8, 0xa9u8, 0xdeu8, 0xacu8, 0xd8u8,
        0xa8u8, 0xfau8, 0x76u8, 0x3fu8, 0xe3u8, 0x9cu8, 0x34u8, 0x3fu8, 0xf9u8, 0xdcu8, 0xbbu8, 0xc7u8,
        0xc7u8, 0x0bu8, 0x4fu8, 0x1du8, 0x8au8, 0x51u8, 0xe0u8, 0x4bu8, 0xcdu8, 0xb4u8, 0x59u8, 0x31u8,
        0xc8u8, 0x9fu8, 0x7eu8, 0xc9u8, 0xd9u8, 0x78u8, 0x73u8, 0x64u8, 0xeau8, 0xc5u8, 0xacu8, 0x83u8,
        0x34u8, 0xd3u8, 0xebu8, 0xc3u8, 0xc5u8, 0x81u8, 0xa0u8, 0xffu8, 0xfau8, 0x13u8, 0x63u8, 0xebu8,
        0x17u8, 0x0du8, 0xddu8, 0x51u8, 0xb7u8, 0xf0u8, 0xdau8, 0x49u8, 0xd3u8, 0x16u8, 0x55u8, 0x26u8,
        0x29u8, 0xd4u8, 0x68u8, 0x9eu8, 0x2bu8, 0x16u8, 0xbeu8, 0x58u8, 0x7du8, 0x47u8, 0xa1u8, 0xfcu8,
        0x8fu8, 0xf8u8, 0xb8u8, 0xd1u8, 0x7au8, 0xd0u8, 0x31u8, 0xceu8, 0x45u8, 0xcbu8, 0x3au8, 0x8fu8,
        0x95u8, 0x16u8, 0x04u8, 0x28u8, 0xafu8, 0xd7u8, 0xfbu8, 0xcau8, 0xbbu8, 0x4bu8, 0x40u8, 0x7eu8,
    ]
}

/// Returns the default secret as a byte array.
#[verifier::rlimit(100)]
pub fn default_secret_arr() -> (res: [u8; 192])
    ensures
        res@ == spec_default_secret(),
{
    let arr: [u8; 192] = [
        0xb8, 0xfe, 0x6c, 0x39, 0x23, 0xa4, 0x4b, 0xbe, 0x7c, 0x01, 0x81, 0x2c,
        0xf7, 0x21, 0xad, 0x1c, 0xde, 0xd4, 0x6d, 0xe9, 0x83, 0x90, 0x97, 0xdb,
        0x72, 0x40, 0xa4, 0xa4, 0xb7, 0xb3, 0x67, 0x1f, 0xcb, 0x79, 0xe6, 0x4e,
        0xcc, 0xc0, 0xe5, 0x78, 0x82, 0x5a, 0xd0, 0x7d, 0xcc, 0xff, 0x72, 0x21,
        0xb8, 0x08, 0x46, 0x74, 0xf7, 0x43, 0x24, 0x8e, 0xe0, 0x35, 0x90, 0xe6,
        0x81, 0x3a, 0x26, 0x4c, 0x3c, 0x28, 0x52, 0xbb, 0x91, 0xc3, 0x00, 0xcb,
        0x88, 0xd0, 0x65, 0x8b, 0x1b, 0x53, 0x2e, 0xa3, 0x71, 0x64, 0x48, 0x97,
        0xa2, 0x0d, 0xf9, 0x4e, 0x38, 0x19, 0xef, 0x46, 0xa9, 0xde, 0xac, 0xd8,
        0xa8, 0xfa, 0x76, 0x3f, 0xe3, 0x9c, 0x34, 0x3f, 0xf9, 0xdc, 0xbb, 0xc7,
        0xc7, 0x0b, 0x4f, 0x1d, 0x8a, 0x51, 0xe0, 0x4b, 0xcd, 0xb4, 0x59, 0x31,
        0xc8, 0x9f, 0x7e, 0xc9, 0xd9, 0x78, 0x73, 0x64, 0xea, 0xc5, 0xac, 0x83,
        0x34, 0xd3, 0xeb, 0xc3, 0xc5, 0x81, 0xa0, 0xff, 0xfa, 0x13, 0x63, 0xeb,
        0x17, 0x0d, 0xdd, 0x51, 0xb7, 0xf0, 0xda, 0x49, 0xd3, 0x16, 0x55, 0x26,
        0x29, 0xd4, 0x68, 0x9e, 0x2b, 0x16, 0xbe, 0x58, 0x7d, 0x47, 0xa1, 0xfc,
        0x8f, 0xf8, 0xb8, 0xd1, 0x7a, 0xd0, 0x31, 0xce, 0x45, 0xcb, 0x3a, 0x8f,
        0x95, 0x16, 0x04, 0x28, 0xaf, 0xd7, 0xfb, 0xca, 0xbb, 0x4b, 0x40, 0x7e,
    ];
    proof {
        assert(arr@ =~= spec_default_secret());
    }
    arr
}

/// Returns the default secret as a byte vector.
pub fn default_secret() -> (res: Vec<u8>)
    ensures
        res@ == spec_default_secret(),
        res@.len() == 192,
{
    let arr = default_secret_arr();
    arr_to_vec(&arr)
}

/// Copies a secret array into a vector.
pub fn arr_to_vec(arr: &[u8; 192]) -> (res: Vec<u8>)
    ensures
        res@ == arr@,
{
    let mut res: Vec<u8> = Vec::new();
    let mut i: usize = 0;
    while i < 192
        invariant
            i <= 192,
            res@ == arr@.subrange(0, i as int),
        decreases 192 - i,
    {
        res.push(arr[i]);
        proof {
            crate::bytes::lemma_subrange_push(arr@, 0, i as int);
        }
        i += 1;
    }
    proof {
        assert(res@ =~= arr@);
    }
    res
}

/// Copies a 192-byte secret vector into an array.
pub fn vec_to_arr(v: &Vec<u8>) -> (res: [u8; 192])
    requires
        v@.len() == 192,
    ensures
        res@ == v@,
{
    let mut res = default_secret_arr();
    let mut i: usize = 0;
    while i < 192
        invariant
            i <= 192,
            v@.len() == 192,
            res@.len() == 192,
            forall|t: int| 0 <= t < i ==> res@[t] == v@[t],
        decreases 192 - i,
    {
        res[i] = v[i];
        i += 1;
    }
    proof {
        assert(res@ =~= v@);
    }
    res
}

/// Returns the secret derived from the default secret and `seed`, as an
/// array.
pub fn custom_default_secret(seed: u64) -> (res: [u8; 192])
    ensures
        res@ == spec_derived_secret(seed),
{
    let v = derive_secret(seed);
    vec_to_arr(&v)
}

/// Shift-and-fold used throughout the final mixing steps.
pub open spec fn spec_xorshift64(x: u64, shift: u64) -> u64 {
    x ^ (x >> shift)
}

#[verifier::when_used_as_spec(spec_xorshift64)]
#[inline(always)]
pub fn xorshift64(x: u64, shift: u64) -> (res: u64)
    requires
        shift < 64,
    ensures
        res == spec_xorshift64(x, shift),
{
    x ^ (x >> shift)
}

/// Left rotation of a 64-bit word.
pub open spec fn spec_rotl64(x: u64, r: u64) -> u64 {
    (x << r) | (x >> (64 - r))
}

#[verifier::when_used_as_spec(spec_rotl64)]
#[inline(always)]
pub fn rotl64(x: u64, r: u64) -> (res: u64)
    requires
        0 < r < 64,
    ensures
        res == spec_rotl64(x, r),
{
    (x << r) | (x >> (64 - r))
}

/// Final mixing that spreads every input bit across the 64-bit digest.
pub open spec fn spec_avalanche(x: u64) -> u64 {
    let a = spec_xorshift64(x, 37).wrapping_mul(PRIME_MX1);
    spec_xorshift64(a, 32)
}

#[verifier::when_used_as_spec(spec_avalanche)]
#[inline(always)]
pub fn avalanche(x: u64) -> (res: u64)
    ensures
        res == spec_avalanche(x),
{
    let a = xorshift64(x, 37).wrapping_mul(PRIME_MX1);
    xorshift64(a, 32)
}

/// Stronger length-keyed mixing used by the 4-to-8-byte path.
pub open spec fn spec_strong_avalanche(x: u64, len: u64) -> u64 {
    let a = (x ^ (spec_rotl64(x, 49) ^ spec_rotl64(x, 24))).wrapping_mul(PRIME_MX2);
    let b = (a ^ ((a >> 35).wrapping_add(len))).wrapping_mul(PRIME_MX2);
    spec_xorshift64(b, 28)
}

#[verifier::when_used_as_spec(spec_strong_avalanche)]
#[inline(always)]
pub fn strong_avalanche(x: u64, len: u64) -> (res: u64)
    ensures
        res == spec_strong_avalanche(x, len),
{
    let a = (x ^ (rotl64(x, 49) ^ rotl64(x, 24))).wrapping_mul(PRIME_MX2);
    let b = (a ^ ((a >> 35u64).wrapping_add(len))).wrapping_mul(PRIME_MX2);
    xorshift64(b, 28)
}

/// Full 64x64 product, split into low and high halves.
pub open spec fn spec_mul64_to128(a: u64, b: u64) -> (u64, u64) {
    let p = (a as u128).wrapping_mul(b as u128);
    (p as u64, (p >> 64) as u64)
}

#[verifier::when_used_as_spec(spec_mul64_to128)]
#[inline(always)]
pub fn mul64_to128(a: u64, b: u64) -> (res: (u64, u64))
    ensures
        res == spec_mul64_to128(a, b),
{
    let p = (a as u128).wrapping_mul(b as u128);
    (#[verifier::truncate] (p as u64), #[verifier::truncate] ((p >> 64u128) as u64))
}

/// Full 64x64 product folded to 64 bits by xoring its halves.
pub open spec fn spec_mul128_fold64(a: u64, b: u64) -> u64 {
    let p = spec_mul64_to128(a, b);
    p.0 ^ p.1
}

#[verifier::when_used_as_spec(spec_mul128_fold64)]
#[inline(always)]
pub fn mul128_fold64(a: u64, b: u64) -> (res: u64)
    ensures
        res == spec_mul128_fold64(a, b),
{
    let p = mul64_to128(a, b);
    p.0 ^ p.1
}

/// Widening 32x32 product.
pub open spec fn spec_mult32_to64(a: u32, b: u32) -> u64 {
    (a as u64).wrapping_mul(b as u64)
}

#[verifier::when_used_as_spec(spec_mult32_to64)]
#[inline(always)]
pub fn mult32_to64(a: u32, b: u32) -> (res: u64)
    ensures
        res == spec_mult32_to64(a, b),
{
    (a as u64).wrapping_mul(b as u64)
}

/// Byte `j` (little-endian order) of a 64-bit word.
pub open spec fn spec_le_byte(w: u64, j: int) -> u8 {
    ((w >> (8 * j)) & 0xFF) as u8
}

/// The secret obtained from the default secret and a seed: per 16-byte
/// block, the low word is advanced by the seed and the high word pulled
/// back by it. Seed zero keeps the default secret unchanged.
pub open spec fn spec_derived_secret(seed: u64) -> Seq<u8> {
    if seed == 0 {
        spec_default_secret()
    } else {
        Seq::new(
            192,
            |i: int|
                {
                    let lo = spec_read64le(spec_default_secret(), 16 * (i / 16)).wrapping_add(
                        seed,
                    );
                    let hi = spec_read64le(spec_default_secret(), 16 * (i / 16) + 8).wrapping_sub(
                        seed,
                    );
                    if i % 16 < 8 {
                        spec_le_byte(lo, i % 16)
                    } else {
                        spec_le_byte(hi, i % 16 - 8)
                    }
                },
        )
    }
}

/// Pushes the eight little-endian bytes of `w`.
fn push_le_bytes(out: &mut Vec<u8>, w: u64)
    ensures
        final(out)@.len() == old(out)@.len() + 8,
        final(out)@.subrange(0, old(out)@.len() as int) == old(out)@,
        forall|j: int| 0 <= j < 8 ==> final(out)@[old(out)@.len() + j] == spec_le_byte(w, j),
{
    let ghost base = out@.len() as int;
    let mut j: u64 = 0;
    while j < 8
        invariant
            j <= 8,
            out@.len() == base + j,
            base == old(out)@.len(),
            out@.subrange(0, base) == old(out)@,
            forall|t: int| 0 <= t < j ==> out@[base + t] == spec_le_byte(w, t),
        decreases 8 - j,
    {
        let ghost prev = out@;
        out.push(#[verifier::truncate] (((w >> (8 * j)) & 0xFF) as u8));
        proof {
            assert(out@.subrange(0, base) =~= prev.subrange(0, base));
        }
        j += 1;
    }
}

/// Returns the secret derived from the default secret and `seed`.
pub fn derive_secret(seed: u64) -> (res: Vec<u8>)
    ensures
        res@ == spec_derived_secret(seed),
        res@.len() == 192,
{
    let base = default_secret();
    if seed == 0 {
        return base;
    }
    let mut res: Vec<u8> = Vec::new();
    let mut k: usize = 0;
    while k < 12
        invariant
            k <= 12,
            base@ == spec_default_secret(),
            res@.len() == 16 * k,
            seed != 0,
            forall|t: int| 0 <= t < 16 * k ==> res@[t] == spec_derived_secret(seed)[t],
        decreases 12 - k,
    {
        let lo = read64le(base.as_slice(), 16 * k).wrapping_add(seed);
        let hi = read64le(base.as_slice(), 16 * k + 8).wrapping_sub(seed);
        let ghost mid = res@;
        push_le_bytes(&mut res, lo);
        let ghost mid2 = res@;
        push_le_bytes(&mut res, hi);
        proof {
            assert forall|t: int| 16 * k <= t < 16 * k + 16 implies res@[t] == spec_derived_secret(
                seed,
            )[t] by {
                lemma_div_multiples_vanish_fancy(k as int, t - 16 * k, 16);
                vstd::arithmetic::div_mod::lemma_fundamental_div_mod(t, 16);
                if t < 16 * k + 8 {
                    assert(mid2.subrange(0, mid.len() as int) == mid);
                    assert(res@.subrange(0, mid2.len() as int) == mid2);
                    assert(res@[t] == mid2[t]);
                    assert(mid2[mid.len() + (t - 16 * k)] == spec_le_byte(lo, t - 16 * k));
                } else {
                    assert(res@[mid2.len() + (t - 16 * k - 8)] == spec_le_byte(hi, t - 16 * k - 8));
                }
            }
            assert forall|t: int| 0 <= t < 16 * k implies res@[t] == spec_derived_secret(
                seed,
            )[t] by {
                assert(mid2.subrange(0, mid.len() as int) == mid);
                assert(res@.subrange(0, mid2.len() as int) == mid2);
                assert(res@[t] == mid2.subrange(0, mid.len() as int)[t]);
            }
        }
        k += 1;
    }
    proof {
        assert(res@ =~= spec_derived_secret(seed));
    }
    res
}

} // verus!
