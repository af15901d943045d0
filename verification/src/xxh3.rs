//! The XXH3 family: 64- and 128-bit one-shot hashing over a default,
//! seed-derived or custom secret, and the incremental streaming hasher.

use vstd::prelude::*;
use vstd::arithmetic::div_mod::{
    lemma_div_multiples_vanish_fancy, lemma_fundamental_div_mod, lemma_small_mod,
};

use crate::bytes::{
    spec_read32le, read32le, spec_read64le, read64le, lemma_cat_push, lemma_cat_sub,
    lemma_cat_suffix, lemma_prefix_subrange, lemma_sub_read64, lemma_subrange_concat,
    lemma_subrange_push,
};
use crate::xxh3_common::{
    spec_default_secret, default_secret, spec_derived_secret, derive_secret, spec_xorshift64,
    xorshift64, spec_avalanche, avalanche, spec_strong_avalanche, strong_avalanche,
    spec_mul64_to128, mul64_to128, spec_mul128_fold64, mul128_fold64, spec_mult32_to64,
    mult32_to64, STRIPE_LEN, ACC_NB, SECRET_CONSUME_RATE, SECRET_MERGEACCS_START,
    SECRET_LASTACC_START, SECRET_SIZE_MIN, DEFAULT_SECRET_SIZE, MID_SIZE_MAX, PRIME_MX2,
};
use crate::xxh32_common as xxh32;
use crate::xxh64_common as xxh64;

verus! {

/// Mixes a 16-byte input window against a 16-byte secret window.
pub open spec fn spec_mix16(s: Seq<u8>, i: int, sec: Seq<u8>, so: int, seed: u64) -> u64 {
    spec_mul128_fold64(
        spec_read64le(s, i) ^ spec_read64le(sec, so).wrapping_add(seed),
        spec_read64le(s, i + 8) ^ spec_read64le(sec, so + 8).wrapping_sub(seed),
    )
}

#[inline(always)]
fn mix16_b(input: &[u8], in_off: usize, secret: &[u8], sec_off: usize, seed: u64) -> (res: u64)
    requires
        in_off + 16 <= input@.len(),
        sec_off + 16 <= secret@.len(),
    ensures
        res == spec_mix16(input@, in_off as int, secret@, sec_off as int, seed),
{
    let _ilen = input.len();
    let _slen = secret.len();
    mul128_fold64(
        read64le(input, in_off) ^ read64le(secret, sec_off).wrapping_add(seed),
        read64le(input, in_off + 8) ^ read64le(secret, sec_off + 8).wrapping_sub(seed),
    )
}

/// 64-bit digest of a one-to-three-byte input.
pub open spec fn spec_xxh3_64_1to3(s: Seq<u8>, seed: u64, sec: Seq<u8>) -> u64 {
    let combo = ((s[0] as u32) << 16) | ((s[s.len() as int / 2] as u32) << 24) | (s[s.len()
        - 1] as u32) | ((s.len() as u32) << 8);
    let flip = ((spec_read32le(sec, 0) ^ spec_read32le(sec, 4)) as u64).wrapping_add(seed);
    xxh64::spec_avalanche((combo as u64) ^ flip)
}

fn xxh3_64_1to3(input: &[u8], seed: u64, secret: &[u8]) -> (res: u64)
    requires
        1 <= input@.len() <= 3,
        secret@.len() >= 8,
    ensures
        res == spec_xxh3_64_1to3(input@, seed, secret@),
{
    let len = input.len();
    let combo = ((input[0] as u32) << 16u32) | ((input[len / 2] as u32) << 24u32) | (input[len
        - 1] as u32) | (#[verifier::truncate] (len as u32) << 8u32);
    let flip = ((read32le(secret, 0) ^ read32le(secret, 4)) as u64).wrapping_add(seed);
    xxh64::avalanche((combo as u64) ^ flip)
}

/// 64-bit digest of a four-to-eight-byte input.
pub open spec fn spec_xxh3_64_4to8(s: Seq<u8>, seed: u64, sec: Seq<u8>) -> u64 {
    let seed2 = seed ^ ((spec_swap32(seed as u32) as u64) << 32);
    let input1 = spec_read32le(s, 0);
    let input2 = spec_read32le(s, s.len() - 4);
    let flip = (spec_read64le(sec, 8) ^ spec_read64le(sec, 16)).wrapping_sub(seed2);
    let input64 = (input2 as u64).wrapping_add((input1 as u64) << 32);
    spec_strong_avalanche(input64 ^ flip, s.len() as u64)
}

/// Reverses the byte order of a 32-bit word.
pub open spec fn spec_swap32(x: u32) -> u32 {
    ((x >> 24) & 0x0000_00FF) | ((x >> 8) & 0x0000_FF00) | ((x << 8) & 0x00FF_0000) | ((x << 24)
        & 0xFF00_0000)
}

#[verifier::when_used_as_spec(spec_swap32)]
#[inline(always)]
fn swap32(x: u32) -> (res: u32)
    ensures
        res == spec_swap32(x),
{
    ((x >> 24u32) & 0x0000_00FF) | ((x >> 8u32) & 0x0000_FF00) | ((x << 8u32) & 0x00FF_0000) | ((x
        << 24u32) & 0xFF00_0000)
}

/// Reverses the byte order of a 64-bit word.
pub open spec fn spec_swap64(x: u64) -> u64 {
    ((x >> 56) & 0x0000_0000_0000_00FF) | ((x >> 40) & 0x0000_0000_0000_FF00) | ((x >> 24)
        & 0x0000_0000_00FF_0000) | ((x >> 8) & 0x0000_0000_FF00_0000) | ((x << 8)
        & 0x0000_00FF_0000_0000) | ((x << 24) & 0x0000_FF00_0000_0000) | ((x << 40)
        & 0x00FF_0000_0000_0000) | ((x << 56) & 0xFF00_0000_0000_0000)
}

#[verifier::when_used_as_spec(spec_swap64)]
#[inline(always)]
fn swap64(x: u64) -> (res: u64)
    ensures
        res == spec_swap64(x),
{
    ((x >> 56u64) & 0x0000_0000_0000_00FF) | ((x >> 40u64) & 0x0000_0000_0000_FF00) | ((x
        >> 24u64) & 0x0000_0000_00FF_0000) | ((x >> 8u64) & 0x0000_0000_FF00_0000) | ((x << 8u64)
        & 0x0000_00FF_0000_0000) | ((x << 24u64) & 0x0000_FF00_0000_0000) | ((x << 40u64)
        & 0x00FF_0000_0000_0000) | ((x << 56u64) & 0xFF00_0000_0000_0000)
}

fn xxh3_64_4to8(input: &[u8], seed: u64, secret: &[u8]) -> (res: u64)
    requires
        4 <= input@.len() <= 8,
        secret@.len() >= 24,
    ensures
        res == spec_xxh3_64_4to8(input@, seed, secret@),
{
    let len = input.len();
    let seed2 = seed ^ ((swap32(#[verifier::truncate] (seed as u32)) as u64) << 32u64);
    proof {
        assert(seed2 == seed ^ ((spec_swap32(seed as u32) as u64) << 32));
    }
    let input1 = read32le(input, 0);
    let input2 = read32le(input, len - 4);
    let flip = (read64le(secret, 8) ^ read64le(secret, 16)).wrapping_sub(seed2);
    let input64 = (input2 as u64).wrapping_add((input1 as u64) << 32u64);
    strong_avalanche(input64 ^ flip, len as u64)
}

/// 64-bit digest of a nine-to-sixteen-byte input.
pub open spec fn spec_xxh3_64_9to16(s: Seq<u8>, seed: u64, sec: Seq<u8>) -> u64 {
    let flip1 = (spec_read64le(sec, 24) ^ spec_read64le(sec, 32)).wrapping_add(seed);
    let flip2 = (spec_read64le(sec, 40) ^ spec_read64le(sec, 48)).wrapping_sub(seed);
    let input_lo = spec_read64le(s, 0) ^ flip1;
    let input_hi = spec_read64le(s, s.len() - 8) ^ flip2;
    let acc = (s.len() as u64).wrapping_add(spec_swap64(input_lo)).wrapping_add(
        input_hi,
    ).wrapping_add(spec_mul128_fold64(input_lo, input_hi));
    spec_avalanche(acc)
}

fn xxh3_64_9to16(input: &[u8], seed: u64, secret: &[u8]) -> (res: u64)
    requires
        9 <= input@.len() <= 16,
        secret@.len() >= 56,
    ensures
        res == spec_xxh3_64_9to16(input@, seed, secret@),
{
    let len = input.len();
    let flip1 = (read64le(secret, 24) ^ read64le(secret, 32)).wrapping_add(seed);
    let flip2 = (read64le(secret, 40) ^ read64le(secret, 48)).wrapping_sub(seed);
    let input_lo = read64le(input, 0) ^ flip1;
    let input_hi = read64le(input, len - 8) ^ flip2;
    let acc = (len as u64).wrapping_add(swap64(input_lo)).wrapping_add(input_hi).wrapping_add(
        mul128_fold64(input_lo, input_hi),
    );
    avalanche(acc)
}

/// 64-bit digest of an input of at most sixteen bytes.
pub open spec fn spec_xxh3_64_0to16(s: Seq<u8>, seed: u64, sec: Seq<u8>) -> u64 {
    if s.len() > 8 {
        spec_xxh3_64_9to16(s, seed, sec)
    } else if s.len() >= 4 {
        spec_xxh3_64_4to8(s, seed, sec)
    } else if s.len() > 0 {
        spec_xxh3_64_1to3(s, seed, sec)
    } else {
        xxh64::spec_avalanche(seed ^ (spec_read64le(sec, 56) ^ spec_read64le(sec, 64)))
    }
}

fn xxh3_64_0to16(input: &[u8], seed: u64, secret: &[u8]) -> (res: u64)
    requires
        input@.len() <= 16,
        secret@.len() >= 72,
    ensures
        res == spec_xxh3_64_0to16(input@, seed, secret@),
{
    let len = input.len();
    if len > 8 {
        xxh3_64_9to16(input, seed, secret)
    } else if len >= 4 {
        xxh3_64_4to8(input, seed, secret)
    } else if len > 0 {
        xxh3_64_1to3(input, seed, secret)
    } else {
        xxh64::avalanche(seed ^ (read64le(secret, 56) ^ read64le(secret, 64)))
    }
}

/// 64-bit digest of a seventeen-to-128-byte input: one, two or four pairs
/// of windows taken symmetrically from the ends, then the outermost pair.
pub open spec fn spec_xxh3_64_17to128(s: Seq<u8>, seed: u64, sec: Seq<u8>) -> u64 {
    let len = s.len() as int;
    let acc0 = (s.len() as u64).wrapping_mul(xxh64::PRIME_1);
    let acc1 = if s.len() > 32 {
        let acc_in = if s.len() > 64 {
            let acc_deep = if s.len() > 96 {
                acc0.wrapping_add(spec_mix16(s, 48, sec, 96, seed)).wrapping_add(
                    spec_mix16(s, len - 64, sec, 112, seed),
                )
            } else {
                acc0
            };
            acc_deep.wrapping_add(spec_mix16(s, 32, sec, 64, seed)).wrapping_add(
                spec_mix16(s, len - 48, sec, 80, seed),
            )
        } else {
            acc0
        };
        acc_in.wrapping_add(spec_mix16(s, 16, sec, 32, seed)).wrapping_add(
            spec_mix16(s, len - 32, sec, 48, seed),
        )
    } else {
        acc0
    };
    let acc2 = acc1.wrapping_add(spec_mix16(s, 0, sec, 0, seed)).wrapping_add(
        spec_mix16(s, len - 16, sec, 16, seed),
    );
    spec_avalanche(acc2)
}

fn xxh3_64_17to128(input: &[u8], seed: u64, secret: &[u8]) -> (res: u64)
    requires
        17 <= input@.len() <= 128,
        secret@.len() >= 128,
    ensures
        res == spec_xxh3_64_17to128(input@, seed, secret@),
{
    let len = input.len();
    let mut acc = (len as u64).wrapping_mul(xxh64::PRIME_1);
    if len > 32 {
        if len > 64 {
            if len > 96 {
                acc = acc.wrapping_add(mix16_b(input, 48, secret, 96, seed));
                acc = acc.wrapping_add(mix16_b(input, len - 64, secret, 112, seed));
            }
            acc = acc.wrapping_add(mix16_b(input, 32, secret, 64, seed));
            acc = acc.wrapping_add(mix16_b(input, len - 48, secret, 80, seed));
        }
        acc = acc.wrapping_add(mix16_b(input, 16, secret, 32, seed));
        acc = acc.wrapping_add(mix16_b(input, len - 32, secret, 48, seed));
    }
    acc = acc.wrapping_add(mix16_b(input, 0, secret, 0, seed));
    acc = acc.wrapping_add(mix16_b(input, len - 16, secret, 16, seed));
    avalanche(acc)
}

/// Secret offset shift for the later rounds of the mid-size path.
pub const MID_START_OFFSET: usize = 3;

/// Distance from the minimum secret size to the mid-size path's final
/// secret window.
pub const MID_LAST_OFFSET: usize = 17;

/// Accumulated mix of the first `n` sixteen-byte windows, secret in step.
pub open spec fn spec_mid_rounds1(s: Seq<u8>, sec: Seq<u8>, seed: u64, acc: u64, n: int) -> u64
    decreases n,
{
    if n <= 0 {
        acc
    } else {
        spec_mid_rounds1(s, sec, seed, acc, n - 1).wrapping_add(
            spec_mix16(s, 16 * (n - 1), sec, 16 * (n - 1), seed),
        )
    }
}

/// Accumulated mix of windows eight to `n`, secret offset by three bytes.
pub open spec fn spec_mid_rounds2(s: Seq<u8>, sec: Seq<u8>, seed: u64, acc: u64, n: int) -> u64
    decreases n,
{
    if n <= 8 {
        acc
    } else {
        spec_mid_rounds2(s, sec, seed, acc, n - 1).wrapping_add(
            spec_mix16(s, 16 * (n - 1), sec, 16 * (n - 1 - 8) + 3, seed),
        )
    }
}

/// 64-bit digest of a 129-to-240-byte input.
pub open spec fn spec_xxh3_64_129to240(s: Seq<u8>, seed: u64, sec: Seq<u8>) -> u64 {
    let len = s.len() as int;
    let nb_rounds = len / 16;
    let acc0 = (s.len() as u64).wrapping_mul(xxh64::PRIME_1);
    let acc1 = spec_avalanche(spec_mid_rounds1(s, sec, seed, acc0, 8));
    let acc2 = spec_mid_rounds2(s, sec, seed, acc1, nb_rounds);
    let acc3 = acc2.wrapping_add(spec_mix16(s, len - 16, sec, 136 - 17, seed));
    spec_avalanche(acc3)
}

fn xxh3_64_129to240(input: &[u8], seed: u64, secret: &[u8]) -> (res: u64)
    requires
        129 <= input@.len() <= 240,
        secret@.len() >= SECRET_SIZE_MIN,
    ensures
        res == spec_xxh3_64_129to240(input@, seed, secret@),
{
    let len = input.len();
    let nb_rounds = len / 16;
    let ghost nbr = input@.len() as int / 16;
    proof {
        lemma_fundamental_div_mod(input@.len() as int, 16);
        assert(8 <= nbr <= 15);
        assert(16 * nbr <= input@.len());
    }
    let mut acc = (len as u64).wrapping_mul(xxh64::PRIME_1);
    let mut idx: usize = 0;
    while idx < 8
        invariant
            idx <= 8,
            129 <= input@.len() <= 240,
            secret@.len() >= SECRET_SIZE_MIN,
            acc == spec_mid_rounds1(
                input@,
                secret@,
                seed,
                (input@.len() as u64).wrapping_mul(xxh64::PRIME_1),
                idx as int,
            ),
        decreases 8 - idx,
    {
        acc = acc.wrapping_add(mix16_b(input, 16 * idx, secret, 16 * idx, seed));
        idx += 1;
    }
    acc = avalanche(acc);
    let ghost acc1 = acc;
    while idx < nb_rounds
        invariant
            8 <= idx <= nb_rounds,
            nb_rounds == nbr,
            nbr <= 15,
            16 * nbr <= input@.len(),
            129 <= input@.len() <= 240,
            secret@.len() >= SECRET_SIZE_MIN,
            acc == spec_mid_rounds2(input@, secret@, seed, acc1, idx as int),
        decreases nb_rounds - idx,
    {
        acc = acc.wrapping_add(
            mix16_b(input, 16 * idx, secret, 16 * (idx - 8) + MID_START_OFFSET, seed),
        );
        idx += 1;
    }
    acc = acc.wrapping_add(mix16_b(input, len - 16, secret, SECRET_SIZE_MIN - MID_LAST_OFFSET, seed));
    avalanche(acc)
}

/// 64-bit digest of an input of at most 240 bytes, dispatched on length.
pub open spec fn spec_xxh3_64_short(s: Seq<u8>, seed: u64, sec: Seq<u8>) -> u64 {
    if s.len() <= 16 {
        spec_xxh3_64_0to16(s, seed, sec)
    } else if s.len() <= 128 {
        spec_xxh3_64_17to128(s, seed, sec)
    } else {
        spec_xxh3_64_129to240(s, seed, sec)
    }
}

fn xxh3_64_short(input: &[u8], seed: u64, secret: &[u8]) -> (res: u64)
    requires
        input@.len() <= MID_SIZE_MAX,
        secret@.len() >= SECRET_SIZE_MIN,
    ensures
        res == spec_xxh3_64_short(input@, seed, secret@),
{
    let len = input.len();
    if len <= 16 {
        xxh3_64_0to16(input, seed, secret)
    } else if len <= 128 {
        xxh3_64_17to128(input, seed, secret)
    } else {
        xxh3_64_129to240(input, seed, secret)
    }
}


/// Lane values a fresh accumulator starts from.
pub open spec fn spec_initial_acc() -> Seq<u64> {
    seq![
        xxh32::PRIME_3 as u64,
        xxh64::PRIME_1,
        xxh64::PRIME_2,
        xxh64::PRIME_3,
        xxh64::PRIME_4,
        xxh32::PRIME_2 as u64,
        xxh64::PRIME_5,
        xxh32::PRIME_1 as u64,
    ]
}

fn initial_acc() -> (res: [u64; 8])
    ensures
        res@ == spec_initial_acc(),
{
    let res: [u64; 8] = [
        xxh32::PRIME_3 as u64,
        xxh64::PRIME_1,
        xxh64::PRIME_2,
        xxh64::PRIME_3,
        xxh64::PRIME_4,
        xxh32::PRIME_2 as u64,
        xxh64::PRIME_5,
        xxh32::PRIME_1 as u64,
    ];
    proof {
        assert(res@ =~= spec_initial_acc());
    }
    res
}

/// The partner lane that receives a lane's raw input value.
pub open spec fn spec_pair_lane(i: int) -> int {
    if i % 2 == 0 {
        i + 1
    } else {
        i - 1
    }
}

/// One lane update of the stripe-accumulate step: the partner lane takes
/// the raw input word, the lane itself the keyed 32x32 product.
pub open spec fn spec_acc512_lane(
    acc: Seq<u64>,
    s: Seq<u8>,
    i: int,
    sec: Seq<u8>,
    so: int,
    idx: int,
) -> Seq<u64> {
    let data_val = spec_read64le(s, i + 8 * idx);
    let data_key = data_val ^ spec_read64le(sec, so + 8 * idx);
    let a1 = acc.update(spec_pair_lane(idx), acc[spec_pair_lane(idx)].wrapping_add(data_val));
    a1.update(
        idx,
        a1[idx].wrapping_add(
            spec_mult32_to64((data_key & 0xFFFFFFFF) as u32, (data_key >> 32) as u32),
        ),
    )
}

/// The first `n` lane updates of the stripe-accumulate step.
pub open spec fn spec_acc512_upto(
    acc: Seq<u64>,
    s: Seq<u8>,
    i: int,
    sec: Seq<u8>,
    so: int,
    n: int,
) -> Seq<u64>
    decreases n,
{
    if n <= 0 {
        acc
    } else {
        spec_acc512_lane(spec_acc512_upto(acc, s, i, sec, so, n - 1), s, i, sec, so, n - 1)
    }
}

/// Accumulator after absorbing the 64-byte stripe at input offset `i`
/// against the secret window at offset `so`.
pub open spec fn spec_accumulate512(
    acc: Seq<u64>,
    s: Seq<u8>,
    i: int,
    sec: Seq<u8>,
    so: int,
) -> Seq<u64> {
    spec_acc512_upto(acc, s, i, sec, so, 8)
}

fn accumulate_512(acc: &mut [u64; 8], input: &[u8], in_off: usize, secret: &[u8], sec_off: usize)
    requires
        in_off + 64 <= input@.len(),
        sec_off + 64 <= secret@.len(),
    ensures
        final(acc)@ == spec_accumulate512(
            old(acc)@,
            input@,
            in_off as int,
            secret@,
            sec_off as int,
        ),
{
    let ilen = input.len();
    let slen = secret.len();
    let mut idx: usize = 0;
    while idx < ACC_NB
        invariant
            idx <= 8,
            ilen == input@.len(),
            slen == secret@.len(),
            in_off + 64 <= input@.len(),
            sec_off + 64 <= secret@.len(),
            acc@ == spec_acc512_upto(
                old(acc)@,
                input@,
                in_off as int,
                secret@,
                sec_off as int,
                idx as int,
            ),
        decreases 8 - idx,
    {
        let ghost prev = acc@;
        let data_val = read64le(input, in_off + 8 * idx);
        let data_key = data_val ^ read64le(secret, sec_off + 8 * idx);
        let other = if idx % 2 == 0 {
            idx + 1
        } else {
            idx - 1
        };
        acc[other] = acc[other].wrapping_add(data_val);
        acc[idx] = acc[idx].wrapping_add(
            mult32_to64(
                #[verifier::truncate] ((data_key & 0xFFFFFFFF) as u32),
                #[verifier::truncate] ((data_key >> 32u64) as u32),
            ),
        );
        proof {
            assert(acc@ =~= spec_acc512_lane(
                prev,
                input@,
                in_off as int,
                secret@,
                sec_off as int,
                idx as int,
            ));
        }
        idx += 1;
    }
}

/// One lane update of the scramble step.
pub open spec fn spec_scramble_lane(acc: Seq<u64>, sec: Seq<u8>, so: int, idx: int) -> Seq<u64> {
    acc.update(
        idx,
        (spec_xorshift64(acc[idx], 47) ^ spec_read64le(sec, so + 8 * idx)).wrapping_mul(
            xxh32::PRIME_1 as u64,
        ),
    )
}

/// The first `n` lane updates of the scramble step.
pub open spec fn spec_scramble_upto(acc: Seq<u64>, sec: Seq<u8>, so: int, n: int) -> Seq<u64>
    decreases n,
{
    if n <= 0 {
        acc
    } else {
        spec_scramble_lane(spec_scramble_upto(acc, sec, so, n - 1), sec, so, n - 1)
    }
}

/// Accumulator scrambled against the secret window at offset `so`: run
/// after every full block to keep the lanes from saturating.
pub open spec fn spec_scramble(acc: Seq<u64>, sec: Seq<u8>, so: int) -> Seq<u64> {
    spec_scramble_upto(acc, sec, so, 8)
}

fn scramble_acc(acc: &mut [u64; 8], secret: &[u8], sec_off: usize)
    requires
        sec_off + 64 <= secret@.len(),
    ensures
        final(acc)@ == spec_scramble(old(acc)@, secret@, sec_off as int),
{
    let slen = secret.len();
    let mut idx: usize = 0;
    while idx < ACC_NB
        invariant
            idx <= 8,
            slen == secret@.len(),
            sec_off + 64 <= secret@.len(),
            acc@ == spec_scramble_upto(old(acc)@, secret@, sec_off as int, idx as int),
        decreases 8 - idx,
    {
        let ghost prev = acc@;
        let key = read64le(secret, sec_off + 8 * idx);
        let acc_val = xorshift64(acc[idx], 47) ^ key;
        acc[idx] = acc_val.wrapping_mul(xxh32::PRIME_1 as u64);
        proof {
            assert(acc@ =~= spec_scramble_lane(prev, secret@, sec_off as int, idx as int));
        }
        idx += 1;
    }
}

/// Accumulator after `n` consecutive stripes starting at input offset `i`,
/// the secret window advancing by the consume rate per stripe.
pub open spec fn spec_accum_n(
    acc: Seq<u64>,
    s: Seq<u8>,
    i: int,
    sec: Seq<u8>,
    so: int,
    n: int,
) -> Seq<u64>
    decreases n,
{
    if n <= 0 {
        acc
    } else {
        spec_accumulate512(
            spec_accum_n(acc, s, i, sec, so, n - 1),
            s,
            i + 64 * (n - 1),
            sec,
            so + 8 * (n - 1),
        )
    }
}

fn accumulate_loop(
    acc: &mut [u64; 8],
    input: &[u8],
    in_off: usize,
    secret: &[u8],
    sec_off: usize,
    nb_stripes: usize,
)
    requires
        in_off + 64 * nb_stripes <= input@.len(),
        sec_off + 8 * nb_stripes + 56 <= secret@.len(),
    ensures
        final(acc)@ == spec_accum_n(
            old(acc)@,
            input@,
            in_off as int,
            secret@,
            sec_off as int,
            nb_stripes as int,
        ),
{
    let ilen = input.len();
    let slen = secret.len();
    let mut idx: usize = 0;
    while idx < nb_stripes
        invariant
            idx <= nb_stripes,
            ilen == input@.len(),
            slen == secret@.len(),
            in_off + 64 * nb_stripes <= input@.len(),
            sec_off + 8 * nb_stripes + 56 <= secret@.len(),
            acc@ == spec_accum_n(
                old(acc)@,
                input@,
                in_off as int,
                secret@,
                sec_off as int,
                idx as int,
            ),
        decreases nb_stripes - idx,
    {
        accumulate_512(acc, input, in_off + idx * STRIPE_LEN, secret, sec_off + idx
            * SECRET_CONSUME_RATE);
        idx += 1;
    }
}

/// Stripes per block: how many stripes the secret can key before the
/// accumulator must be scrambled.
pub open spec fn spec_stripes_per_block(sec: Seq<u8>) -> int {
    (sec.len() - 64) / 8
}

/// Accumulator after the first `n` stripes of `s`, with the secret window
/// rolling per stripe and a scramble after each full block.
pub open spec fn spec_acc_rolling(s: Seq<u8>, sec: Seq<u8>, n: int) -> Seq<u64>
    decreases n,
{
    let nspb = spec_stripes_per_block(sec);
    if n <= 0 {
        spec_initial_acc()
    } else {
        let a = spec_accumulate512(
            spec_acc_rolling(s, sec, n - 1),
            s,
            64 * (n - 1),
            sec,
            8 * ((n - 1) % nspb),
        );
        if n % nspb == 0 {
            spec_scramble(a, sec, sec.len() - 64)
        } else {
            a
        }
    }
}

/// Advancing the rolling accumulator by `m` stripes from stripe `n` is the
/// plain stripe run keyed from the current in-block offset, scrambled
/// exactly when the block completes.
proof fn lemma_accum_advance(s: Seq<u8>, sec: Seq<u8>, n: int, m: int)
    requires
        sec.len() >= 72,
        0 <= n,
        0 <= m,
        n % spec_stripes_per_block(sec) + m <= spec_stripes_per_block(sec),
        64 * (n + m) <= s.len(),
    ensures
        n % spec_stripes_per_block(sec) + m < spec_stripes_per_block(sec) ==> spec_accum_n(
            spec_acc_rolling(s, sec, n),
            s,
            64 * n,
            sec,
            8 * (n % spec_stripes_per_block(sec)),
            m,
        ) == spec_acc_rolling(s, sec, n + m),
        n % spec_stripes_per_block(sec) + m == spec_stripes_per_block(sec) ==> spec_scramble(
            spec_accum_n(
                spec_acc_rolling(s, sec, n),
                s,
                64 * n,
                sec,
                8 * (n % spec_stripes_per_block(sec)),
                m,
            ),
            sec,
            sec.len() - 64,
        ) == spec_acc_rolling(s, sec, n + m),
    decreases m,
{
    let nspb = spec_stripes_per_block(sec);
    vstd::arithmetic::div_mod::lemma_mod_bound(n, nspb);
    if m > 0 {
        lemma_accum_advance(s, sec, n, m - 1);
        lemma_fundamental_div_mod(n, nspb);
        let q = n / nspb;
        let r = n % nspb;
        assert((n + m - 1) % nspb == r + m - 1) by {
            vstd::arithmetic::div_mod::lemma_mod_multiples_vanish(q, r + m - 1, nspb);
            lemma_small_mod((r + m - 1) as nat, nspb as nat);
        }
        if r + m == nspb {
            assert((n + m) % nspb == 0) by {
                vstd::arithmetic::mul::lemma_mul_is_distributive_add(nspb, q, 1);
                vstd::arithmetic::div_mod::lemma_mod_multiples_vanish(q + 1, 0, nspb);
                lemma_small_mod(0, nspb as nat);
            }
        } else {
            assert((n + m) % nspb == r + m) by {
                vstd::arithmetic::div_mod::lemma_mod_multiples_vanish(q, r + m, nspb);
                lemma_small_mod((r + m) as nat, nspb as nat);
            }
        }
    }
}

/// Accumulator state folded into the digest for a long input: every whole
/// stripe rolled in, then the input's final 64 bytes once more against the
/// dedicated end-of-secret window.
pub open spec fn spec_final_acc(s: Seq<u8>, sec: Seq<u8>) -> Seq<u64> {
    spec_accumulate512(
        spec_acc_rolling(s, sec, (s.len() - 1) as int / 64),
        s,
        s.len() - 64,
        sec,
        sec.len() - 64 - 7,
    )
}

fn hash_long_internal_loop(acc: &mut [u64; 8], input: &[u8], secret: &[u8])
    requires
        input@.len() > MID_SIZE_MAX,
        secret@.len() >= SECRET_SIZE_MIN,
        old(acc)@ == spec_initial_acc(),
    ensures
        final(acc)@ == spec_final_acc(input@, secret@),
{
    let len = input.len();
    let slen = secret.len();
    let nspb = (slen - STRIPE_LEN) / SECRET_CONSUME_RATE;
    let total_stripes = (len - 1) / STRIPE_LEN;
    let ghost nspb_g = spec_stripes_per_block(secret@);
    proof {
        assert(nspb == nspb_g);
        lemma_fundamental_div_mod((len - 1) as int, 64);
        lemma_fundamental_div_mod((slen - 64) as int, 8);
        assert(8 * nspb <= slen - 64);
        assert(64 * total_stripes <= len - 1);
    }
    let mut consumed: usize = 0;
    while total_stripes - consumed >= nspb
        invariant
            consumed <= total_stripes,
            nspb == spec_stripes_per_block(secret@),
            nspb >= 9,
            len == input@.len(),
            slen == secret@.len(),
            slen >= SECRET_SIZE_MIN,
            total_stripes == (len - 1) as int / 64,
            64 * total_stripes <= len - 1,
            8 * nspb <= slen - 64,
            consumed % nspb == 0,
            acc@ == spec_acc_rolling(input@, secret@, consumed as int),
        decreases total_stripes - consumed,
    {
        accumulate_loop(acc, input, consumed * STRIPE_LEN, secret, 0, nspb);
        scramble_acc(acc, secret, slen - STRIPE_LEN);
        proof {
            lemma_accum_advance(input@, secret@, consumed as int, nspb as int);
            lemma_small_mod(0, nspb as nat);
            assert((consumed + nspb) % nspb as int == 0) by {
                lemma_fundamental_div_mod(consumed as int, nspb as int);
                vstd::arithmetic::mul::lemma_mul_is_distributive_add(
                    nspb as int,
                    consumed as int / nspb as int,
                    1,
                );
                vstd::arithmetic::div_mod::lemma_mod_multiples_vanish(
                    consumed as int / nspb as int + 1,
                    0,
                    nspb as int,
                );
            }
        }
        consumed += nspb;
    }
    let partial = total_stripes - consumed;
    accumulate_loop(acc, input, consumed * STRIPE_LEN, secret, 0, partial);
    proof {
        lemma_accum_advance(input@, secret@, consumed as int, partial as int);
        lemma_small_mod(0, nspb_g as nat);
    }
    accumulate_512(acc, input, len - STRIPE_LEN, secret, slen - STRIPE_LEN - SECRET_LASTACC_START);
}

/// One pair of accumulator lanes mixed against a 16-byte secret window.
pub open spec fn spec_mix_two_accs(acc: Seq<u64>, sec: Seq<u8>, so: int, pair: int) -> u64 {
    spec_mul128_fold64(
        acc[2 * pair] ^ spec_read64le(sec, so + 16 * pair),
        acc[2 * pair + 1] ^ spec_read64le(sec, so + 16 * pair + 8),
    )
}

/// Folds the eight accumulator lanes pairwise into the 64-bit digest.
pub open spec fn spec_merge_accs(acc: Seq<u64>, sec: Seq<u8>, so: int, init: u64) -> u64 {
    let a0 = init.wrapping_add(spec_mix_two_accs(acc, sec, so, 0));
    let a1 = a0.wrapping_add(spec_mix_two_accs(acc, sec, so, 1));
    let a2 = a1.wrapping_add(spec_mix_two_accs(acc, sec, so, 2));
    let a3 = a2.wrapping_add(spec_mix_two_accs(acc, sec, so, 3));
    spec_avalanche(a3)
}

fn merge_accs(acc: &[u64; 8], secret: &[u8], sec_off: usize, init: u64) -> (res: u64)
    requires
        sec_off + 64 <= secret@.len(),
    ensures
        res == spec_merge_accs(acc@, secret@, sec_off as int, init),
{
    let _slen = secret.len();
    let mut result = init;
    result = result.wrapping_add(
        mul128_fold64(acc[0] ^ read64le(secret, sec_off), acc[1] ^ read64le(secret, sec_off + 8)),
    );
    result = result.wrapping_add(
        mul128_fold64(
            acc[2] ^ read64le(secret, sec_off + 16),
            acc[3] ^ read64le(secret, sec_off + 24),
        ),
    );
    result = result.wrapping_add(
        mul128_fold64(
            acc[4] ^ read64le(secret, sec_off + 32),
            acc[5] ^ read64le(secret, sec_off + 40),
        ),
    );
    result = result.wrapping_add(
        mul128_fold64(
            acc[6] ^ read64le(secret, sec_off + 48),
            acc[7] ^ read64le(secret, sec_off + 56),
        ),
    );
    avalanche(result)
}

/// 64-bit digest of an input longer than 240 bytes.
pub open spec fn spec_xxh3_64_long(s: Seq<u8>, sec: Seq<u8>) -> u64 {
    spec_merge_accs(
        spec_final_acc(s, sec),
        sec,
        11,
        crate::xxh64::spec_len64(s).wrapping_mul(xxh64::PRIME_1),
    )
}

fn xxh3_64_long(input: &[u8], secret: &[u8]) -> (res: u64)
    requires
        input@.len() > MID_SIZE_MAX,
        secret@.len() >= SECRET_SIZE_MIN,
    ensures
        res == spec_xxh3_64_long(input@, secret@),
{
    let len = input.len();
    let mut acc = initial_acc();
    hash_long_internal_loop(&mut acc, input, secret);
    proof {
        lemma_small_mod(input@.len(), 0x1_0000_0000_0000_0000);
    }
    merge_accs(&acc, secret, SECRET_MERGEACCS_START, (len as u64).wrapping_mul(xxh64::PRIME_1))
}

/// The 64-bit XXH3 digest of `s` under the default secret.
pub open spec fn spec_xxh3_64(s: Seq<u8>) -> u64 {
    if s.len() <= 240 {
        spec_xxh3_64_short(s, 0, spec_default_secret())
    } else {
        spec_xxh3_64_long(s, spec_default_secret())
    }
}

/// The 64-bit XXH3 digest of `s` under a seed: short inputs key the
/// default secret with the seed, long inputs use the derived secret.
pub open spec fn spec_xxh3_64_with_seed(s: Seq<u8>, seed: u64) -> u64 {
    if s.len() <= 240 {
        spec_xxh3_64_short(s, seed, spec_default_secret())
    } else {
        spec_xxh3_64_long(s, spec_derived_secret(seed))
    }
}

/// The 64-bit XXH3 digest of `s` under a custom secret.
pub open spec fn spec_xxh3_64_with_secret(s: Seq<u8>, sec: Seq<u8>) -> u64 {
    if s.len() <= 240 {
        spec_xxh3_64_short(s, 0, sec)
    } else {
        spec_xxh3_64_long(s, sec)
    }
}

/// Returns the 64-bit digest of the provided input.
pub fn xxh3_64(input: &[u8]) -> (res: u64)
    ensures
        res == spec_xxh3_64(input@),
{
    let secret = default_secret();
    if input.len() <= MID_SIZE_MAX {
        xxh3_64_short(input, 0, secret.as_slice())
    } else {
        xxh3_64_long(input, secret.as_slice())
    }
}

/// Returns the 64-bit digest of the provided input under the given seed.
pub fn xxh3_64_with_seed(input: &[u8], seed: u64) -> (res: u64)
    ensures
        res == spec_xxh3_64_with_seed(input@, seed),
{
    if input.len() <= MID_SIZE_MAX {
        let secret = default_secret();
        xxh3_64_short(input, seed, secret.as_slice())
    } else {
        let secret = derive_secret(seed);
        xxh3_64_long(input, secret.as_slice())
    }
}

/// Returns the 64-bit digest of the provided input under a custom secret,
/// which must be at least the minimum secret size.
pub fn xxh3_64_with_secret(input: &[u8], secret: &[u8]) -> (res: u64)
    requires
        secret@.len() >= SECRET_SIZE_MIN,
    ensures
        res == spec_xxh3_64_with_secret(input@, secret@),
{
    if input.len() <= MID_SIZE_MAX {
        xxh3_64_short(input, 0, secret)
    } else {
        xxh3_64_long(input, secret)
    }
}


/// Combines two 64-bit halves into the 128-bit digest.
pub open spec fn spec_combine128(lo: u64, hi: u64) -> u128 {
    (lo as u128) | ((hi as u128) << 64)
}

/// 128-bit digest of a one-to-three-byte input.
pub open spec fn spec_xxh3_128_1to3(s: Seq<u8>, seed: u64, sec: Seq<u8>) -> u128 {
    let input_lo = ((s[0] as u32) << 16) | ((s[s.len() as int / 2] as u32) << 24) | (s[s.len()
        - 1] as u32) | ((s.len() as u32) << 8);
    let input_hi = crate::xxh32_common::spec_rotl32(spec_swap32(input_lo), 13);
    let flip_lo = ((spec_read32le(sec, 0) as u64) ^ (spec_read32le(sec, 4) as u64)).wrapping_add(
        seed,
    );
    let flip_hi = ((spec_read32le(sec, 8) as u64) ^ (spec_read32le(sec, 12) as u64)).wrapping_sub(
        seed,
    );
    spec_combine128(
        xxh64::spec_avalanche((input_lo as u64) ^ flip_lo),
        xxh64::spec_avalanche((input_hi as u64) ^ flip_hi),
    )
}

fn xxh3_128_1to3(input: &[u8], seed: u64, secret: &[u8]) -> (res: u128)
    requires
        1 <= input@.len() <= 3,
        secret@.len() >= 16,
    ensures
        res == spec_xxh3_128_1to3(input@, seed, secret@),
{
    let len = input.len();
    let input_lo = ((input[0] as u32) << 16u32) | ((input[len / 2] as u32) << 24u32) | (input[len
        - 1] as u32) | (#[verifier::truncate] (len as u32) << 8u32);
    let input_hi = crate::xxh32_common::rotl32(swap32(input_lo), 13);
    let flip_lo = ((read32le(secret, 0) as u64) ^ (read32le(secret, 4) as u64)).wrapping_add(seed);
    let flip_hi = ((read32le(secret, 8) as u64) ^ (read32le(secret, 12) as u64)).wrapping_sub(
        seed,
    );
    let lo = xxh64::avalanche((input_lo as u64) ^ flip_lo);
    let hi = xxh64::avalanche((input_hi as u64) ^ flip_hi);
    (lo as u128) | ((hi as u128) << 64u128)
}

/// 128-bit digest of a four-to-eight-byte input.
pub open spec fn spec_xxh3_128_4to8(s: Seq<u8>, seed: u64, sec: Seq<u8>) -> u128 {
    let seed2 = seed ^ ((spec_swap32(seed as u32) as u64) << 32);
    let lo32 = spec_read32le(s, 0);
    let hi32 = spec_read32le(s, s.len() - 4);
    let input_64 = (lo32 as u64).wrapping_add((hi32 as u64) << 32);
    let flip = (spec_read64le(sec, 16) ^ spec_read64le(sec, 24)).wrapping_add(seed2);
    let keyed = input_64 ^ flip;
    let p = spec_mul64_to128(keyed, xxh64::PRIME_1.wrapping_add((s.len() as u64) << 2));
    let hi1 = p.1.wrapping_add(p.0 << 1);
    let lo1 = p.0 ^ (hi1 >> 3);
    let lo2 = spec_xorshift64(lo1, 35).wrapping_mul(PRIME_MX2);
    let lo3 = spec_xorshift64(lo2, 28);
    spec_combine128(lo3, spec_avalanche(hi1))
}

fn xxh3_128_4to8(input: &[u8], seed: u64, secret: &[u8]) -> (res: u128)
    requires
        4 <= input@.len() <= 8,
        secret@.len() >= 32,
    ensures
        res == spec_xxh3_128_4to8(input@, seed, secret@),
{
    let len = input.len();
    let seed2 = seed ^ ((swap32(#[verifier::truncate] (seed as u32)) as u64) << 32u64);
    proof {
        assert(seed2 == seed ^ ((spec_swap32(seed as u32) as u64) << 32));
    }
    let lo32 = read32le(input, 0);
    let hi32 = read32le(input, len - 4);
    let input_64 = (lo32 as u64).wrapping_add((hi32 as u64) << 32u64);
    let flip = (read64le(secret, 16) ^ read64le(secret, 24)).wrapping_add(seed2);
    let keyed = input_64 ^ flip;
    let p = mul64_to128(keyed, xxh64::PRIME_1.wrapping_add((len as u64) << 2u64));
    let hi1 = p.1.wrapping_add(p.0 << 1u64);
    let lo1 = p.0 ^ (hi1 >> 3u64);
    let lo2 = xorshift64(lo1, 35).wrapping_mul(PRIME_MX2);
    let lo3 = xorshift64(lo2, 28);
    let hi = avalanche(hi1);
    (lo3 as u128) | ((hi as u128) << 64u128)
}

/// 128-bit digest of a nine-to-sixteen-byte input.
pub open spec fn spec_xxh3_128_9to16(s: Seq<u8>, seed: u64, sec: Seq<u8>) -> u128 {
    let flip_lo = (spec_read64le(sec, 32) ^ spec_read64le(sec, 40)).wrapping_sub(seed);
    let flip_hi = (spec_read64le(sec, 48) ^ spec_read64le(sec, 56)).wrapping_add(seed);
    let input_lo = spec_read64le(s, 0);
    let input_hi0 = spec_read64le(s, s.len() - 8);
    let p = spec_mul64_to128(input_lo ^ input_hi0 ^ flip_lo, xxh64::PRIME_1);
    let mul_low = p.0.wrapping_add(((s.len() - 1) as u64) << 54);
    let input_hi = input_hi0 ^ flip_hi;
    let mul_high = p.1.wrapping_add(
        input_hi.wrapping_add(
            spec_mult32_to64(input_hi as u32, (crate::xxh32_common::PRIME_2 - 1) as u32),
        ),
    );
    let mul_low2 = mul_low ^ spec_swap64(mul_high);
    let q = spec_mul64_to128(mul_low2, xxh64::PRIME_2);
    let result_hi = q.1.wrapping_add(mul_high.wrapping_mul(xxh64::PRIME_2));
    spec_combine128(spec_avalanche(q.0), spec_avalanche(result_hi))
}

fn xxh3_128_9to16(input: &[u8], seed: u64, secret: &[u8]) -> (res: u128)
    requires
        9 <= input@.len() <= 16,
        secret@.len() >= 64,
    ensures
        res == spec_xxh3_128_9to16(input@, seed, secret@),
{
    let len = input.len();
    let flip_lo = (read64le(secret, 32) ^ read64le(secret, 40)).wrapping_sub(seed);
    let flip_hi = (read64le(secret, 48) ^ read64le(secret, 56)).wrapping_add(seed);
    let input_lo = read64le(input, 0);
    let input_hi0 = read64le(input, len - 8);
    let p = mul64_to128(input_lo ^ input_hi0 ^ flip_lo, xxh64::PRIME_1);
    let mul_low = p.0.wrapping_add(((len - 1) as u64) << 54u64);
    let input_hi = input_hi0 ^ flip_hi;
    let mul_high = p.1.wrapping_add(
        input_hi.wrapping_add(
            mult32_to64(#[verifier::truncate] (input_hi as u32), crate::xxh32_common::PRIME_2 - 1),
        ),
    );
    let mul_low2 = mul_low ^ swap64(mul_high);
    let q = mul64_to128(mul_low2, xxh64::PRIME_2);
    let result_hi = q.1.wrapping_add(mul_high.wrapping_mul(xxh64::PRIME_2));
    let lo = avalanche(q.0);
    let hi = avalanche(result_hi);
    (lo as u128) | ((hi as u128) << 64u128)
}

/// 128-bit digest of an input of at most sixteen bytes.
pub open spec fn spec_xxh3_128_0to16(s: Seq<u8>, seed: u64, sec: Seq<u8>) -> u128 {
    if s.len() > 8 {
        spec_xxh3_128_9to16(s, seed, sec)
    } else if s.len() >= 4 {
        spec_xxh3_128_4to8(s, seed, sec)
    } else if s.len() > 0 {
        spec_xxh3_128_1to3(s, seed, sec)
    } else {
        let flip_lo = spec_read64le(sec, 64) ^ spec_read64le(sec, 72);
        let flip_hi = spec_read64le(sec, 80) ^ spec_read64le(sec, 88);
        spec_combine128(
            xxh64::spec_avalanche(seed ^ flip_lo),
            xxh64::spec_avalanche(seed ^ flip_hi),
        )
    }
}

fn xxh3_128_0to16(input: &[u8], seed: u64, secret: &[u8]) -> (res: u128)
    requires
        input@.len() <= 16,
        secret@.len() >= 96,
    ensures
        res == spec_xxh3_128_0to16(input@, seed, secret@),
{
    let len = input.len();
    if len > 8 {
        xxh3_128_9to16(input, seed, secret)
    } else if len >= 4 {
        xxh3_128_4to8(input, seed, secret)
    } else if len > 0 {
        xxh3_128_1to3(input, seed, secret)
    } else {
        let flip_lo = read64le(secret, 64) ^ read64le(secret, 72);
        let flip_hi = read64le(secret, 80) ^ read64le(secret, 88);
        let lo = xxh64::avalanche(seed ^ flip_lo);
        let hi = xxh64::avalanche(seed ^ flip_hi);
        (lo as u128) | ((hi as u128) << 64u128)
    }
}

/// Double-width mixing step: each half absorbs one window's mix and the
/// other window's raw sum.
pub open spec fn spec_mix32(
    lo: u64,
    hi: u64,
    s: Seq<u8>,
    i1: int,
    i2: int,
    sec: Seq<u8>,
    so: int,
    seed: u64,
) -> (u64, u64) {
    let lo1 = lo.wrapping_add(spec_mix16(s, i1, sec, so, seed)) ^ (spec_read64le(
        s,
        i2,
    ).wrapping_add(spec_read64le(s, i2 + 8)));
    let hi1 = hi.wrapping_add(spec_mix16(s, i2, sec, so + 16, seed)) ^ (spec_read64le(
        s,
        i1,
    ).wrapping_add(spec_read64le(s, i1 + 8)));
    (lo1, hi1)
}

fn mix32_b(
    lo: u64,
    hi: u64,
    input: &[u8],
    i1: usize,
    i2: usize,
    secret: &[u8],
    so: usize,
    seed: u64,
) -> (res: (u64, u64))
    requires
        i1 + 16 <= input@.len(),
        i2 + 16 <= input@.len(),
        so + 32 <= secret@.len(),
    ensures
        res == spec_mix32(lo, hi, input@, i1 as int, i2 as int, secret@, so as int, seed),
{
    let _ilen = input.len();
    let _slen = secret.len();
    let lo1 = lo.wrapping_add(mix16_b(input, i1, secret, so, seed)) ^ (read64le(
        input,
        i2,
    ).wrapping_add(read64le(input, i2 + 8)));
    let hi1 = hi.wrapping_add(mix16_b(input, i2, secret, so + 16, seed)) ^ (read64le(
        input,
        i1,
    ).wrapping_add(read64le(input, i1 + 8)));
    (lo1, hi1)
}

/// 128-bit digest of a seventeen-to-128-byte input.
pub open spec fn spec_xxh3_128_17to128(s: Seq<u8>, seed: u64, sec: Seq<u8>) -> u128 {
    let len = s.len() as int;
    let acc0 = ((s.len() as u64).wrapping_mul(xxh64::PRIME_1), 0u64);
    let acc1 = if s.len() > 32 {
        let acc_in = if s.len() > 64 {
            let acc_deep = if s.len() > 96 {
                spec_mix32(acc0.0, acc0.1, s, 48, len - 64, sec, 96, seed)
            } else {
                acc0
            };
            spec_mix32(acc_deep.0, acc_deep.1, s, 32, len - 48, sec, 64, seed)
        } else {
            acc0
        };
        spec_mix32(acc_in.0, acc_in.1, s, 16, len - 32, sec, 32, seed)
    } else {
        acc0
    };
    let acc2 = spec_mix32(acc1.0, acc1.1, s, 0, len - 16, sec, 0, seed);
    spec_128_result(acc2.0, acc2.1, s.len() as u64, seed)
}

/// Folds the mixed halves and the length into the final 128-bit value.
pub open spec fn spec_128_result(lo: u64, hi: u64, len: u64, seed: u64) -> u128 {
    let result_lo = lo.wrapping_add(hi);
    let result_hi = lo.wrapping_mul(xxh64::PRIME_1).wrapping_add(
        hi.wrapping_mul(xxh64::PRIME_4),
    ).wrapping_add(len.wrapping_sub(seed).wrapping_mul(xxh64::PRIME_2));
    spec_combine128(spec_avalanche(result_lo), 0u64.wrapping_sub(spec_avalanche(result_hi)))
}

fn xxh3_128_17to128(input: &[u8], seed: u64, secret: &[u8]) -> (res: u128)
    requires
        17 <= input@.len() <= 128,
        secret@.len() >= 128,
    ensures
        res == spec_xxh3_128_17to128(input@, seed, secret@),
{
    let len = input.len();
    let mut lo: u64 = (len as u64).wrapping_mul(xxh64::PRIME_1);
    let mut hi: u64 = 0;
    if len > 32 {
        if len > 64 {
            if len > 96 {
                let m = mix32_b(lo, hi, input, 48, len - 64, secret, 96, seed);
                lo = m.0;
                hi = m.1;
            }
            let m = mix32_b(lo, hi, input, 32, len - 48, secret, 64, seed);
            lo = m.0;
            hi = m.1;
        }
        let m = mix32_b(lo, hi, input, 16, len - 32, secret, 32, seed);
        lo = m.0;
        hi = m.1;
    }
    let m = mix32_b(lo, hi, input, 0, len - 16, secret, 0, seed);
    lo = m.0;
    hi = m.1;
    let result_lo = lo.wrapping_add(hi);
    let result_hi = lo.wrapping_mul(xxh64::PRIME_1).wrapping_add(
        hi.wrapping_mul(xxh64::PRIME_4),
    ).wrapping_add((len as u64).wrapping_sub(seed).wrapping_mul(xxh64::PRIME_2));
    let out_lo = avalanche(result_lo);
    let out_hi = 0u64.wrapping_sub(avalanche(result_hi));
    (out_lo as u128) | ((out_hi as u128) << 64u128)
}

/// The first `n` double-width rounds of the mid-size path, secret in step.
pub open spec fn spec_mid128_rounds1(
    s: Seq<u8>,
    sec: Seq<u8>,
    seed: u64,
    acc: (u64, u64),
    n: int,
) -> (u64, u64)
    decreases n,
{
    if n <= 0 {
        acc
    } else {
        let prev = spec_mid128_rounds1(s, sec, seed, acc, n - 1);
        spec_mix32(prev.0, prev.1, s, 32 * (n - 1), 32 * (n - 1) + 16, sec, 32 * (n - 1), seed)
    }
}

/// Double-width rounds four to `n`, secret offset by three bytes.
pub open spec fn spec_mid128_rounds2(
    s: Seq<u8>,
    sec: Seq<u8>,
    seed: u64,
    acc: (u64, u64),
    n: int,
) -> (u64, u64)
    decreases n,
{
    if n <= 4 {
        acc
    } else {
        let prev = spec_mid128_rounds2(s, sec, seed, acc, n - 1);
        spec_mix32(
            prev.0,
            prev.1,
            s,
            32 * (n - 1),
            32 * (n - 1) + 16,
            sec,
            3 + 32 * (n - 1 - 4),
            seed,
        )
    }
}

/// 128-bit digest of a 129-to-240-byte input.
pub open spec fn spec_xxh3_128_129to240(s: Seq<u8>, seed: u64, sec: Seq<u8>) -> u128 {
    let len = s.len() as int;
    let nb_rounds = len / 32;
    let acc0 = ((s.len() as u64).wrapping_mul(xxh64::PRIME_1), 0u64);
    let acc1 = spec_mid128_rounds1(s, sec, seed, acc0, 4);
    let acc2 = (spec_avalanche(acc1.0), spec_avalanche(acc1.1));
    let acc3 = spec_mid128_rounds2(s, sec, seed, acc2, nb_rounds);
    let acc4 = spec_mix32(
        acc3.0,
        acc3.1,
        s,
        len - 16,
        len - 32,
        sec,
        136 - 17 - 16,
        0u64.wrapping_sub(seed),
    );
    spec_128_result(acc4.0, acc4.1, s.len() as u64, seed)
}

fn xxh3_128_129to240(input: &[u8], seed: u64, secret: &[u8]) -> (res: u128)
    requires
        129 <= input@.len() <= 240,
        secret@.len() >= SECRET_SIZE_MIN,
    ensures
        res == spec_xxh3_128_129to240(input@, seed, secret@),
{
    let len = input.len();
    let nb_rounds = len / 32;
    let ghost nbr = input@.len() as int / 32;
    proof {
        lemma_fundamental_div_mod(input@.len() as int, 32);
        assert(4 <= nbr <= 7);
        assert(32 * nbr <= input@.len());
    }
    let mut lo: u64 = (len as u64).wrapping_mul(xxh64::PRIME_1);
    let mut hi: u64 = 0;
    let ghost acc0 = (lo, hi);
    let mut idx: usize = 0;
    while idx < 4
        invariant
            idx <= 4,
            129 <= input@.len() <= 240,
            secret@.len() >= SECRET_SIZE_MIN,
            (lo, hi) == spec_mid128_rounds1(input@, secret@, seed, acc0, idx as int),
        decreases 4 - idx,
    {
        let m = mix32_b(lo, hi, input, 32 * idx, 32 * idx + 16, secret, 32 * idx, seed);
        lo = m.0;
        hi = m.1;
        idx += 1;
    }
    lo = avalanche(lo);
    hi = avalanche(hi);
    let ghost acc2 = (lo, hi);
    while idx < nb_rounds
        invariant
            4 <= idx <= nb_rounds,
            nb_rounds == nbr,
            nbr <= 7,
            32 * nbr <= input@.len(),
            129 <= input@.len() <= 240,
            secret@.len() >= SECRET_SIZE_MIN,
            (lo, hi) == spec_mid128_rounds2(input@, secret@, seed, acc2, idx as int),
        decreases nb_rounds - idx,
    {
        let m = mix32_b(
            lo,
            hi,
            input,
            32 * idx,
            32 * idx + 16,
            secret,
            MID_START_OFFSET + 32 * (idx - 4),
            seed,
        );
        lo = m.0;
        hi = m.1;
        idx += 1;
    }
    let m = mix32_b(
        lo,
        hi,
        input,
        len - 16,
        len - 32,
        secret,
        SECRET_SIZE_MIN - MID_LAST_OFFSET - 16,
        0u64.wrapping_sub(seed),
    );
    lo = m.0;
    hi = m.1;
    let result_lo = lo.wrapping_add(hi);
    let result_hi = lo.wrapping_mul(xxh64::PRIME_1).wrapping_add(
        hi.wrapping_mul(xxh64::PRIME_4),
    ).wrapping_add((len as u64).wrapping_sub(seed).wrapping_mul(xxh64::PRIME_2));
    let out_lo = avalanche(result_lo);
    let out_hi = 0u64.wrapping_sub(avalanche(result_hi));
    (out_lo as u128) | ((out_hi as u128) << 64u128)
}

/// 128-bit digest of an input of at most 240 bytes, dispatched on length.
pub open spec fn spec_xxh3_128_short(s: Seq<u8>, seed: u64, sec: Seq<u8>) -> u128 {
    if s.len() <= 16 {
        spec_xxh3_128_0to16(s, seed, sec)
    } else if s.len() <= 128 {
        spec_xxh3_128_17to128(s, seed, sec)
    } else {
        spec_xxh3_128_129to240(s, seed, sec)
    }
}

fn xxh3_128_short(input: &[u8], seed: u64, secret: &[u8]) -> (res: u128)
    requires
        input@.len() <= MID_SIZE_MAX,
        secret@.len() >= SECRET_SIZE_MIN,
    ensures
        res == spec_xxh3_128_short(input@, seed, secret@),
{
    let len = input.len();
    if len <= 16 {
        xxh3_128_0to16(input, seed, secret)
    } else if len <= 128 {
        xxh3_128_17to128(input, seed, secret)
    } else {
        xxh3_128_129to240(input, seed, secret)
    }
}

/// 128-bit digest of an input longer than 240 bytes: the low half merges at
/// the fixed offset, the high half at the mirrored end-of-secret offset
/// with a complemented multiplier.
pub open spec fn spec_xxh3_128_long(s: Seq<u8>, sec: Seq<u8>) -> u128 {
    let acc = spec_final_acc(s, sec);
    let lo = spec_merge_accs(
        acc,
        sec,
        11,
        crate::xxh64::spec_len64(s).wrapping_mul(xxh64::PRIME_1),
    );
    let hi = spec_merge_accs(
        acc,
        sec,
        sec.len() - 64 - 11,
        crate::xxh64::spec_len64(s).wrapping_mul(xxh64::PRIME_2) ^ 0xFFFF_FFFF_FFFF_FFFF,
    );
    spec_combine128(lo, hi)
}

fn xxh3_128_long(input: &[u8], secret: &[u8]) -> (res: u128)
    requires
        input@.len() > MID_SIZE_MAX,
        secret@.len() >= SECRET_SIZE_MIN,
    ensures
        res == spec_xxh3_128_long(input@, secret@),
{
    let len = input.len();
    let slen = secret.len();
    let mut acc = initial_acc();
    hash_long_internal_loop(&mut acc, input, secret);
    proof {
        lemma_small_mod(input@.len(), 0x1_0000_0000_0000_0000);
    }
    let lo = merge_accs(&acc, secret, SECRET_MERGEACCS_START, (len as u64).wrapping_mul(
        xxh64::PRIME_1,
    ));
    let hi = merge_accs(
        &acc,
        secret,
        slen - STRIPE_LEN - SECRET_MERGEACCS_START,
        (len as u64).wrapping_mul(xxh64::PRIME_2) ^ 0xFFFF_FFFF_FFFF_FFFF,
    );
    (lo as u128) | ((hi as u128) << 64u128)
}

/// The 128-bit XXH3 digest of `s` under the default secret.
pub open spec fn spec_xxh3_128(s: Seq<u8>) -> u128 {
    if s.len() <= 240 {
        spec_xxh3_128_short(s, 0, spec_default_secret())
    } else {
        spec_xxh3_128_long(s, spec_default_secret())
    }
}

/// The 128-bit XXH3 digest of `s` under a seed.
pub open spec fn spec_xxh3_128_with_seed(s: Seq<u8>, seed: u64) -> u128 {
    if s.len() <= 240 {
        spec_xxh3_128_short(s, seed, spec_default_secret())
    } else {
        spec_xxh3_128_long(s, spec_derived_secret(seed))
    }
}

/// The 128-bit XXH3 digest of `s` under a custom secret.
pub open spec fn spec_xxh3_128_with_secret(s: Seq<u8>, sec: Seq<u8>) -> u128 {
    if s.len() <= 240 {
        spec_xxh3_128_short(s, 0, sec)
    } else {
        spec_xxh3_128_long(s, sec)
    }
}

/// Returns the 128-bit digest of the provided input.
pub fn xxh3_128(input: &[u8]) -> (res: u128)
    ensures
        res == spec_xxh3_128(input@),
{
    let secret = default_secret();
    if input.len() <= MID_SIZE_MAX {
        xxh3_128_short(input, 0, secret.as_slice())
    } else {
        xxh3_128_long(input, secret.as_slice())
    }
}

/// Returns the 128-bit digest of the provided input under the given seed.
pub fn xxh3_128_with_seed(input: &[u8], seed: u64) -> (res: u128)
    ensures
        res == spec_xxh3_128_with_seed(input@, seed),
{
    if input.len() <= MID_SIZE_MAX {
        let secret = default_secret();
        xxh3_128_short(input, seed, secret.as_slice())
    } else {
        let secret = derive_secret(seed);
        xxh3_128_long(input, secret.as_slice())
    }
}

/// Returns the 128-bit digest of the provided input under a custom secret,
/// which must be at least the minimum secret size.
pub fn xxh3_128_with_secret(input: &[u8], secret: &[u8]) -> (res: u128)
    requires
        secret@.len() >= SECRET_SIZE_MIN,
    ensures
        res == spec_xxh3_128_with_secret(input@, secret@),
{
    if input.len() <= MID_SIZE_MAX {
        xxh3_128_short(input, 0, secret)
    } else {
        xxh3_128_long(input, secret)
    }
}


/// The stripe-accumulate step depends only on the 64 input bytes it reads.
proof fn lemma_acc512_upto_agree(
    acc: Seq<u64>,
    s1: Seq<u8>,
    i1: int,
    s2: Seq<u8>,
    i2: int,
    sec: Seq<u8>,
    so: int,
    n: int,
)
    requires
        0 <= i1,
        i1 + 64 <= s1.len(),
        0 <= i2,
        i2 + 64 <= s2.len(),
        s1.subrange(i1, i1 + 64) == s2.subrange(i2, i2 + 64),
        n <= 8,
    ensures
        spec_acc512_upto(acc, s1, i1, sec, so, n) == spec_acc512_upto(acc, s2, i2, sec, so, n),
    decreases n,
{
    if n > 0 {
        lemma_acc512_upto_agree(acc, s1, i1, s2, i2, sec, so, n - 1);
        assert(spec_read64le(s1, i1 + 8 * (n - 1)) == spec_read64le(s2, i2 + 8 * (n - 1))) by {
            lemma_sub_read64(s1, i1, i1 + 64, 8 * (n - 1));
            lemma_sub_read64(s2, i2, i2 + 64, 8 * (n - 1));
        }
    }
}

/// A run of stripes depends only on the input bytes it reads.
proof fn lemma_accum_n_agree(
    acc: Seq<u64>,
    s1: Seq<u8>,
    o1: int,
    s2: Seq<u8>,
    o2: int,
    sec: Seq<u8>,
    so: int,
    m: int,
)
    requires
        0 <= o1,
        o1 + 64 * m <= s1.len(),
        0 <= o2,
        o2 + 64 * m <= s2.len(),
        0 <= m,
        s1.subrange(o1, o1 + 64 * m) == s2.subrange(o2, o2 + 64 * m),
    ensures
        spec_accum_n(acc, s1, o1, sec, so, m) == spec_accum_n(acc, s2, o2, sec, so, m),
    decreases m,
{
    if m > 0 {
        assert(s1.subrange(o1, o1 + 64 * (m - 1)) == s2.subrange(o2, o2 + 64 * (m - 1))) by {
            s1.lemma_slice_of_slice(o1, o1 + 64 * m, 0, 64 * (m - 1));
            s2.lemma_slice_of_slice(o2, o2 + 64 * m, 0, 64 * (m - 1));
        }
        lemma_accum_n_agree(acc, s1, o1, s2, o2, sec, so, m - 1);
        assert(s1.subrange(o1 + 64 * (m - 1), o1 + 64 * m) == s2.subrange(
            o2 + 64 * (m - 1),
            o2 + 64 * m,
        )) by {
            s1.lemma_slice_of_slice(o1, o1 + 64 * m, 64 * (m - 1), 64 * m);
            s2.lemma_slice_of_slice(o2, o2 + 64 * m, 64 * (m - 1), 64 * m);
        }
        lemma_acc512_upto_agree(
            spec_accum_n(acc, s1, o1, sec, so, m - 1),
            s1,
            o1 + 64 * (m - 1),
            s2,
            o2 + 64 * (m - 1),
            sec,
            so + 8 * (m - 1),
            8,
        );
    }
}

/// Size of the streaming hasher's internal buffer.
pub const INTERNAL_BUFFER_SIZE: usize = 256;

/// Stripes per block of the default-size secret.
pub const STRIPES_PER_BLOCK: usize = 16;

/// Consumes `nb_stripes` stripes from `input`, scrambling in passing if the
/// current block completes, and returns the stripe count within the new
/// block.
fn consume_stripes(
    acc: &mut [u64; 8],
    nb_stripes_acc: usize,
    input: &[u8],
    in_off: usize,
    secret: &[u8],
    nb_stripes: usize,
) -> (res: usize)
    requires
        secret@.len() == 192,
        nb_stripes_acc <= 16,
        nb_stripes <= 4,
        in_off + 64 * nb_stripes <= input@.len(),
    ensures
        16 - nb_stripes_acc > nb_stripes ==> {
            &&& final(acc)@ == spec_accum_n(
                old(acc)@,
                input@,
                in_off as int,
                secret@,
                8 * nb_stripes_acc,
                nb_stripes as int,
            )
            &&& res == nb_stripes_acc + nb_stripes
        },
        16 - nb_stripes_acc <= nb_stripes ==> {
            &&& final(acc)@ == spec_accum_n(
                spec_scramble(
                    spec_accum_n(
                        old(acc)@,
                        input@,
                        in_off as int,
                        secret@,
                        8 * nb_stripes_acc,
                        16 - nb_stripes_acc,
                    ),
                    secret@,
                    128,
                ),
                input@,
                in_off + 64 * (16 - nb_stripes_acc),
                secret@,
                0,
                nb_stripes - (16 - nb_stripes_acc) as int,
            )
            &&& res == nb_stripes - (16 - nb_stripes_acc)
        },
{
    let _ilen = input.len();
    if STRIPES_PER_BLOCK - nb_stripes_acc <= nb_stripes {
        let stripes_to_end = STRIPES_PER_BLOCK - nb_stripes_acc;
        let stripes_after_end = nb_stripes - stripes_to_end;
        accumulate_loop(acc, input, in_off, secret, nb_stripes_acc * SECRET_CONSUME_RATE,
            stripes_to_end);
        scramble_acc(acc, secret, DEFAULT_SECRET_SIZE - STRIPE_LEN);
        accumulate_loop(acc, input, in_off + stripes_to_end * STRIPE_LEN, secret, 0,
            stripes_after_end);
        stripes_after_end
    } else {
        accumulate_loop(acc, input, in_off, secret, nb_stripes_acc * SECRET_CONSUME_RATE,
            nb_stripes);
        nb_stripes_acc + nb_stripes
    }
}

/// XXH3 streaming state: absorbs input in arbitrary chunks and produces the
/// same 64- or 128-bit digest as the one-shot functions over everything
/// absorbed so far.
#[derive(Clone)]
pub struct Xxh3 {
    acc: [u64; 8],
    custom_secret: Vec<u8>,
    buffer: Vec<u8>,
    buffered_size: usize,
    nb_stripes_acc: usize,
    total_len: u64,
    seed: u64,
    seen: Ghost<Seq<u8>>,
}

/// Digest the streaming state produces for the 64-bit width: a long input
/// is merged from the stored secret; a short one re-runs the short path,
/// keyed by the seed over the default secret when a seed is present, and
/// by the stored secret otherwise.
pub open spec fn spec_stream_digest64(s: Seq<u8>, seed: u64, sec: Seq<u8>) -> u64 {
    if s.len() > 240 {
        spec_xxh3_64_long(s, sec)
    } else if seed != 0 {
        spec_xxh3_64_short(s, seed, spec_default_secret())
    } else {
        spec_xxh3_64_short(s, 0, sec)
    }
}

/// The 128-bit analogue of [`spec_stream_digest64`].
pub open spec fn spec_stream_digest128(s: Seq<u8>, seed: u64, sec: Seq<u8>) -> u128 {
    if s.len() > 240 {
        spec_xxh3_128_long(s, sec)
    } else if seed != 0 {
        spec_xxh3_128_short(s, seed, spec_default_secret())
    } else {
        spec_xxh3_128_short(s, 0, sec)
    }
}

impl Xxh3 {
    /// All bytes absorbed since creation or the last reset.
    pub closed spec fn bytes(self) -> Seq<u8> {
        self.seen@
    }

    /// The seed the state was created with.
    pub closed spec fn spec_seed(self) -> u64 {
        self.seed
    }

    /// The secret the long-input path is keyed with.
    pub closed spec fn secret(self) -> Seq<u8> {
        self.custom_secret@
    }

    /// Internal consistency: the buffer holds the unconsumed tail (and,
    /// below its end, the stripe preceding it), and the accumulator holds
    /// the rolled-in stripes of everything before the tail.
    pub closed spec fn wf(self) -> bool {
        let s = self.seen@;
        let b = self.buffered_size as int;
        let p = s.len() - b;
        &&& self.custom_secret@.len() == 192
        &&& self.buffer@.len() == 256
        &&& (s.len() == 0 ==> b == 0)
        &&& (s.len() > 0 ==> 1 <= b)
        &&& b <= 256
        &&& b <= s.len()
        &&& p % 256 == 0
        &&& self.buffer@.subrange(0, b) == s.subrange(p, s.len() as int)
        &&& self.nb_stripes_acc == (p / 64) % 16
        &&& self.acc@ == spec_acc_rolling(s, self.custom_secret@, p / 64)
        &&& (p > 0 && b <= 192 ==> self.buffer@.subrange(192, 256) == s.subrange(p - 64, p))
        &&& self.total_len == crate::xxh64::spec_len64(s)
    }

    fn with_custom_ops(seed: u64, secret: Vec<u8>) -> (res: Self)
        requires
            secret@.len() == 192,
        ensures
            res.wf(),
            res.bytes() == Seq::<u8>::empty(),
            res.spec_seed() == seed,
            res.secret() == secret@,
    {
        let mut buffer: Vec<u8> = Vec::new();
        let mut i: usize = 0;
        while i < INTERNAL_BUFFER_SIZE
            invariant
                i <= 256,
                buffer@.len() == i,
            decreases 256 - i,
        {
            buffer.push(0);
            i += 1;
        }
        let res = Self {
            acc: initial_acc(),
            custom_secret: secret,
            buffer,
            buffered_size: 0,
            nb_stripes_acc: 0,
            total_len: 0,
            seed,
            seen: Ghost(Seq::empty()),
        };
        proof {
            lemma_small_mod(0, 256);
            lemma_small_mod(0, 16);
            lemma_small_mod(0, 0x1_0000_0000_0000_0000);
            assert(res.buffer@.subrange(0, 0) =~= res.seen@.subrange(0, 0));
        }
        res
    }

    /// Creates a hasher with the default secret and no seed.
    pub fn new() -> (res: Self)
        ensures
            res.wf(),
            res.bytes() == Seq::<u8>::empty(),
            res.spec_seed() == 0,
            res.secret() == spec_default_secret(),
    {
        Self::with_custom_ops(0, default_secret())
    }

    /// Creates a hasher keyed by a custom secret.
    pub fn with_secret(secret: [u8; 192]) -> (res: Self)
        ensures
            res.wf(),
            res.bytes() == Seq::<u8>::empty(),
            res.spec_seed() == 0,
            res.secret() == secret@,
    {
        Self::with_custom_ops(0, crate::xxh3_common::arr_to_vec(&secret))
    }

    /// Creates a hasher keyed by a seed-derived secret.
    pub fn with_seed(seed: u64) -> (res: Self)
        ensures
            res.wf(),
            res.bytes() == Seq::<u8>::empty(),
            res.spec_seed() == seed,
            res.secret() == spec_derived_secret(seed),
    {
        Self::with_custom_ops(seed, derive_secret(seed))
    }

    /// Restores the state to that of a fresh hasher with the same seed and
    /// secret.
    pub fn reset(&mut self)
        requires
            old(self).wf(),
        ensures
            final(self).wf(),
            final(self).bytes() == Seq::<u8>::empty(),
            final(self).spec_seed() == old(self).spec_seed(),
            final(self).secret() == old(self).secret(),
    {
        self.acc = initial_acc();
        self.total_len = 0;
        self.buffered_size = 0;
        self.nb_stripes_acc = 0;
        proof {
            self.seen@ = Seq::empty();
            lemma_small_mod(0, 256);
            lemma_small_mod(0, 16);
            lemma_small_mod(0, 0x1_0000_0000_0000_0000);
            assert(self.buffer@.subrange(0, 0) =~= self.seen@.subrange(0, 0));
        }
    }
}


/// The rolling accumulator reads only the first `64 * n` bytes, so
/// extending the sequence afterwards does not change it.
proof fn lemma_rolling_prefix(s1: Seq<u8>, s2: Seq<u8>, sec: Seq<u8>, n: int)
    requires
        s1.is_prefix_of(s2),
        0 <= 64 * n <= s1.len(),
    ensures
        spec_acc_rolling(s1, sec, n) == spec_acc_rolling(s2, sec, n),
    decreases n,
{
    if n > 0 {
        lemma_rolling_prefix(s1, s2, sec, n - 1);
        lemma_prefix_subrange(s1, s2, 64 * (n - 1), 64 * n);
        lemma_acc512_upto_agree(
            spec_acc_rolling(s1, sec, n - 1),
            s1,
            64 * (n - 1),
            s2,
            64 * (n - 1),
            sec,
            8 * ((n - 1) % spec_stripes_per_block(sec)),
            8,
        );
    }
}

/// Overwrites `buffer[at..at + count]` with `input[from..from + count]`,
/// leaving the rest of the buffer unchanged.
fn buffer_write(buffer: &mut Vec<u8>, at: usize, input: &[u8], from: usize, count: usize)
    requires
        old(buffer)@.len() == 256,
        at + count <= 256,
        from + count <= input@.len(),
    ensures
        final(buffer)@.len() == 256,
        final(buffer)@.subrange(at as int, (at + count) as int) == input@.subrange(
            from as int,
            (from + count) as int,
        ),
        final(buffer)@.subrange(0, at as int) == old(buffer)@.subrange(0, at as int),
        final(buffer)@.subrange((at + count) as int, 256) == old(buffer)@.subrange(
            (at + count) as int,
            256,
        ),
{
    let ilen = input.len();
    let mut i: usize = 0;
    while i < count
        invariant
            i <= count,
            at + count <= 256,
            from + count <= input@.len(),
            ilen == input@.len(),
            buffer@.len() == 256,
            old(buffer)@.len() == 256,
            buffer@.subrange(at as int, at + i) == input@.subrange(from as int, from + i),
            buffer@.subrange(0, at as int) == old(buffer)@.subrange(0, at as int),
            buffer@.subrange(at + i, 256) == old(buffer)@.subrange(at + i, 256),
        decreases count - i,
    {
        let ghost prev = buffer@;
        buffer[at + i] = input[from + i];
        proof {
            assert(buffer@ == prev.update(at + i, input@[from + i]));
            assert(buffer@.subrange(at as int, at + i + 1) =~= input@.subrange(
                from as int,
                from + i + 1,
            )) by {
                assert forall|k: int| 0 <= k < i + 1 implies #[trigger] (buffer@.subrange(
                    at as int,
                    at + i + 1,
                )[k]) == input@.subrange(from as int, from + i + 1)[k] by {
                    if k < i {
                        assert(prev.subrange(at as int, at + i)[k] == input@.subrange(
                            from as int,
                            from + i,
                        )[k]);
                        assert(buffer@[at + k] == prev[at + k]);
                    } else {
                        assert(buffer@[at + i] == input@[from + i]);
                    }
                }
            }
            assert(buffer@.subrange(0, at as int) =~= prev.subrange(0, at as int));
            assert(buffer@.subrange(at + i + 1, 256) =~= prev.subrange(at + i + 1, 256)) by {
                assert forall|k: int| 0 <= k < 256 - (at + i + 1) implies #[trigger] (
                buffer@.subrange(at + i + 1, 256)[k]) == prev.subrange(at + i + 1, 256)[k] by {
                    assert(buffer@[at + i + 1 + k] == prev[at + i + 1 + k]);
                }
            }
            assert(prev.subrange(at + i + 1, 256) == old(buffer)@.subrange(at + i + 1, 256)) by {
                prev.lemma_slice_of_slice(at + i, 256, 1, 256 - (at + i));
                old(buffer)@.lemma_slice_of_slice(at + i, 256, 1, 256 - (at + i));
                assert(prev.subrange(at + i, 256).subrange(1, 256 - (at + i))
                    == old(buffer)@.subrange(at + i, 256).subrange(1, 256 - (at + i)));
            }
        }
        i += 1;
    }
}

/// Consuming up to four stripes out of a window of the absorbed bytes,
/// with a scramble where the block completes, advances the rolling
/// accumulator by that many stripes.
proof fn lemma_consume_rolling(
    s: Seq<u8>,
    sec: Seq<u8>,
    w: Seq<u8>,
    w_off: int,
    pos: int,
    acc0: Seq<u64>,
    acc1: Seq<u64>,
    nsa: int,
    res: int,
    nb: int,
)
    requires
        sec.len() == 192,
        0 <= nb <= 4,
        0 <= w_off,
        w_off + 64 * nb <= w.len(),
        0 <= pos,
        pos + 64 * nb <= s.len(),
        w.subrange(w_off, w_off + 64 * nb) == s.subrange(pos, pos + 64 * nb),
        pos % 64 == 0,
        0 <= nsa < 16,
        nsa == (pos / 64) % 16,
        acc0 == spec_acc_rolling(s, sec, pos / 64),
        16 - nsa > nb ==> acc1 == spec_accum_n(acc0, w, w_off, sec, 8 * nsa, nb) && res == nsa
            + nb,
        16 - nsa <= nb ==> acc1 == spec_accum_n(
            spec_scramble(spec_accum_n(acc0, w, w_off, sec, 8 * nsa, 16 - nsa), sec, 128),
            w,
            w_off + 64 * (16 - nsa),
            sec,
            0,
            nb - (16 - nsa),
        ) && res == nb - (16 - nsa),
    ensures
        acc1 == spec_acc_rolling(s, sec, pos / 64 + nb),
        res == ((pos + 64 * nb) / 64) % 16,
        0 <= res < 16,
{
    let n = pos / 64;
    lemma_fundamental_div_mod(pos, 64);
    assert(64 * n == pos);
    lemma_fundamental_div_mod(n, 16);
    let u = n / 16;
    assert(spec_stripes_per_block(sec) == 16);
    assert((pos + 64 * nb) / 64 == n + nb) by {
        vstd::arithmetic::mul::lemma_mul_is_distributive_add(64, n, nb);
        lemma_div_multiples_vanish_fancy(n + nb, 0, 64);
    }
    if 16 - nsa > nb {
        lemma_accum_n_agree(acc0, w, w_off, s, pos, sec, 8 * nsa, nb);
        lemma_accum_advance(s, sec, n, nb);
        assert((n + nb) % 16 == nsa + nb) by {
            vstd::arithmetic::div_mod::lemma_mod_multiples_vanish(u, nsa + nb, 16);
            lemma_small_mod((nsa + nb) as nat, 16);
        }
    } else {
        let te = 16 - nsa;
        // the first run, up to the block boundary
        assert(w.subrange(w_off, w_off + 64 * te) == s.subrange(pos, pos + 64 * te)) by {
            w.lemma_slice_of_slice(w_off, w_off + 64 * nb, 0, 64 * te);
            s.lemma_slice_of_slice(pos, pos + 64 * nb, 0, 64 * te);
        }
        lemma_accum_n_agree(acc0, w, w_off, s, pos, sec, 8 * nsa, te);
        lemma_accum_advance(s, sec, n, te);
        assert((n + te) % 16 == 0) by {
            vstd::arithmetic::mul::lemma_mul_is_distributive_add(16, u, 1);
            vstd::arithmetic::div_mod::lemma_mod_multiples_vanish(u + 1, 0, 16);
            lemma_small_mod(0, 16);
        }
        // the remainder, keyed from the top of the secret
        let mid = spec_acc_rolling(s, sec, n + te);
        assert(w.subrange(w_off + 64 * te, w_off + 64 * nb) == s.subrange(
            pos + 64 * te,
            pos + 64 * nb,
        )) by {
            w.lemma_slice_of_slice(w_off, w_off + 64 * nb, 64 * te, 64 * nb);
            s.lemma_slice_of_slice(pos, pos + 64 * nb, 64 * te, 64 * nb);
        }
        lemma_accum_n_agree(mid, w, w_off + 64 * te, s, pos + 64 * te, sec, 0, nb - te);
        lemma_accum_advance(s, sec, n + te, nb - te);
        assert((n + nb) % 16 == nb - te) by {
            vstd::arithmetic::mul::lemma_mul_is_distributive_add(16, u, 1);
            vstd::arithmetic::div_mod::lemma_mod_multiples_vanish(u + 1, nb - te, 16);
            lemma_small_mod((nb - te) as nat, 16);
        }
        assert((n + te) % 16 + (nb - te) < 16);
    }
}


/// A multiple of 256 is a multiple of 64.
proof fn lemma_mod256_to_64(p: int)
    requires
        0 <= p,
        p % 256 == 0,
    ensures
        p % 64 == 0,
{
    lemma_fundamental_div_mod(p, 256);
    vstd::arithmetic::div_mod::lemma_mod_multiples_vanish(4 * (p / 256), 0, 64);
    lemma_small_mod(0, 64);
}

impl Xxh3 {
    /// Absorbs a chunk of input.
    pub fn update(&mut self, input: &[u8])
        requires
            old(self).wf(),
        ensures
            final(self).wf(),
            final(self).bytes() == old(self).bytes() + input@,
            final(self).spec_seed() == old(self).spec_seed(),
            final(self).secret() == old(self).secret(),
    {
        if input.len() <= INTERNAL_BUFFER_SIZE - self.buffered_size {
            self.update_buffered(input);
        } else {
            self.update_spill(input);
        }
    }

    /// Absorbs an input that fits in the internal buffer.
    #[verifier::rlimit(100)]
    fn update_buffered(&mut self, input: &[u8])
        requires
            old(self).wf(),
            input@.len() <= 256 - old(self).buffered_size,
        ensures
            final(self).wf(),
            final(self).bytes() == old(self).bytes() + input@,
            final(self).spec_seed() == old(self).spec_seed(),
            final(self).secret() == old(self).secret(),
    {
        let ghost s_old = self.seen@;
        let ghost s = self.seen@ + input@;
        let ghost inp = input@;
        let ghost big_l = s_old.len() as int;
        let ghost sec = self.custom_secret@;
        let len = input.len();
        let b0 = self.buffered_size;
        let ghost p0 = big_l - b0;

        proof {
            self.seen@ = s;
            assert(s_old.is_prefix_of(s)) by {
                assert(s_old =~= s.take(big_l));
            }
            lemma_mod256_to_64(p0);
        }
        let add64: u64 = len as u64;
        proof {
            lemma_small_mod(len as nat, 0x1_0000_0000_0000_0000);
            crate::xxh64::lemma_wrap_add_mod64(s_old.len(), inp.len(), self.total_len, add64);
        }
        self.total_len = self.total_len.wrapping_add(add64);
        let ghost buf_old = self.buffer@;
        buffer_write(&mut self.buffer, b0, input, 0, len);
        self.buffered_size = b0 + len;
        proof {
            let b1 = b0 + len;
            assert(inp.subrange(0, len as int) =~= inp);
            lemma_cat_suffix(s_old, inp);
            lemma_prefix_subrange(s_old, s, p0, big_l);
            lemma_subrange_concat(s, p0, big_l, s.len() as int);
            lemma_subrange_concat(self.buffer@, 0, b0 as int, b1 as int);
            assert(self.buffer@.subrange(0, b1 as int) == s.subrange(p0, s.len() as int));
            lemma_rolling_prefix(s_old, s, sec, p0 / 64);
            if p0 > 0 && b1 <= 192 {
                assert(self.buffer@.subrange(192, 256) == buf_old.subrange(192, 256)) by {
                    self.buffer@.lemma_slice_of_slice(b1 as int, 256, 192 - b1, 256 - b1);
                    buf_old.lemma_slice_of_slice(b1 as int, 256, 192 - b1, 256 - b1);
                    assert(self.buffer@.subrange(b1 as int, 256) == buf_old.subrange(
                        b1 as int,
                        256,
                    ));
                }
                lemma_prefix_subrange(s_old, s, p0 - 64, p0);
            }
        }
    }

    /// Consumes the full internal buffer, the window of the absorbed bytes
    /// at `pos`, as four stripes.
    fn consume_own_buffer(&mut self, Ghost(pos): Ghost<int>)
        requires
            old(self).custom_secret@.len() == 192,
            old(self).buffer@.len() == 256,
            0 <= pos,
            pos % 64 == 0,
            pos + 256 <= old(self).seen@.len(),
            old(self).buffer@ == old(self).seen@.subrange(pos, pos + 256),
            old(self).nb_stripes_acc == (pos / 64) % 16,
            old(self).acc@ == spec_acc_rolling(old(self).seen@, old(self).custom_secret@, pos
                / 64),
        ensures
            final(self).acc@ == spec_acc_rolling(
                old(self).seen@,
                old(self).custom_secret@,
                pos / 64 + 4,
            ),
            final(self).nb_stripes_acc == ((pos + 256) / 64) % 16,
            final(self).buffer@ == old(self).buffer@,
            final(self).buffered_size == old(self).buffered_size,
            final(self).seen@ == old(self).seen@,
            final(self).total_len == old(self).total_len,
            final(self).seed == old(self).seed,
            final(self).custom_secret@ == old(self).custom_secret@,
    {
        let ghost s = self.seen@;
        let ghost sec = self.custom_secret@;
        let ghost acc_old = self.acc@;
        let ghost nsa_old = self.nb_stripes_acc as int;
        proof {
            vstd::arithmetic::div_mod::lemma_mod_bound(pos / 64, 16);
        }
        let r = consume_stripes(
            &mut self.acc,
            self.nb_stripes_acc,
            self.buffer.as_slice(),
            0,
            self.custom_secret.as_slice(),
            INTERNAL_BUFFER_SIZE / STRIPE_LEN,
        );
        self.nb_stripes_acc = r;
        proof {
            assert(self.buffer@.subrange(0, 256) =~= self.buffer@);
            lemma_consume_rolling(s, sec, self.buffer@, 0, pos, acc_old, self.acc@, nsa_old,
                r as int, 4);
        }
    }

    /// Consumes the 256-byte window of the input at `off`, the window of
    /// the absorbed bytes at `pos`, as four stripes.
    fn consume_window(&mut self, input: &[u8], off: usize, Ghost(pos): Ghost<int>)
        requires
            old(self).custom_secret@.len() == 192,
            off + 256 <= input@.len(),
            0 <= pos,
            pos % 64 == 0,
            pos + 256 <= old(self).seen@.len(),
            input@.subrange(off as int, off + 256) == old(self).seen@.subrange(pos, pos + 256),
            old(self).nb_stripes_acc == (pos / 64) % 16,
            old(self).acc@ == spec_acc_rolling(old(self).seen@, old(self).custom_secret@, pos
                / 64),
        ensures
            final(self).acc@ == spec_acc_rolling(
                old(self).seen@,
                old(self).custom_secret@,
                pos / 64 + 4,
            ),
            final(self).nb_stripes_acc == ((pos + 256) / 64) % 16,
            final(self).buffer@ == old(self).buffer@,
            final(self).buffered_size == old(self).buffered_size,
            final(self).seen@ == old(self).seen@,
            final(self).total_len == old(self).total_len,
            final(self).seed == old(self).seed,
            final(self).custom_secret@ == old(self).custom_secret@,
    {
        let ghost s = self.seen@;
        let ghost sec = self.custom_secret@;
        let ghost acc_old = self.acc@;
        let ghost nsa_old = self.nb_stripes_acc as int;
        proof {
            vstd::arithmetic::div_mod::lemma_mod_bound(pos / 64, 16);
        }
        let r = consume_stripes(
            &mut self.acc,
            self.nb_stripes_acc,
            input,
            off,
            self.custom_secret.as_slice(),
            INTERNAL_BUFFER_SIZE / STRIPE_LEN,
        );
        self.nb_stripes_acc = r;
        proof {
            lemma_consume_rolling(s, sec, input@, off as int, pos, acc_old, self.acc@, nsa_old,
                r as int, 4);
        }
    }

    /// Tops the buffer up to a full 256 bytes from the front of the input
    /// and consumes it as four stripes; returns how much input was taken.
    #[verifier::rlimit(100)]
    fn spill_fill(&mut self, input: &[u8], Ghost(s_old): Ghost<Seq<u8>>, Ghost(p0): Ghost<int>)
        -> (fill_len: usize)
        requires
            old(self).seen@ == s_old + input@,
            old(self).custom_secret@.len() == 192,
            old(self).buffer@.len() == 256,
            1 <= old(self).buffered_size <= 256,
            p0 == s_old.len() - old(self).buffered_size,
            0 <= p0,
            p0 % 64 == 0,
            input@.len() > 256 - old(self).buffered_size,
            old(self).buffer@.subrange(0, old(self).buffered_size as int) == s_old.subrange(
                p0,
                s_old.len() as int,
            ),
            old(self).nb_stripes_acc == (p0 / 64) % 16,
            old(self).acc@ == spec_acc_rolling(old(self).seen@, old(self).custom_secret@, p0
                / 64),
        ensures
            fill_len == 256 - old(self).buffered_size,
            final(self).buffered_size == 0,
            final(self).buffer@.len() == 256,
            final(self).nb_stripes_acc == ((p0 + 256) / 64) % 16,
            final(self).acc@ == spec_acc_rolling(
                old(self).seen@,
                old(self).custom_secret@,
                (p0 + 256) / 64,
            ),
            final(self).buffer@.subrange(192, 256) == old(self).seen@.subrange(
                p0 + 192,
                p0 + 256,
            ),
            final(self).seen@ == old(self).seen@,
            final(self).total_len == old(self).total_len,
            final(self).seed == old(self).seed,
            final(self).custom_secret@ == old(self).custom_secret@,
    {
        let ghost s = self.seen@;
        let ghost inp = input@;
        let ghost big_l = s_old.len() as int;
        let ghost sec = self.custom_secret@;
        let b0 = self.buffered_size;
        let fill_len = INTERNAL_BUFFER_SIZE - b0;
        proof {
            assert(s_old.is_prefix_of(s)) by {
                assert(s_old =~= s.take(big_l));
            }
        }
        buffer_write(&mut self.buffer, b0, input, 0, fill_len);
        proof {
            lemma_cat_sub(s_old, inp, 0, fill_len as int);
            lemma_prefix_subrange(s_old, s, p0, big_l);
            lemma_subrange_concat(s, p0, big_l, p0 + 256);
            lemma_subrange_concat(self.buffer@, 0, b0 as int, 256);
            assert(self.buffer@.subrange(0, 256) == s.subrange(p0, p0 + 256));
            assert(self.buffer@.subrange(0, 256) =~= self.buffer@);
        }
        self.consume_own_buffer(Ghost(p0));
        self.buffered_size = 0;
        proof {
            assert((p0 + 256) / 64 == p0 / 64 + 4) by {
                lemma_fundamental_div_mod(p0, 64);
                vstd::arithmetic::mul::lemma_mul_is_distributive_add(64, p0 / 64, 4);
                lemma_div_multiples_vanish_fancy(p0 / 64 + 4, 0, 64);
            }
            assert(self.buffer@.subrange(192, 256) == s.subrange(p0 + 192, p0 + 256)) by {
                self.buffer@.lemma_slice_of_slice(0, 256, 192, 256);
                s.lemma_slice_of_slice(p0, p0 + 256, 192, 256);
                assert(self.buffer@.subrange(0, 256).subrange(192, 256) == s.subrange(
                    p0,
                    p0 + 256,
                ).subrange(192, 256));
            }
        }
        fill_len
    }

    /// Absorbs an input that overflows the internal buffer: consumes the
    /// buffer and then whole buffer-sized chunks, and keeps the tail.
    #[verifier::rlimit(100)]
    fn update_spill(&mut self, input: &[u8])
        requires
            old(self).wf(),
            input@.len() > 256 - old(self).buffered_size,
        ensures
            final(self).wf(),
            final(self).bytes() == old(self).bytes() + input@,
            final(self).spec_seed() == old(self).spec_seed(),
            final(self).secret() == old(self).secret(),
    {
        let ghost s_old = self.seen@;
        let ghost s = self.seen@ + input@;
        let ghost inp = input@;
        let ghost big_l = s_old.len() as int;
        let ghost sec = self.custom_secret@;
        let len = input.len();
        let b0 = self.buffered_size;
        let ghost p0 = big_l - b0;

        proof {
            self.seen@ = s;
            assert(s_old.is_prefix_of(s)) by {
                assert(s_old =~= s.take(big_l));
            }
            lemma_mod256_to_64(p0);
        }
        let add64: u64 = len as u64;
        proof {
            lemma_small_mod(len as nat, 0x1_0000_0000_0000_0000);
            crate::xxh64::lemma_wrap_add_mod64(s_old.len(), inp.len(), self.total_len, add64);
        }
        self.total_len = self.total_len.wrapping_add(add64);
        let ghost total2 = self.total_len;
        let ghost seed2 = self.seed;

        let mut cursor: usize = 0;
        let ghost mut pos: int = p0;
        if b0 > 0 {
            proof {
                lemma_rolling_prefix(s_old, s, sec, p0 / 64);
            }
            let fill_len = self.spill_fill(input, Ghost(s_old), Ghost(p0));
            cursor = fill_len;
            proof {
                pos = p0 + 256;
            }
        }
        let ghost buf_mid = self.buffer@;
        if len - cursor > INTERNAL_BUFFER_SIZE {
            // consume full buffers straight from the input
            while len - cursor > INTERNAL_BUFFER_SIZE
                invariant
                    cursor < len,
                    len == inp.len(),
                    inp == input@,
                    s == s_old + inp,
                    big_l == s_old.len(),
                    pos == big_l + cursor,
                    pos % 256 == 0,
                    0 <= pos,
                    sec == self.custom_secret@,
                    sec.len() == 192,
                    self.buffer@ == buf_mid,
                    self.buffer@.len() == 256,
                    self.buffered_size == 0,
                    self.nb_stripes_acc == (pos / 64) % 16,
                    self.acc@ == spec_acc_rolling(s, sec, pos / 64),
                    self.seen@ == s,
                    self.total_len == total2,
                    self.seed == seed2,
                decreases len - cursor,
            {
                proof {
                    lemma_cat_sub(s_old, inp, cursor as int, cursor + 256);
                    lemma_mod256_to_64(pos);
                }
                self.consume_window(input, cursor, Ghost(pos));
                cursor += INTERNAL_BUFFER_SIZE;
                proof {
                    pos = pos + 256;
                }
            }
            // keep the stripe preceding the unconsumed tail in the buffer
            buffer_write(&mut self.buffer, 192, input, cursor - 64, 64);
            proof {
                lemma_cat_sub(s_old, inp, cursor - 64, cursor as int);
                assert(self.buffer@.subrange(192, 256) == s.subrange(pos - 64, pos));
            }
        }
        proof {
            assert(self.buffer@.subrange(192, 256) == s.subrange(pos - 64, pos));
        }
        self.store_tail(input, cursor, Ghost(s_old), Ghost(pos));
    }

    /// Buffers the unconsumed tail of the input and re-establishes the
    /// state invariant.
    #[verifier::rlimit(100)]
    fn store_tail(&mut self, input: &[u8], cursor: usize, Ghost(s_old): Ghost<Seq<u8>>, Ghost(
        pos,
    ): Ghost<int>)
        requires
            old(self).seen@ == s_old + input@,
            old(self).custom_secret@.len() == 192,
            old(self).buffer@.len() == 256,
            cursor <= input@.len(),
            1 <= input@.len() - cursor <= 256,
            pos == s_old.len() + cursor,
            0 < pos,
            pos % 256 == 0,
            old(self).nb_stripes_acc == (pos / 64) % 16,
            old(self).acc@ == spec_acc_rolling(old(self).seen@, old(self).custom_secret@, pos
                / 64),
            old(self).buffer@.subrange(192, 256) == old(self).seen@.subrange(pos - 64, pos),
            old(self).total_len == crate::xxh64::spec_len64(old(self).seen@),
        ensures
            final(self).wf(),
            final(self).bytes() == old(self).bytes(),
            final(self).spec_seed() == old(self).spec_seed(),
            final(self).secret() == old(self).secret(),
    {
        let ghost s = self.seen@;
        let ghost inp = input@;
        let len = input.len();
        let rem = len - cursor;
        let ghost buf3 = self.buffer@;
        buffer_write(&mut self.buffer, 0, input, cursor, rem);
        self.buffered_size = rem;
        proof {
            lemma_mod256_to_64(pos);
            lemma_cat_sub(s_old, inp, cursor as int, len as int);
            assert(self.buffer@.subrange(0, rem as int) == s.subrange(pos, s.len() as int));
            assert(s.len() == pos + rem);
            if rem <= 192 {
                assert(self.buffer@.subrange(192, 256) == buf3.subrange(192, 256)) by {
                    self.buffer@.lemma_slice_of_slice(rem as int, 256, 192 - rem, 256 - rem);
                    buf3.lemma_slice_of_slice(rem as int, 256, 192 - rem, 256 - rem);
                    assert(self.buffer@.subrange(rem as int, 256) == buf3.subrange(
                        rem as int,
                        256,
                    ));
                }
            }
        }
    }
}


impl Xxh3 {
    /// Copies the buffered unconsumed tail out of the state.
    fn buffered_input(&self) -> (res: Vec<u8>)
        requires
            self.wf(),
        ensures
            res@ == self.seen@.subrange(
                self.seen@.len() - self.buffered_size,
                self.seen@.len() as int,
            ),
    {
        let b = self.buffered_size;
        let mut res: Vec<u8> = Vec::new();
        let mut i: usize = 0;
        while i < b
            invariant
                i <= b,
                b <= 256,
                self.buffer@.len() == 256,
                res@ == self.buffer@.subrange(0, i as int),
            decreases b - i,
        {
            res.push(self.buffer[i]);
            proof {
                lemma_subrange_push(self.buffer@, 0, i as int);
            }
            i += 1;
        }
        res
    }

    /// Replays the buffered tail into a copy of the accumulator, reaching
    /// the accumulator state the one-shot long path computes.
    #[verifier::rlimit(100)]
    fn digest_acc(&self) -> (res: [u64; 8])
        requires
            self.wf(),
            self.seen@.len() > 240,
        ensures
            res@ == spec_final_acc(self.seen@, self.custom_secret@),
    {
        let ghost s = self.seen@;
        let ghost sec = self.custom_secret@;
        let b = self.buffered_size;
        let ghost p = s.len() - b;
        let ghost big_n = (s.len() - 1) as int / 64;
        let mut acc = self.acc;
        proof {
            lemma_mod256_to_64(p);
            // the in-block stripe count is at most twelve, so the replayed
            // stripes never cross a block boundary
            lemma_fundamental_div_mod(p, 256);
            assert(p / 64 == 4 * (p / 256)) by {
                vstd::arithmetic::div_mod::lemma_div_multiples_vanish_fancy(4 * (p / 256), 0, 64);
            }
            assert((p / 64) % 16 == 4 * ((p / 256) % 4)) by {
                vstd::arithmetic::div_mod::lemma_truncate_middle(p / 256, 4, 4);
            }
            vstd::arithmetic::div_mod::lemma_mod_bound(p / 256, 4);
        }
        if b >= STRIPE_LEN {
            let nb = (b - 1) / STRIPE_LEN;
            let ghost acc_old = acc@;
            proof {
                lemma_fundamental_div_mod(b as int - 1, 64);
                assert(self.buffer@.subrange(0, 64 * (nb as int)) == s.subrange(
                    p,
                    p + 64 * (nb as int),
                )) by {
                    self.buffer@.lemma_slice_of_slice(0, b as int, 0, 64 * (nb as int));
                    s.lemma_slice_of_slice(p, s.len() as int, 0, 64 * (nb as int));
                }
            }
            let r = consume_stripes(
                &mut acc,
                self.nb_stripes_acc,
                self.buffer.as_slice(),
                0,
                self.custom_secret.as_slice(),
                nb,
            );
            proof {
                lemma_consume_rolling(s, sec, self.buffer@, 0, p, acc_old, acc@,
                    self.nb_stripes_acc as int, r as int, nb as int);
                assert(p / 64 + nb == big_n) by {
                    lemma_fundamental_div_mod(b as int - 1, 64);
                    vstd::arithmetic::mul::lemma_mul_is_distributive_add(64, p / 64, nb as int);
                    vstd::arithmetic::div_mod::lemma_div_multiples_vanish_fancy(
                        p / 64 + nb,
                        (b - 1) as int % 64,
                        64,
                    );
                }
            }
            let ghost acc_mid = acc@;
            proof {
                assert(self.buffer@.subrange(b - 64, b as int) == s.subrange(
                    s.len() - 64,
                    s.len() as int,
                )) by {
                    self.buffer@.lemma_slice_of_slice(0, b as int, b - 64, b as int);
                    s.lemma_slice_of_slice(p, s.len() as int, b - 64, b as int);
                }
            }
            accumulate_512(&mut acc, self.buffer.as_slice(), b - STRIPE_LEN,
                self.custom_secret.as_slice(), DEFAULT_SECRET_SIZE - STRIPE_LEN
                - SECRET_LASTACC_START);
            proof {
                lemma_acc512_upto_agree(acc_mid, self.buffer@, b as int - 64, s, s.len() - 64,
                    sec, sec.len() - 64 - 7, 8);
            }
        } else {
            // stitch the final stripe from the kept previous stripe and the
            // buffered tail
            let catchup = STRIPE_LEN - b;
            let mut last_stripe: Vec<u8> = Vec::new();
            let mut i: usize = 256 - catchup;
            while i < 256
                invariant
                    0 < catchup <= 64,
                    256 - catchup <= i <= 256,
                    self.buffer@.len() == 256,
                    last_stripe@ == self.buffer@.subrange(256 - catchup, i as int),
                decreases 256 - i,
            {
                last_stripe.push(self.buffer[i]);
                proof {
                    lemma_subrange_push(self.buffer@, 256 - catchup, i as int);
                }
                i += 1;
            }
            let ghost mid = last_stripe@;
            let mut j: usize = 0;
            while j < b
                invariant
                    0 < catchup <= 64,
                    j <= b,
                    b <= 256,
                    self.buffer@.len() == 256,
                    mid == self.buffer@.subrange(256 - catchup, 256),
                    last_stripe@ == mid + self.buffer@.subrange(0, j as int),
                decreases b - j,
            {
                last_stripe.push(self.buffer[j]);
                proof {
                    lemma_subrange_push(self.buffer@, 0, j as int);
                    lemma_cat_push(mid, self.buffer@.subrange(0, j as int), self.buffer@[j as int]);
                }
                j += 1;
            }
            proof {
                // the stitched stripe is exactly the input's final 64 bytes
                assert(p >= 256);
                assert(self.buffer@.subrange(256 - catchup, 256) == s.subrange(
                    p - catchup,
                    p,
                )) by {
                    self.buffer@.lemma_slice_of_slice(192, 256, 64 - catchup, 64);
                    s.lemma_slice_of_slice(p - 64, p, 64 - catchup, 64);
                }
                assert(last_stripe@ == s.subrange(s.len() - 64, s.len() as int)) by {
                    lemma_subrange_concat(s, s.len() - 64, p, s.len() as int);
                }
                assert(last_stripe@.subrange(0, 64) =~= last_stripe@);
                // no whole stripe is pending, so the rolled state is final
                assert(p / 64 == big_n) by {
                    vstd::arithmetic::div_mod::lemma_div_multiples_vanish_fancy(
                        p / 64,
                        b as int - 1,
                        64,
                    );
                }
            }
            let ghost acc_mid = acc@;
            accumulate_512(&mut acc, last_stripe.as_slice(), 0, self.custom_secret.as_slice(),
                DEFAULT_SECRET_SIZE - STRIPE_LEN - SECRET_LASTACC_START);
            proof {
                lemma_acc512_upto_agree(acc_mid, last_stripe@, 0, s, s.len() - 64, sec,
                    sec.len() - 64 - 7, 8);
            }
        }
        acc
    }

    /// Produces the 64-bit digest of everything absorbed so far; the state
    /// is not consumed and further updates may follow. The stated value
    /// covers every total length the 64-bit counter can represent.
    pub fn digest(&self) -> (res: u64)
        requires
            self.wf(),
        ensures
            self.bytes().len() < 0x1_0000_0000_0000_0000 ==> res == spec_stream_digest64(
                self.bytes(),
                self.spec_seed(),
                self.secret(),
            ),
    {
        let ghost s = self.seen@;
        proof {
            if s.len() < 0x1_0000_0000_0000_0000 {
                lemma_small_mod(s.len(), 0x1_0000_0000_0000_0000);
            }
        }
        if self.total_len > MID_SIZE_MAX as u64 {
            proof {
                if s.len() < 0x1_0000_0000_0000_0000 {
                    assert(s.len() > 240);
                } else {
                    assert(s.len() > 240);
                }
            }
            let acc = self.digest_acc();
            merge_accs(&acc, self.custom_secret.as_slice(), SECRET_MERGEACCS_START,
                self.total_len.wrapping_mul(xxh64::PRIME_1))
        } else {
            let tail = self.buffered_input();
            proof {
                if s.len() < 0x1_0000_0000_0000_0000 {
                    assert(s.len() <= 240);
                    assert(self.buffered_size == s.len());
                    assert(tail@ =~= s);
                }
            }
            if tail.len() <= MID_SIZE_MAX {
                if self.seed != 0 {
                    let secret = default_secret();
                    xxh3_64_short(tail.as_slice(), self.seed, secret.as_slice())
                } else {
                    xxh3_64_short(tail.as_slice(), 0, self.custom_secret.as_slice())
                }
            } else {
                // only reachable once the 64-bit byte counter has wrapped;
                // no digest value is stated for such lengths
                if self.seed != 0 {
                    xxh3_64_with_seed(tail.as_slice(), self.seed)
                } else {
                    xxh3_64_with_secret(tail.as_slice(), self.custom_secret.as_slice())
                }
            }
        }
    }

    /// Produces the 128-bit digest of everything absorbed so far; the
    /// state is not consumed and further updates may follow.
    pub fn digest128(&self) -> (res: u128)
        requires
            self.wf(),
        ensures
            self.bytes().len() < 0x1_0000_0000_0000_0000 ==> res == spec_stream_digest128(
                self.bytes(),
                self.spec_seed(),
                self.secret(),
            ),
    {
        let ghost s = self.seen@;
        proof {
            if s.len() < 0x1_0000_0000_0000_0000 {
                lemma_small_mod(s.len(), 0x1_0000_0000_0000_0000);
            }
        }
        if self.total_len > MID_SIZE_MAX as u64 {
            proof {
                if s.len() < 0x1_0000_0000_0000_0000 {
                    assert(s.len() > 240);
                } else {
                    assert(s.len() > 240);
                }
            }
            let acc = self.digest_acc();
            let lo = merge_accs(&acc, self.custom_secret.as_slice(), SECRET_MERGEACCS_START,
                self.total_len.wrapping_mul(xxh64::PRIME_1));
            let hi = merge_accs(
                &acc,
                self.custom_secret.as_slice(),
                DEFAULT_SECRET_SIZE - STRIPE_LEN - SECRET_MERGEACCS_START,
                self.total_len.wrapping_mul(xxh64::PRIME_2) ^ 0xFFFF_FFFF_FFFF_FFFF,
            );
            (lo as u128) | ((hi as u128) << 64u128)
        } else {
            let tail = self.buffered_input();
            proof {
                if s.len() < 0x1_0000_0000_0000_0000 {
                    assert(self.buffered_size == s.len());
                    assert(tail@ =~= s);
                }
            }
            if tail.len() <= MID_SIZE_MAX {
                if self.seed != 0 {
                    let secret = default_secret();
                    xxh3_128_short(tail.as_slice(), self.seed, secret.as_slice())
                } else {
                    xxh3_128_short(tail.as_slice(), 0, self.custom_secret.as_slice())
                }
            } else {
                // only reachable once the 64-bit byte counter has wrapped;
                // no digest value is stated for such lengths
                if self.seed != 0 {
                    xxh3_128_with_seed(tail.as_slice(), self.seed)
                } else {
                    xxh3_128_with_secret(tail.as_slice(), self.custom_secret.as_slice())
                }
            }
        }
    }
}


/// Hash builder carrying a seed and secret for `Xxh3`.
#[derive(Clone, Copy)]
pub struct Xxh3Builder {
    seed: u64,
    secret: [u8; 192],
}

impl Xxh3Builder {
    /// The seed the builder carries.
    pub closed spec fn spec_seed(self) -> u64 {
        self.seed
    }

    /// The secret the builder carries.
    pub closed spec fn spec_secret(self) -> Seq<u8> {
        self.secret@
    }

    /// Creates a builder with no seed and the default secret.
    pub fn new() -> (res: Self)
        ensures
            res.spec_seed() == 0,
            res.spec_secret() == spec_default_secret(),
    {
        Self { seed: 0, secret: crate::xxh3_common::default_secret_arr() }
    }

    /// Sets the seed.
    pub fn with_seed(self, seed: u64) -> (res: Self)
        ensures
            res.spec_seed() == seed,
            res.spec_secret() == self.spec_secret(),
    {
        let mut out = self;
        out.seed = seed;
        out
    }

    /// Sets a custom secret.
    pub fn with_secret(self, secret: [u8; 192]) -> (res: Self)
        ensures
            res.spec_seed() == self.spec_seed(),
            res.spec_secret() == secret@,
    {
        let mut out = self;
        out.secret = secret;
        out
    }

    /// Creates the hasher.
    pub fn build(self) -> (res: Xxh3)
        ensures
            res.wf(),
            res.bytes() == Seq::<u8>::empty(),
            res.spec_seed() == self.spec_seed(),
            res.secret() == self.spec_secret(),
    {
        Xxh3::with_custom_ops(self.seed, crate::xxh3_common::arr_to_vec(&self.secret))
    }
}

/// A hasher made with a seed-derived secret produces, for every input and
/// chunking, the digest of the one-shot seeded function: both sides reduce
/// to the same length dispatch over the same secrets.
pub proof fn lemma_stream_matches_one_shot_seeded(s: Seq<u8>, seed: u64)
    ensures
        spec_stream_digest64(s, seed, spec_derived_secret(seed)) == spec_xxh3_64_with_seed(
            s,
            seed,
        ),
        spec_stream_digest128(s, seed, spec_derived_secret(seed)) == spec_xxh3_128_with_seed(
            s,
            seed,
        ),
{
}

/// A hasher made with neither seed nor custom secret matches the plain
/// one-shot functions.
pub proof fn lemma_stream_matches_one_shot(s: Seq<u8>)
    ensures
        spec_stream_digest64(s, 0, spec_default_secret()) == spec_xxh3_64(s),
        spec_stream_digest128(s, 0, spec_default_secret()) == spec_xxh3_128(s),
{
}

/// A hasher made with a custom secret matches the one-shot custom-secret
/// functions.
pub proof fn lemma_stream_matches_one_shot_secret(s: Seq<u8>, sec: Seq<u8>)
    ensures
        spec_stream_digest64(s, 0, sec) == spec_xxh3_64_with_secret(s, sec),
        spec_stream_digest128(s, 0, sec) == spec_xxh3_128_with_secret(s, sec),
{
}

impl Default for Xxh3 {
    /// A fresh hasher with the default secret and no seed.
    fn default() -> (res: Self)
        ensures
            res.wf(),
            res.bytes() == Seq::<u8>::empty(),
            res.spec_seed() == 0,
            res.secret() == spec_default_secret(),
    {
        Self::new()
    }
}

impl Default for Xxh3Builder {
    /// A builder carrying no seed and the default secret.
    fn default() -> (res: Self)
        ensures
            res.spec_seed() == 0,
            res.spec_secret() == spec_default_secret(),
    {
        Self::new()
    }
}

} // verus!
