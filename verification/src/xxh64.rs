//! 64-bit xxHash: one-shot function, streaming hasher and its builder.

use vstd::prelude::*;
use vstd::arithmetic::div_mod::{
    lemma_add_mod_noop, lemma_div_multiples_vanish_fancy, lemma_fundamental_div_mod,
    lemma_mod_sub_multiples_vanish, lemma_small_mod,
};

use crate::bytes::{
    spec_read32le, read32le, spec_read64le, read64le, lemma_cat_read64, lemma_cat_push,
    lemma_cat_sub, lemma_cat_suffix, lemma_prefix_subrange, lemma_sub_read32, lemma_sub_read64,
    lemma_subrange_concat, lemma_subrange_push,
};
use crate::xxh64_common::{
    spec_rotl64, spec_round, spec_merge_round, spec_avalanche, rotl64, round, merge_round,
    avalanche, PRIME_1, PRIME_2, PRIME_3, PRIME_4, PRIME_5, CHUNK_SIZE,
};

verus! {

/// The four accumulator lanes a fresh state starts from.
pub open spec fn spec_init_v(seed: u64) -> (u64, u64, u64, u64) {
    (
        seed.wrapping_add(PRIME_1).wrapping_add(PRIME_2),
        seed.wrapping_add(PRIME_2),
        seed,
        seed.wrapping_sub(PRIME_1),
    )
}

#[verifier::when_used_as_spec(spec_init_v)]
#[inline(always)]
fn init_v(seed: u64) -> (v: (u64, u64, u64, u64))
    ensures
        v == spec_init_v(seed),
{
    (
        seed.wrapping_add(PRIME_1).wrapping_add(PRIME_2),
        seed.wrapping_add(PRIME_2),
        seed,
        seed.wrapping_sub(PRIME_1),
    )
}

/// One 32-byte step of the four-lane accumulator, reading at byte offset `i`.
pub open spec fn spec_v_step(v: (u64, u64, u64, u64), s: Seq<u8>, i: int) -> (u64, u64, u64, u64) {
    (
        spec_round(v.0, spec_read64le(s, i)),
        spec_round(v.1, spec_read64le(s, i + 8)),
        spec_round(v.2, spec_read64le(s, i + 16)),
        spec_round(v.3, spec_read64le(s, i + 24)),
    )
}

/// The accumulator lanes after absorbing the first `n` 32-byte chunks of `s`.
pub open spec fn spec_v_rounds(v: (u64, u64, u64, u64), s: Seq<u8>, n: int) -> (u64, u64, u64, u64)
    decreases n,
{
    if n <= 0 {
        v
    } else {
        spec_v_step(spec_v_rounds(v, s, n - 1), s, 32 * (n - 1))
    }
}

/// Folds the accumulator lanes into the pre-finalization digest value.
pub open spec fn spec_fold_v(v: (u64, u64, u64, u64)) -> u64 {
    let acc = spec_rotl64(v.0, 1).wrapping_add(spec_rotl64(v.1, 7)).wrapping_add(
        spec_rotl64(v.2, 12),
    ).wrapping_add(spec_rotl64(v.3, 18));
    spec_merge_round(
        spec_merge_round(spec_merge_round(spec_merge_round(acc, v.0), v.1), v.2),
        v.3,
    )
}

/// Digest finalization: absorb the bytes of `s` from offset `i` on (whole
/// 64-bit words first, then one 32-bit word, then single bytes), then
/// avalanche.
pub open spec fn spec_finalize(acc: u64, s: Seq<u8>, i: int) -> u64
    decreases s.len() - i when 0 <= i <= s.len()
{
    if s.len() - i >= 8 {
        let acc2 = spec_rotl64(acc ^ spec_round(0, spec_read64le(s, i)), 27).wrapping_mul(
            PRIME_1,
        ).wrapping_add(PRIME_4);
        spec_finalize(acc2, s, i + 8)
    } else if s.len() - i >= 4 {
        let acc2 = spec_rotl64(
            acc ^ (spec_read32le(s, i) as u64).wrapping_mul(PRIME_1),
            23,
        ).wrapping_mul(PRIME_2).wrapping_add(PRIME_3);
        spec_finalize(acc2, s, i + 4)
    } else if s.len() - i >= 1 {
        let acc2 = spec_rotl64(
            acc ^ (s[i] as u64).wrapping_mul(PRIME_5),
            11,
        ).wrapping_mul(PRIME_1);
        spec_finalize(acc2, s, i + 1)
    } else {
        spec_avalanche(acc)
    }
}

/// The total length folded into the digest: the low 64 bits of the byte count.
pub open spec fn spec_len64(s: Seq<u8>) -> u64 {
    (s.len() % 0x1_0000_0000_0000_0000) as u64
}

/// The 64-bit xxHash digest of `s` under `seed`.
pub open spec fn spec_xxh64(s: Seq<u8>, seed: u64) -> u64 {
    let nchunks = s.len() as int / 32;
    let acc = if s.len() >= 32 {
        spec_fold_v(spec_v_rounds(spec_init_v(seed), s, nchunks))
    } else {
        seed.wrapping_add(PRIME_5)
    };
    spec_finalize(acc.wrapping_add(spec_len64(s)), s, 32 * nchunks)
}

/// Runs the finalization steps on `data[cursor..]`.
fn finalize(acc: u64, data: &[u8], cursor: usize) -> (res: u64)
    requires
        cursor <= data@.len(),
    ensures
        res == spec_finalize(acc, data@, cursor as int),
{
    let mut acc = acc;
    let mut cursor = cursor;
    let ghost acc0 = acc;
    let ghost cursor0 = cursor as int;
    while data.len() - cursor >= 8
        invariant
            cursor <= data@.len(),
            spec_finalize(acc, data@, cursor as int) == spec_finalize(acc0, data@, cursor0),
        decreases data@.len() - cursor,
    {
        acc = rotl64(acc ^ round(0, read64le(data, cursor)), 27).wrapping_mul(PRIME_1)
            .wrapping_add(PRIME_4);
        cursor += 8;
    }
    if data.len() - cursor >= 4 {
        acc = rotl64(acc ^ (read32le(data, cursor) as u64).wrapping_mul(PRIME_1), 23)
            .wrapping_mul(PRIME_2).wrapping_add(PRIME_3);
        cursor += 4;
    }
    while cursor < data.len()
        invariant
            cursor <= data@.len(),
            spec_finalize(acc, data@, cursor as int) == spec_finalize(acc0, data@, cursor0),
            data@.len() - cursor < 4,
        decreases data@.len() - cursor,
    {
        acc = rotl64(acc ^ (data[cursor] as u64).wrapping_mul(PRIME_5), 11).wrapping_mul(PRIME_1);
        cursor += 1;
    }
    avalanche(acc)
}

/// Returns the digest of the provided input.
#[verifier::rlimit(50)]
pub fn xxh64(input: &[u8], seed: u64) -> (res: u64)
    ensures
        res == spec_xxh64(input@, seed),
{
    let len = input.len();
    let len64: u64 = len as u64;
    proof {
        lemma_small_mod(len as nat, 0x1_0000_0000_0000_0000);
        assert(len64 == spec_len64(input@));
    }
    let ghost nchunks = input@.len() as int / 32;
    let mut cursor: usize = 0;
    let ghost mut k: int = 0;
    let result: u64;
    if len >= CHUNK_SIZE {
        let mut v = init_v(seed);
        while len - cursor >= 32
            invariant
                len == input@.len(),
                cursor == 32 * k,
                cursor <= len,
                v == spec_v_rounds(spec_init_v(seed), input@, k),
            decreases len - cursor,
        {
            let ghost v_old = v;
            let w0 = round(v.0, read64le(input, cursor));
            let w1 = round(v.1, read64le(input, cursor + 8));
            let w2 = round(v.2, read64le(input, cursor + 16));
            let w3 = round(v.3, read64le(input, cursor + 24));
            v = (w0, w1, w2, w3);
            proof {
                assert(v == spec_v_step(v_old, input@, cursor as int));
                assert(spec_v_rounds(spec_init_v(seed), input@, k + 1) == spec_v_step(
                    spec_v_rounds(spec_init_v(seed), input@, k),
                    input@,
                    32 * k,
                ));
                k = k + 1;
            }
            cursor += 32;
        }
        proof {
            lemma_div_multiples_vanish_fancy(k, len - cursor, 32);
            assert(k == nchunks);
        }
        let mut acc = rotl64(v.0, 1).wrapping_add(rotl64(v.1, 7)).wrapping_add(rotl64(v.2, 12))
            .wrapping_add(rotl64(v.3, 18));
        acc = merge_round(acc, v.0);
        acc = merge_round(acc, v.1);
        acc = merge_round(acc, v.2);
        acc = merge_round(acc, v.3);
        result = acc;
    } else {
        result = seed.wrapping_add(PRIME_5);
        proof {
            assert(nchunks == 0);
        }
    }
    finalize(result.wrapping_add(len64), input, cursor)
}

/// The accumulator rounds read only the first `32 * n` bytes, so extending
/// the sequence afterwards does not change them.
proof fn lemma_v_rounds_prefix(v0: (u64, u64, u64, u64), s1: Seq<u8>, s2: Seq<u8>, n: int)
    requires
        s1.is_prefix_of(s2),
        0 <= 32 * n <= s1.len(),
    ensures
        spec_v_rounds(v0, s1, n) == spec_v_rounds(v0, s2, n),
    decreases n,
{
    if n > 0 {
        lemma_v_rounds_prefix(v0, s1, s2, n - 1);
        assert forall|t: int| 0 <= t < s1.len() implies s1[t] == s2[t] by {
            assert(s1[t] == s2.take(s1.len() as int)[t]);
        }
        assert(spec_v_step(spec_v_rounds(v0, s1, n - 1), s1, 32 * (n - 1)) == spec_v_step(
            spec_v_rounds(v0, s2, n - 1),
            s2,
            32 * (n - 1),
        ));
    }
}

/// Finalization depends only on the bytes past the start offset, so it can
/// be run on any sequence holding the same tail.
proof fn lemma_finalize_agree(acc: u64, s1: Seq<u8>, i1: int, s2: Seq<u8>, i2: int)
    requires
        0 <= i1 <= s1.len(),
        0 <= i2 <= s2.len(),
        s1.subrange(i1, s1.len() as int) == s2.subrange(i2, s2.len() as int),
    ensures
        spec_finalize(acc, s1, i1) == spec_finalize(acc, s2, i2),
    decreases s1.len() - i1,
{
    let t1 = s1.subrange(i1, s1.len() as int);
    let t2 = s2.subrange(i2, s2.len() as int);
    assert(t1.len() == t2.len());
    assert(t1.len() == s1.len() - i1);
    assert(t2.len() == s2.len() - i2);
    if s1.len() - i1 >= 8 {
        assert(spec_read64le(s1, i1) == spec_read64le(s2, i2)) by {
            lemma_sub_read64(s1, i1, s1.len() as int, 0);
            lemma_sub_read64(s2, i2, s2.len() as int, 0);
        }
        assert(s1.subrange(i1 + 8, s1.len() as int) == s2.subrange(i2 + 8, s2.len() as int)) by {
            s1.lemma_slice_of_slice(i1, s1.len() as int, 8, s1.len() - i1);
            s2.lemma_slice_of_slice(i2, s2.len() as int, 8, s2.len() - i2);
            assert(t1.subrange(8, t1.len() as int) == t2.subrange(8, t2.len() as int));
        }
        let acc2 = spec_rotl64(acc ^ spec_round(0, spec_read64le(s1, i1)), 27).wrapping_mul(
            PRIME_1,
        ).wrapping_add(PRIME_4);
        lemma_finalize_agree(acc2, s1, i1 + 8, s2, i2 + 8);
    } else if s1.len() - i1 >= 4 {
        assert(spec_read32le(s1, i1) == spec_read32le(s2, i2)) by {
            lemma_sub_read32(s1, i1, s1.len() as int, 0);
            lemma_sub_read32(s2, i2, s2.len() as int, 0);
        }
        assert(s1.subrange(i1 + 4, s1.len() as int) == s2.subrange(i2 + 4, s2.len() as int)) by {
            s1.lemma_slice_of_slice(i1, s1.len() as int, 4, s1.len() - i1);
            s2.lemma_slice_of_slice(i2, s2.len() as int, 4, s2.len() - i2);
            assert(t1.subrange(4, t1.len() as int) == t2.subrange(4, t2.len() as int));
        }
        let acc2 = spec_rotl64(
            acc ^ (spec_read32le(s1, i1) as u64).wrapping_mul(PRIME_1),
            23,
        ).wrapping_mul(PRIME_2).wrapping_add(PRIME_3);
        lemma_finalize_agree(acc2, s1, i1 + 4, s2, i2 + 4);
    } else if s1.len() - i1 >= 1 {
        assert(s1[i1] == s2[i2]) by {
            assert(t1[0] == s1[i1 + 0]);
            assert(t2[0] == s2[i2 + 0]);
        }
        assert(s1.subrange(i1 + 1, s1.len() as int) == s2.subrange(i2 + 1, s2.len() as int)) by {
            s1.lemma_slice_of_slice(i1, s1.len() as int, 1, s1.len() - i1);
            s2.lemma_slice_of_slice(i2, s2.len() as int, 1, s2.len() - i2);
            assert(t1.subrange(1, t1.len() as int) == t2.subrange(1, t2.len() as int));
        }
        let acc2 = spec_rotl64(
            acc ^ (s1[i1] as u64).wrapping_mul(PRIME_5),
            11,
        ).wrapping_mul(PRIME_1);
        lemma_finalize_agree(acc2, s1, i1 + 1, s2, i2 + 1);
    }
}

/// Adding the low 64 bits of a new chunk's length to a wrapped running total
/// keeps it equal to the low 64 bits of the overall length.
pub(crate) proof fn lemma_wrap_add_mod64(total_old: nat, added: nat, a: u64, b: u64)
    requires
        a == total_old % 0x1_0000_0000_0000_0000,
        b == added % 0x1_0000_0000_0000_0000,
    ensures
        a.wrapping_add(b) == (total_old + added) % 0x1_0000_0000_0000_0000,
{
    let m = 0x1_0000_0000_0000_0000 as int;
    lemma_add_mod_noop(total_old as int, added as int, m);
    if a + b > u64::MAX {
        lemma_mod_sub_multiples_vanish(a + b, m);
        lemma_small_mod((a + b - m) as nat, m as nat);
    } else {
        lemma_small_mod((a + b) as nat, m as nat);
    }
}

/// After an update that fits in the buffer, chunk count and remainder of
/// the absorbed bytes are unchanged except that the tail grows.
proof fn lemma_update_fits(v0: (u64, u64, u64, u64), s_old: Seq<u8>, inp: Seq<u8>)
    requires
        s_old.len() % 32 + inp.len() < 32,
    ensures
        (s_old + inp).len() % 32 == s_old.len() % 32 + inp.len(),
        (s_old + inp).len() as int / 32 == s_old.len() as int / 32,
        (s_old + inp).subrange(
            (s_old + inp).len() - ((s_old + inp).len() % 32),
            (s_old + inp).len() as int,
        ) == s_old.subrange(s_old.len() - s_old.len() % 32, s_old.len() as int) + inp,
        spec_v_rounds(v0, s_old, s_old.len() as int / 32) == spec_v_rounds(
            v0,
            s_old + inp,
            s_old.len() as int / 32,
        ),
{
    let s = s_old + inp;
    let big_l = s_old.len() as int;
    let r = s_old.len() % 32;
    let q = big_l / 32;
    lemma_fundamental_div_mod(big_l, 32);
    lemma_div_multiples_vanish_fancy(q, r + inp.len() as int, 32);
    lemma_fundamental_div_mod(s.len() as int, 32);
    assert(s_old.is_prefix_of(s)) by {
        assert(s_old =~= s.take(big_l));
    }
    lemma_v_rounds_prefix(v0, s_old, s, q);
    lemma_subrange_concat(s, big_l - r, big_l, s.len() as int);
    lemma_prefix_subrange(s_old, s, big_l - r, big_l);
    lemma_cat_suffix(s_old, inp);
}

/// Topping the buffer up to a full chunk makes it the next chunk of the
/// absorbed bytes; the lane rounds over the old bytes carry over.
proof fn lemma_update_fill(v0: (u64, u64, u64, u64), s_old: Seq<u8>, inp: Seq<u8>, fill: int)
    requires
        0 < s_old.len() % 32,
        fill == 32 - s_old.len() % 32,
        fill <= inp.len(),
    ensures
        ({
            let s = s_old + inp;
            let big_l = s_old.len() as int;
            let r = s_old.len() % 32;
            let q = big_l / 32;
            let chunk = s_old.subrange(big_l - r, big_l) + inp.subrange(0, fill);
            &&& chunk == s.subrange(32 * q, 32 * q + 32)
            &&& spec_read64le(chunk, 0) == spec_read64le(s, 32 * q)
            &&& spec_read64le(chunk, 8) == spec_read64le(s, 32 * q + 8)
            &&& spec_read64le(chunk, 16) == spec_read64le(s, 32 * q + 16)
            &&& spec_read64le(chunk, 24) == spec_read64le(s, 32 * q + 24)
            &&& spec_v_rounds(v0, s_old, q) == spec_v_rounds(v0, s, q)
        }),
{
    let s = s_old + inp;
    let big_l = s_old.len() as int;
    let r = s_old.len() % 32;
    let q = big_l / 32;
    let chunk = s_old.subrange(big_l - r, big_l) + inp.subrange(0, fill);
    lemma_fundamental_div_mod(big_l, 32);
    assert(s_old.is_prefix_of(s)) by {
        assert(s_old =~= s.take(big_l));
    }
    lemma_subrange_concat(s, 32 * q, big_l, 32 * q + 32);
    lemma_prefix_subrange(s_old, s, 32 * q, big_l);
    lemma_cat_sub(s_old, inp, 0, fill);
    assert(chunk == s.subrange(32 * q, 32 * q + 32));
    lemma_sub_read64(s, 32 * q, 32 * q + 32, 0);
    lemma_sub_read64(s, 32 * q, 32 * q + 32, 8);
    lemma_sub_read64(s, 32 * q, 32 * q + 32, 16);
    lemma_sub_read64(s, 32 * q, 32 * q + 32, 24);
    lemma_v_rounds_prefix(v0, s_old, s, q);
}

/// After consuming `j` chunks and buffering the remaining tail, the buffer
/// is again the remainder of the absorbed bytes.
proof fn lemma_update_tail(s_old: Seq<u8>, inp: Seq<u8>, j: int, cursor_mid: int)
    requires
        0 <= cursor_mid <= inp.len(),
        32 * j == s_old.len() + cursor_mid,
        inp.len() - cursor_mid < 32,
    ensures
        (s_old + inp).len() % 32 == inp.len() - cursor_mid,
        (s_old + inp).len() as int / 32 == j,
        inp.subrange(cursor_mid, inp.len() as int) == (s_old + inp).subrange(
            (s_old + inp).len() - ((s_old + inp).len() % 32),
            (s_old + inp).len() as int,
        ),
{
    let s = s_old + inp;
    lemma_div_multiples_vanish_fancy(j, s.len() - 32 * j, 32);
    lemma_fundamental_div_mod(s.len() as int, 32);
    lemma_cat_sub(s_old, inp, cursor_mid, inp.len() as int);
}

/// XXH64 streaming state: absorbs input incrementally and produces the same
/// digest as the one-shot function over everything absorbed so far.
#[derive(Clone)]
pub struct Xxh64 {
    total_len: u64,
    v0: u64,
    v1: u64,
    v2: u64,
    v3: u64,
    mem: Vec<u8>,
    seen: Ghost<Seq<u8>>,
    init_seed: Ghost<u64>,
}

impl Xxh64 {
    /// All bytes absorbed since creation or the last reset.
    pub closed spec fn bytes(self) -> Seq<u8> {
        self.seen@
    }

    /// The seed the state was created (or last reset) with.
    pub closed spec fn seed(self) -> u64 {
        self.init_seed@
    }

    /// Internal consistency: the buffer holds the unconsumed tail and the
    /// lanes hold the rounds over every full chunk absorbed so far.
    pub closed spec fn wf(self) -> bool {
        let s = self.seen@;
        &&& self.mem@.len() == s.len() % 32
        &&& self.mem@ == s.subrange(s.len() - s.len() % 32, s.len() as int)
        &&& self.total_len == spec_len64(s)
        &&& (self.v0, self.v1, self.v2, self.v3) == spec_v_rounds(
            spec_init_v(self.init_seed@),
            s,
            s.len() as int / 32,
        )
    }

    /// Creates a new state with the given seed.
    pub fn new(seed: u64) -> (res: Self)
        ensures
            res.wf(),
            res.bytes() == Seq::<u8>::empty(),
            res.seed() == seed,
    {
        let v = init_v(seed);
        let res = Self {
            total_len: 0,
            v0: v.0,
            v1: v.1,
            v2: v.2,
            v3: v.3,
            mem: Vec::new(),
            seen: Ghost(Seq::empty()),
            init_seed: Ghost(seed),
        };
        proof {
            lemma_small_mod(0, 32);
            lemma_small_mod(0, 0x1_0000_0000_0000_0000);
            assert(res.mem@ =~= res.seen@.subrange(0, 0));
        }
        res
    }

    /// Absorbs a chunk of input.
    #[verifier::rlimit(60)]
    pub fn update(&mut self, input: &[u8])
        requires
            old(self).wf(),
        ensures
            final(self).wf(),
            final(self).bytes() == old(self).bytes() + input@,
            final(self).seed() == old(self).seed(),
    {
        let ghost s_old = self.seen@;
        let ghost s = self.seen@ + input@;
        let ghost big_l = s_old.len() as int;
        let ghost r = s_old.len() % 32;
        let ghost inp = input@;
        let len = input.len();

        proof {
            self.seen@ = s;
            lemma_fundamental_div_mod(big_l, 32);
            if s_old.len() < 32 {
                lemma_small_mod(s_old.len(), 32);
            }
        }
        let add64: u64 = len as u64;
        proof {
            lemma_small_mod(len as nat, 0x1_0000_0000_0000_0000);
            lemma_wrap_add_mod64(s_old.len(), inp.len(), self.total_len, add64);
        }
        self.total_len = self.total_len.wrapping_add(add64);

        let ghost seed0 = self.init_seed@;
        let ghost q = big_l / 32;
        let ghost total2 = self.total_len;
        let mut cursor: usize = 0;
        if len < CHUNK_SIZE - self.mem.len() {
            // fits in the buffer: just append
            while cursor < len
                invariant
                    cursor <= len,
                    len == inp.len(),
                    inp == input@,
                    self.seen@ == s,
                    self.init_seed@ == seed0,
                    self.total_len == total2,
                    (self.v0, self.v1, self.v2, self.v3) == spec_v_rounds(
                        spec_init_v(seed0),
                        s_old,
                        q,
                    ),
                    self.mem@ == s_old.subrange(big_l - r, big_l) + inp.subrange(0, cursor as int),
                decreases len - cursor,
            {
                self.mem.push(input[cursor]);
                proof {
                    lemma_subrange_push(inp, 0, cursor as int);
                    lemma_cat_push(
                        s_old.subrange(big_l - r, big_l),
                        inp.subrange(0, cursor as int),
                        inp[cursor as int],
                    );
                }
                cursor += 1;
            }
            proof {
                lemma_update_fits(spec_init_v(seed0), s_old, inp);
                assert(inp.subrange(0, cursor as int) =~= inp);
            }
            return ;
        }
        // at least one full chunk becomes available
        let ghost mut j = q;
        if self.mem.len() > 0 {
            // top the buffer up to one full chunk and consume it
            while self.mem.len() < CHUNK_SIZE
                invariant
                    r > 0,
                    cursor <= len,
                    len == inp.len(),
                    inp == input@,
                    self.seen@ == s,
                    self.init_seed@ == seed0,
                    self.total_len == total2,
                    (self.v0, self.v1, self.v2, self.v3) == spec_v_rounds(
                        spec_init_v(seed0),
                        s_old,
                        q,
                    ),
                    cursor == self.mem@.len() - r,
                    self.mem@.len() <= 32,
                    r + len >= 32,
                    self.mem@ == s_old.subrange(big_l - r, big_l) + inp.subrange(0, cursor as int),
                decreases 32 - self.mem@.len(),
            {
                self.mem.push(input[cursor]);
                proof {
                    lemma_subrange_push(inp, 0, cursor as int);
                    lemma_cat_push(
                        s_old.subrange(big_l - r, big_l),
                        inp.subrange(0, cursor as int),
                        inp[cursor as int],
                    );
                }
                cursor += 1;
            }
            proof {
                lemma_update_fill(spec_init_v(seed0), s_old, inp, cursor as int);
            }
            let m = self.mem.as_slice();
            let w0 = round(self.v0, read64le(m, 0));
            let w1 = round(self.v1, read64le(m, 8));
            let w2 = round(self.v2, read64le(m, 16));
            let w3 = round(self.v3, read64le(m, 24));
            self.v0 = w0;
            self.v1 = w1;
            self.v2 = w2;
            self.v3 = w3;
            self.mem.clear();
            proof {
                assert((self.v0, self.v1, self.v2, self.v3) == spec_v_step(
                    spec_v_rounds(spec_init_v(seed0), s, q),
                    s,
                    32 * q,
                ));
                j = q + 1;
                assert((self.v0, self.v1, self.v2, self.v3) == spec_v_rounds(
                    spec_init_v(seed0),
                    s,
                    j,
                ));
            }
        } else {
            proof {
                lemma_v_rounds_prefix(spec_init_v(seed0), s_old, s, q);
            }
        }
        proof {
            assert(big_l + cursor == 32 * j);
        }
        // consume full chunks straight from the input
        while len - cursor >= CHUNK_SIZE
            invariant
                cursor <= len,
                len == inp.len(),
                inp == input@,
                s == s_old + inp,
                big_l == s_old.len(),
                big_l + cursor == 32 * j,
                self.seen@ == s,
                self.init_seed@ == seed0,
                self.total_len == total2,
                self.mem@.len() == 0,
                (self.v0, self.v1, self.v2, self.v3) == spec_v_rounds(spec_init_v(seed0), s, j),
            decreases len - cursor,
        {
            proof {
                lemma_cat_read64(s_old, inp, cursor as int, 32 * j);
                lemma_cat_read64(s_old, inp, cursor + 8, 32 * j + 8);
                lemma_cat_read64(s_old, inp, cursor + 16, 32 * j + 16);
                lemma_cat_read64(s_old, inp, cursor + 24, 32 * j + 24);
            }
            let w0 = round(self.v0, read64le(input, cursor));
            let w1 = round(self.v1, read64le(input, cursor + 8));
            let w2 = round(self.v2, read64le(input, cursor + 16));
            let w3 = round(self.v3, read64le(input, cursor + 24));
            self.v0 = w0;
            self.v1 = w1;
            self.v2 = w2;
            self.v3 = w3;
            proof {
                assert((self.v0, self.v1, self.v2, self.v3) == spec_v_step(
                    spec_v_rounds(spec_init_v(seed0), s, j),
                    s,
                    32 * j,
                ));
                j = j + 1;
            }
            cursor += 32;
        }
        // buffer the remaining tail
        let ghost cursor_mid = cursor as int;
        proof {
            assert(self.mem@ =~= inp.subrange(cursor_mid, cursor_mid));
        }
        while cursor < len
            invariant
                0 <= cursor_mid <= cursor <= len,
                len == inp.len(),
                inp == input@,
                self.seen@ == s,
                self.init_seed@ == seed0,
                self.total_len == total2,
                (self.v0, self.v1, self.v2, self.v3) == spec_v_rounds(spec_init_v(seed0), s, j),
                self.mem@ == inp.subrange(cursor_mid, cursor as int),
            decreases len - cursor,
        {
            self.mem.push(input[cursor]);
            proof {
                lemma_subrange_push(inp, cursor_mid, cursor as int);
            }
            cursor += 1;
        }
        proof {
            lemma_update_tail(s_old, inp, j, cursor_mid);
        }
    }

    /// Produces the digest of everything absorbed so far; the state is not
    /// consumed and further updates may follow. The stated value covers
    /// every total length the 64-bit counter can represent.
    pub fn digest(&self) -> (res: u64)
        requires
            self.wf(),
        ensures
            self.bytes().len() < 0x1_0000_0000_0000_0000 ==> res == spec_xxh64(
                self.bytes(),
                self.seed(),
            ),
    {
        let ghost s = self.seen@;
        let ghost nchunks = s.len() as int / 32;
        proof {
            if s.len() < 0x1_0000_0000_0000_0000 {
                lemma_small_mod(s.len(), 0x1_0000_0000_0000_0000);
            }
        }
        let mut result: u64;
        if self.total_len >= CHUNK_SIZE as u64 {
            result = rotl64(self.v0, 1).wrapping_add(rotl64(self.v1, 7)).wrapping_add(
                rotl64(self.v2, 12),
            ).wrapping_add(rotl64(self.v3, 18));
            result = merge_round(result, self.v0);
            result = merge_round(result, self.v1);
            result = merge_round(result, self.v2);
            result = merge_round(result, self.v3);
        } else {
            proof {
                if s.len() < 32 {
                    lemma_small_mod(s.len(), 32);
                    assert(nchunks == 0);
                }
            }
            result = self.v2.wrapping_add(PRIME_5);
        }
        result = result.wrapping_add(self.total_len);
        let res = finalize(result, self.mem.as_slice(), 0);
        proof {
            if s.len() < 0x1_0000_0000_0000_0000 {
                lemma_fundamental_div_mod(s.len() as int, 32);
                assert(self.mem@.subrange(0, self.mem@.len() as int) =~= self.mem@);
                lemma_finalize_agree(result, self.mem@, 0, s, 32 * nchunks);
            }
        }
        res
    }

    /// Restores the state to that of a fresh hasher with the given seed.
    pub fn reset(&mut self, seed: u64)
        ensures
            final(self).wf(),
            final(self).bytes() == Seq::<u8>::empty(),
            final(self).seed() == seed,
    {
        self.total_len = 0;
        let v = init_v(seed);
        self.v0 = v.0;
        self.v1 = v.1;
        self.v2 = v.2;
        self.v3 = v.3;
        self.mem.clear();
        proof {
            self.seen@ = Seq::empty();
            self.init_seed@ = seed;
            lemma_small_mod(0, 32);
            lemma_small_mod(0, 0x1_0000_0000_0000_0000);
            assert(self.mem@ =~= self.seen@.subrange(0, 0));
        }
    }
}

/// Hash builder carrying a seed for `Xxh64`.
#[derive(Clone, Copy)]
pub struct Xxh64Builder {
    seed: u64,
}

impl Xxh64Builder {
    /// The seed the builder carries.
    pub closed spec fn spec_seed(self) -> u64 {
        self.seed
    }

    /// Creates a builder with the provided seed.
    pub fn new(seed: u64) -> (res: Self)
        ensures
            res.spec_seed() == seed,
    {
        Self { seed }
    }

    /// Creates the hasher.
    pub fn build(self) -> (res: Xxh64)
        ensures
            res.wf(),
            res.bytes() == Seq::<u8>::empty(),
            res.seed() == self.spec_seed(),
    {
        Xxh64::new(self.seed)
    }
}

impl Default for Xxh64 {
    /// A fresh state with seed zero.
    fn default() -> (res: Self)
        ensures
            res.wf(),
            res.bytes() == Seq::<u8>::empty(),
            res.seed() == 0,
    {
        Self::new(0)
    }
}

impl Default for Xxh64Builder {
    /// A builder carrying seed zero.
    fn default() -> (res: Self)
        ensures
            res.spec_seed() == 0,
    {
        Self::new(0)
    }
}

} // verus!
