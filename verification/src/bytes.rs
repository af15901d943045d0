//! Little-endian integer reads from byte slices, and the sequence
//! decomposition lemmas the streaming hashers rely on.

use vstd::prelude::*;

verus! {

/// Little-endian 32-bit word at byte offset `i` of `s`.
pub open spec fn spec_read32le(s: Seq<u8>, i: int) -> u32 {
    (s[i] as u32) | ((s[i + 1] as u32) << 8) | ((s[i + 2] as u32) << 16) | ((s[i + 3] as u32)
        << 24)
}

#[inline(always)]
pub fn read32le(data: &[u8], cursor: usize) -> (res: u32)
    requires
        cursor + 4 <= data@.len(),
    ensures
        res == spec_read32le(data@, cursor as int),
{
    (data[cursor] as u32) | ((data[cursor + 1] as u32) << 8) | ((data[cursor + 2] as u32) << 16)
        | ((data[cursor + 3] as u32) << 24)
}

/// Little-endian 64-bit word at byte offset `i` of `s`.
pub open spec fn spec_read64le(s: Seq<u8>, i: int) -> u64 {
    (s[i] as u64) | ((s[i + 1] as u64) << 8) | ((s[i + 2] as u64) << 16) | ((s[i + 3] as u64)
        << 24) | ((s[i + 4] as u64) << 32) | ((s[i + 5] as u64) << 40) | ((s[i + 6] as u64) << 48)
        | ((s[i + 7] as u64) << 56)
}

#[inline(always)]
pub fn read64le(data: &[u8], cursor: usize) -> (res: u64)
    requires
        cursor + 8 <= data@.len(),
    ensures
        res == spec_read64le(data@, cursor as int),
{
    (data[cursor] as u64) | ((data[cursor + 1] as u64) << 8) | ((data[cursor + 2] as u64) << 16)
        | ((data[cursor + 3] as u64) << 24) | ((data[cursor + 4] as u64) << 32) | ((data[cursor
        + 5] as u64) << 40) | ((data[cursor + 6] as u64) << 48) | ((data[cursor + 7] as u64) << 56)
}

/// A 32-bit read inside the second part of a concatenation equals the read
/// at the corresponding offset of that part.
pub proof fn lemma_cat_read32(a: Seq<u8>, b: Seq<u8>, i: int, j: int)
    requires
        0 <= i,
        i + 4 <= b.len(),
        j == a.len() + i,
    ensures
        spec_read32le(a + b, j) == spec_read32le(b, i),
{
    assert((a + b)[j] == b[i]);
    assert((a + b)[j + 1] == b[i + 1]);
    assert((a + b)[j + 2] == b[i + 2]);
    assert((a + b)[j + 3] == b[i + 3]);
}

/// A 64-bit read inside the second part of a concatenation equals the read
/// at the corresponding offset of that part.
pub proof fn lemma_cat_read64(a: Seq<u8>, b: Seq<u8>, i: int, j: int)
    requires
        0 <= i,
        i + 8 <= b.len(),
        j == a.len() + i,
    ensures
        spec_read64le(a + b, j) == spec_read64le(b, i),
{
    assert((a + b)[j] == b[i]);
    assert((a + b)[j + 1] == b[i + 1]);
    assert((a + b)[j + 2] == b[i + 2]);
    assert((a + b)[j + 3] == b[i + 3]);
    assert((a + b)[j + 4] == b[i + 4]);
    assert((a + b)[j + 5] == b[i + 5]);
    assert((a + b)[j + 6] == b[i + 6]);
    assert((a + b)[j + 7] == b[i + 7]);
}

/// A window of a sequence splits at any interior point.
pub proof fn lemma_subrange_concat(s: Seq<u8>, a: int, b: int, c: int)
    requires
        0 <= a <= b <= c <= s.len(),
    ensures
        s.subrange(a, c) == s.subrange(a, b) + s.subrange(b, c),
{
    assert(s.subrange(a, c) =~= s.subrange(a, b) + s.subrange(b, c));
}

/// A window that lies inside a prefix is the same window of the whole.
pub proof fn lemma_prefix_subrange(s1: Seq<u8>, s2: Seq<u8>, a: int, b: int)
    requires
        s1.is_prefix_of(s2),
        0 <= a <= b <= s1.len(),
    ensures
        s1.subrange(a, b) == s2.subrange(a, b),
{
    assert forall|t: int| 0 <= t < b - a implies s1.subrange(a, b)[t] == s2.subrange(a, b)[t] by {
        assert(s1[a + t] == s2.take(s1.len() as int)[a + t]);
    }
    assert(s1.subrange(a, b) =~= s2.subrange(a, b));
}

/// The window of a concatenation that covers exactly the second part is
/// that part.
pub proof fn lemma_cat_suffix(a: Seq<u8>, b: Seq<u8>)
    ensures
        (a + b).subrange(a.len() as int, (a.len() + b.len()) as int) == b,
{
    assert((a + b).subrange(a.len() as int, (a.len() + b.len()) as int) =~= b);
}

/// A window lying entirely in the second part of a concatenation is the
/// corresponding window of that part.
pub proof fn lemma_cat_sub(a: Seq<u8>, b: Seq<u8>, x: int, y: int)
    requires
        0 <= x <= y <= b.len(),
    ensures
        (a + b).subrange(a.len() + x, a.len() + y) == b.subrange(x, y),
{
    assert forall|t: int| 0 <= t < y - x implies (a + b).subrange(a.len() + x, a.len() + y)[t]
        == b.subrange(x, y)[t] by {
        assert((a + b)[a.len() + x + t] == b[x + t]);
    }
    assert((a + b).subrange(a.len() + x, a.len() + y) =~= b.subrange(x, y));
}

/// Pushing onto a concatenation pushes onto its second part.
pub proof fn lemma_cat_push(a: Seq<u8>, b: Seq<u8>, x: u8)
    ensures
        (a + b).push(x) == a + b.push(x),
{
    assert((a + b).push(x) =~= a + b.push(x));
}

/// A read out of a window is a read of the underlying sequence.
pub proof fn lemma_sub_read32(s: Seq<u8>, a: int, b: int, i: int)
    requires
        0 <= a <= b <= s.len(),
        0 <= i,
        i + 4 <= b - a,
    ensures
        spec_read32le(s.subrange(a, b), i) == spec_read32le(s, a + i),
{
    assert(s.subrange(a, b)[i] == s[a + i]);
    assert(s.subrange(a, b)[i + 1] == s[a + i + 1]);
    assert(s.subrange(a, b)[i + 2] == s[a + i + 2]);
    assert(s.subrange(a, b)[i + 3] == s[a + i + 3]);
}

/// A read out of a window is a read of the underlying sequence.
pub proof fn lemma_sub_read64(s: Seq<u8>, a: int, b: int, i: int)
    requires
        0 <= a <= b <= s.len(),
        0 <= i,
        i + 8 <= b - a,
    ensures
        spec_read64le(s.subrange(a, b), i) == spec_read64le(s, a + i),
{
    assert(s.subrange(a, b)[i] == s[a + i]);
    assert(s.subrange(a, b)[i + 1] == s[a + i + 1]);
    assert(s.subrange(a, b)[i + 2] == s[a + i + 2]);
    assert(s.subrange(a, b)[i + 3] == s[a + i + 3]);
    assert(s.subrange(a, b)[i + 4] == s[a + i + 4]);
    assert(s.subrange(a, b)[i + 5] == s[a + i + 5]);
    assert(s.subrange(a, b)[i + 6] == s[a + i + 6]);
    assert(s.subrange(a, b)[i + 7] == s[a + i + 7]);
}

/// Extending a window by one byte appends that byte.
pub proof fn lemma_subrange_push(s: Seq<u8>, a: int, b: int)
    requires
        0 <= a <= b < s.len(),
    ensures
        s.subrange(a, b + 1) == s.subrange(a, b).push(s[b]),
{
    assert forall|t: int| 0 <= t < b + 1 - a implies s.subrange(a, b + 1)[t] == s.subrange(
        a,
        b,
    ).push(s[b])[t] by {
        assert(s.subrange(a, b + 1)[t] == s[a + t]);
        if t < b - a {
            assert(s.subrange(a, b)[t] == s[a + t]);
        }
    }
    assert(s.subrange(a, b + 1) =~= s.subrange(a, b).push(s[b]));
}

} // verus!
