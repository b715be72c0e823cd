//! Facts about pieces of pieces of a byte sequence.

use vstd::prelude::*;

use crate::endian::uint_at;

verus! {

/// Dropping twice is dropping once.
pub broadcast proof fn lemma_skip_skip(s: Seq<u8>, a: int, b: int)
    requires
        0 <= a,
        0 <= b,
        a + b <= s.len(),
    ensures
        #[trigger] s.skip(a).skip(b) == s.skip(a + b),
{
    assert(s.skip(a).skip(b) =~= s.skip(a + b));
}

/// A piece of what is left is a piece of the whole.
pub broadcast proof fn lemma_skip_subrange(s: Seq<u8>, a: int, b: int, c: int)
    requires
        0 <= a,
        0 <= b <= c,
        a + c <= s.len(),
    ensures
        #[trigger] s.skip(a).subrange(b, c) == s.subrange(a + b, a + c),
{
    assert(s.skip(a).subrange(b, c) =~= s.subrange(a + b, a + c));
}

/// The first bytes of what is left are a piece of the whole.
pub broadcast proof fn lemma_skip_take(s: Seq<u8>, a: int, n: int)
    requires
        0 <= a,
        0 <= n,
        a + n <= s.len(),
    ensures
        #[trigger] s.skip(a).take(n) == s.subrange(a, a + n),
{
    assert(s.skip(a).take(n) =~= s.subrange(a, a + n));
}

/// A number in what is left is a number in the whole.
pub broadcast proof fn lemma_skip_uint(s: Seq<u8>, a: int, at: int, n: int)
    requires
        0 <= a,
        0 <= at,
        0 <= n,
        a + at + n <= s.len(),
    ensures
        #[trigger] uint_at(s.skip(a), at, n) == uint_at(s, a + at, n),
{
    lemma_skip_subrange(s, a, at, at + n);
}

/// Dropping nothing changes nothing.
pub broadcast proof fn lemma_skip_none(s: Seq<u8>)
    ensures
        #[trigger] s.skip(0) == s,
{
    assert(s.skip(0) =~= s);
}

pub broadcast group group_cut {
    lemma_skip_skip,
    lemma_skip_subrange,
    lemma_skip_take,
    lemma_skip_uint,
    lemma_skip_none,
}

} // verus!
