//! Big-endian integers.

use vstd::prelude::*;

verus! {

/// The number that the bytes `s` spell in base 256, most significant byte first.
pub open spec fn be_uint(s: Seq<u8>) -> nat
    decreases s.len(),
{
    if s.len() == 0 {
        0
    } else {
        be_uint(s.drop_last()) * 256 + s.last() as nat
    }
}

/// The number in the `n` bytes of `s` from `at` on.
pub open spec fn uint_at(s: Seq<u8>, at: int, n: int) -> nat {
    be_uint(s.subrange(at, at + n))
}

proof fn lemma_uint_push(s: Seq<u8>, at: int, n: int)
    requires
        0 <= at,
        0 < n,
        at + n <= s.len(),
    ensures
        uint_at(s, at, n) == uint_at(s, at, n - 1) * 256 + s[at + n - 1],
{
    assert(s.subrange(at, at + n).drop_last() =~= s.subrange(at, at + n - 1));
}

/// Two bytes, written out.
pub proof fn lemma_uint_2(s: Seq<u8>, at: int)
    requires
        0 <= at,
        at + 2 <= s.len(),
    ensures
        uint_at(s, at, 2) == s[at] * 0x100 + s[at + 1],
{
    assert(s.subrange(at, at) =~= Seq::<u8>::empty());
    lemma_uint_push(s, at, 1);
    lemma_uint_push(s, at, 2);
}

/// Four bytes, written out.
pub proof fn lemma_uint_4(s: Seq<u8>, at: int)
    requires
        0 <= at,
        at + 4 <= s.len(),
    ensures
        uint_at(s, at, 4) == s[at] * 0x100_0000 + s[at + 1] * 0x1_0000 + s[at + 2] * 0x100 + s[at
            + 3],
{
    lemma_uint_2(s, at);
    lemma_uint_push(s, at, 3);
    lemma_uint_push(s, at, 4);
}

/// Four bytes, as the first one and the other three.
pub proof fn lemma_uint_1_3(s: Seq<u8>, at: int)
    requires
        0 <= at,
        at + 4 <= s.len(),
    ensures
        uint_at(s, at, 4) == uint_at(s, at, 1) * 0x100_0000 + uint_at(s, at + 1, 3),
        uint_at(s, at, 1) == s[at],
        uint_at(s, at + 1, 3) < 0x100_0000,
{
    assert(s.subrange(at, at) =~= Seq::<u8>::empty());
    lemma_uint_push(s, at, 1);
    lemma_uint_2(s, at + 1);
    lemma_uint_push(s, at + 1, 3);
    lemma_uint_4(s, at);
}

/// Eight bytes, as two halves.
pub proof fn lemma_uint_8(s: Seq<u8>, at: int)
    requires
        0 <= at,
        at + 8 <= s.len(),
    ensures
        uint_at(s, at, 8) == uint_at(s, at, 4) * 0x1_0000_0000 + uint_at(s, at + 4, 4),
{
    lemma_uint_4(s, at + 4);
    lemma_uint_push(s, at, 5);
    lemma_uint_push(s, at, 6);
    lemma_uint_push(s, at, 7);
    lemma_uint_push(s, at, 8);
}

/// The number of values that `n` bytes can take.
pub open spec fn values_of(n: nat) -> nat
    decreases n,
{
    if n == 0 {
        1
    } else {
        256 * values_of((n - 1) as nat)
    }
}

/// The `n` bytes that spell `value` in base 256, most significant byte first.
pub open spec fn be_bytes(value: nat, n: nat) -> Seq<u8>
    decreases n,
{
    if n == 0 {
        Seq::empty()
    } else {
        be_bytes(value / 256, (n - 1) as nat).push((value % 256) as u8)
    }
}

/// What is written has as many bytes as it should.
pub proof fn lemma_be_bytes_len(value: nat, n: nat)
    ensures
        be_bytes(value, n).len() == n,
    decreases n,
{
    if n > 0 {
        lemma_be_bytes_len(value / 256, (n - 1) as nat);
    }
}

/// What is written in `n` bytes is read back.
pub proof fn law_read_written_uint(value: nat, n: nat)
    requires
        value < values_of(n),
    ensures
        be_bytes(value, n).len() == n,
        be_uint(be_bytes(value, n)) == value,
    decreases n,
{
    if n > 0 {
        let init = be_bytes(value / 256, (n - 1) as nat);
        law_read_written_uint(value / 256, (n - 1) as nat);
        assert(be_bytes(value, n).drop_last() =~= init);
    }
}

/// Any bytes are what writing their number gives.
pub proof fn law_write_read_uint(s: Seq<u8>)
    ensures
        be_uint(s) < values_of(s.len()),
        be_bytes(be_uint(s), s.len()) == s,
    decreases s.len(),
{
    if s.len() > 0 {
        law_write_read_uint(s.drop_last());
        assert(s =~= s.drop_last().push(s.last()));
        assert(be_uint(s) / 256 == be_uint(s.drop_last()));
        assert(be_uint(s) % 256 == s.last());
    } else {
        assert(be_bytes(be_uint(s), s.len()) =~= s);
    }
}

/// A number that is read in two parts is put together from them.
pub proof fn law_join_uint(high: Seq<u8>, low: Seq<u8>)
    ensures
        be_uint(high + low) == be_uint(high) * values_of(low.len()) + be_uint(low),
    decreases low.len(),
{
    if low.len() == 0 {
        assert(high + low =~= high);
        assert(be_uint(high) * 1 == be_uint(high)) by (nonlinear_arith);
    } else {
        let init = low.drop_last();
        let (h, v, l) = (be_uint(high), values_of(init.len()), be_uint(init));
        law_join_uint(high, init);
        assert((high + low).drop_last() =~= high + init);
        assert((high + low).last() == low.last());
        assert(values_of(low.len()) == 256 * v);
        assert((h * v + l) * 256 == h * (256 * v) + l * 256) by (nonlinear_arith);
    }
}

/// Loads of big-endian integers out of a byte slice.
pub struct BigEndian;

impl BigEndian {
    /// Loads two bytes at `from`.
    pub fn loadu16(buf: &[u8], from: usize) -> (value: u16)
        requires
            from + 2 <= buf.len(),
        ensures
            value == uint_at(buf@, from as int, 2),
    {
        proof {
            lemma_uint_2(buf@, from as int);
        }
        u16::from(buf[from]) * 0x100 + u16::from(buf[from + 1])
    }

    /// Loads four bytes at `from`.
    pub fn loadu32(buf: &[u8], from: usize) -> (value: u32)
        requires
            from + 4 <= buf.len(),
        ensures
            value == uint_at(buf@, from as int, 4),
    {
        proof {
            lemma_uint_4(buf@, from as int);
        }
        u32::from(buf[from]) * 0x100_0000 + u32::from(buf[from + 1]) * 0x1_0000 + u32::from(
            buf[from + 2],
        ) * 0x100 + u32::from(buf[from + 3])
    }

    /// Loads eight bytes at `from`.
    pub fn loadu64(buf: &[u8], from: usize) -> (value: u64)
        requires
            from + 8 <= buf.len(),
        ensures
            value == uint_at(buf@, from as int, 8),
    {
        proof {
            lemma_uint_8(buf@, from as int);
        }
        u64::from(BigEndian::loadu32(buf, from)) * 0x1_0000_0000 + u64::from(
            BigEndian::loadu32(buf, from + 4),
        )
    }
}

} // verus!
