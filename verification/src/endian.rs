//! Big-endian integer fields, as every box of the container stores them.

use vstd::prelude::*;

verus! {

/// The four bytes that hold `x`, most significant first.
pub open spec fn be_u32(x: u32) -> Seq<u8> {
    seq![
        (x / 0x100_0000) as u8,
        (x / 0x1_0000 % 0x100) as u8,
        (x / 0x100 % 0x100) as u8,
        (x % 0x100) as u8,
    ]
}

/// The two bytes that hold `x`, most significant first.
pub open spec fn be_u16(x: u16) -> Seq<u8> {
    seq![(x / 0x100) as u8, (x % 0x100) as u8]
}

/// The number that the four bytes of `s` from `at` on spell, most significant first.
pub open spec fn read_be_u32(s: Seq<u8>, at: int) -> int
    recommends
        0 <= at,
        at + 4 <= s.len(),
{
    s[at] * 0x100_0000 + s[at + 1] * 0x1_0000 + s[at + 2] * 0x100 + s[at + 3]
}

/// The number that the two bytes of `s` from `at` on spell, most significant first.
pub open spec fn read_be_u16(s: Seq<u8>, at: int) -> int
    recommends
        0 <= at,
        at + 2 <= s.len(),
{
    s[at] * 0x100 + s[at + 1]
}

/// Reading a field back gives the number that was written.
pub proof fn lemma_be_u32_round_trip(x: u32)
    ensures
        be_u32(x).len() == 4,
        read_be_u32(be_u32(x), 0) == x,
{
}

/// Reading a field back gives the number that was written.
pub proof fn lemma_be_u16_round_trip(x: u16)
    ensures
        be_u16(x).len() == 2,
        read_be_u16(be_u16(x), 0) == x,
{
}

/// Where the four bytes of `x` stand in `s`, `x` is read.
pub proof fn lemma_read_be_u32_at(s: Seq<u8>, at: int, x: u32)
    requires
        0 <= at,
        at + 4 <= s.len(),
        s.subrange(at, at + 4) == be_u32(x),
    ensures
        read_be_u32(s, at) == x,
{
    let field = s.subrange(at, at + 4);
    assert(s[at] == field[0] && s[at + 1] == field[1] && s[at + 2] == field[2] && s[at + 3]
        == field[3]);
    lemma_be_u32_round_trip(x);
}

/// Where the two bytes of `x` stand in `s`, `x` is read.
pub proof fn lemma_read_be_u16_at(s: Seq<u8>, at: int, x: u16)
    requires
        0 <= at,
        at + 2 <= s.len(),
        s.subrange(at, at + 2) == be_u16(x),
    ensures
        read_be_u16(s, at) == x,
{
    let field = s.subrange(at, at + 2);
    assert(s[at] == field[0] && s[at + 1] == field[1]);
    lemma_be_u16_round_trip(x);
}

/// Appends `x` to `buf` as a big-endian 32-bit field.
pub fn put_u32(buf: &mut Vec<u8>, x: u32)
    ensures
        final(buf)@ == old(buf)@ + be_u32(x),
{
    let b0: u8 = #[verifier::truncate] ((x >> 24) as u8);
    let b1: u8 = #[verifier::truncate] ((x >> 16) as u8);
    let b2: u8 = #[verifier::truncate] ((x >> 8) as u8);
    let b3: u8 = #[verifier::truncate] (x as u8);
    proof {
        assert((x >> 24) as u8 == (x / 0x100_0000) as u8) by (bit_vector);
        assert((x >> 16) as u8 == (x / 0x1_0000 % 0x100) as u8) by (bit_vector);
        assert((x >> 8) as u8 == (x / 0x100 % 0x100) as u8) by (bit_vector);
        assert(x as u8 == (x % 0x100) as u8) by (bit_vector);
    }
    buf.push(b0);
    buf.push(b1);
    buf.push(b2);
    buf.push(b3);
    assert(buf@ =~= old(buf)@ + be_u32(x));
}

/// Appends `x` to `buf` as a big-endian 16-bit field.
pub fn put_u16(buf: &mut Vec<u8>, x: u16)
    ensures
        final(buf)@ == old(buf)@ + be_u16(x),
{
    let b0: u8 = #[verifier::truncate] ((x >> 8) as u8);
    let b1: u8 = #[verifier::truncate] (x as u8);
    proof {
        assert((x >> 8) as u8 == (x / 0x100) as u8) by (bit_vector);
        assert(x as u8 == (x % 0x100) as u8) by (bit_vector);
    }
    buf.push(b0);
    buf.push(b1);
    assert(buf@ =~= old(buf)@ + be_u16(x));
}

/// The header of a full box: one byte of version, then 24 bits of flags.
pub open spec fn version_flags(version: u8, flags: u32) -> Seq<u8> {
    seq![
        version,
        (flags / 0x1_0000 % 0x100) as u8,
        (flags / 0x100 % 0x100) as u8,
        (flags % 0x100) as u8,
    ]
}

/// `n` bytes of zero.
pub open spec fn zeros(n: nat) -> Seq<u8> {
    Seq::new(n, |i: int| 0u8)
}

/// Appends the header of a full box to `buf`.
pub fn put_version_flags(buf: &mut Vec<u8>, version: u8, flags: u32)
    requires
        flags < 0x100_0000,
    ensures
        final(buf)@ == old(buf)@ + version_flags(version, flags),
{
    let f1: u8 = #[verifier::truncate] ((flags >> 16) as u8);
    let f2: u8 = #[verifier::truncate] ((flags >> 8) as u8);
    let f3: u8 = #[verifier::truncate] (flags as u8);
    proof {
        assert((flags >> 16) as u8 == (flags / 0x1_0000 % 0x100) as u8) by (bit_vector);
        assert((flags >> 8) as u8 == (flags / 0x100 % 0x100) as u8) by (bit_vector);
        assert(flags as u8 == (flags % 0x100) as u8) by (bit_vector);
    }
    buf.push(version);
    buf.push(f1);
    buf.push(f2);
    buf.push(f3);
    assert(buf@ =~= old(buf)@ + version_flags(version, flags));
}

/// Appends `n` bytes of zero to `buf`.
pub fn put_zeros(buf: &mut Vec<u8>, n: usize)
    ensures
        final(buf)@ == old(buf)@ + zeros(n as nat),
{
    let mut i: usize = 0;
    while i < n
        invariant
            i <= n,
            buf@ == old(buf)@ + zeros(i as nat),
        decreases n - i,
    {
        buf.push(0);
        i += 1;
        assert(buf@ =~= old(buf)@ + zeros(i as nat));
    }
}

/// Appends the bytes of `src` to `buf`.
pub fn put_bytes(buf: &mut Vec<u8>, src: &[u8])
    ensures
        final(buf)@ == old(buf)@ + src@,
{
    buf.extend_from_slice(src);
    assert(buf@ =~= old(buf)@ + src@);
}

} // verus!
