//! Little-endian integers and byte copies, shared by the wire formats.

use vstd::prelude::*;

verus! {

/// Two bytes, least significant first.
pub open spec fn u16_le(x: u16) -> Seq<u8> {
    seq![(x % 256) as u8, (x / 256) as u8]
}

/// Four bytes, least significant first.
pub open spec fn u32_le(x: u32) -> Seq<u8> {
    seq![
        (x % 256) as u8,
        (x / 256 % 256) as u8,
        (x / 256 / 256 % 256) as u8,
        (x / 256 / 256 / 256) as u8,
    ]
}

/// The number that two little-endian bytes stand for.
pub open spec fn le_u16(s: Seq<u8>) -> u16
    recommends
        s.len() == 2,
{
    (s[0] + 256 * s[1]) as u16
}

/// The number that four little-endian bytes stand for.
pub open spec fn le_u32(s: Seq<u8>) -> u32
    recommends
        s.len() == 4,
{
    (s[0] + 256 * (s[1] + 256 * (s[2] + 256 * s[3]))) as u32
}

/// Little-endian encoding and decoding of a `u16` undo each other.
pub proof fn lemma_u16_le(x: u16, s: Seq<u8>)
    ensures
        u16_le(x).len() == 2,
        le_u16(u16_le(x)) == x,
        s.len() == 2 ==> u16_le(le_u16(s)) == s,
{
    if s.len() == 2 {
        assert(u16_le(le_u16(s)) =~= s);
    }
}

/// Little-endian encoding and decoding of a `u32` undo each other.
pub proof fn lemma_u32_le(x: u32, s: Seq<u8>)
    ensures
        u32_le(x).len() == 4,
        le_u32(u32_le(x)) == x,
        s.len() == 4 ==> u32_le(le_u32(s)) == s,
{
    let q1 = x / 256;
    let q2 = q1 / 256;
    let q3 = q2 / 256;
    assert(q3 < 256);
    assert(x == x % 256 + 256 * (q1 % 256 + 256 * (q2 % 256 + 256 * q3)));
    if s.len() == 4 {
        let v2: int = s[2] + 256 * s[3];
        let v1: int = s[1] + 256 * v2;
        let v0: int = s[0] + 256 * v1;
        assert(v2 % 256 == s[2] && v2 / 256 == s[3]);
        assert(v1 % 256 == s[1] && v1 / 256 == v2);
        assert(v0 % 256 == s[0] && v0 / 256 == v1);
        assert(le_u32(s) == v0);
        assert(u32_le(le_u32(s)) =~= s);
    }
}

/// Appends `x` to `out`, least significant byte first.
pub(crate) fn push_u32_le(out: &mut Vec<u8>, x: u32)
    ensures
        final(out)@ == old(out)@ + u32_le(x),
{
    let q1: u32 = x / 256;
    let q2: u32 = q1 / 256;
    let q3: u32 = q2 / 256;
    out.push((x % 256) as u8);
    out.push((q1 % 256) as u8);
    out.push((q2 % 256) as u8);
    out.push(q3 as u8);
    assert(out@ =~= old(out)@ + u32_le(x));
}

/// Appends `x` to `out`, least significant byte first.
pub(crate) fn push_u16_le(out: &mut Vec<u8>, x: u16)
    ensures
        final(out)@ == old(out)@ + u16_le(x),
{
    out.push((x % 256) as u8);
    out.push((x / 256) as u8);
    assert(out@ =~= old(out)@ + u16_le(x));
}

/// Appends the bytes of `src` to `out`.
pub(crate) fn push_bytes(out: &mut Vec<u8>, src: &[u8])
    ensures
        final(out)@ == old(out)@ + src@,
{
    let mut i: usize = 0;
    while i < src.len()
        invariant
            i <= src@.len(),
            out@ == old(out)@ + src@.subrange(0, i as int),
        decreases src@.len() - i,
    {
        out.push(src[i]);
        i += 1;
        assert(out@ =~= old(out)@ + src@.subrange(0, i as int));
    }
    assert(src@.subrange(0, i as int) =~= src@);
}

/// The bytes of `src` from `from` up to `to`.
pub(crate) fn copy_range(src: &[u8], from: usize, to: usize) -> (out: Vec<u8>)
    requires
        from <= to <= src@.len(),
    ensures
        out@ == src@.subrange(from as int, to as int),
{
    let mut out: Vec<u8> = Vec::new();
    let mut i: usize = from;
    while i < to
        invariant
            from <= i <= to <= src@.len(),
            out@ == src@.subrange(from as int, i as int),
        decreases to - i,
    {
        out.push(src[i]);
        i += 1;
        assert(out@ =~= src@.subrange(from as int, i as int));
    }
    out
}

/// A copy of `src`.
pub(crate) fn copy_bytes(src: &[u8]) -> (out: Vec<u8>)
    ensures
        out@ == src@,
{
    let out = copy_range(src, 0, src.len());
    assert(out@ =~= src@);
    out
}

/// The `u16` whose little-endian bytes start at `at`.
pub(crate) fn read_u16_le(src: &[u8], at: usize) -> (x: u16)
    requires
        at + 2 <= src@.len(),
    ensures
        x == le_u16(src@.subrange(at as int, at + 2)),
{
    let low: u16 = src[at] as u16;
    let high: u16 = src[at + 1] as u16;
    low + 256 * high
}

/// The `u32` whose little-endian bytes start at `at`.
pub(crate) fn read_u32_le(src: &[u8], at: usize) -> (x: u32)
    requires
        at + 4 <= src@.len(),
    ensures
        x == le_u32(src@.subrange(at as int, at + 4)),
{
    let b0: u32 = src[at] as u32;
    let b1: u32 = src[at + 1] as u32;
    let b2: u32 = src[at + 2] as u32;
    let b3: u32 = src[at + 3] as u32;
    b0 + 256 * (b1 + 256 * (b2 + 256 * b3))
}

} // verus!
