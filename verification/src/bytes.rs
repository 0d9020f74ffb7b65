//! Big-endian field encoding and byte-buffer helpers shared by the packet codecs.
use vstd::prelude::*;

verus! {

/// The two bytes of `x` in network (big-endian) order.
pub open spec fn be16(x: u16) -> Seq<u8> {
    seq![(x / 256) as u8, (x % 256) as u8]
}

/// The four bytes of `x` in network (big-endian) order.
pub open spec fn be32(x: u32) -> Seq<u8> {
    seq![(x / 0x100_0000) as u8, ((x / 0x1_0000) % 256) as u8, ((x / 256) % 256) as u8, (x % 256) as u8]
}

/// The 16-bit value whose big-endian bytes are `hi`, `lo`.
pub open spec fn u16_of(hi: u8, lo: u8) -> u16 {
    (hi * 256 + lo) as u16
}

/// The 32-bit value whose big-endian bytes are `b0` .. `b3`.
pub open spec fn u32_of(b0: u8, b1: u8, b2: u8, b3: u8) -> u32 {
    (b0 * 0x100_0000 + b1 * 0x1_0000 + b2 * 256 + b3) as u32
}

/// The 16-bit value stored big-endian at `at` in `s`.
pub open spec fn be16_at(s: Seq<u8>, at: int) -> u16 {
    u16_of(s[at], s[at + 1])
}

/// The 32-bit value stored big-endian at `at` in `s`.
pub open spec fn be32_at(s: Seq<u8>, at: int) -> u32 {
    u32_of(s[at], s[at + 1], s[at + 2], s[at + 3])
}

pub proof fn lemma_be16_roundtrip(x: u16)
    ensures
        u16_of(be16(x)[0], be16(x)[1]) == x,
        be16(x).len() == 2,
{
}

pub proof fn lemma_be32_roundtrip(x: u32)
    ensures
        u32_of(be32(x)[0], be32(x)[1], be32(x)[2], be32(x)[3]) == x,
        be32(x).len() == 4,
{
}

/// The low 16 bits of `len + extra`, computed from the low 16 bits of `len`.
pub fn length_field(len: usize, extra: u16) -> (r: u16)
    ensures
        r == ((extra + len) % 65536) as u16,
{
    let low: u16 = (len % 65536) as u16;
    let r = low.wrapping_add(extra);
    assert(r == ((extra + len) % 65536) as u16) by (nonlinear_arith)
        requires
            low == len % 65536,
            r == (if low + extra > 65535 { low + extra - 65536 } else { low + extra }),
    {
    }
    r
}

/// Appends the big-endian bytes of `x`.
pub fn push_be16(out: &mut Vec<u8>, x: u16)
    ensures
        final(out)@ == old(out)@ + be16(x),
{
    out.push((x / 256) as u8);
    out.push((x % 256) as u8);
    assert(final(out)@ =~= old(out)@ + be16(x));
}

/// Appends the big-endian bytes of `x`.
pub fn push_be32(out: &mut Vec<u8>, x: u32)
    ensures
        final(out)@ == old(out)@ + be32(x),
{
    out.push((x / 0x100_0000) as u8);
    out.push(((x / 0x1_0000) % 256) as u8);
    out.push(((x / 256) % 256) as u8);
    out.push((x % 256) as u8);
    assert(final(out)@ =~= old(out)@ + be32(x));
}

/// Reads the big-endian 16-bit value at `at`.
pub fn read_be16(bytes: &[u8], at: usize) -> (r: u16)
    requires
        at + 2 <= bytes@.len(),
    ensures
        r == be16_at(bytes@, at as int),
{
    let hi = bytes[at] as u16;
    let lo = bytes[at + 1] as u16;
    hi * 256 + lo
}

/// Reads the big-endian 32-bit value at `at`.
pub fn read_be32(bytes: &[u8], at: usize) -> (r: u32)
    requires
        at + 4 <= bytes@.len(),
    ensures
        r == be32_at(bytes@, at as int),
{
    let b0 = bytes[at] as u32;
    let b1 = bytes[at + 1] as u32;
    let b2 = bytes[at + 2] as u32;
    let b3 = bytes[at + 3] as u32;
    b0 * 0x100_0000 + b1 * 0x1_0000 + b2 * 256 + b3
}

/// Appends every byte of `src`.
pub fn append_bytes(out: &mut Vec<u8>, src: &[u8])
    ensures
        final(out)@ == old(out)@ + src@,
{
    let mut i: usize = 0;
    while i < src.len()
        invariant
            i <= src@.len(),
            out@ == old(out)@ + src@.subrange(0, i as int),
        decreases src@.len() - i,
    {
        out.push(src[i]);
        i = i + 1;
        assert(out@ =~= old(out)@ + src@.subrange(0, i as int));
    }
    assert(src@.subrange(0, src@.len() as int) =~= src@);
}

/// A fresh vector holding `bytes[start..end]`.
pub fn copy_range(bytes: &[u8], start: usize, end: usize) -> (r: Vec<u8>)
    requires
        start <= end <= bytes@.len(),
    ensures
        r@ == bytes@.subrange(start as int, end as int),
{
    let mut out: Vec<u8> = Vec::new();
    let mut i: usize = start;
    while i < end
        invariant
            start <= i <= end <= bytes@.len(),
            out@ == bytes@.subrange(start as int, i as int),
        decreases end - i,
    {
        out.push(bytes[i]);
        i = i + 1;
        assert(out@ =~= bytes@.subrange(start as int, i as int));
    }
    out
}

} // verus!
