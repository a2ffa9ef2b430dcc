//! Big-endian integers inside a sequence of octets.

use vstd::prelude::*;

verus! {

/// The 16-bit number whose high octet is `hi` and whose low octet is `lo`.
pub open spec fn be16(hi: u8, lo: u8) -> u16 {
    (hi as int * 256 + lo as int) as u16
}

/// The 32-bit number with the octets `b0` (highest) to `b3` (lowest).
pub open spec fn be32(b0: u8, b1: u8, b2: u8, b3: u8) -> u32 {
    (b0 as int * 16777216 + b1 as int * 65536 + b2 as int * 256 + b3 as int) as u32
}

/// The two octets of `v`, high octet first.
pub open spec fn be16_bytes(v: u16) -> Seq<u8> {
    seq![(v / 256) as u8, (v % 256) as u8]
}

/// The 16-bit number at `pos` in `buf`, if both of its octets are inside `buf`.
pub open spec fn u16_at(buf: Seq<u8>, pos: int) -> Option<u16> {
    if 0 <= pos && pos + 2 <= buf.len() {
        Some(be16(buf[pos], buf[pos + 1]))
    } else {
        None
    }
}

/// The 32-bit number at `pos` in `buf`, if all four of its octets are inside `buf`.
pub open spec fn u32_at(buf: Seq<u8>, pos: int) -> Option<u32> {
    if 0 <= pos && pos + 4 <= buf.len() {
        Some(be32(buf[pos], buf[pos + 1], buf[pos + 2], buf[pos + 3]))
    } else {
        None
    }
}

/// Reading back the two octets of a number gives the number.
pub proof fn lemma_be16_round_trip(v: u16)
    ensures
        be16_bytes(v).len() == 2,
        be16(be16_bytes(v)[0], be16_bytes(v)[1]) == v,
{
}

/// Reads the 16-bit number at `pos`, or nothing where `buf` ends before its second octet.
pub fn read_u16(buf: &[u8], pos: usize) -> (r: Option<u16>)
    ensures
        r == u16_at(buf@, pos as int),
{
    if buf.len() < 2 || pos > buf.len() - 2 {
        return None;
    }
    let hi: u16 = buf[pos] as u16;
    let lo: u16 = buf[pos + 1] as u16;
    Some(hi * 256 + lo)
}

/// Reads the 32-bit number at `pos`, or nothing where `buf` ends before its fourth octet.
pub fn read_u32(buf: &[u8], pos: usize) -> (r: Option<u32>)
    ensures
        r == u32_at(buf@, pos as int),
{
    if buf.len() < 4 || pos > buf.len() - 4 {
        return None;
    }
    let b0: u32 = buf[pos] as u32;
    let b1: u32 = buf[pos + 1] as u32;
    let b2: u32 = buf[pos + 2] as u32;
    let b3: u32 = buf[pos + 3] as u32;
    Some(b0 * 16777216 + b1 * 65536 + b2 * 256 + b3)
}

/// Appends the two octets of `v` to `out`, high octet first.
pub fn push_u16(out: &mut Vec<u8>, v: u16)
    ensures
        final(out)@ == old(out)@ + be16_bytes(v),
{
    let hi: u8 = (v / 256) as u8;
    let lo: u8 = (v % 256) as u8;
    out.push(hi);
    out.push(lo);
    assert(out@ =~= old(out)@ + be16_bytes(v));
}

/// Appends the octets of `buf` from `from` up to, not including, `to` to `out`.
pub fn extend_from_range(out: &mut Vec<u8>, buf: &[u8], from: usize, to: usize)
    requires
        from <= to <= buf@.len(),
    ensures
        final(out)@ == old(out)@ + buf@.subrange(from as int, to as int),
{
    let mut k: usize = from;
    while k < to
        invariant
            from <= k <= to,
            to <= buf@.len(),
            out@ == old(out)@ + buf@.subrange(from as int, k as int),
        decreases to - k,
    {
        out.push(buf[k]);
        k += 1;
        assert(out@ =~= old(out)@ + buf@.subrange(from as int, k as int));
    }
}

} // verus!
