//! Byte-buffer helpers shared by the packet formats: appending slices and
//! big-endian 16-bit fields.

use vstd::prelude::*;

verus! {

/// Big-endian encoding of a 16-bit value.
pub open spec fn be16(v: u16) -> Seq<u8> {
    seq![(v / 256) as u8, (v % 256) as u8]
}

/// Value of a big-endian 16-bit field.
pub open spec fn be16_value(hi: u8, lo: u8) -> u16 {
    (hi * 256 + lo) as u16
}

/// Append all of `src` to `out`.
pub fn append_bytes(out: &mut Vec<u8>, src: &[u8])
    ensures
        final(out)@ == old(out)@ + src@,
{
    let ghost start = out@;
    let mut i: usize = 0;
    while i < src.len()
        invariant
            i <= src@.len(),
            out@ == start + src@.subrange(0, i as int),
        decreases src.len() - i,
    {
        out.push(src[i]);
        assert(src@.subrange(0, i + 1) =~= src@.subrange(0, i as int).push(src@[i as int]));
        i += 1;
    }
    assert(src@.subrange(0, src@.len() as int) =~= src@);
}

proof fn lemma_be16_bytes(v: u16)
    by (bit_vector)
    ensures
        (v >> 8u16) as u8 == (v / 256) as u8,
        (v & 0xFFu16) as u8 == (v % 256) as u8,
{
}

/// The shifted and masked bytes of `v` are its big-endian bytes.
pub proof fn lemma_be16_split(v: u16)
    ensures
        (v >> 8u16) as u8 == be16(v)[0],
        (v & 0xFFu16) as u8 == be16(v)[1],
{
    lemma_be16_bytes(v);
}

/// Append `v` in big-endian byte order.
pub fn push_be16(out: &mut Vec<u8>, v: u16)
    ensures
        final(out)@ == old(out)@ + be16(v),
{
    proof {
        lemma_be16_bytes(v);
    }
    out.push((v >> 8u16) as u8);
    out.push((v & 0xFFu16) as u8);
    assert(out@ =~= old(out)@ + be16(v));
}

/// Read a big-endian 16-bit field.
pub fn read_be16(hi: u8, lo: u8) -> (v: u16)
    ensures
        v == be16_value(hi, lo),
{
    proof {
        lemma_read_be16(hi, lo);
    }
    ((hi as u16) << 8u16) | (lo as u16)
}

proof fn lemma_read_be16(hi: u8, lo: u8)
    ensures
        ((hi as u16) << 8u16) | (lo as u16) == be16_value(hi, lo),
{
    assert(((hi as u16) << 8u16) | (lo as u16) == (hi as u16) * 256 + (lo as u16)) by (bit_vector);
}

/// Decoding the big-endian bytes of a value gives the value back.
pub proof fn lemma_be16_roundtrip(v: u16)
    ensures
        be16_value(be16(v)[0], be16(v)[1]) == v,
{
}

/// Whether two IPv4 addresses are the same.
pub fn octets_equal(a: &[u8; 4], b: &[u8; 4]) -> (r: bool)
    ensures
        r == (*a == *b),
{
    let r = a[0] == b[0] && a[1] == b[1] && a[2] == b[2] && a[3] == b[3];
    if r {
        assert(*a =~= *b);
    }
    r
}

/// Whether two Ethernet MAC addresses are the same.
pub fn mac_equal(a: &[u8; 6], b: &[u8; 6]) -> (r: bool)
    ensures
        r == (*a == *b),
{
    let r = a[0] == b[0] && a[1] == b[1] && a[2] == b[2] && a[3] == b[3] && a[4] == b[4] && a[5]
        == b[5];
    if r {
        assert(*a =~= *b);
    }
    r
}

} // verus!
