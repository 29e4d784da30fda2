//! IPv4 header (no options) serialization and header checksum.

use vstd::prelude::*;
use crate::bytes::{append_bytes, be16, be16_value, push_be16, read_be16};
use crate::net::checksum::{checksum, internet_checksum};

verus! {

#[verifier::external_type_specification]
#[verifier::external_body]
pub struct ExIoError(std::io::Error);

/// Builds `std::io::Error::from(std::io::ErrorKind::UnexpectedEof)`, the
/// error a reader gives when the input ends before a field is complete.
/// Nothing is claimed about the value.
#[verifier::external_body]
pub(crate) fn unexpected_eof() -> std::io::Error {
    std::io::Error::from(std::io::ErrorKind::UnexpectedEof)
}

#[derive(Debug, Clone, Copy, PartialEq)]
pub struct Ipv4Header {
    pub version_ihl: u8,
    /// Type of service.
    pub tos: u8,
    pub total_length: u16,
    pub identification: u16,
    pub flags_fragment_offset: u16,
    pub ttl: u8,
    pub protocol: u8,
    /// Header checksum (covers the header only).
    pub checksum: u16,
    pub source_ip: [u8; 4],
    pub dest_ip: [u8; 4],
}

/// Wire bytes of a header with the given checksum field.
pub open spec fn header_bytes_with(h: Ipv4Header, checksum: u16) -> Seq<u8> {
    seq![h.version_ihl, h.tos] + be16(h.total_length) + be16(h.identification) + be16(
        h.flags_fragment_offset,
    ) + seq![h.ttl, h.protocol] + be16(checksum) + h.source_ip@ + h.dest_ip@
}

/// Wire bytes of a header.
pub open spec fn header_bytes(h: Ipv4Header) -> Seq<u8> {
    header_bytes_with(h, h.checksum)
}

/// Header checksum of `h`: the Internet checksum of its bytes with the
/// checksum field zero.
pub open spec fn header_checksum(h: Ipv4Header) -> u16 {
    internet_checksum(header_bytes_with(h, 0))
}

/// `h` is the header that the first 20 bytes of `b` spell out.
pub open spec fn header_parses_to(b: Seq<u8>, h: Ipv4Header) -> bool {
    &&& b.len() >= 20
    &&& h.version_ihl == b[0]
    &&& h.tos == b[1]
    &&& h.total_length == be16_value(b[2], b[3])
    &&& h.identification == be16_value(b[4], b[5])
    &&& h.flags_fragment_offset == be16_value(b[6], b[7])
    &&& h.ttl == b[8]
    &&& h.protocol == b[9]
    &&& h.checksum == be16_value(b[10], b[11])
    &&& h.source_ip@ == b.subrange(12, 16)
    &&& h.dest_ip@ == b.subrange(16, 20)
}

fn array4(b: &[u8], at: usize) -> (a: [u8; 4])
    requires
        at + 4 <= b@.len(),
    ensures
        a@ == b@.subrange(at as int, at + 4),
{
    let a = [b[at], b[at + 1], b[at + 2], b[at + 3]];
    assert(a@ =~= b@.subrange(at as int, at + 4));
    a
}

impl Ipv4Header {
    /// A version-4, 20-byte header with no type of service and no
    /// fragmentation, carrying its correct checksum.
    pub fn new(
        total_length: u16,
        identification: u16,
        ttl: u8,
        protocol: u8,
        source_ip: [u8; 4],
        dest_ip: [u8; 4],
    ) -> (h: Self)
        ensures
            h.version_ihl == 0x45,
            h.tos == 0,
            h.total_length == total_length,
            h.identification == identification,
            h.flags_fragment_offset == 0,
            h.ttl == ttl,
            h.protocol == protocol,
            h.source_ip == source_ip,
            h.dest_ip == dest_ip,
            h.checksum == header_checksum(h),
    {
        let mut header = Self {
            version_ihl: 0x45,
            tos: 0,
            total_length,
            identification,
            flags_fragment_offset: 0,
            ttl,
            protocol,
            checksum: 0,
            source_ip,
            dest_ip,
        };
        header.checksum = header.calculate_checksum();
        header
    }

    /// Parse a header from the first 20 bytes; fails with an unexpected-end
    /// error when fewer are given.
    pub fn from_bytes(bytes: &[u8]) -> (r: std::io::Result<Self>)
        ensures
            r is Err <==> bytes@.len() < 20,
            r matches Ok(h) ==> header_parses_to(bytes@, h),
    {
        if bytes.len() < 20 {
            return Err(unexpected_eof());
        }
        let h = Self {
            version_ihl: bytes[0],
            tos: bytes[1],
            total_length: read_be16(bytes[2], bytes[3]),
            identification: read_be16(bytes[4], bytes[5]),
            flags_fragment_offset: read_be16(bytes[6], bytes[7]),
            ttl: bytes[8],
            protocol: bytes[9],
            checksum: read_be16(bytes[10], bytes[11]),
            source_ip: array4(bytes, 12),
            dest_ip: array4(bytes, 16),
        };
        Ok(h)
    }

    fn bytes_with_checksum(&self, checksum: u16) -> (b: Vec<u8>)
        ensures
            b@ == header_bytes_with(*self, checksum),
    {
        let mut wtr: Vec<u8> = Vec::new();
        wtr.push(self.version_ihl);
        wtr.push(self.tos);
        push_be16(&mut wtr, self.total_length);
        push_be16(&mut wtr, self.identification);
        push_be16(&mut wtr, self.flags_fragment_offset);
        wtr.push(self.ttl);
        wtr.push(self.protocol);
        push_be16(&mut wtr, checksum);
        append_bytes(&mut wtr, self.source_ip.as_slice());
        append_bytes(&mut wtr, self.dest_ip.as_slice());
        assert(wtr@ =~= header_bytes_with(*self, checksum));
        wtr
    }

    /// Serialize the header (20 bytes, multi-byte fields big-endian).
    pub fn to_bytes(&self) -> (r: std::io::Result<Vec<u8>>)
        ensures
            r matches Ok(b) && b@ == header_bytes(*self),
    {
        Ok(self.bytes_with_checksum(self.checksum))
    }

    /// Header checksum: computed over the header with the checksum field zero.
    pub fn calculate_checksum(&self) -> (c: u16)
        ensures
            c == header_checksum(*self),
    {
        let bytes = self.bytes_with_checksum(0);
        checksum(bytes.as_slice())
    }
}

/// The bytes of a header parse back to the same header, field by field.
pub proof fn lemma_header_roundtrip(h: Ipv4Header)
    ensures
        header_bytes(h).len() == 20,
        header_parses_to(header_bytes(h), h),
{
    let b = header_bytes(h);
    crate::bytes::lemma_be16_roundtrip(h.total_length);
    crate::bytes::lemma_be16_roundtrip(h.identification);
    crate::bytes::lemma_be16_roundtrip(h.flags_fragment_offset);
    crate::bytes::lemma_be16_roundtrip(h.checksum);
    assert(b.subrange(12, 16) =~= h.source_ip@);
    assert(b.subrange(16, 20) =~= h.dest_ip@);
}

} // verus!
