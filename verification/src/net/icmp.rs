//! ICMP echo packets: serialization and checksum.

use vstd::prelude::*;
use crate::bytes::{append_bytes, be16, be16_value, push_be16, read_be16};
use crate::net::checksum::{checksum, folded_sum, internet_checksum, lemma_checksum_verifies};
use crate::net::ip::unexpected_eof;

verus! {

#[derive(Debug, Clone, Copy, PartialEq, Eq, Structural)]
pub enum IcmpType {
    EchoReply,
    EchoRequest,
    Unknown(u8),
}

/// ICMP type named by a type byte.
pub open spec fn icmp_type_of(val: u8) -> IcmpType {
    if val == 0 {
        IcmpType::EchoReply
    } else if val == 8 {
        IcmpType::EchoRequest
    } else {
        IcmpType::Unknown(val)
    }
}

/// Type byte of an ICMP type.
pub open spec fn icmp_type_code(t: IcmpType) -> u8 {
    match t {
        IcmpType::EchoReply => 0,
        IcmpType::EchoRequest => 8,
        IcmpType::Unknown(n) => n,
    }
}

impl From<u8> for IcmpType {
    fn from(val: u8) -> (t: Self) {
        match val {
            0 => IcmpType::EchoReply,
            8 => IcmpType::EchoRequest,
            n => IcmpType::Unknown(n),
        }
    }
}

impl vstd::std_specs::convert::FromSpecImpl<u8> for IcmpType {
    open spec fn obeys_from_spec() -> bool {
        true
    }

    open spec fn from_spec(v: u8) -> IcmpType {
        icmp_type_of(v)
    }
}

impl From<IcmpType> for u8 {
    fn from(t: IcmpType) -> (v: u8) {
        match t {
            IcmpType::EchoReply => 0,
            IcmpType::EchoRequest => 8,
            IcmpType::Unknown(n) => n,
        }
    }
}

impl vstd::std_specs::convert::FromSpecImpl<IcmpType> for u8 {
    open spec fn obeys_from_spec() -> bool {
        true
    }

    open spec fn from_spec(t: IcmpType) -> u8 {
        icmp_type_code(t)
    }
}

/// Every type byte survives conversion to a type and back.
pub proof fn lemma_icmp_type_code_roundtrip(val: u8)
    ensures
        icmp_type_code(icmp_type_of(val)) == val,
{
}

#[derive(Debug, Clone, PartialEq)]
pub struct IcmpPacket {
    pub icmp_type: IcmpType,
    pub code: u8,
    /// Checksum over the complete packet, payload included.
    pub checksum: u16,
    pub identifier: u16,
    pub sequence_number: u16,
    pub payload: Vec<u8>,
}

/// Contents of an ICMP packet.
pub struct IcmpView {
    pub icmp_type: IcmpType,
    pub code: u8,
    pub checksum: u16,
    pub identifier: u16,
    pub sequence_number: u16,
    pub payload: Seq<u8>,
}

impl View for IcmpPacket {
    type V = IcmpView;

    open spec fn view(&self) -> IcmpView {
        IcmpView {
            icmp_type: self.icmp_type,
            code: self.code,
            checksum: self.checksum,
            identifier: self.identifier,
            sequence_number: self.sequence_number,
            payload: self.payload@,
        }
    }
}

/// Wire bytes of a packet with the given checksum field.
pub open spec fn icmp_bytes_with(p: IcmpView, checksum: u16) -> Seq<u8> {
    seq![icmp_type_code(p.icmp_type), p.code] + be16(checksum) + be16(p.identifier) + be16(
        p.sequence_number,
    ) + p.payload
}

/// Wire bytes of a packet.
pub open spec fn icmp_bytes(p: IcmpView) -> Seq<u8> {
    icmp_bytes_with(p, p.checksum)
}

/// Checksum of a packet: the Internet checksum of its bytes with the
/// checksum field zero.
pub open spec fn icmp_checksum(p: IcmpView) -> u16 {
    internet_checksum(icmp_bytes_with(p, 0))
}

/// The packet that a byte sequence of at least 8 bytes spells out: the
/// 8-byte header, then everything else as payload.
pub open spec fn icmp_of_bytes(b: Seq<u8>) -> IcmpView {
    IcmpView {
        icmp_type: icmp_type_of(b[0]),
        code: b[1],
        checksum: be16_value(b[2], b[3]),
        identifier: be16_value(b[4], b[5]),
        sequence_number: be16_value(b[6], b[7]),
        payload: b.skip(8),
    }
}

impl IcmpPacket {
    /// A packet carrying its correct checksum.
    pub fn new(icmp_type: IcmpType, code: u8, identifier: u16, sequence_number: u16, payload: Vec<u8>) -> (p: Self)
        ensures
            p.icmp_type == icmp_type,
            p.code == code,
            p.identifier == identifier,
            p.sequence_number == sequence_number,
            p.payload@ == payload@,
            p.checksum == icmp_checksum(p@),
    {
        let mut packet = Self { icmp_type, code, checksum: 0, identifier, sequence_number, payload };
        packet.checksum = packet.calculate_checksum();
        packet
    }

    /// Parse a packet: an 8-byte header, then the rest as payload. Fails
    /// with an unexpected-end error when fewer than 8 bytes are given.
    pub fn from_bytes(bytes: &[u8]) -> (r: std::io::Result<Self>)
        ensures
            r is Err <==> bytes@.len() < 8,
            r matches Ok(p) ==> p@ == icmp_of_bytes(bytes@),
    {
        if bytes.len() < 8 {
            return Err(unexpected_eof());
        }
        let icmp_type = IcmpType::from(bytes[0]);
        let code = bytes[1];
        let checksum = read_be16(bytes[2], bytes[3]);
        let identifier = read_be16(bytes[4], bytes[5]);
        let sequence_number = read_be16(bytes[6], bytes[7]);
        let payload = vstd::slice::slice_to_vec(vstd::slice::slice_subrange(bytes, 8, bytes.len()));
        Ok(Self { icmp_type, code, checksum, identifier, sequence_number, payload })
    }

    fn bytes_with_checksum(&self, checksum: u16) -> (b: Vec<u8>)
        ensures
            b@ == icmp_bytes_with(self@, checksum),
    {
        let mut wtr: Vec<u8> = Vec::new();
        wtr.push(u8::from(self.icmp_type));
        wtr.push(self.code);
        push_be16(&mut wtr, checksum);
        push_be16(&mut wtr, self.identifier);
        push_be16(&mut wtr, self.sequence_number);
        append_bytes(&mut wtr, self.payload.as_slice());
        assert(wtr@ =~= icmp_bytes_with(self@, checksum));
        wtr
    }

    /// Serialize the packet (multi-byte fields big-endian).
    pub fn to_bytes(&self) -> (r: std::io::Result<Vec<u8>>)
        ensures
            r matches Ok(b) && b@ == icmp_bytes(self@),
    {
        Ok(self.bytes_with_checksum(self.checksum))
    }

    /// Checksum over the whole packet with the checksum field zero (an odd
    /// final byte is padded with zero).
    pub fn calculate_checksum(&self) -> (c: u16)
        ensures
            c == icmp_checksum(self@),
    {
        let bytes = self.bytes_with_checksum(0);
        checksum(bytes.as_slice())
    }
}

/// The bytes of a packet parse back to the same packet, provided its type
/// is the one its type byte names (`Unknown(0)` and `Unknown(8)` come back
/// as `EchoReply` and `EchoRequest`).
pub proof fn lemma_icmp_roundtrip(p: IcmpView)
    requires
        icmp_type_of(icmp_type_code(p.icmp_type)) == p.icmp_type,
    ensures
        icmp_bytes(p).len() >= 8,
        icmp_of_bytes(icmp_bytes(p)) == p,
{
    let b = icmp_bytes(p);
    crate::bytes::lemma_be16_roundtrip(p.checksum);
    crate::bytes::lemma_be16_roundtrip(p.identifier);
    crate::bytes::lemma_be16_roundtrip(p.sequence_number);
    assert(b.skip(8) =~= p.payload);
}

/// A packet carrying its own checksum checks: its wire bytes with the
/// computed checksum in place have a one's-complement sum that folds to
/// 0xFFFF, so they checksum to zero; and the computed checksum does not
/// depend on the checksum the packet held.
pub proof fn lemma_icmp_checksum_verifies(p: IcmpView, held: u16)
    requires
        p.payload.len() < 0x1_0000,
    ensures
        ({
            let b = icmp_bytes_with(p, icmp_checksum(p));
            &&& folded_sum(b) == 0xFFFF
            &&& internet_checksum(b) == 0
        }),
        icmp_checksum(IcmpView { checksum: held, ..p }) == icmp_checksum(p),
{
    let c = icmp_checksum(p);
    let z = icmp_bytes_with(p, 0);
    let w = icmp_bytes_with(p, c);
    assert(icmp_bytes_with(IcmpView { checksum: held, ..p }, 0) =~= z);
    assert(z.len() == w.len());
    assert(z[2] == 0 && z[3] == 0);
    assert(w[2] == be16(c)[0] && w[3] == be16(c)[1]);
    assert forall|i: int| 0 <= i < z.len() && i != 2 && i != 3 implies z[i] == w[i] by {
        if i >= 8 {
            assert(z[i] == p.payload[i - 8]);
            assert(w[i] == p.payload[i - 8]);
        }
    }
    lemma_checksum_verifies(z, w, 1);
}

} // verus!
