//! Packet headers read and written with etherparse: the fields the router
//! looks at in IPv4, TCP, UDP, ICMP and Ethernet headers, and the packets
//! it builds (ICMP Echo packets, rewritten IPv4 headers, ARP requests).

use vstd::prelude::*;
use etherparse::{
    ArpHardwareId, ArpOperation, ArpPacket, EtherType, Ethernet2HeaderSlice, IcmpEchoHeader,
    Icmpv4Header, Icmpv4Type, IpNumber, Ipv4Header, Ipv4HeaderSlice, PacketBuilder, TcpHeaderSlice,
    UdpHeaderSlice,
};
use crate::bytes::{be16, be16_value};
use crate::net::fragmentation::header_len;
use crate::net::checksum::internet_checksum;

verus! {

/// The fields of an IPv4 header that the router reads.
#[derive(Debug, Clone, Copy)]
pub struct Ipv4Fields {
    /// Source address (bytes 12..16).
    pub source: [u8; 4],
    /// Destination address (bytes 16..20).
    pub destination: [u8; 4],
    /// Upper-layer protocol number (byte 9).
    pub protocol: u8,
    /// Header length in bytes, options included.
    pub header_len: usize,
}

/// `packet` starts with a well-formed IPv4 header: at least 20 bytes,
/// version 4, and a header length of at least 20 bytes that the packet
/// holds.
pub open spec fn ipv4_header_ok(packet: Seq<u8>) -> bool {
    &&& packet.len() >= 20
    &&& packet[0] / 16 == 4
    &&& header_len(packet) >= 20
    &&& header_len(packet) <= packet.len()
}

/// The message of the error etherparse reports for a packet that does not
/// start with a well-formed IPv4 header.
pub uninterp spec fn ipv4_header_error(packet: Seq<u8>) -> Seq<char>;

/// The `Display` text of the error `Ipv4HeaderSlice::from_slice` returns
/// for `packet`. The text is a function of the packet alone (it names the
/// offending field or the lengths involved); its wording is named, not
/// stated.
#[verifier::external_body]
pub(crate) fn ipv4_header_error_text(packet: &[u8]) -> (t: String)
    requires
        !ipv4_header_ok(packet@),
    ensures
        t@ == ipv4_header_error(packet@),
{
    match Ipv4HeaderSlice::from_slice(packet) {
        Err(e) => format!("{}", e),
        Ok(_) => String::new(),
    }
}

/// `f` holds the fields of the header at the start of `packet`.
pub open spec fn ipv4_fields_of(f: Ipv4Fields, packet: Seq<u8>) -> bool {
    &&& f.source@ == packet.subrange(12, 16)
    &&& f.destination@ == packet.subrange(16, 20)
    &&& f.protocol == packet[9]
    &&& f.header_len == header_len(packet)
}

/// Reads the IPv4 header at the start of `packet` with
/// `Ipv4HeaderSlice::from_slice`. Its source accepts exactly the headers of
/// `ipv4_header_ok` and reads the fields at their fixed offsets.
#[verifier::external_body]
pub(crate) fn ipv4_header_fields(packet: &[u8]) -> (r: Option<Ipv4Fields>)
    ensures
        r is Some <==> ipv4_header_ok(packet@),
        r matches Some(f) ==> ipv4_fields_of(f, packet@),
{
    match Ipv4HeaderSlice::from_slice(packet) {
        Ok(h) => Some(
            Ipv4Fields {
                source: h.source(),
                destination: h.destination(),
                protocol: h.protocol().0,
                header_len: h.slice().len(),
            },
        ),
        Err(_) => None,
    }
}

/// `segment` starts with a TCP header: 20 bytes at least, a data offset
/// of at least 5 words, and the whole header present.
pub open spec fn tcp_header_ok(segment: Seq<u8>) -> bool {
    &&& segment.len() >= 20
    &&& (segment[12] / 16) * 4 >= 20
    &&& segment.len() >= (segment[12] / 16) * 4
}

/// Source and destination port of the TCP header at the start of
/// `segment`, read with `TcpHeaderSlice::from_slice`; its source accepts
/// exactly the headers of `tcp_header_ok` and reads the ports from the
/// first four bytes.
#[verifier::external_body]
pub(crate) fn tcp_ports(segment: &[u8]) -> (r: Option<(u16, u16)>)
    ensures
        r is Some <==> tcp_header_ok(segment@),
        r matches Some(p) ==> p.0 == be16_value(segment@[0], segment@[1]) && p.1 == be16_value(
            segment@[2],
            segment@[3],
        ),
{
    match TcpHeaderSlice::from_slice(segment) {
        Ok(h) => Some((h.source_port(), h.destination_port())),
        Err(_) => None,
    }
}

/// Source and destination port of the UDP header at the start of
/// `datagram`, read with `UdpHeaderSlice::from_slice`, which accepts any
/// slice of at least 8 bytes.
#[verifier::external_body]
pub(crate) fn udp_ports(datagram: &[u8]) -> (r: Option<(u16, u16)>)
    ensures
        r is Some <==> datagram@.len() >= 8,
        r matches Some(p) ==> p.0 == be16_value(datagram@[0], datagram@[1]) && p.1 == be16_value(
            datagram@[2],
            datagram@[3],
        ),
{
    match UdpHeaderSlice::from_slice(datagram) {
        Ok(h) => Some((h.source_port(), h.destination_port())),
        Err(_) => None,
    }
}

/// Source and destination MAC of the Ethernet II header at the start of
/// `frame`, read with `Ethernet2HeaderSlice::from_slice`, which accepts any
/// slice of at least 14 bytes (destination first, then source).
#[verifier::external_body]
pub(crate) fn ethernet_addresses(frame: &[u8]) -> (r: Option<([u8; 6], [u8; 6])>)
    ensures
        r is Some <==> frame@.len() >= 14,
        r matches Some(a) ==> a.0@ == frame@.subrange(6, 12) && a.1@ == frame@.subrange(0, 6),
{
    match Ethernet2HeaderSlice::from_slice(frame) {
        Ok(h) => Some((h.source(), h.destination())),
        Err(_) => None,
    }
}

/// Identifier and sequence number of an ICMP Echo header.
#[derive(Debug, Clone, Copy)]
pub struct EchoHeader {
    /// An Echo Request (else an Echo Reply).
    pub request: bool,
    /// Identifier (bytes 4..6).
    pub identifier: u16,
    /// Sequence number (bytes 6..8).
    pub sequence: u16,
}

/// `icmp` starts with an ICMP Echo Request (type 8) or Echo Reply (type 0)
/// header with code 0.
pub open spec fn echo_header_ok(icmp: Seq<u8>) -> bool {
    icmp.len() >= 8 && icmp[1] == 0 && (icmp[0] == 8 || icmp[0] == 0)
}

/// The ICMP header at the start of `icmp` as parsed by
/// `Icmpv4Header::from_slice`, when it is an Echo Request or Echo Reply.
/// Its source parses any slice of at least 8 bytes (timestamp types aside),
/// takes type 8 / code 0 for a request and type 0 / code 0 for a reply,
/// and reads identifier and sequence number from bytes 4..8.
#[verifier::external_body]
pub(crate) fn echo_header_fields(icmp: &[u8]) -> (r: Option<EchoHeader>)
    ensures
        r is Some <==> echo_header_ok(icmp@),
        r matches Some(e) ==> {
            &&& e.request == (icmp@[0] == 8)
            &&& e.identifier == be16_value(icmp@[4], icmp@[5])
            &&& e.sequence == be16_value(icmp@[6], icmp@[7])
        },
{
    match Icmpv4Header::from_slice(icmp) {
        Ok((h, _)) => match h.icmp_type {
            Icmpv4Type::EchoRequest(e) => Some(
                EchoHeader { request: true, identifier: e.id, sequence: e.seq },
            ),
            Icmpv4Type::EchoReply(e) => Some(
                EchoHeader { request: false, identifier: e.id, sequence: e.seq },
            ),
            _ => None,
        },
        Err(_) => None,
    }
}

/// The IPv4 header of `packet` as etherparse writes it back with its TTL
/// set to `ttl`.
pub uninterp spec fn ipv4_header_with_ttl(packet: Seq<u8>, ttl: u8) -> Seq<u8>;

/// Parses the IPv4 header of `packet` with `Ipv4Header::from_slice`, sets
/// its TTL and serialises it with `Ipv4Header::write`, which recomputes the
/// header checksum and writes the options after the fixed 20 bytes. The
/// header keeps its length and version (the first byte is rebuilt from
/// version 4 and the options' length), its type of service, total length,
/// identification, fragment offset's low byte, protocol, addresses and
/// options; the TTL is the new one. The flags byte loses its reserved bit
/// (only don't-fragment, more-fragments and the offset's high bits are
/// written back), and the checksum bytes hold the big-endian Internet
/// checksum of the written header with its checksum field zero.
#[verifier::external_body]
pub(crate) fn rewrite_ipv4_header(packet: &[u8], ttl: u8) -> (r: Vec<u8>)
    requires
        ipv4_header_ok(packet@),
    ensures
        r@ == ipv4_header_with_ttl(packet@, ttl),
        r@.len() == header_len(packet@),
        r@[0] == packet@[0],
        r@.subrange(1, 6) == packet@.subrange(1, 6),
        r@[6] == packet@[6] & 0x7Fu8,
        r@[7] == packet@[7],
        r@[8] == ttl,
        r@.subrange(10, 12) == be16(internet_checksum(r@.update(10, 0u8).update(11, 0u8))),
        r@[9] == packet@[9],
        r@.subrange(12, header_len(packet@) as int) == packet@.subrange(12, header_len(packet@) as int),
{
    let (mut header, _) = Ipv4Header::from_slice(packet).unwrap();
    header.time_to_live = ttl;
    let mut out: Vec<u8> = Vec::new();
    header.write(&mut out).unwrap();
    out
}

/// An IPv4 packet carrying an ICMP Echo Request, as etherparse builds it.
pub uninterp spec fn echo_request_packet(
    source: Seq<u8>,
    destination: Seq<u8>,
    ttl: u8,
    identifier: u16,
    sequence: u16,
    payload: Seq<u8>,
) -> Seq<u8>;

/// An IPv4 packet carrying an ICMP Echo Reply, as etherparse builds it.
pub uninterp spec fn echo_reply_packet(
    source: Seq<u8>,
    destination: Seq<u8>,
    ttl: u8,
    identifier: u16,
    sequence: u16,
    payload: Seq<u8>,
) -> Seq<u8>;

/// The bytes of an IPv4 packet carrying an ICMP Echo message that
/// `PacketBuilder` writes, checksums aside: a 20-byte header without
/// options (version 4), its total length, the TTL, protocol 1 and the
/// addresses; then the message type with code 0, the identifier and
/// sequence number, and the payload.
pub open spec fn echo_packet_layout(
    r: Seq<u8>,
    source: Seq<u8>,
    destination: Seq<u8>,
    ttl: u8,
    message_type: u8,
    identifier: u16,
    sequence: u16,
    payload: Seq<u8>,
) -> bool {
    &&& r.len() == 28 + payload.len()
    &&& r[0] == 0x45
    &&& r.subrange(2, 4) == be16((28 + payload.len()) as u16)
    &&& r[8] == ttl
    &&& r[9] == 1
    &&& r.subrange(12, 16) == source
    &&& r.subrange(16, 20) == destination
    &&& r[20] == message_type
    &&& r[21] == 0
    &&& r.subrange(24, 26) == be16(identifier)
    &&& r.subrange(26, 28) == be16(sequence)
    &&& r.skip(28) == payload
}

/// Builds an Echo Request packet with `PacketBuilder::ipv4(..)
/// .icmpv4_echo_request(..)` and `write`: a 20-byte IPv4 header, the 8-byte
/// ICMP header and the payload. Writing fails only when the IPv4 payload
/// would exceed 65515 bytes, which `requires` rules out.
#[verifier::external_body]
pub(crate) fn build_echo_request(
    source: [u8; 4],
    destination: [u8; 4],
    ttl: u8,
    identifier: u16,
    sequence: u16,
    payload: &[u8],
) -> (r: Vec<u8>)
    requires
        payload@.len() <= 65507,
    ensures
        r@ == echo_request_packet(source@, destination@, ttl, identifier, sequence, payload@),
        r@.len() == 28 + payload@.len(),
        echo_packet_layout(r@, source@, destination@, ttl, 8, identifier, sequence, payload@),
{
    let builder = PacketBuilder::ipv4(source, destination, ttl).icmpv4_echo_request(
        identifier,
        sequence,
    );
    let mut out: Vec<u8> = Vec::with_capacity(builder.size(payload.len()));
    builder.write(&mut out, payload).unwrap();
    out
}

/// Builds an Echo Reply packet with `PacketBuilder::ipv4(..)
/// .icmpv4_echo_reply(..)` and `write`, as `build_echo_request` does.
#[verifier::external_body]
pub(crate) fn build_echo_reply(
    source: [u8; 4],
    destination: [u8; 4],
    ttl: u8,
    identifier: u16,
    sequence: u16,
    payload: &[u8],
) -> (r: Vec<u8>)
    requires
        payload@.len() <= 65507,
    ensures
        r@ == echo_reply_packet(source@, destination@, ttl, identifier, sequence, payload@),
        r@.len() == 28 + payload@.len(),
        echo_packet_layout(r@, source@, destination@, ttl, 0, identifier, sequence, payload@),
{
    let builder = PacketBuilder::ipv4(source, destination, ttl).icmpv4_echo_reply(
        identifier,
        sequence,
    );
    let mut out: Vec<u8> = Vec::with_capacity(builder.size(payload.len()));
    builder.write(&mut out, payload).unwrap();
    out
}

/// An Ethernet frame carrying an Ethernet/IPv4 ARP request, as etherparse
/// writes it: destination and source MAC, EtherType 0x0806; hardware type
/// 1, protocol type 0x0800, address sizes 6 and 4, operation 1; then the
/// sender's MAC and IP and the target's MAC and IP.
pub open spec fn arp_request_frame(
    source_mac: Seq<u8>,
    destination_mac: Seq<u8>,
    sender_ip: Seq<u8>,
    target_mac: Seq<u8>,
    target_ip: Seq<u8>,
) -> Seq<u8> {
    destination_mac + source_mac + seq![0x08u8, 0x06u8, 0x00u8, 0x01u8, 0x08u8, 0x00u8, 6u8, 4u8, 0x00u8, 0x01u8]
        + source_mac + sender_ip + target_mac + target_ip
}

/// Builds an Ethernet frame holding an ARP request with
/// `PacketBuilder::ethernet2(..).arp(ArpPacket::new(..))` and `write`:
/// the Ethernet header (destination, source, the ARP EtherType the builder
/// fills in) and `ArpPacket::to_bytes`.
/// `ArpPacket::new` fails only on address lengths that differ or exceed
/// 255, and these are 6 and 4.
#[verifier::external_body]
pub(crate) fn build_arp_request(
    source_mac: [u8; 6],
    destination_mac: [u8; 6],
    sender_ip: [u8; 4],
    target_mac: [u8; 6],
    target_ip: [u8; 4],
) -> (r: Vec<u8>)
    ensures
        r@ == arp_request_frame(source_mac@, destination_mac@, sender_ip@, target_mac@, target_ip@),
{
    let arp = ArpPacket::new(
        ArpHardwareId::ETHERNET, EtherType::IPV4, ArpOperation::REQUEST, &source_mac, &sender_ip,
        &target_mac, &target_ip,
    ).unwrap();
    let builder = PacketBuilder::ethernet2(source_mac, destination_mac).arp(arp);
    let mut out: Vec<u8> = Vec::with_capacity(builder.size());
    builder.write(&mut out).unwrap();
    out
}


/// Serialises `Icmpv4Header::new(Icmpv4Type::EchoRequest(..))` with `write`.
/// `new` leaves the checksum 0, and the source writes type 8, code 0, the
/// checksum, then identifier and sequence number big-endian.
#[verifier::external_body]
pub(crate) fn echo_request_header_bytes(identifier: u16, sequence: u16) -> (r: Vec<u8>)
    ensures
        r@ == seq![8u8, 0u8, 0u8, 0u8] + be16(identifier) + be16(sequence),
{
    let header = Icmpv4Header::new(
        Icmpv4Type::EchoRequest(IcmpEchoHeader { id: identifier, seq: sequence }),
    );
    let mut out: Vec<u8> = Vec::new();
    header.write(&mut out).unwrap();
    out
}

/// Serialises `Icmpv4Header::new(Icmpv4Type::EchoReply(..))` with `write`:
/// type 0, code 0, a zero checksum, identifier and sequence number.
#[verifier::external_body]
pub(crate) fn echo_reply_header_bytes(identifier: u16, sequence: u16) -> (r: Vec<u8>)
    ensures
        r@ == seq![0u8, 0u8, 0u8, 0u8] + be16(identifier) + be16(sequence),
{
    let header = Icmpv4Header::new(
        Icmpv4Type::EchoReply(IcmpEchoHeader { id: identifier, seq: sequence }),
    );
    let mut out: Vec<u8> = Vec::new();
    header.write(&mut out).unwrap();
    out
}

/// A 20-byte IPv4 header as etherparse writes it for the given fields
/// (DSCP, ECN, flags and fragment offset zero, no options).
pub uninterp spec fn ipv4_header_written(
    total_len: u16,
    identification: u16,
    ttl: u8,
    protocol: u8,
    source: Seq<u8>,
    destination: Seq<u8>,
) -> Seq<u8>;

/// Serialises an `Ipv4Header` with the given fields (the others zero or
/// empty) with `Ipv4Header::write`, which computes the header checksum and
/// writes 20 bytes when there are no options: version 4 and length 5,
/// type of service 0, total length, identification, flags and offset 0,
/// TTL, protocol, checksum, addresses. The checksum bytes are left to the
/// named result.
#[verifier::external_body]
pub(crate) fn write_ipv4_header(
    total_len: u16,
    identification: u16,
    ttl: u8,
    protocol: u8,
    source: [u8; 4],
    destination: [u8; 4],
) -> (r: Vec<u8>)
    ensures
        r@ == ipv4_header_written(total_len, identification, ttl, protocol, source@, destination@),
        r@.len() == 20,
        r@.subrange(0, 10) == seq![0x45u8, 0u8] + be16(total_len) + be16(identification) + seq![
            0u8,
            0u8,
            ttl,
            protocol,
        ],
        r@.subrange(12, 16) == source@,
        r@.subrange(16, 20) == destination@,
{
    let header = Ipv4Header {
        total_len, identification, time_to_live: ttl, protocol: IpNumber(protocol), source,
        destination, dont_fragment: false, ..Default::default()
    };
    let mut out: Vec<u8> = Vec::new();
    header.write(&mut out).unwrap();
    out
}

} // verus!
