//! Decisions of the network tools: the ping client (whom to send to, the
//! Echo Request it sends, which reply it counts), the IP host (the Echo
//! Reply it answers with), and the TUN adapter (which acoustic node a
//! packet goes to, and the checksum it carries to the kernel).

use vstd::prelude::*;
use crate::bytes::{append_bytes, be16, be16_value};
use crate::net::arp::{mac_of, ArpTable};
use crate::net::fragmentation::header_len;
use crate::net::headers::{
    echo_header_fields, echo_header_ok, echo_reply_header_bytes, echo_request_header_bytes,
    ipv4_header_fields, ipv4_header_ok, ipv4_header_with_ttl, ipv4_header_written,
    rewrite_ipv4_header, write_ipv4_header,
};
use crate::net::router::{in_network, transport_part};
use vstd::slice::{slice_subrange, slice_to_vec};

verus! {

/// Why the ping client cannot start.
#[derive(Debug, Clone, Copy, PartialEq, Eq, Structural)]
pub enum PingSetupError {
    /// The target is not in the ARP table and no gateway was given.
    TargetUnknown,
    /// The gateway is not in the ARP table.
    GatewayUnknown,
    /// The local address is not in the ARP table.
    LocalUnknown,
}

/// MAC of the node a ping goes to (the target's own, else the gateway's)
/// and the local MAC, or why there is none.
pub open spec fn ping_macs(arp: Seq<([u8; 4], u8)>, target: [u8; 4], local: [u8; 4], gateway: Option<[u8; 4]>) -> Result<(u8, u8), PingSetupError> {
    let dest = match mac_of(arp, target) {
        Some(m) => Ok(m),
        None => match gateway {
            Some(g) => match mac_of(arp, g) {
                Some(m) => Ok(m),
                None => Err(PingSetupError::GatewayUnknown),
            },
            None => Err(PingSetupError::TargetUnknown),
        },
    };
    match dest {
        Err(e) => Err(e),
        Ok(d) => match mac_of(arp, local) {
            Some(l) => Ok((d, l)),
            None => Err(PingSetupError::LocalUnknown),
        },
    }
}

/// Resolve the destination and local MAC of the ping client.
pub fn resolve_ping_macs(arp: &ArpTable, target: [u8; 4], local: [u8; 4], gateway: Option<[u8; 4]>) -> (r: Result<(u8, u8), PingSetupError>)
    ensures
        r == ping_macs(arp@, target, local, gateway),
{
    let dest_mac = match arp.get_mac(&target) {
        Some(mac) => mac,
        None => match gateway {
            Some(g) => match arp.get_mac(&g) {
                Some(mac) => mac,
                None => return Err(PingSetupError::GatewayUnknown),
            },
            None => return Err(PingSetupError::TargetUnknown),
        },
    };
    match arp.get_mac(&local) {
        Some(local_mac) => Ok((dest_mac, local_mac)),
        None => Err(PingSetupError::LocalUnknown),
    }
}

/// The 16-bit total length field for `n` bytes (kept to 16 bits).
pub open spec fn length_field(n: nat) -> u16 {
    (n % 0x1_0000) as u16
}

/// The Echo Request the ping client sends: an IPv4 header (identification
/// `seq`, protocol ICMP) written by etherparse, the ICMP Echo header with a
/// zero checksum, and `payload_size` zero bytes.
pub open spec fn ping_request(identifier: u16, seq: u16, source: [u8; 4], destination: [u8; 4], payload_size: nat, ttl: u8) -> Seq<u8> {
    ipv4_header_written(length_field(28 + payload_size), seq, ttl, 1, source@, destination@) + seq![
        8u8,
        0u8,
        0u8,
        0u8,
    ] + be16(identifier) + be16(seq) + Seq::new(payload_size, |i: int| 0u8)
}

/// Build the Echo Request number `seq` of the ping client.
pub fn build_ping_request(identifier: u16, seq: u16, source: [u8; 4], destination: [u8; 4], payload_size: usize, ttl: u8) -> (packet: Vec<u8>)
    requires
        payload_size + 28 <= usize::MAX,
    ensures
        packet@ == ping_request(identifier, seq, source, destination, payload_size as nat, ttl),
{
    let mut echo_bytes = echo_request_header_bytes(identifier, seq);
    let mut i: usize = 0;
    let ghost header = echo_bytes@;
    while i < payload_size
        invariant
            i <= payload_size,
            echo_bytes@ == header + Seq::new(i as nat, |k: int| 0u8),
        decreases payload_size - i,
    {
        echo_bytes.push(0);
        assert(echo_bytes@ =~= header + Seq::new((i + 1) as nat, |k: int| 0u8));
        i += 1;
    }
    let total: usize = 20 + echo_bytes.len();
    let total_len: u16 = #[verifier::truncate] (total as u16);
    proof {
        lemma_truncate_u16(total);
    }
    let mut packet = write_ipv4_header(total_len, seq, ttl, 1, source, destination);
    append_bytes(&mut packet, echo_bytes.as_slice());
    assert(packet@ =~= ping_request(identifier, seq, source, destination, payload_size as nat, ttl));
    packet
}

/// What the ping client makes of a received packet.
#[derive(Debug, Clone, Copy, PartialEq, Eq, Structural)]
pub enum PingReply {
    /// Not an IPv4 packet carrying an ICMP header.
    Unreadable,
    /// A readable packet, but not the Echo Reply awaited.
    Unrelated,
    /// The Echo Reply with the awaited sequence number, with its TTL.
    Matched { ttl: u8 },
}

/// Classification of a received packet by the ping client waiting for
/// the reply to `seq`.
pub open spec fn ping_reply_kind(data: Seq<u8>, seq: u16) -> PingReply {
    if !ipv4_header_ok(data) || transport_part(data).len() < 8 {
        PingReply::Unreadable
    } else {
        let msg = transport_part(data);
        if echo_header_ok(msg) && msg[0] == 0 && be16_value(msg[6], msg[7]) == seq {
            PingReply::Matched { ttl: data[8] }
        } else {
            PingReply::Unrelated
        }
    }
}

/// Classify a packet received by the ping client.
pub fn classify_ping_reply(data: &[u8], seq: u16) -> (r: PingReply)
    ensures
        r == ping_reply_kind(data@, seq),
{
    let header = match ipv4_header_fields(data) {
        Some(h) => h,
        None => return PingReply::Unreadable,
    };
    let echo_data = slice_subrange(data, header.header_len, data.len());
    if echo_data.len() < 8 {
        return PingReply::Unreadable;
    }
    match echo_header_fields(echo_data) {
        Some(echo) => {
            if !echo.request && echo.sequence == seq {
                PingReply::Matched { ttl: data[8] }
            } else {
                PingReply::Unrelated
            }
        },
        None => PingReply::Unrelated,
    }
}

/// The Echo Reply the IP host answers a request with: an IPv4 header from
/// `local` to the requester (identification 0), the Echo Reply header with
/// the request's identifier and sequence number and a zero checksum, and
/// the request's payload.
pub open spec fn echo_answer(data: Seq<u8>, local: [u8; 4], ttl: u8) -> Seq<u8> {
    let msg = transport_part(data);
    let payload = msg.subrange(8, msg.len() as int);
    ipv4_header_written(length_field(28 + payload.len()), 0, ttl, 1, local@, data.subrange(12, 16))
        + seq![0u8, 0u8, 0u8, 0u8] + msg.subrange(4, 8) + payload
}

/// The packet is an ICMP Echo Request addressed to `local`.
pub open spec fn is_echo_request_to(data: Seq<u8>, local: [u8; 4]) -> bool {
    &&& ipv4_header_ok(data)
    &&& data.subrange(16, 20) == local@
    &&& transport_part(data).len() >= 8
    &&& echo_header_ok(transport_part(data))
    &&& transport_part(data)[0] == 8
}

/// The reply of the IP host to a received packet, with the requester's
/// address: `None` unless it is an Echo Request addressed to `local`.
pub fn answer_echo_request(data: &[u8], local_ip: [u8; 4], ttl: u8) -> (r: Option<(Vec<u8>, [u8; 4])>)
    ensures
        r is Some <==> is_echo_request_to(data@, local_ip),
        r matches Some(a) ==> a.0@ == echo_answer(data@, local_ip, ttl) && a.1@ == data@.subrange(
            12,
            16,
        ),
{
    let header = match ipv4_header_fields(data) {
        Some(h) => h,
        None => return None,
    };
    if !crate::bytes::octets_equal(&header.destination, &local_ip) {
        proof {
            if data@.subrange(16, 20) == local_ip@ {
                assert(header.destination =~= local_ip);
            }
        }
        return None;
    }
    let echo_data = slice_subrange(data, header.header_len, data.len());
    if echo_data.len() < 8 {
        return None;
    }
    let echo = match echo_header_fields(echo_data) {
        Some(e) => e,
        None => return None,
    };
    if !echo.request {
        return None;
    }
    let payload = slice_subrange(echo_data, 8, echo_data.len());
    let mut reply_echo = echo_reply_header_bytes(echo.identifier, echo.sequence);
    append_bytes(&mut reply_echo, payload);
    let total: usize = 20 + reply_echo.len();
    let total_len: u16 = #[verifier::truncate] (total as u16);
    proof {
        lemma_truncate_u16(total);
    }
    let mut reply = write_ipv4_header(total_len, 0, ttl, 1, local_ip, header.source);
    append_bytes(&mut reply, reply_echo.as_slice());
    proof {
        crate::bytes::lemma_be16_roundtrip(echo.identifier);
        let msg = echo_data@;
        assert(be16(echo.identifier) + be16(echo.sequence) =~= msg.subrange(4, 8)) by {
            lemma_be16_of_value(msg[4], msg[5]);
            lemma_be16_of_value(msg[6], msg[7]);
        }
    }
    assert(reply@ =~= echo_answer(data@, local_ip, ttl));
    Some((reply, header.source))
}

proof fn lemma_truncate_u16(n: usize)
    ensures
        #[verifier::truncate] (n as u16) == (n % 0x1_0000) as u16,
{
    assert(#[verifier::truncate] (n as u16) == (n % 0x1_0000) as u16) by (bit_vector);
}

proof fn lemma_be16_of_value(hi: u8, lo: u8)
    ensures
        be16(be16_value(hi, lo)) == seq![hi, lo],
{
    assert(be16(be16_value(hi, lo)) =~= seq![hi, lo]);
}

/// Acoustic MAC to answer `ip` at: its ARP entry, else 1.
pub fn reply_mac(arp: &ArpTable, ip: [u8; 4]) -> (m: u8)
    ensures
        m == match mac_of(arp@, ip) {
            Some(x) => x,
            None => 1u8,
        },
{
    match arp.get_mac(&ip) {
        Some(m) => m,
        None => 1,
    }
}

/// Multicast (224.0.0.0/4) or the limited broadcast address.
pub open spec fn multicast_or_broadcast(ip: Seq<u8>) -> bool {
    (224 <= ip[0] && ip[0] <= 239) || (ip[0] == 255 && ip[1] == 255 && ip[2] == 255 && ip[3] == 255)
}

/// The acoustic node a packet read from TUN goes to: the last octet of its
/// destination when that is on the local network or there is no gateway,
/// else the last octet of the gateway. `None` for a packet that is not
/// IPv4, or goes to a multicast or broadcast address.
pub open spec fn tun_target(packet: Seq<u8>, local_ip: [u8; 4], netmask: [u8; 4], gateway: Option<[u8; 4]>) -> Option<u8> {
    if !ipv4_header_ok(packet) {
        None
    } else {
        let dst = packet.subrange(16, 20);
        if multicast_or_broadcast(dst) {
            None
        } else if in_network(local_ip@, netmask@, dst) {
            Some(dst[3])
        } else {
            match gateway {
                Some(g) => Some(g[3]),
                None => Some(dst[3]),
            }
        }
    }
}

/// Acoustic node for a packet read from TUN (see `tun_target`).
pub fn tun_target_mac(packet: &[u8], local_ip: [u8; 4], netmask: [u8; 4], gateway: Option<[u8; 4]>) -> (m: Option<u8>)
    ensures
        m == tun_target(packet@, local_ip, netmask, gateway),
{
    let header = match ipv4_header_fields(packet) {
        Some(h) => h,
        None => return None,
    };
    let dest = header.destination;
    if (dest[0] >= 224 && dest[0] <= 239) || (dest[0] == 255 && dest[1] == 255 && dest[2] == 255
        && dest[3] == 255) {
        return None;
    }
    let mut is_local = true;
    let mut i: usize = 0;
    while i < 4
        invariant
            i <= 4,
            dest@ == packet@.subrange(16, 20),
            is_local == forall|j: int|
                0 <= j < i ==> #[trigger] (local_ip@[j] & netmask@[j]) == dest@[j] & netmask@[j],
        decreases 4 - i,
    {
        if (dest[i] & netmask[i]) != (local_ip[i] & netmask[i]) {
            is_local = false;
        }
        i += 1;
    }
    if is_local {
        Some(dest[3])
    } else {
        match gateway {
            Some(g) => Some(g[3]),
            None => Some(dest[3]),
        }
    }
}

/// A packet from the acoustic link as handed to TUN: an IPv4 packet with
/// its header rewritten by etherparse (checksum recomputed, TTL kept);
/// anything else as it is.
pub open spec fn checksum_refreshed(packet: Seq<u8>) -> Seq<u8> {
    if ipv4_header_ok(packet) {
        ipv4_header_with_ttl(packet, packet[8]) + transport_part(packet)
    } else {
        packet
    }
}

/// Rewrite the IPv4 header of a packet from the acoustic link before it
/// goes to TUN (see `checksum_refreshed`).
pub fn refresh_ipv4_checksum(packet: Vec<u8>) -> (r: Vec<u8>)
    ensures
        r@ == checksum_refreshed(packet@),
{
    match ipv4_header_fields(packet.as_slice()) {
        Some(h) => {
            let mut out = rewrite_ipv4_header(packet.as_slice(), packet[8]);
            append_bytes(&mut out, slice_subrange(packet.as_slice(), h.header_len, packet.len()));
            out
        },
        None => packet,
    }
}

} // verus!
