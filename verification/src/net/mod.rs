//! Network layer: IPv4 and ICMP packets, fragmentation and reassembly.

use vstd::prelude::*;

pub mod arp;
pub mod arrival_order;
pub mod checksum;
pub mod fragmentation;
pub mod headers;
pub mod icmp;
pub mod ip;
pub mod mac_address;
pub mod nat_table;
pub mod pcap_utils;
pub mod router;
pub mod tool;

verus! {

/// IPv4 upper-layer protocol.
#[derive(Debug, Clone, Copy, PartialEq, Eq, Structural)]
pub enum Protocol {
    Icmp,
    Tcp,
    Udp,
    Unknown,
}

/// Protocol named by an IPv4 protocol number.
pub open spec fn protocol_of(value: u8) -> Protocol {
    if value == 1 {
        Protocol::Icmp
    } else if value == 6 {
        Protocol::Tcp
    } else if value == 17 {
        Protocol::Udp
    } else {
        Protocol::Unknown
    }
}

/// IPv4 protocol number of a protocol (255 for an unknown one).
pub open spec fn protocol_number(p: Protocol) -> u8 {
    match p {
        Protocol::Icmp => 1,
        Protocol::Tcp => 6,
        Protocol::Udp => 17,
        Protocol::Unknown => 255,
    }
}

impl From<u8> for Protocol {
    fn from(value: u8) -> (p: Self) {
        match value {
            1 => Protocol::Icmp,
            6 => Protocol::Tcp,
            17 => Protocol::Udp,
            _ => Protocol::Unknown,
        }
    }
}

impl vstd::std_specs::convert::FromSpecImpl<u8> for Protocol {
    open spec fn obeys_from_spec() -> bool {
        true
    }

    open spec fn from_spec(v: u8) -> Protocol {
        protocol_of(v)
    }
}

impl From<Protocol> for u8 {
    fn from(p: Protocol) -> (v: u8) {
        match p {
            Protocol::Icmp => 1,
            Protocol::Tcp => 6,
            Protocol::Udp => 17,
            Protocol::Unknown => 255,
        }
    }
}

impl vstd::std_specs::convert::FromSpecImpl<Protocol> for u8 {
    open spec fn obeys_from_spec() -> bool {
        true
    }

    open spec fn from_spec(p: Protocol) -> u8 {
        protocol_number(p)
    }
}

/// A known protocol's number maps back to it, and the number of any
/// protocol maps back to a protocol with that number.
pub proof fn lemma_protocol_roundtrip(p: Protocol)
    ensures
        protocol_of(protocol_number(p)) == p,
{
}

} // verus!
