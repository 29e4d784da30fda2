//! Static routing: directly connected networks, first-match route lookup,
//! and TTL handling of forwarded IPv4 packets. Addresses are held as their
//! four octets.

use vstd::prelude::*;
use std::collections::HashMap;
use crate::bytes::{append_bytes, be16, be16_value, push_be16, read_be16};
use crate::net::checksum::{checksum, internet_checksum};
use crate::net::fragmentation::header_len;
use crate::net::headers::{
    arp_request_frame, build_arp_request, build_echo_reply, build_echo_request,
    echo_reply_packet, echo_request_packet, echo_header_fields, echo_header_ok, ipv4_header_fields,
    ipv4_header_error, ipv4_header_error_text, ipv4_header_ok, ipv4_header_with_ttl, rewrite_ipv4_header, tcp_header_ok, tcp_ports, udp_ports,
    ethernet_addresses,
};
use crate::net::icmp::{icmp_of_bytes, IcmpPacket, IcmpType};
use crate::net::nat_table::{NatTable, NatView};
use vstd::slice::{slice_subrange, slice_to_vec};
use vstd::string::StringExecFns;

verus! {

broadcast use vstd::std_specs::hash::group_hash_axioms;

/// Network interface type.
#[derive(Debug, Clone, Copy, PartialEq, Eq, Hash, Structural)]
pub enum InterfaceType {
    /// Acoustic interface (to NODE1).
    Acoustic,
    /// WiFi interface (to NODE3).
    WiFi,
    /// Other.
    Ethernet,
    /// Virtual TUN interface.
    Tun,
}

/// A directly connected network.
#[derive(Debug, Clone, Copy)]
pub struct DirectNetwork {
    /// Network address (e.g. 192.168.1.0).
    pub network: [u8; 4],
    /// Subnet mask (e.g. 255.255.255.0).
    pub mask: [u8; 4],
    /// Interface to use for this network.
    pub interface: InterfaceType,
}

/// `ip` lies in the network `network`/`mask`: they agree on every masked bit.
pub open spec fn in_network(network: Seq<u8>, mask: Seq<u8>, ip: Seq<u8>) -> bool {
    forall|i: int| 0 <= i < 4 ==> #[trigger] (network[i] & mask[i]) == ip[i] & mask[i]
}

impl DirectNetwork {
    pub fn new(network: [u8; 4], mask: [u8; 4], interface: InterfaceType) -> (n: Self)
        ensures
            n.network == network,
            n.mask == mask,
            n.interface == interface,
    {
        Self { network, mask, interface }
    }

    /// Whether `ip` belongs to this network.
    pub fn contains(&self, ip: &[u8; 4]) -> (b: bool)
        ensures
            b == in_network(self.network@, self.mask@, ip@),
    {
        let mut i: usize = 0;
        while i < 4
            invariant
                i <= 4,
                forall|j: int|
                    0 <= j < i ==> #[trigger] (self.network@[j] & self.mask@[j]) == ip@[j]
                        & self.mask@[j],
            decreases 4 - i,
        {
            if (self.network[i] & self.mask[i]) != (ip[i] & self.mask[i]) {
                return false;
            }
            i += 1;
        }
        true
    }
}

/// Routing table entry.
#[derive(Debug, Clone, Copy)]
pub struct RouteEntry {
    /// Destination network.
    pub network: DirectNetwork,
    /// Next hop (`None` for a directly connected network).
    pub next_hop: Option<[u8; 4]>,
}

/// Static routing table; routes are consulted in the order they were added.
#[derive(Clone)]
pub struct RoutingTable {
    routes: Vec<RouteEntry>,
}

/// What a route answers for a lookup: next hop and interface.
pub open spec fn route_answer(r: RouteEntry) -> (Option<Seq<u8>>, InterfaceType) {
    (
        match r.next_hop {
            Some(h) => Some(h@),
            None => None,
        },
        r.network.interface,
    )
}

/// Answer of the first route among `routes[from..]` whose network holds `ip`.
pub open spec fn first_route(routes: Seq<RouteEntry>, ip: Seq<u8>, from: int) -> Option<(Option<Seq<u8>>, InterfaceType)>
    decreases routes.len() - from,
{
    if from < 0 || from >= routes.len() {
        None
    } else if in_network(routes[from].network.network@, routes[from].network.mask@, ip) {
        Some(route_answer(routes[from]))
    } else {
        first_route(routes, ip, from + 1)
    }
}

impl RoutingTable {
    /// The routes, in order.
    pub closed spec fn spec_routes(&self) -> Seq<RouteEntry> {
        self.routes@
    }

    pub fn new() -> (t: Self)
        ensures
            t.spec_routes() == Seq::<RouteEntry>::empty(),
    {
        Self { routes: Vec::new() }
    }

    /// Add a directly connected network.
    pub fn add_direct_network(&mut self, network: [u8; 4], mask: [u8; 4], interface: InterfaceType)
        ensures
            final(self).spec_routes() == old(self).spec_routes().push(
                RouteEntry { network: DirectNetwork { network, mask, interface }, next_hop: None },
            ),
    {
        self.routes.push(
            RouteEntry { network: DirectNetwork::new(network, mask, interface), next_hop: None },
        );
    }

    /// Add a network reached through `next_hop`.
    pub fn add_network(&mut self, network: [u8; 4], mask: [u8; 4], interface: InterfaceType, next_hop: [u8; 4])
        ensures
            final(self).spec_routes() == old(self).spec_routes().push(
                RouteEntry {
                    network: DirectNetwork { network, mask, interface },
                    next_hop: Some(next_hop),
                },
            ),
    {
        self.routes.push(
            RouteEntry {
                network: DirectNetwork::new(network, mask, interface),
                next_hop: Some(next_hop),
            },
        );
    }

    /// Next hop and interface of the first route whose network holds
    /// `dest_ip`, or `None` when no route does.
    pub fn lookup(&self, dest_ip: &[u8; 4]) -> (r: Option<(Option<[u8; 4]>, InterfaceType)>)
        ensures
            match r {
                Some((hop, iface)) => first_route(self.spec_routes(), dest_ip@, 0) == Some(
                    (
                        match hop {
                            Some(h) => Some(h@),
                            None => None,
                        },
                        iface,
                    ),
                ),
                None => first_route(self.spec_routes(), dest_ip@, 0) is None,
            },
    {
        let mut i: usize = 0;
        while i < self.routes.len()
            invariant
                i <= self.routes@.len(),
                first_route(self.routes@, dest_ip@, 0) == first_route(self.routes@, dest_ip@, i as int),
            decreases self.routes.len() - i,
        {
            let route = &self.routes[i];
            if route.network.contains(dest_ip) {
                return Some((route.next_hop, route.network.interface));
            }
            i += 1;
        }
        None
    }
}

/// Why a packet cannot be forwarded.
pub open spec fn ttl_refused(packet: Seq<u8>) -> bool {
    packet.len() < 20 || packet[8] <= 1
}

/// Why the TTL of a refused packet is not lowered.
pub open spec fn ttl_refusal(packet: Seq<u8>) -> Seq<char> {
    if packet.len() < 20 {
        "IP packet too short"@
    } else {
        "TTL expired"@
    }
}

/// The packet with its TTL lowered by one and its header checksum
/// recomputed over the header (the first `ihl * 4` bytes).
pub open spec fn ttl_decremented(packet: Seq<u8>) -> Seq<u8> {
    let p1 = packet.update(8, (packet[8] - 1) as u8).update(10, 0u8).update(11, 0u8);
    let c = internet_checksum(p1.subrange(0, header_len(packet) as int));
    p1.update(10, be16(c)[0]).update(11, be16(c)[1])
}

/// Decrement the TTL of a forwarded IPv4 packet and recompute its header
/// checksum; refused when the packet is shorter than a header or its TTL
/// would expire.
pub fn decrement_ttl(ip_packet: &mut Vec<u8>) -> (r: Result<(), &'static str>)
    requires
        !ttl_refused(old(ip_packet)@) ==> header_len(old(ip_packet)@) <= old(ip_packet)@.len(),
    ensures
        r is Err <==> ttl_refused(old(ip_packet)@),
        r is Err ==> final(ip_packet)@ == old(ip_packet)@,
        r matches Err(e) ==> e@ == ttl_refusal(old(ip_packet)@),
        r is Ok ==> final(ip_packet)@ == ttl_decremented(old(ip_packet)@),
{
    if ip_packet.len() < 20 {
        return Err("IP packet too short");
    }
    let ttl = ip_packet[8];
    if ttl <= 1 {
        return Err("TTL expired");
    }
    ip_packet.set(8, ttl - 1);
    ip_packet.set(10, 0);
    ip_packet.set(11, 0);
    let ihl = (ip_packet[0] & 0x0Fu8) as usize;
    let header_length = ihl * 4;
    let c = checksum(vstd::slice::slice_subrange(ip_packet.as_slice(), 0, header_length));
    proof {
        crate::bytes::lemma_be16_split(c);
    }
    ip_packet.set(10, (c >> 8u16) as u8);
    ip_packet.set(11, (c & 0xFFu16) as u8);
    Ok(())
}

/// The packet with its header checksum (bytes 10..12) recomputed over the
/// header (the first `ihl * 4` bytes).
pub open spec fn checksum_recomputed(packet: Seq<u8>) -> Seq<u8> {
    let p1 = packet.update(10, 0u8).update(11, 0u8);
    let c = internet_checksum(p1.subrange(0, header_len(packet) as int));
    p1.update(10, be16(c)[0]).update(11, be16(c)[1])
}

/// Recompute the IPv4 header checksum in place.
pub fn recalculate_ip_checksum(ip_packet: &mut Vec<u8>)
    requires
        old(ip_packet)@.len() >= 12,
        header_len(old(ip_packet)@) <= old(ip_packet)@.len(),
    ensures
        final(ip_packet)@ == checksum_recomputed(old(ip_packet)@),
{
    ip_packet.set(10, 0);
    ip_packet.set(11, 0);
    let ihl = (ip_packet[0] & 0x0Fu8) as usize;
    let header_length = ihl * 4;
    let c = checksum(vstd::slice::slice_subrange(ip_packet.as_slice(), 0, header_length));
    proof {
        crate::bytes::lemma_be16_split(c);
    }
    ip_packet.set(10, (c >> 8u16) as u8);
    ip_packet.set(11, (c & 0xFFu16) as u8);
}


/// Number of an interface in ARP table keys.
pub open spec fn interface_code(iface: InterfaceType) -> u64 {
    match iface {
        InterfaceType::Acoustic => 0,
        InterfaceType::WiFi => 1,
        InterfaceType::Ethernet => 2,
        InterfaceType::Tun => 3,
    }
}

/// An IPv4 address as a 32-bit number.
pub open spec fn ip_value(ip: Seq<u8>) -> u32 {
    (ip[0] * 0x100_0000 + ip[1] * 0x1_0000 + ip[2] * 0x100 + ip[3]) as u32
}

/// Key of the ARP entry for `ip` on `iface`.
pub open spec fn arp_key(iface: InterfaceType, ip: Seq<u8>) -> u64 {
    (interface_code(iface) * 0x1_0000_0000 + ip_value(ip)) as u64
}

/// An address as a 32-bit number.
pub fn ip_number(ip: &[u8; 4]) -> (v: u32)
    ensures
        v == ip_value(ip@),
{
    (ip[0] as u32) * 0x100_0000u32 + (ip[1] as u32) * 0x1_0000u32 + (ip[2] as u32) * 0x100u32 + (
    ip[3] as u32)
}

fn arp_key_of(iface: InterfaceType, ip: &[u8; 4]) -> (k: u64)
    ensures
        k == arp_key(iface, ip@),
{
    let code: u64 = match iface {
        InterfaceType::Acoustic => 0,
        InterfaceType::WiFi => 1,
        InterfaceType::Ethernet => 2,
        InterfaceType::Tun => 3,
    };
    code * 0x1_0000_0000u64 + (ip_number(ip) as u64)
}

/// Distinct addresses, or distinct interfaces, have distinct ARP keys.
pub proof fn lemma_arp_key_injective(i1: InterfaceType, ip1: Seq<u8>, i2: InterfaceType, ip2: Seq<u8>)
    requires
        ip1.len() == 4,
        ip2.len() == 4,
        arp_key(i1, ip1) == arp_key(i2, ip2),
    ensures
        i1 == i2,
        ip1 == ip2,
{
    assert(ip1[0] * 0x100_0000 + ip1[1] * 0x1_0000 + ip1[2] * 0x100 + ip1[3] == ip2[0] * 0x100_0000
        + ip2[1] * 0x1_0000 + ip2[2] * 0x100 + ip2[3]);
    assert(ip1 =~= ip2);
}

/// ARP table of the router: IPv4 address to Ethernet MAC, per interface.
#[derive(Clone)]
pub struct ArpTable {
    table: HashMap<u64, [u8; 6]>,
}

impl View for ArpTable {
    type V = Map<u64, Seq<u8>>;

    closed spec fn view(&self) -> Map<u64, Seq<u8>> {
        self.table@.map_values(|m: [u8; 6]| m@)
    }
}

/// The MAC known for `ip` on `iface`.
pub open spec fn arp_lookup(arp: Map<u64, Seq<u8>>, iface: InterfaceType, ip: Seq<u8>) -> Option<Seq<u8>> {
    if arp.contains_key(arp_key(iface, ip)) {
        Some(arp[arp_key(iface, ip)])
    } else {
        None
    }
}

/// The static entries of the acoustic network: 192.168.1.n has MAC
/// 00:00:00:00:00:0n for n = 1, 2, 3.
pub open spec fn initial_arp() -> Map<u64, Seq<u8>> {
    Map::<u64, Seq<u8>>::empty().insert(
        arp_key(InterfaceType::Acoustic, seq![192u8, 168u8, 1u8, 1u8]),
        seq![0u8, 0u8, 0u8, 0u8, 0u8, 1u8],
    ).insert(
        arp_key(InterfaceType::Acoustic, seq![192u8, 168u8, 1u8, 2u8]),
        seq![0u8, 0u8, 0u8, 0u8, 0u8, 2u8],
    ).insert(
        arp_key(InterfaceType::Acoustic, seq![192u8, 168u8, 1u8, 3u8]),
        seq![0u8, 0u8, 0u8, 0u8, 0u8, 3u8],
    )
}

impl ArpTable {
    /// The table with the static entries of the acoustic network.
    pub fn new() -> (t: Self)
        ensures
            t@ == initial_arp(),
    {
        let mut t = ArpTable { table: HashMap::new() };
        t.add_entry([192, 168, 1, 1], [0, 0, 0, 0, 0, 1], InterfaceType::Acoustic);
        t.add_entry([192, 168, 1, 2], [0, 0, 0, 0, 0, 2], InterfaceType::Acoustic);
        t.add_entry([192, 168, 1, 3], [0, 0, 0, 0, 0, 3], InterfaceType::Acoustic);
        assert(t@ =~= initial_arp());
        t
    }

    /// Add a static ARP entry (replacing an earlier one for the same
    /// address and interface).
    pub fn add_entry(&mut self, ip: [u8; 4], mac: [u8; 6], iface: InterfaceType)
        ensures
            final(self)@ == old(self)@.insert(arp_key(iface, ip@), mac@),
    {
        let key = arp_key_of(iface, &ip);
        self.table.insert(key, mac);
        assert(self@ =~= old(self)@.insert(arp_key(iface, ip@), mac@));
    }

    /// MAC address of `ip` on `iface`.
    pub fn get_mac(&self, ip: &[u8; 4], iface: InterfaceType) -> (r: Option<[u8; 6]>)
        ensures
            match r {
                Some(m) => arp_lookup(self@, iface, ip@) == Some(m@),
                None => arp_lookup(self@, iface, ip@) is None,
            },
    {
        let key = arp_key_of(iface, ip);
        match self.table.get(&key) {
            Some(m) => Some(*m),
            None => None,
        }
    }

    /// Update or add an ARP entry (learning from a reply).
    pub fn update(&mut self, ip: [u8; 4], mac: [u8; 6], interface: InterfaceType)
        ensures
            final(self)@ == old(self)@.insert(arp_key(interface, ip@), mac@),
    {
        self.add_entry(ip, mac, interface);
    }
}

/// Router configuration.
#[derive(Clone)]
pub struct RouterConfig {
    /// Local IP on the acoustic side (connected to NODE1).
    pub acoustic_ip: [u8; 4],
    /// Local MAC on the acoustic side.
    pub acoustic_mac: u8,
    /// Local IP on the WiFi side (connected to NODE3).
    pub wifi_ip: [u8; 4],
    /// Local MAC on the WiFi side.
    pub wifi_mac: [u8; 6],
    /// WiFi interface name (e.g. "wlan0").
    pub wifi_interface: String,
    /// Acoustic network (e.g. 192.168.1.0/24).
    pub acoustic_network: [u8; 4],
    pub acoustic_netmask: [u8; 4],
    /// WiFi network (e.g. 192.168.2.0/24).
    pub wifi_network: [u8; 4],
    pub wifi_netmask: [u8; 4],
    /// Ethernet IP.
    pub eth_ip: [u8; 4],
    /// Ethernet netmask.
    pub eth_netmask: [u8; 4],
    /// Ethernet MAC.
    pub eth_mac: [u8; 6],
    /// Ethernet gateway IP (e.g. 192.168.2.254).
    pub gateway_ip: [u8; 4],
    /// Ethernet gateway MAC, when known.
    pub gateway_mac: Option<[u8; 6]>,
    /// Ethernet gateway interface name.
    pub gateway_interface: String,
    /// TUN interface name.
    pub tun_name: String,
    /// TUN interface IP.
    pub tun_ip: [u8; 4],
    /// TUN interface netmask.
    pub tun_netmask: [u8; 4],
    /// NODE3 IP (for traversal).
    pub node3_ip: [u8; 4],
    /// NODE1 IP (for traversal).
    pub node1_ip: [u8; 4],
}

impl Default for RouterConfig {
    fn default() -> (c: Self)
        ensures
            c.acoustic_ip == [192u8, 168u8, 1u8, 1u8],
            c.acoustic_mac == 2,
            c.wifi_ip == [192u8, 168u8, 2u8, 1u8],
            c.wifi_mac == [0u8, 0u8, 0u8, 0u8, 0u8, 2u8],
            c.wifi_interface@ == "wlan0"@,
            c.acoustic_network == [192u8, 168u8, 1u8, 0u8],
            c.acoustic_netmask == [255u8, 255u8, 255u8, 0u8],
            c.wifi_network == [192u8, 168u8, 2u8, 0u8],
            c.wifi_netmask == [255u8, 255u8, 255u8, 0u8],
            c.gateway_ip == [192u8, 168u8, 2u8, 254u8],
            c.gateway_mac is None,
            c.gateway_interface@ == "eth0"@,
            c.eth_ip == [10u8, 20u8, 0u8, 1u8],
            c.eth_netmask == [255u8, 255u8, 255u8, 0u8],
            c.eth_mac == [0x9cu8, 0x29u8, 0x76u8, 0x0cu8, 0x49u8, 0x00u8],
            c.tun_name@ == "tun0"@,
            c.tun_ip == [10u8, 0u8, 0u8, 1u8],
            c.tun_netmask == [255u8, 255u8, 255u8, 0u8],
            c.node3_ip == [192u8, 168u8, 2u8, 2u8],
            c.node1_ip == [192u8, 168u8, 1u8, 2u8],
    {
        RouterConfig {
            acoustic_ip: [192, 168, 1, 1],
            acoustic_mac: 2,
            wifi_ip: [192, 168, 2, 1],
            wifi_mac: [0x00, 0x00, 0x00, 0x00, 0x00, 0x02],
            wifi_interface: "wlan0".to_owned(),
            acoustic_network: [192, 168, 1, 0],
            acoustic_netmask: [255, 255, 255, 0],
            wifi_network: [192, 168, 2, 0],
            wifi_netmask: [255, 255, 255, 0],
            gateway_ip: [192, 168, 2, 254],
            gateway_mac: None,
            gateway_interface: "eth0".to_owned(),
            eth_ip: [10, 20, 0, 1],
            eth_netmask: [255, 255, 255, 0],
            eth_mac: [0x9c, 0x29, 0x76, 0x0c, 0x49, 0x00],
            tun_name: "tun0".to_owned(),
            tun_ip: [10, 0, 0, 1],
            tun_netmask: [255, 255, 255, 0],
            node3_ip: [192, 168, 2, 2],
            node1_ip: [192, 168, 1, 2],
        }
    }
}

/// `ip` masked with `mask`, octet by octet.
pub open spec fn masked(ip: Seq<u8>, mask: Seq<u8>) -> Seq<u8> {
    seq![ip[0] & mask[0], ip[1] & mask[1], ip[2] & mask[2], ip[3] & mask[3]]
}

fn mask_octets(ip: &[u8; 4], mask: &[u8; 4]) -> (r: [u8; 4])
    ensures
        r@ == masked(ip@, mask@),
{
    let r = [ip[0] & mask[0], ip[1] & mask[1], ip[2] & mask[2], ip[3] & mask[3]];
    assert(r@ =~= masked(ip@, mask@));
    r
}

/// `routes` are those a router starts with: the acoustic, WiFi, Ethernet
/// and TUN networks, directly connected, in this order; the Ethernet and
/// TUN networks are the interface addresses masked with their netmasks.
pub open spec fn initial_routes(c: RouterConfig, routes: Seq<RouteEntry>) -> bool {
    &&& routes.len() == 4
    &&& routes[0] == RouteEntry {
        network: DirectNetwork {
            network: c.acoustic_network,
            mask: c.acoustic_netmask,
            interface: InterfaceType::Acoustic,
        },
        next_hop: None,
    }
    &&& routes[1] == RouteEntry {
        network: DirectNetwork {
            network: c.wifi_network,
            mask: c.wifi_netmask,
            interface: InterfaceType::WiFi,
        },
        next_hop: None,
    }
    &&& routes[2].network.network@ == masked(c.eth_ip@, c.eth_netmask@)
    &&& routes[2].network.mask == c.eth_netmask
    &&& routes[2].network.interface == InterfaceType::Ethernet
    &&& routes[2].next_hop is None
    &&& routes[3].network.network@ == masked(c.tun_ip@, c.tun_netmask@)
    &&& routes[3].network.mask == c.tun_netmask
    &&& routes[3].network.interface == InterfaceType::Tun
    &&& routes[3].next_hop is None
}


/// A packet held back until the MAC address of its next hop is known.
#[derive(Clone)]
struct PendingPacket {
    interface: InterfaceType,
    packet: Vec<u8>,
    src_mac: [u8; 6],
}

/// Contents of a held-back packet.
pub struct PendingView {
    /// Interface it leaves on.
    pub interface: InterfaceType,
    /// The IPv4 packet.
    pub packet: Seq<u8>,
    /// Source MAC of the frame it goes out in.
    pub src_mac: Seq<u8>,
}

spec fn pending_view(p: PendingPacket) -> PendingView {
    PendingView { interface: p.interface, packet: p.packet@, src_mac: p.src_mac@ }
}

/// Simple IPv4 router between the acoustic, WiFi, Ethernet and TUN
/// interfaces, with NAT towards the Ethernet side.
pub struct Router {
    config: RouterConfig,
    routing_table: RoutingTable,
    arp_table: ArpTable,
    nat_table: NatTable,
    /// TCP/UDP NAT sessions: external port to inside address.
    nat_sessions: HashMap<u16, [u8; 4]>,
    /// Packets awaiting ARP resolution, per next-hop address.
    pending_packets: HashMap<u32, Vec<PendingPacket>>,
}

/// State of a router.
pub struct RouterView {
    pub config: RouterConfig,
    pub routes: Seq<RouteEntry>,
    pub arp: Map<u64, Seq<u8>>,
    pub nat: NatView,
    pub sessions: Map<u16, Seq<u8>>,
    pub pending: Map<u32, Seq<PendingView>>,
}

impl View for Router {
    type V = RouterView;

    closed spec fn view(&self) -> RouterView {
        RouterView {
            config: self.config,
            routes: self.routing_table.spec_routes(),
            arp: self.arp_table@,
            nat: self.nat_table@,
            sessions: self.nat_sessions@.map_values(|a: [u8; 4]| a@),
            pending: self.pending_packets@.map_values(
                |v: Vec<PendingPacket>| v@.map_values(|p: PendingPacket| pending_view(p)),
            ),
        }
    }
}

/// What the router hands to an interface.
pub enum RouterAction {
    /// A packet for the acoustic link, to the node with this MAC.
    Acoustic { packet: Vec<u8>, dst_mac: u8 },
    /// An Ethernet frame for the WiFi interface.
    WiFi(Vec<u8>),
    /// An Ethernet frame for the Ethernet interface.
    Ethernet(Vec<u8>),
    /// A packet for the TUN interface.
    Tun(Vec<u8>),
}

/// Contents of an action.
pub enum ActionView {
    Acoustic(Seq<u8>, u8),
    WiFi(Seq<u8>),
    Ethernet(Seq<u8>),
    Tun(Seq<u8>),
}

pub open spec fn action_view(a: RouterAction) -> ActionView {
    match a {
        RouterAction::Acoustic { packet, dst_mac } => ActionView::Acoustic(packet@, dst_mac),
        RouterAction::WiFi(f) => ActionView::WiFi(f@),
        RouterAction::Ethernet(f) => ActionView::Ethernet(f@),
        RouterAction::Tun(p) => ActionView::Tun(p@),
    }
}

pub open spec fn actions_view(v: Seq<RouterAction>) -> Seq<ActionView> {
    v.map_values(|a: RouterAction| action_view(a))
}

/// Where a packet stands while the router handles it.
pub enum PacketState {
    /// Read from an interface.
    Ingress { iface: InterfaceType, raw_data: Vec<u8> },
    /// An IPv4 packet to look up in the routing table.
    Routing { src_ip: [u8; 4], dst_ip: [u8; 4], packet: Vec<u8> },
    /// A packet addressed to the router itself.
    LocalProcess { src_ip: [u8; 4], packet: Vec<u8> },
    /// Ready to go out on an interface.
    Send { out_interface: InterfaceType, payload: Vec<u8>, src_mac: [u8; 6], dst_mac: [u8; 6] },
    /// Dropped, with the reason.
    Dropped { reason: String },
}

/// Contents of a packet state.
pub enum StateView {
    Ingress(InterfaceType, Seq<u8>),
    Routing(Seq<u8>, Seq<u8>, Seq<u8>),
    LocalProcess(Seq<u8>, Seq<u8>),
    Send(InterfaceType, Seq<u8>, Seq<u8>, Seq<u8>),
    Dropped(Seq<char>),
}

pub open spec fn state_view(s: PacketState) -> StateView {
    match s {
        PacketState::Ingress { iface, raw_data } => StateView::Ingress(iface, raw_data@),
        PacketState::Routing { src_ip, dst_ip, packet } => StateView::Routing(src_ip@, dst_ip@, packet@),
        PacketState::LocalProcess { src_ip, packet } => StateView::LocalProcess(src_ip@, packet@),
        PacketState::Send { out_interface, payload, src_mac, dst_mac } => StateView::Send(
            out_interface,
            payload@,
            src_mac@,
            dst_mac@,
        ),
        PacketState::Dropped { reason } => StateView::Dropped(reason@),
    }
}

pub open spec fn state_view_opt(s: Option<PacketState>) -> Option<StateView> {
    match s {
        Some(x) => Some(state_view(x)),
        None => None,
    }
}

/// Packets of a state are no longer than an IPv4 packet can be.
pub open spec fn state_fits(s: StateView) -> bool {
    match s {
        StateView::Ingress(_, p) => p.len() <= 65535,
        StateView::Routing(_, _, p) => p.len() <= 65535,
        StateView::LocalProcess(_, p) => p.len() <= 65535,
        _ => true,
    }
}

/// Steps still to go from a state at most.
pub open spec fn state_rank(s: StateView) -> int {
    match s {
        StateView::Ingress(..) => 4,
        StateView::LocalProcess(..) => 3,
        StateView::Routing(..) => 2,
        _ => 1,
    }
}

/// The all-zero MAC address.
pub open spec fn zero_mac() -> Seq<u8> {
    seq![0u8, 0u8, 0u8, 0u8, 0u8, 0u8]
}

/// The broadcast MAC address.
pub open spec fn broadcast_mac() -> Seq<u8> {
    seq![0xffu8, 0xffu8, 0xffu8, 0xffu8, 0xffu8, 0xffu8]
}

/// The MAC of an acoustic node: five zero bytes, then its one-byte address.
pub open spec fn acoustic_node_mac(m: u8) -> Seq<u8> {
    seq![0u8, 0u8, 0u8, 0u8, 0u8, m]
}

/// An Ethernet II frame carrying an IPv4 packet.
pub open spec fn ethernet_frame(src_mac: Seq<u8>, dst_mac: Seq<u8>, payload: Seq<u8>) -> Seq<u8> {
    dst_mac + src_mac + seq![0x08u8, 0x00u8] + payload
}

/// `p` with the four bytes from `at` replaced by `ip`.
pub open spec fn with_octets(p: Seq<u8>, at: int, ip: Seq<u8>) -> Seq<u8> {
    p.update(at, ip[0]).update(at + 1, ip[1]).update(at + 2, ip[2]).update(at + 3, ip[3])
}

/// `ip` is one of the router's own addresses.
pub open spec fn is_own_address(c: RouterConfig, ip: Seq<u8>) -> bool {
    ip == c.acoustic_ip@ || ip == c.wifi_ip@ || ip == c.eth_ip@
}

/// The pseudo header that the TCP and UDP checksums cover.
pub open spec fn pseudo_header(src: Seq<u8>, dst: Seq<u8>, protocol: u8, l4_len: nat) -> Seq<u8> {
    src + dst + seq![0u8, protocol] + be16(l4_len as u16)
}

/// Offset of the checksum in a TCP (6) or UDP (17) header.
pub open spec fn l4_checksum_offset(protocol: u8) -> int {
    if protocol == 6 {
        16
    } else {
        6
    }
}

/// The packet with the checksum of its TCP or UDP header recomputed for
/// the addresses `src` and `dst`; unchanged when it is neither TCP nor UDP
/// or too short to hold the header's checksum.
pub open spec fn l4_checksum_recomputed(packet: Seq<u8>, src: Seq<u8>, dst: Seq<u8>, protocol: u8) -> Seq<u8> {
    let ihl = header_len(packet) as int;
    let at = ihl + l4_checksum_offset(protocol);
    if packet.len() < ihl {
        packet
    } else if !((protocol == 6 && packet.len() - ihl >= 18) || (protocol == 17 && packet.len() - ihl
        >= 8)) {
        packet
    } else {
        let z = packet.update(at, 0u8).update(at + 1, 0u8);
        let c = internet_checksum(
            pseudo_header(src, dst, protocol, (packet.len() - ihl) as nat) + z.subrange(
                ihl,
                z.len() as int,
            ),
        );
        z.update(at, be16(c)[0]).update(at + 1, be16(c)[1])
    }
}

/// The bytes of `p` after its IPv4 header.
pub open spec fn transport_part(p: Seq<u8>) -> Seq<u8> {
    p.subrange(header_len(p) as int, p.len() as int)
}

/// The bytes of `p` from position `k` on.
pub open spec fn bytes_from(p: Seq<u8>, k: int) -> Seq<u8> {
    p.subrange(k, p.len() as int)
}

/// The TTL of a forwarded packet: one less than the packet's.
pub open spec fn lowered_ttl(p: Seq<u8>) -> u8 {
    (p[8] - 1) as u8
}

/// What the router makes of a held-back packet once the MAC of its next
/// hop is known.
pub open spec fn release_action(p: PendingView, mac: Seq<u8>) -> Seq<ActionView> {
    match p.interface {
        InterfaceType::WiFi => seq![ActionView::WiFi(ethernet_frame(p.src_mac, mac, p.packet))],
        InterfaceType::Ethernet => seq![ActionView::Ethernet(ethernet_frame(p.src_mac, mac, p.packet))],
        InterfaceType::Acoustic => seq![ActionView::Acoustic(p.packet, mac[5])],
        InterfaceType::Tun => Seq::empty(),
    }
}

/// The actions releasing held-back packets, in the order they were held.
pub open spec fn release_actions(ps: Seq<PendingView>, mac: Seq<u8>) -> Seq<ActionView>
    decreases ps.len(),
{
    if ps.len() == 0 {
        Seq::empty()
    } else {
        release_actions(ps.drop_last(), mac) + release_action(ps.last(), mac)
    }
}

/// One step of the router: its new state, the actions it takes, and where
/// the packet goes next.
pub struct RouterStep {
    pub router: RouterView,
    pub actions: Seq<ActionView>,
    pub next: Option<StateView>,
}

/// The raw data starts like an ARP packet for Ethernet hardware.
pub open spec fn is_arp_frame(raw: Seq<u8>) -> bool {
    raw.len() >= 28 && raw[0] == 0 && raw[1] == 1
}

/// An Ethernet/IPv4 ARP reply.
pub open spec fn is_arp_reply(raw: Seq<u8>) -> bool {
    &&& be16_value(raw[2], raw[3]) == 0x0800
    &&& raw[4] == 6
    &&& raw[5] == 4
    &&& be16_value(raw[6], raw[7]) == 2
}

/// An ARP packet received on `iface`: a reply teaches the sender's MAC and
/// releases the packets held for its address.
pub open spec fn arp_step(r: RouterView, iface: InterfaceType, raw: Seq<u8>) -> (RouterView, Seq<ActionView>) {
    if is_arp_reply(raw) {
        let mac = raw.subrange(8, 14);
        let ip = raw.subrange(14, 18);
        let key = ip_value(ip);
        let held = if r.pending.contains_key(key) {
            r.pending[key]
        } else {
            Seq::empty()
        };
        (
            RouterView {
                arp: r.arp.insert(arp_key(iface, ip), mac),
                pending: r.pending.remove(key),
                ..r
            },
            release_actions(held, mac),
        )
    } else {
        (r, Seq::empty())
    }
}

/// For an ICMP Echo Request to the router whose payload byte 16 is 0xaa or
/// 0xbb: its identifier, and NODE3 or NODE1 as the new destination.
pub open spec fn traversal_target(c: RouterConfig, raw: Seq<u8>) -> Option<(u16, Seq<u8>)> {
    let l4 = transport_part(raw);
    if raw[9] != 1 || l4.len() < 8 {
        None
    } else {
        let v = icmp_of_bytes(l4);
        if v.icmp_type == IcmpType::EchoRequest && v.payload.len() > 16 {
            if v.payload[16] == 0xaa {
                Some((v.identifier, c.node3_ip@))
            } else if v.payload[16] == 0xbb {
                Some((v.identifier, c.node1_ip@))
            } else {
                None
            }
        } else {
            None
        }
    }
}

/// Why a packet is not forwarded: its header is invalid, or else its TTL
/// expires.
pub open spec fn forward_refusal(raw: Seq<u8>) -> Seq<char> {
    if !ipv4_header_ok(raw) {
        "Invalid IPv4 header: "@ + ipv4_header_error(raw)
    } else {
        "TTL expired"@
    }
}

/// A packet forwarded through the router: TTL lowered by one; an ICMP Echo
/// Request or Reply rebuilt by etherparse, any other packet with its header
/// rewritten. `None` when the header is invalid or the TTL expires.
pub open spec fn forwarded_packet(raw: Seq<u8>) -> Option<Seq<u8>> {
    if !ipv4_header_ok(raw) || raw[8] <= 1 {
        None
    } else {
        let ttl = lowered_ttl(raw);
        let payload = transport_part(raw);
        if raw[9] == 1 && echo_header_ok(payload) {
            let id = be16_value(payload[4], payload[5]);
            let sq = be16_value(payload[6], payload[7]);
            let body = bytes_from(payload, 8);
            if payload[0] == 8 {
                Some(echo_request_packet(raw.subrange(12, 16), raw.subrange(16, 20), ttl, id, sq, body))
            } else {
                Some(echo_reply_packet(raw.subrange(12, 16), raw.subrange(16, 20), ttl, id, sq, body))
            }
        } else {
            Some(ipv4_header_with_ttl(raw, ttl) + payload)
        }
    }
}

/// A packet read from `iface`. Anything read from the acoustic link is
/// copied to TUN first; ARP is handled and consumed; an IPv4 packet for the
/// router goes to local processing unless it is a traversal Echo Request,
/// which is readdressed and routed; any other IPv4 packet is forwarded.
pub open spec fn ingress_step(r: RouterView, iface: InterfaceType, raw: Seq<u8>) -> RouterStep {
    let pre = if iface == InterfaceType::Acoustic {
        seq![ActionView::Tun(raw)]
    } else {
        Seq::empty()
    };
    if is_arp_frame(raw) {
        let (r1, a) = arp_step(r, iface, raw);
        RouterStep { router: r1, actions: pre + a, next: None }
    } else if !ipv4_header_ok(raw) {
        RouterStep { router: r, actions: pre, next: Some(StateView::Dropped("Invalid IP header: "@ + ipv4_header_error(raw))) }
    } else {
        let src = raw.subrange(12, 16);
        let dst = raw.subrange(16, 20);
        if is_own_address(r.config, dst) {
            match traversal_target(r.config, raw) {
                Some((id, nd)) => {
                    let r1 = RouterView {
                        nat: NatView {
                            dnat_sessions: r.nat.dnat_sessions.insert(id),
                            ..r.nat
                        },
                        ..r
                    };
                    let p = checksum_recomputed(with_octets(raw, 16, nd));
                    RouterStep {
                        router: r1,
                        actions: pre,
                        next: Some(
                            if ttl_refused(p) {
                                StateView::Dropped(ttl_refusal(p))
                            } else {
                                StateView::Routing(src, nd, ttl_decremented(p))
                            },
                        ),
                    }
                },
                None => RouterStep {
                    router: r,
                    actions: pre,
                    next: Some(StateView::LocalProcess(src, raw)),
                },
            }
        } else {
            RouterStep {
                router: r,
                actions: pre,
                next: Some(
                    match forwarded_packet(raw) {
                        Some(p) => StateView::Routing(src, dst, p),
                        None => StateView::Dropped(forward_refusal(raw)),
                    },
                ),
            }
        }
    }
}

/// NAT of a packet addressed to the router's Ethernet address: an Echo
/// Reply whose identifier was registered, or a TCP/UDP segment to a
/// registered port, is readdressed to the inside host (checksums
/// recomputed). The new destination and packet, or `None`.
pub open spec fn inbound_nat(r: RouterView, packet: Seq<u8>) -> Option<(Seq<u8>, Seq<u8>)> {
    if !ipv4_header_ok(packet) || packet.subrange(16, 20) != r.config.eth_ip@ {
        None
    } else {
        let l4 = transport_part(packet);
        let src = packet.subrange(12, 16);
        if packet[9] == 1 {
            if l4.len() >= 8 && icmp_of_bytes(l4).icmp_type == IcmpType::EchoReply
                && r.nat.echo_sources.contains_key(icmp_of_bytes(l4).identifier) {
                let o = r.nat.echo_sources[icmp_of_bytes(l4).identifier];
                Some((o, checksum_recomputed(with_octets(packet, 16, o))))
            } else {
                None
            }
        } else if packet[9] == 6 || packet[9] == 17 {
            let header_ok = if packet[9] == 6 {
                tcp_header_ok(l4)
            } else {
                l4.len() >= 8
            };
            let port = be16_value(l4[2], l4[3]);
            if header_ok && r.sessions.contains_key(port) {
                let o = r.sessions[port];
                Some(
                    (
                        o,
                        l4_checksum_recomputed(
                            checksum_recomputed(with_octets(packet, 16, o)),
                            src,
                            o,
                            packet[9],
                        ),
                    ),
                )
            } else {
                None
            }
        } else {
            None
        }
    }
}

/// A packet for the router: NAT back to an inside host, or delivery to
/// TUN when it is addressed to the acoustic address; else nothing.
pub open spec fn local_step(r: RouterView, src: Seq<u8>, packet: Seq<u8>) -> RouterStep {
    match inbound_nat(r, packet) {
        Some((nd, p)) => RouterStep {
            router: r,
            actions: Seq::empty(),
            next: Some(StateView::Routing(src, nd, p)),
        },
        None => RouterStep {
            router: r,
            actions: Seq::empty(),
            next: if ipv4_header_ok(packet) && packet.subrange(16, 20) == r.config.acoustic_ip@ {
                Some(StateView::Send(InterfaceType::Tun, packet, zero_mac(), zero_mac()))
            } else {
                None
            },
        },
    }
}

/// Next hop and interface for `dst`: the first matching route (its next
/// hop, or `dst` itself when directly connected), else the gateway on
/// Ethernet.
pub open spec fn route_choice(r: RouterView, dst: Seq<u8>) -> (Seq<u8>, InterfaceType) {
    match first_route(r.routes, dst, 0) {
        Some((Some(h), i)) => (h, i),
        Some((None, i)) => (dst, i),
        None => (r.config.gateway_ip@, InterfaceType::Ethernet),
    }
}

/// Source NAT of a packet leaving on Ethernet (addressed to `dst`): an Echo
/// Request is registered and, with a known gateway MAC, rebuilt from the
/// router's address and sent to the gateway at once; a traversal Echo Reply,
/// a TCP or a UDP packet gets the router's address as source (a TCP/UDP
/// session is registered). The new router state, the packet, and the state
/// it goes to at once, if any.
pub open spec fn source_nat(r: RouterView, packet: Seq<u8>, dst: Seq<u8>) -> (RouterView, Seq<u8>, Option<StateView>) {
    let l4 = transport_part(packet);
    let src = packet.subrange(12, 16);
    let c = r.config;
    let masqueraded = checksum_recomputed(with_octets(packet, 12, c.eth_ip@));
    if packet[9] == 1 {
        if l4.len() >= 8 && icmp_of_bytes(l4).icmp_type == IcmpType::EchoRequest {
            let v = icmp_of_bytes(l4);
            let r1 = RouterView {
                nat: NatView { echo_sources: r.nat.echo_sources.insert(v.identifier, src), ..r.nat },
                ..r
            };
            match c.gateway_mac {
                Some(gm) => (
                    r1,
                    packet,
                    Some(
                        StateView::Send(
                            InterfaceType::Ethernet,
                            echo_request_packet(
                                c.eth_ip@,
                                dst,
                                60,
                                v.identifier,
                                v.sequence_number,
                                bytes_from(l4, 8),
                            ),
                            c.eth_mac@,
                            gm@,
                        ),
                    ),
                ),
                None => (r1, packet, None),
            }
        } else if l4.len() >= 8 && icmp_of_bytes(l4).icmp_type == IcmpType::EchoReply
            && r.nat.dnat_sessions.contains(icmp_of_bytes(l4).identifier) {
            (r, masqueraded, None)
        } else {
            (r, packet, None)
        }
    } else if packet[9] == 6 || packet[9] == 17 {
        let header_ok = if packet[9] == 6 {
            tcp_header_ok(l4)
        } else {
            l4.len() >= 8
        };
        if header_ok {
            (
                RouterView { sessions: r.sessions.insert(be16_value(l4[0], l4[1]), src), ..r },
                l4_checksum_recomputed(masqueraded, c.eth_ip@, dst, packet[9]),
                None,
            )
        } else {
            (r, packet, None)
        }
    } else {
        (r, packet, None)
    }
}

/// Source MAC of frames leaving on `iface`.
pub open spec fn interface_mac(c: RouterConfig, iface: InterfaceType) -> Seq<u8> {
    match iface {
        InterfaceType::WiFi => c.wifi_mac@,
        InterfaceType::Acoustic => acoustic_node_mac(c.acoustic_mac),
        InterfaceType::Ethernet => c.eth_mac@,
        InterfaceType::Tun => zero_mac(),
    }
}

/// Source MAC and address of ARP requests on `iface`.
pub open spec fn arp_source(c: RouterConfig, iface: InterfaceType) -> (Seq<u8>, Seq<u8>) {
    match iface {
        InterfaceType::WiFi => (c.wifi_mac@, c.wifi_ip@),
        InterfaceType::Ethernet => (c.eth_mac@, c.eth_ip@),
        InterfaceType::Acoustic => (acoustic_node_mac(c.acoustic_mac), c.acoustic_ip@),
        InterfaceType::Tun => (zero_mac(), seq![0u8, 0u8, 0u8, 0u8]),
    }
}

/// Hand the packet to the next hop `nh` on `iface`: with its MAC known, send
/// it; else hold it back and, for the first packet held for `nh`, send an
/// ARP request on WiFi or Ethernet.
pub open spec fn next_hop_step(r: RouterView, packet: Seq<u8>, nh: Seq<u8>, iface: InterfaceType) -> RouterStep {
    let dm = if iface == InterfaceType::Tun {
        Some(zero_mac())
    } else {
        arp_lookup(r.arp, iface, nh)
    };
    match dm {
        Some(m) => RouterStep {
            router: r,
            actions: Seq::empty(),
            next: Some(StateView::Send(iface, packet, interface_mac(r.config, iface), m)),
        },
        None => {
            let (sm, sip) = arp_source(r.config, iface);
            if sm == zero_mac() {
                RouterStep { router: r, actions: Seq::empty(), next: None }
            } else {
                let key = ip_value(nh);
                let q = (if r.pending.contains_key(key) {
                    r.pending[key]
                } else {
                    Seq::empty()
                }).push(PendingView { interface: iface, packet, src_mac: sm });
                let request = arp_request_frame(sm, broadcast_mac(), sip, zero_mac(), nh);
                RouterStep {
                    router: RouterView { pending: r.pending.insert(key, q), ..r },
                    actions: if q.len() == 1 && iface == InterfaceType::WiFi {
                        seq![ActionView::WiFi(request)]
                    } else if q.len() == 1 && iface == InterfaceType::Ethernet {
                        seq![ActionView::Ethernet(request)]
                    } else {
                        Seq::empty()
                    },
                    next: None,
                }
            }
        },
    }
}

/// An IPv4 packet to route towards `dst`.
pub open spec fn routing_step(r: RouterView, dst: Seq<u8>, packet: Seq<u8>) -> RouterStep {
    if !ipv4_header_ok(packet) {
        RouterStep {
            router: r,
            actions: Seq::empty(),
            next: Some(StateView::Dropped("Invalid IP header in Routing state"@)),
        }
    } else {
        let (nh, iface) = route_choice(r, dst);
        let (r1, p1, at_once) = if iface == InterfaceType::Ethernet {
            source_nat(r, packet, dst)
        } else {
            (r, packet, None)
        };
        match at_once {
            Some(st) => RouterStep { router: r1, actions: Seq::empty(), next: Some(st) },
            None => next_hop_step(r1, p1, nh, iface),
        }
    }
}

/// What sending a packet on an interface hands over: the acoustic link
/// gets the packet (and TUN a copy), WiFi and Ethernet get it in an
/// Ethernet frame, TUN gets it as it is.
pub open spec fn send_actions(out: InterfaceType, payload: Seq<u8>, src_mac: Seq<u8>, dst_mac: Seq<u8>) -> Seq<ActionView> {
    match out {
        InterfaceType::Acoustic => seq![ActionView::Acoustic(payload, dst_mac[5]), ActionView::Tun(payload)],
        InterfaceType::WiFi => seq![ActionView::WiFi(ethernet_frame(src_mac, dst_mac, payload))],
        InterfaceType::Ethernet => seq![ActionView::Ethernet(ethernet_frame(src_mac, dst_mac, payload))],
        InterfaceType::Tun => seq![ActionView::Tun(payload)],
    }
}

/// One step from state `s`.
pub open spec fn router_step(r: RouterView, s: StateView) -> RouterStep {
    match s {
        StateView::Ingress(iface, raw) => ingress_step(r, iface, raw),
        StateView::LocalProcess(src, p) => local_step(r, src, p),
        StateView::Routing(_, dst, p) => routing_step(r, dst, p),
        StateView::Send(out, p, sm, dm) => RouterStep {
            router: r,
            actions: send_actions(out, p, sm, dm),
            next: None,
        },
        StateView::Dropped(_) => RouterStep { router: r, actions: Seq::empty(), next: None },
    }
}

/// Steps from `s` until the packet is done (at most `fuel` of them): the
/// router's final state and all actions, in order.
pub open spec fn router_run(r: RouterView, s: StateView, fuel: nat) -> (RouterView, Seq<ActionView>)
    decreases fuel,
{
    if fuel == 0 {
        (r, Seq::empty())
    } else {
        let st = router_step(r, s);
        match st.next {
            None => (st.router, st.actions),
            Some(n) => {
                let (r2, a2) = router_run(st.router, n, (fuel - 1) as nat);
                (r2, st.actions + a2)
            },
        }
    }
}

/// Handling a packet read from `iface`.
pub open spec fn packet_handled(r: RouterView, packet: Seq<u8>, iface: InterfaceType) -> (RouterView, Seq<ActionView>) {
    router_run(r, StateView::Ingress(iface, packet), 4)
}


/// Write `ip` over the four bytes of `p` from `at`.
fn set_octets(p: &mut Vec<u8>, at: usize, ip: &[u8; 4])
    requires
        at + 4 <= old(p)@.len(),
        old(p)@.len() <= 65535,
    ensures
        final(p)@ == with_octets(old(p)@, at as int, ip@),
{
    p.set(at, ip[0]);
    p.set(at + 1, ip[1]);
    p.set(at + 2, ip[2]);
    p.set(at + 3, ip[3]);
}

/// Recompute the TCP or UDP checksum of `packet` over the pseudo header
/// for `src_ip` and `dst_ip`, the transport header and the payload (needed
/// when NAT changes an address). Packets of other protocols, and segments
/// too short to hold the checksum, are left as they are.
pub fn recalculate_l4_checksum(packet: &mut Vec<u8>, src_ip: &[u8; 4], dst_ip: &[u8; 4], protocol: u8)
    requires
        old(packet)@.len() >= 1,
        old(packet)@.len() <= 65535,
    ensures
        final(packet)@ == l4_checksum_recomputed(old(packet)@, src_ip@, dst_ip@, protocol),
{
    let ihl: usize = ((packet[0] & 0x0Fu8) as usize) * 4;
    if packet.len() < ihl {
        return;
    }
    let l4_len: usize = packet.len() - ihl;
    let at: usize;
    if protocol == 6 {
        if l4_len >= 18 {
            at = ihl + 16;
        } else {
            return;
        }
    } else if protocol == 17 {
        if l4_len >= 8 {
            at = ihl + 6;
        } else {
            return;
        }
    } else {
        return;
    }
    packet.set(at, 0);
    packet.set(at + 1, 0);
    let ghost z = packet@;
    let mut sum_input: Vec<u8> = Vec::new();
    sum_input.push(src_ip[0]);
    sum_input.push(src_ip[1]);
    sum_input.push(src_ip[2]);
    sum_input.push(src_ip[3]);
    sum_input.push(dst_ip[0]);
    sum_input.push(dst_ip[1]);
    sum_input.push(dst_ip[2]);
    sum_input.push(dst_ip[3]);
    sum_input.push(0);
    sum_input.push(protocol);
    push_be16(&mut sum_input, l4_len as u16);
    append_bytes(&mut sum_input, slice_subrange(packet.as_slice(), ihl, packet.len()));
    assert(sum_input@ =~= pseudo_header(src_ip@, dst_ip@, protocol, l4_len as nat) + z.subrange(
        ihl as int,
        z.len() as int,
    ));
    let c = checksum(sum_input.as_slice());
    proof {
        crate::bytes::lemma_be16_split(c);
    }
    packet.set(at, (c >> 8u16) as u8);
    packet.set(at + 1, (c & 0xFFu16) as u8);
}

/// Append an action.
fn emit(actions: &mut Vec<RouterAction>, a: RouterAction)
    ensures
        actions_view(final(actions)@) == actions_view(old(actions)@).push(action_view(a)),
{
    let ghost a_view = action_view(a);
    actions.push(a);
    assert(actions_view(actions@) =~= actions_view(old(actions)@).push(a_view));
}

impl Router {
    /// A router with the directly connected acoustic, WiFi, Ethernet and
    /// TUN networks of `config`, the static ARP entries, and empty NAT
    /// state.
    pub fn new(config: RouterConfig) -> (r: Self)
        ensures
            r@.config == config,
            initial_routes(config, r@.routes),
            r@.arp == initial_arp(),
            r@.nat.echo_sources == Map::<u16, Seq<u8>>::empty(),
            r@.nat.dnat_sessions == Set::<u16>::empty(),
            r@.sessions == Map::<u16, Seq<u8>>::empty(),
            r@.pending == Map::<u32, Seq<PendingView>>::empty(),
    {
        let mut routing_table = RoutingTable::new();
        routing_table.add_direct_network(
            config.acoustic_network,
            config.acoustic_netmask,
            InterfaceType::Acoustic,
        );
        routing_table.add_direct_network(config.wifi_network, config.wifi_netmask, InterfaceType::WiFi);
        let eth_net = mask_octets(&config.eth_ip, &config.eth_netmask);
        routing_table.add_direct_network(eth_net, config.eth_netmask, InterfaceType::Ethernet);
        let tun_net = mask_octets(&config.tun_ip, &config.tun_netmask);
        routing_table.add_direct_network(tun_net, config.tun_netmask, InterfaceType::Tun);
        let r = Router {
            config,
            routing_table,
            arp_table: ArpTable::new(),
            nat_table: NatTable::new(),
            nat_sessions: HashMap::new(),
            pending_packets: HashMap::new(),
        };
        assert(r@.sessions =~= Map::<u16, Seq<u8>>::empty());
        assert(r@.pending =~= Map::<u32, Seq<PendingView>>::empty());
        r
    }

    /// The configuration.
    pub fn config(&self) -> (c: &RouterConfig)
        ensures
            *c == self@.config,
    {
        &self.config
    }

    /// Add a static ARP entry (e.g. for the gateway).
    pub fn add_arp_entry(&mut self, ip: [u8; 4], mac: [u8; 6], interface: InterfaceType)
        ensures
            final(self)@ == (RouterView {
                arp: old(self)@.arp.insert(arp_key(interface, ip@), mac@),
                ..old(self)@
            }),
    {
        self.arp_table.add_entry(ip, mac, interface);
    }

    /// Build an Ethernet II frame carrying an IPv4 packet.
    pub fn build_ethernet_frame(&self, src_mac: [u8; 6], dest_mac: [u8; 6], ip_packet: &[u8]) -> (frame: Vec<u8>)
        ensures
            frame@ == ethernet_frame(src_mac@, dest_mac@, ip_packet@),
    {
        let mut frame: Vec<u8> = Vec::new();
        append_bytes(&mut frame, dest_mac.as_slice());
        append_bytes(&mut frame, src_mac.as_slice());
        frame.push(0x08);
        frame.push(0x00);
        append_bytes(&mut frame, ip_packet);
        assert(frame@ =~= ethernet_frame(src_mac@, dest_mac@, ip_packet@));
        frame
    }

    /// Split an Ethernet II frame carrying IPv4 or ARP into its payload,
    /// source MAC, destination MAC and EtherType; `None` for a frame too
    /// short for the header or of another EtherType.
    pub fn parse_ethernet_frame(frame: &[u8]) -> (r: Option<(Vec<u8>, [u8; 6], [u8; 6], u16)>)
        ensures
            r is Some <==> frame@.len() >= 14 && (be16_value(frame@[12], frame@[13]) == 0x0800
                || be16_value(frame@[12], frame@[13]) == 0x0806),
            r matches Some(t) ==> {
                &&& t.0@ == frame@.subrange(14, frame@.len() as int)
                &&& t.1@ == frame@.subrange(6, 12)
                &&& t.2@ == frame@.subrange(0, 6)
                &&& t.3 == be16_value(frame@[12], frame@[13])
            },
    {
        let (source, destination) = match ethernet_addresses(frame) {
            Some(a) => a,
            None => return None,
        };
        if frame.len() < 14 {
            return None;
        }
        let ethertype = read_be16(frame[12], frame[13]);
        if ethertype != 0x0800 && ethertype != 0x0806 {
            return None;
        }
        Some((slice_to_vec(slice_subrange(frame, 14, frame.len())), source, destination, ethertype))
    }

    /// Whether `dest_ip` is one of the router's own addresses.
    pub fn is_for_us(&self, dest_ip: &[u8; 4]) -> (b: bool)
        ensures
            b == is_own_address(self@.config, dest_ip@),
    {
        let b = crate::bytes::octets_equal(dest_ip, &self.config.acoustic_ip)
            || crate::bytes::octets_equal(dest_ip, &self.config.wifi_ip)
            || crate::bytes::octets_equal(dest_ip, &self.config.eth_ip);
        proof {
            if dest_ip@ == self@.config.acoustic_ip@ {
                assert(*dest_ip =~= self.config.acoustic_ip);
            }
            if dest_ip@ == self@.config.wifi_ip@ {
                assert(*dest_ip =~= self.config.wifi_ip);
            }
            if dest_ip@ == self@.config.eth_ip@ {
                assert(*dest_ip =~= self.config.eth_ip);
            }
        }
        b
    }

    /// An Ethernet frame holding a broadcast ARP request from `source_mac`
    /// and `source_ip` for the MAC of `target_ip`.
    pub fn prepare_arp_request(&self, source_mac: [u8; 6], source_ip: [u8; 4], target_ip: [u8; 4]) -> (frame: Vec<u8>)
        ensures
            frame@ == arp_request_frame(source_mac@, broadcast_mac(), source_ip@, zero_mac(), target_ip@),
    {
        let broadcast: [u8; 6] = [0xff, 0xff, 0xff, 0xff, 0xff, 0xff];
        let unknown: [u8; 6] = [0, 0, 0, 0, 0, 0];
        assert(broadcast@ =~= broadcast_mac());
        assert(unknown@ =~= zero_mac());
        build_arp_request(source_mac, broadcast, source_ip, unknown, target_ip)
    }

    /// Lower the TTL of a packet to forward and rebuild it: an ICMP Echo
    /// Request or Reply is rebuilt from its fields, any other packet gets
    /// its IPv4 header rewritten (checksum recomputed).
    pub fn process_packet_with_etherparse(packet_data: &[u8]) -> (r: Result<Vec<u8>, String>)
        requires
            packet_data@.len() <= 65535,
        ensures
            match forwarded_packet(packet_data@) {
                Some(p) => r matches Ok(v) && v@ == p,
                None => r matches Err(e) && e@ == forward_refusal(packet_data@),
            },
            r matches Ok(v) ==> v@.len() <= packet_data@.len(),
            r matches Ok(v) ==> {
                &&& ipv4_header_ok(v@)
                &&& v@[8] == packet_data@[8] - 1
                &&& v@[9] == packet_data@[9]
                &&& v@.subrange(12, 20) == packet_data@.subrange(12, 20)
            },
            r matches Ok(v) ==> (packet_data@[9] == 1 && echo_header_ok(transport_part(packet_data@))
                ==> {
                let m = transport_part(packet_data@);
                &&& v@.len() == 20 + m.len()
                &&& v@[20] == m[0]
                &&& v@[21] == m[1]
                &&& v@.subrange(24, 28) == m.subrange(4, 8)
                &&& v@.subrange(28, v@.len() as int) == m.subrange(8, m.len() as int)
            }),
            r matches Ok(v) ==> (!(packet_data@[9] == 1 && echo_header_ok(transport_part(packet_data@)))
                ==> {
                &&& v@.len() == packet_data@.len()
                &&& transport_part(v@) == transport_part(packet_data@)
            }),
    {
        let fields = match ipv4_header_fields(packet_data) {
            Some(f) => f,
            None => {
                let detail = ipv4_header_error_text(packet_data);
                return Err("Invalid IPv4 header: ".to_owned().concat(detail.as_str()));
            },
        };
        let ttl = packet_data[8];
        if ttl <= 1 {
            return Err("TTL expired".to_owned());
        }
        let new_ttl = ttl - 1;
        let payload = slice_subrange(packet_data, fields.header_len, packet_data.len());
        if fields.protocol == 1 {
            match echo_header_fields(payload) {
                Some(echo) => {
                    let body = slice_subrange(payload, 8, payload.len());
                    if echo.request {
                        let built = build_echo_request(
                            fields.source,
                            fields.destination,
                            new_ttl,
                            echo.identifier,
                            echo.sequence,
                            body,
                        );
                        proof {
                            lemma_forwarded_echo_message(payload@, built@, echo.identifier, echo.sequence, body@);
                            lemma_basic_header_len(built@);
                            assert(built@.subrange(12, 20) =~= built@.subrange(12, 16) + built@.subrange(16, 20));
                            assert(packet_data@.subrange(12, 20) =~= packet_data@.subrange(12, 16)
                                + packet_data@.subrange(16, 20));
                        }
                        return Ok(built);
                    } else {
                        let built = build_echo_reply(
                            fields.source,
                            fields.destination,
                            new_ttl,
                            echo.identifier,
                            echo.sequence,
                            body,
                        );
                        proof {
                            lemma_forwarded_echo_message(payload@, built@, echo.identifier, echo.sequence, body@);
                            lemma_basic_header_len(built@);
                            assert(built@.subrange(12, 20) =~= built@.subrange(12, 16) + built@.subrange(16, 20));
                            assert(packet_data@.subrange(12, 20) =~= packet_data@.subrange(12, 16)
                                + packet_data@.subrange(16, 20));
                        }
                        return Ok(built);
                    }
                },
                None => {},
            }
        }
        let mut result = rewrite_ipv4_header(packet_data, new_ttl);
        let ghost header = result@;
        append_bytes(&mut result, payload);
        proof {
            assert(transport_part(result@) =~= payload@);
            assert(result@.subrange(12, 20) =~= header.subrange(12, 20));
            assert(header.subrange(12, 20) =~= header.subrange(12, header_len(packet_data@) as int).subrange(0, 8));
            assert(packet_data@.subrange(12, 20) =~= packet_data@.subrange(12, header_len(packet_data@) as int).subrange(0, 8));
        }
        Ok(result)
    }
}


/// The big-endian bytes of a field value read from two bytes are those
/// two bytes.
proof fn lemma_be16_of_value(hi: u8, lo: u8)
    ensures
        be16(be16_value(hi, lo)) == seq![hi, lo],
{
    let v = be16_value(hi, lo);
    assert(v == hi * 256 + lo);
    vstd::arithmetic::div_mod::lemma_fundamental_div_mod_converse(v as int, 256, hi as int, lo as int);
    assert(be16(v) =~= seq![hi, lo]);
}

/// The Echo message etherparse builds around a forwarded message's
/// identifier, sequence number and body carries that message's bytes from
/// byte 4 on.
proof fn lemma_forwarded_echo_message(m: Seq<u8>, built: Seq<u8>, id: u16, sq: u16, body: Seq<u8>)
    requires
        m.len() >= 8,
        id == be16_value(m[4], m[5]),
        sq == be16_value(m[6], m[7]),
        body == m.subrange(8, m.len() as int),
        built.len() == 28 + body.len(),
        built.subrange(24, 26) == be16(id),
        built.subrange(26, 28) == be16(sq),
        built.skip(28) == body,
    ensures
        built.subrange(24, 28) == m.subrange(4, 8),
        built.subrange(28, built.len() as int) == m.subrange(8, m.len() as int),
{
    lemma_be16_of_value(m[4], m[5]);
    lemma_be16_of_value(m[6], m[7]);
    assert(built.subrange(24, 28) =~= built.subrange(24, 26) + built.subrange(26, 28));
    assert(m.subrange(4, 8) =~= seq![m[4], m[5], m[6], m[7]]);
    assert(built.subrange(28, built.len() as int) =~= built.skip(28));
}

/// A header whose first byte is 0x45 is 20 bytes long.
proof fn lemma_basic_header_len(p: Seq<u8>)
    requires
        p.len() > 0,
        p[0] == 0x45,
    ensures
        header_len(p) == 20,
{
    let b = p[0];
    assert(b & 0x0Fu8 == 5u8) by (bit_vector)
        requires
            b == 0x45u8,
    ;
}

/// Hand held-back packets to their interfaces, now that the next hop's MAC
/// is known.
fn release(packets: &Vec<PendingPacket>, mac: [u8; 6], actions: &mut Vec<RouterAction>)
    ensures
        actions_view(final(actions)@) == actions_view(old(actions)@) + release_actions(
            packets@.map_values(|p: PendingPacket| pending_view(p)),
            mac@,
        ),
{
    let ghost pv = packets@.map_values(|p: PendingPacket| pending_view(p));
    let mut i: usize = 0;
    assert(release_actions(pv.subrange(0, 0), mac@) =~= Seq::<ActionView>::empty());
    assert(actions_view(actions@) =~= actions_view(old(actions)@) + release_actions(
        pv.subrange(0, 0),
        mac@,
    ));
    while i < packets.len()
        invariant
            i <= packets@.len(),
            pv == packets@.map_values(|p: PendingPacket| pending_view(p)),
            actions_view(actions@) == actions_view(old(actions)@) + release_actions(
                pv.subrange(0, i as int),
                mac@,
            ),
        decreases packets.len() - i,
    {
        let pkt = &packets[i];
        let ghost before = actions_view(actions@);
        assert(pv.subrange(0, i + 1).drop_last() =~= pv.subrange(0, i as int));
        assert(pv.subrange(0, i + 1).last() == pending_view(*pkt));
        match pkt.interface {
            InterfaceType::WiFi => {
                let mut frame: Vec<u8> = Vec::new();
                append_bytes(&mut frame, mac.as_slice());
                append_bytes(&mut frame, pkt.src_mac.as_slice());
                frame.push(0x08);
                frame.push(0x00);
                append_bytes(&mut frame, pkt.packet.as_slice());
                assert(frame@ =~= ethernet_frame(pkt.src_mac@, mac@, pkt.packet@));
                emit(actions, RouterAction::WiFi(frame));
            },
            InterfaceType::Ethernet => {
                let mut frame: Vec<u8> = Vec::new();
                append_bytes(&mut frame, mac.as_slice());
                append_bytes(&mut frame, pkt.src_mac.as_slice());
                frame.push(0x08);
                frame.push(0x00);
                append_bytes(&mut frame, pkt.packet.as_slice());
                assert(frame@ =~= ethernet_frame(pkt.src_mac@, mac@, pkt.packet@));
                emit(actions, RouterAction::Ethernet(frame));
            },
            InterfaceType::Acoustic => {
                emit(
                    actions,
                    RouterAction::Acoustic {
                        packet: slice_to_vec(pkt.packet.as_slice()),
                        dst_mac: mac[5],
                    },
                );
            },
            InterfaceType::Tun => {},
        }
        assert(actions_view(actions@) =~= before + release_action(pending_view(*pkt), mac@));
        i += 1;
    }
    assert(pv.subrange(0, packets@.len() as int) =~= pv);
}

impl Router {
    /// A packet read from `iface` (see `ingress_step`).
    fn ingress(&mut self, iface: InterfaceType, raw: Vec<u8>, actions: &mut Vec<RouterAction>) -> (next: Option<PacketState>)
        requires
            raw@.len() <= 65535,
        ensures
            final(self)@ == ingress_step(old(self)@, iface, raw@).router,
            actions_view(final(actions)@) == actions_view(old(actions)@) + ingress_step(
                old(self)@,
                iface,
                raw@,
            ).actions,
            state_view_opt(next) == ingress_step(old(self)@, iface, raw@).next,
            next matches Some(n) ==> state_fits(state_view(n)),
    {
        let ghost r0 = self@;
        let ghost acts0 = actions_view(actions@);
        if iface == InterfaceType::Acoustic {
            emit(actions, RouterAction::Tun(slice_to_vec(raw.as_slice())));
        }
        let ghost pre = if iface == InterfaceType::Acoustic {
            seq![ActionView::Tun(raw@)]
        } else {
            Seq::<ActionView>::empty()
        };
        assert(actions_view(actions@) =~= acts0 + pre);
        if raw.len() >= 28 && raw[0] == 0 && raw[1] == 1 {
            let hw_type = read_be16(raw[0], raw[1]);
            let proto_type = read_be16(raw[2], raw[3]);
            let hw_len = raw[4];
            let proto_len = raw[5];
            let opcode = read_be16(raw[6], raw[7]);
            if hw_type == 1 && proto_type == 0x0800 && hw_len == 6 && proto_len == 4 && opcode == 2 {
                let sender_mac: [u8; 6] = [raw[8], raw[9], raw[10], raw[11], raw[12], raw[13]];
                let sender_ip: [u8; 4] = [raw[14], raw[15], raw[16], raw[17]];
                assert(sender_mac@ =~= raw@.subrange(8, 14));
                assert(sender_ip@ =~= raw@.subrange(14, 18));
                self.arp_table.update(sender_ip, sender_mac, iface);
                let key = ip_number(&sender_ip);
                let buffered = self.pending_packets.remove(&key);
                let ghost acts1 = actions_view(actions@);
                match buffered {
                    Some(packets) => {
                        release(&packets, sender_mac, actions);
                    },
                    None => {
                        assert(release_actions(Seq::<PendingView>::empty(), sender_mac@)
                            =~= Seq::<ActionView>::empty());
                        assert(actions_view(actions@) =~= acts1 + release_actions(
                            Seq::<PendingView>::empty(),
                            sender_mac@,
                        ));
                    },
                }
                assert(self@.pending =~= r0.pending.remove(key));
                assert(actions_view(actions@) =~= acts0 + ingress_step(r0, iface, raw@).actions);
            } else {
                assert(be16_value(0, 1) == 1);
                assert(actions_view(actions@) =~= acts0 + ingress_step(r0, iface, raw@).actions);
            }
            return None;
        }
        let fields = match ipv4_header_fields(raw.as_slice()) {
            Some(f) => f,
            None => {
                let detail = ipv4_header_error_text(raw.as_slice());
                return Some(
                    PacketState::Dropped { reason: "Invalid IP header: ".to_owned().concat(detail.as_str()) },
                );
            },
        };
        if self.is_for_us(&fields.destination) {
            if fields.protocol == 1 {
                let parsed = IcmpPacket::from_bytes(
                    slice_subrange(raw.as_slice(), fields.header_len, raw.len()),
                );
                match parsed {
                    Ok(icmp_packet) => {
                        if icmp_packet.icmp_type == IcmpType::EchoRequest && icmp_packet.payload.len() > 16 {
                            let first_byte = icmp_packet.payload[16];
                            let target = if first_byte == 0xaa {
                                Some(self.config.node3_ip)
                            } else if first_byte == 0xbb {
                                Some(self.config.node1_ip)
                            } else {
                                None
                            };
                            match target {
                                Some(new_dst) => {
                                    self.nat_table.register_dnat_session(icmp_packet.identifier);
                                    let mut packet = slice_to_vec(raw.as_slice());
                                    set_octets(&mut packet, 16, &new_dst);
                                    recalculate_ip_checksum(&mut packet);
                                    match decrement_ttl(&mut packet) {
                                        Ok(_) => {
                                            return Some(
                                                PacketState::Routing {
                                                    src_ip: fields.source,
                                                    dst_ip: new_dst,
                                                    packet,
                                                },
                                            );
                                        },
                                        Err(e) => {
                                            return Some(PacketState::Dropped { reason: e.to_owned() });
                                        },
                                    }
                                },
                                None => {},
                            }
                        }
                    },
                    Err(_) => {},
                }
            }
            return Some(PacketState::LocalProcess { src_ip: fields.source, packet: raw });
        }
        match Self::process_packet_with_etherparse(raw.as_slice()) {
            Ok(packet) => Some(
                PacketState::Routing { src_ip: fields.source, dst_ip: fields.destination, packet },
            ),
            Err(e) => Some(PacketState::Dropped { reason: e }),
        }
    }
}


impl Router {
    /// NAT of a packet addressed to the router's Ethernet address (see
    /// `inbound_nat`): readdresses it in place and returns the inside
    /// destination, or leaves it as it is and returns `None`.
    fn handle_inbound_nat(&self, ip_packet: &mut Vec<u8>) -> (r: Option<[u8; 4]>)
        requires
            old(ip_packet)@.len() <= 65535,
        ensures
            match inbound_nat(self@, old(ip_packet)@) {
                Some((o, p)) => r matches Some(x) && x@ == o && final(ip_packet)@ == p,
                None => r is None && final(ip_packet)@ == old(ip_packet)@,
            },
    {
        let header = match ipv4_header_fields(ip_packet.as_slice()) {
            Some(h) => h,
            None => return None,
        };
        if !crate::bytes::octets_equal(&header.destination, &self.config.eth_ip) {
            proof {
                if ip_packet@.subrange(16, 20) == self@.config.eth_ip@ {
                    assert(header.destination =~= self.config.eth_ip);
                }
            }
            return None;
        }
        assert(ip_packet@.subrange(16, 20) == self@.config.eth_ip@);
        let protocol = header.protocol;
        let ihl = header.header_len;
        let src_ip = header.source;
        if protocol == 1 {
            match IcmpPacket::from_bytes(slice_subrange(ip_packet.as_slice(), ihl, ip_packet.len())) {
                Ok(icmp_packet) => {
                    if icmp_packet.icmp_type == IcmpType::EchoReply {
                        match self.nat_table.translate_echo_reply(icmp_packet.identifier) {
                            Some(original_ip) => {
                                set_octets(ip_packet, 16, &original_ip);
                                recalculate_ip_checksum(ip_packet);
                                return Some(original_ip);
                            },
                            None => {},
                        }
                    }
                },
                Err(_) => {},
            }
        } else if protocol == 6 || protocol == 17 {
            let ports = if protocol == 6 {
                tcp_ports(slice_subrange(ip_packet.as_slice(), ihl, ip_packet.len()))
            } else {
                udp_ports(slice_subrange(ip_packet.as_slice(), ihl, ip_packet.len()))
            };
            match ports {
                Some((_, dst_port)) => {
                    match self.nat_sessions.get(&dst_port) {
                        Some(original) => {
                            let original_ip = *original;
                            set_octets(ip_packet, 16, &original_ip);
                            recalculate_ip_checksum(ip_packet);
                            recalculate_l4_checksum(ip_packet, &src_ip, &original_ip, protocol);
                            return Some(original_ip);
                        },
                        None => {},
                    }
                },
                None => {},
            }
        }
        None
    }

    /// A packet for the router (see `local_step`).
    fn local_process(&self, src_ip: [u8; 4], packet: Vec<u8>) -> (next: Option<PacketState>)
        requires
            packet@.len() <= 65535,
        ensures
            state_view_opt(next) == local_step(self@, src_ip@, packet@).next,
            next matches Some(n) ==> state_fits(state_view(n)),
    {
        let mut packet = packet;
        match self.handle_inbound_nat(&mut packet) {
            Some(new_dest_ip) => {
                return Some(PacketState::Routing { src_ip, dst_ip: new_dest_ip, packet });
            },
            None => {},
        }
        let is_acoustic_dest = match ipv4_header_fields(packet.as_slice()) {
            Some(h) => {
                let b = crate::bytes::octets_equal(&h.destination, &self.config.acoustic_ip);
                proof {
                    if packet@.subrange(16, 20) == self@.config.acoustic_ip@ {
                        assert(h.destination =~= self.config.acoustic_ip);
                    }
                }
                b
            },
            None => false,
        };
        assert(is_acoustic_dest == (ipv4_header_ok(packet@) && packet@.subrange(16, 20)
            == self@.config.acoustic_ip@));
        if is_acoustic_dest {
            let zero: [u8; 6] = [0, 0, 0, 0, 0, 0];
            assert(zero@ =~= zero_mac());
            Some(
                PacketState::Send {
                    out_interface: InterfaceType::Tun,
                    payload: packet,
                    src_mac: zero,
                    dst_mac: zero,
                },
            )
        } else {
            None
        }
    }
}


impl Router {
    /// Hand a packet to its next hop (see `next_hop_step`).
    fn next_hop(&mut self, packet: Vec<u8>, new_dst_ip: [u8; 4], new_iface: InterfaceType, actions: &mut Vec<RouterAction>) -> (next: Option<PacketState>)
        ensures
            final(self)@ == next_hop_step(old(self)@, packet@, new_dst_ip@, new_iface).router,
            actions_view(final(actions)@) == actions_view(old(actions)@) + next_hop_step(
                old(self)@,
                packet@,
                new_dst_ip@,
                new_iface,
            ).actions,
            state_view_opt(next) == next_hop_step(old(self)@, packet@, new_dst_ip@, new_iface).next,
            next matches Some(n) ==> state_fits(state_view(n)),
    {
        let ghost r0 = self@;
        let zero: [u8; 6] = [0, 0, 0, 0, 0, 0];
        assert(zero@ =~= zero_mac());
        let dst_mac_opt = if new_iface == InterfaceType::Tun {
            Some(zero)
        } else {
            self.arp_table.get_mac(&new_dst_ip, new_iface)
        };
        match dst_mac_opt {
            Some(dst_mac) => {
                let src_mac: [u8; 6] = match new_iface {
                    InterfaceType::WiFi => self.config.wifi_mac,
                    InterfaceType::Acoustic => [0, 0, 0, 0, 0, self.config.acoustic_mac],
                    InterfaceType::Ethernet => self.config.eth_mac,
                    InterfaceType::Tun => zero,
                };
                assert(src_mac@ =~= interface_mac(r0.config, new_iface));
                Some(
                    PacketState::Send { out_interface: new_iface, payload: packet, src_mac, dst_mac },
                )
            },
            None => {
                let (src_mac, src_ip): ([u8; 6], [u8; 4]) = match new_iface {
                    InterfaceType::WiFi => (self.config.wifi_mac, self.config.wifi_ip),
                    InterfaceType::Ethernet => (self.config.eth_mac, self.config.eth_ip),
                    InterfaceType::Acoustic => (
                        [0, 0, 0, 0, 0, self.config.acoustic_mac],
                        self.config.acoustic_ip,
                    ),
                    InterfaceType::Tun => (zero, [0, 0, 0, 0]),
                };
                assert(src_mac@ =~= arp_source(r0.config, new_iface).0);
                assert(src_ip@ =~= arp_source(r0.config, new_iface).1);
                if !crate::bytes::mac_equal(&src_mac, &zero) {
                    proof {
                        if src_mac@ == zero_mac() {
                            assert(src_mac =~= zero);
                        }
                    }
                    let ghost pv = PendingView { interface: new_iface, packet: packet@, src_mac: src_mac@ };
                    let key = ip_number(&new_dst_ip);
                    let ghost old_queue = if r0.pending.contains_key(key) {
                        r0.pending[key]
                    } else {
                        Seq::<PendingView>::empty()
                    };
                    let mut queue = match self.pending_packets.remove(&key) {
                        Some(q) => q,
                        None => Vec::new(),
                    };
                    assert(queue@.map_values(|p: PendingPacket| pending_view(p)) =~= old_queue);
                    queue.push(PendingPacket { interface: new_iface, packet, src_mac });
                    assert(queue@.map_values(|p: PendingPacket| pending_view(p)) =~= old_queue.push(pv));
                    let should_send_arp = queue.len() == 1;
                    self.pending_packets.insert(key, queue);
                    assert(self@.pending =~= r0.pending.insert(key, old_queue.push(pv)));
                    if should_send_arp {
                        let arp_req = self.prepare_arp_request(src_mac, src_ip, new_dst_ip);
                        match new_iface {
                            InterfaceType::WiFi => {
                                emit(actions, RouterAction::WiFi(arp_req));
                            },
                            InterfaceType::Ethernet => {
                                emit(actions, RouterAction::Ethernet(arp_req));
                            },
                            _ => {},
                        }
                    }
                    proof {
                        assert(actions_view(actions@) =~= actions_view(old(actions)@) + next_hop_step(
                            r0,
                            packet@,
                            new_dst_ip@,
                            new_iface,
                        ).actions);
                    }
                } else {
                    assert(src_mac =~= zero);
                    assert(actions_view(actions@) =~= actions_view(old(actions)@) + Seq::<ActionView>::empty());
                }
                None
            },
        }
    }

    /// An IPv4 packet to route towards `dst_ip` (see `routing_step`).
    fn routing(&mut self, dst_ip: [u8; 4], packet: Vec<u8>, actions: &mut Vec<RouterAction>) -> (next: Option<PacketState>)
        requires
            packet@.len() <= 65535,
        ensures
            final(self)@ == routing_step(old(self)@, dst_ip@, packet@).router,
            actions_view(final(actions)@) == actions_view(old(actions)@) + routing_step(
                old(self)@,
                dst_ip@,
                packet@,
            ).actions,
            state_view_opt(next) == routing_step(old(self)@, dst_ip@, packet@).next,
            next matches Some(n) ==> state_fits(state_view(n)),
    {
        let ghost r0 = self@;
        let ghost p0 = packet@;
        let mut packet = packet;
        let header = match ipv4_header_fields(packet.as_slice()) {
            Some(h) => h,
            None => {
                assert(actions_view(actions@) =~= actions_view(old(actions)@) + Seq::<ActionView>::empty());
                return Some(
                    PacketState::Dropped { reason: "Invalid IP header in Routing state".to_owned() },
                );
            },
        };
        let protocol = header.protocol;
        let ihl = header.header_len;
        let src_ip_from_header = header.source;
        let (new_dst_ip, new_iface) = match self.routing_table.lookup(&dst_ip) {
            Some((next_hop, iface)) => match next_hop {
                Some(nd) => (nd, iface),
                None => (dst_ip, iface),
            },
            None => (self.config.gateway_ip, InterfaceType::Ethernet),
        };
        assert(new_dst_ip@ == route_choice(r0, dst_ip@).0);
        assert(new_iface == route_choice(r0, dst_ip@).1);
        let ghost l4 = transport_part(p0);
        if new_iface == InterfaceType::Ethernet {
            let new_src_ip = self.config.eth_ip;
            if protocol == 1 {
                let (icmp_type, icmp_id, icmp_seq) = match IcmpPacket::from_bytes(
                    slice_subrange(packet.as_slice(), ihl, packet.len()),
                ) {
                    Ok(p) => (p.icmp_type, p.identifier, p.sequence_number),
                    Err(_) => (IcmpType::Unknown(0), 0, 0),
                };
                if icmp_type == IcmpType::EchoRequest {
                    self.nat_table.register_echo_request(icmp_id, src_ip_from_header);
                    match self.config.gateway_mac {
                        Some(gateway_mac) => {
                            let payload = slice_subrange(packet.as_slice(), ihl + 8, packet.len());
                            assert(payload@ =~= bytes_from(l4, 8));
                            let new_payload = build_echo_request(
                                new_src_ip,
                                dst_ip,
                                60,
                                icmp_id,
                                icmp_seq,
                                payload,
                            );
                            assert(actions_view(actions@) =~= actions_view(old(actions)@) + Seq::<ActionView>::empty());
                            return Some(
                                PacketState::Send {
                                    out_interface: new_iface,
                                    payload: new_payload,
                                    src_mac: self.config.eth_mac,
                                    dst_mac: gateway_mac,
                                },
                            );
                        },
                        None => {},
                    }
                } else if icmp_type == IcmpType::EchoReply {
                    if self.nat_table.is_dnat_session(icmp_id) {
                        set_octets(&mut packet, 12, &new_src_ip);
                        recalculate_ip_checksum(&mut packet);
                    }
                }
            } else if protocol == 6 || protocol == 17 {
                let ports = if protocol == 6 {
                    tcp_ports(slice_subrange(packet.as_slice(), ihl, packet.len()))
                } else {
                    udp_ports(slice_subrange(packet.as_slice(), ihl, packet.len()))
                };
                match ports {
                    Some((src_port, _)) => {
                        let ghost sessions0 = self@.sessions;
                        self.nat_sessions.insert(src_port, src_ip_from_header);
                        assert(self@.sessions =~= sessions0.insert(src_port, src_ip_from_header@));
                        set_octets(&mut packet, 12, &new_src_ip);
                        recalculate_ip_checksum(&mut packet);
                        recalculate_l4_checksum(&mut packet, &new_src_ip, &dst_ip, protocol);
                    },
                    None => {},
                }
            }
        }
        self.next_hop(packet, new_dst_ip, new_iface, actions)
    }

    /// Send a packet on an interface (see `send_actions`).
    fn send(&self, out_interface: InterfaceType, payload: Vec<u8>, src_mac: [u8; 6], dst_mac: [u8; 6], actions: &mut Vec<RouterAction>)
        ensures
            actions_view(final(actions)@) == actions_view(old(actions)@) + send_actions(
                out_interface,
                payload@,
                src_mac@,
                dst_mac@,
            ),
    {
        let ghost a0 = actions_view(actions@);
        let ghost pl = payload@;
        match out_interface {
            InterfaceType::Acoustic => {
                emit(
                    actions,
                    RouterAction::Acoustic { packet: slice_to_vec(payload.as_slice()), dst_mac: dst_mac[5] },
                );
                emit(actions, RouterAction::Tun(payload));
            },
            InterfaceType::WiFi => {
                let frame = self.build_ethernet_frame(src_mac, dst_mac, payload.as_slice());
                emit(actions, RouterAction::WiFi(frame));
            },
            InterfaceType::Ethernet => {
                let frame = self.build_ethernet_frame(src_mac, dst_mac, payload.as_slice());
                emit(actions, RouterAction::Ethernet(frame));
            },
            InterfaceType::Tun => {
                emit(actions, RouterAction::Tun(payload));
            },
        }
        assert(actions_view(actions@) =~= a0 + send_actions(out_interface, pl, src_mac@, dst_mac@));
    }
}


/// After `fuel` more steps from `state` (if any), with the router at `r`
/// and the actions `acts` taken so far: the router's final state and all
/// actions.
pub open spec fn run_from(r: RouterView, acts: Seq<ActionView>, state: Option<StateView>, fuel: nat) -> (RouterView, Seq<ActionView>) {
    match state {
        None => (r, acts),
        Some(s) => {
            let (r2, a2) = router_run(r, s, fuel);
            (r2, acts + a2)
        },
    }
}

/// A step leads to a state with fewer steps to go.
proof fn lemma_step_rank(r: RouterView, s: StateView)
    ensures
        router_step(r, s).next matches Some(n) ==> state_rank(n) < state_rank(s),
{
}

impl Router {
    /// One step of handling a packet (see `router_step`).
    fn step(&mut self, state: PacketState, actions: &mut Vec<RouterAction>) -> (next: Option<PacketState>)
        requires
            state_fits(state_view(state)),
        ensures
            final(self)@ == router_step(old(self)@, state_view(state)).router,
            actions_view(final(actions)@) == actions_view(old(actions)@) + router_step(
                old(self)@,
                state_view(state),
            ).actions,
            state_view_opt(next) == router_step(old(self)@, state_view(state)).next,
            next matches Some(n) ==> state_fits(state_view(n)),
    {
        match state {
            PacketState::Ingress { iface, raw_data } => self.ingress(iface, raw_data, actions),
            PacketState::LocalProcess { src_ip, packet } => {
                assert(actions_view(actions@) =~= actions_view(actions@) + Seq::<ActionView>::empty());
                self.local_process(src_ip, packet)
            },
            PacketState::Routing { src_ip: _, dst_ip, packet } => self.routing(dst_ip, packet, actions),
            PacketState::Send { out_interface, payload, src_mac, dst_mac } => {
                self.send(out_interface, payload, src_mac, dst_mac, actions);
                None
            },
            PacketState::Dropped { reason: _ } => {
                assert(actions_view(actions@) =~= actions_view(actions@) + Seq::<ActionView>::empty());
                None
            },
        }
    }

    /// Handle a packet read from `src_interface`: the router's state
    /// changes as `packet_handled` says, and the actions returned, in
    /// order, are what it hands to the interfaces.
    #[verifier::rlimit(40)]
    pub fn handle_packet(&mut self, ip_packet: Vec<u8>, src_interface: InterfaceType) -> (actions: Vec<RouterAction>)
        requires
            ip_packet@.len() <= 65535,
        ensures
            final(self)@ == packet_handled(old(self)@, ip_packet@, src_interface).0,
            actions_view(actions@) == packet_handled(old(self)@, ip_packet@, src_interface).1,
    {
        let ghost goal = packet_handled(self@, ip_packet@, src_interface);
        let mut actions: Vec<RouterAction> = Vec::new();
        let mut state: Option<PacketState> = Some(
            PacketState::Ingress { iface: src_interface, raw_data: ip_packet },
        );
        let ghost mut fuel: nat = 4;
        assert(actions_view(actions@) =~= Seq::<ActionView>::empty());
        assert(Seq::<ActionView>::empty() + packet_handled(self@, ip_packet@, src_interface).1
            =~= packet_handled(self@, ip_packet@, src_interface).1);
        while state.is_some()
            invariant
                state matches Some(s) ==> state_rank(state_view(s)) <= fuel && state_fits(state_view(s)),
                goal == run_from(self@, actions_view(actions@), state_view_opt(state), fuel),
            decreases fuel,
        {
            let ghost r = self@;
            let ghost a = actions_view(actions@);
            let current = match state {
                Some(s) => s,
                None => {
                    return actions;
                },
            };
            let ghost sv = state_view(current);
            proof {
                lemma_step_rank(r, sv);
            }
            let next = self.step(current, &mut actions);
            proof {
                let st = router_step(r, sv);
                assert(fuel > 0);
                match st.next {
                    Some(n) => {
                        let (r2, a2) = router_run(st.router, n, (fuel - 1) as nat);
                        assert(a + (st.actions + a2) =~= (a + st.actions) + a2);
                    },
                    None => {},
                }
                fuel = (fuel - 1) as nat;
            }
            state = next;
        }
        actions
    }
}


/// NAT round trip of a ping: an Echo Request routed out on Ethernet is
/// registered under its identifier, so that an Echo Reply with that
/// identifier, addressed to the router's Ethernet address, is then
/// readdressed to the request's sender and routed on towards it.
pub proof fn lemma_echo_nat_roundtrip(r: RouterView, dst: Seq<u8>, request: Seq<u8>, src: Seq<u8>, reply: Seq<u8>)
    requires
        ipv4_header_ok(request),
        request[9] == 1,
        transport_part(request).len() >= 8,
        icmp_of_bytes(transport_part(request)).icmp_type == IcmpType::EchoRequest,
        route_choice(r, dst).1 == InterfaceType::Ethernet,
        ipv4_header_ok(reply),
        reply[9] == 1,
        reply.subrange(16, 20) == r.config.eth_ip@,
        transport_part(reply).len() >= 8,
        icmp_of_bytes(transport_part(reply)).icmp_type == IcmpType::EchoReply,
        icmp_of_bytes(transport_part(reply)).identifier == icmp_of_bytes(
            transport_part(request),
        ).identifier,
    ensures
        local_step(routing_step(r, dst, request).router, src, reply).next == Some(
            StateView::Routing(
                src,
                request.subrange(12, 16),
                checksum_recomputed(with_octets(reply, 16, request.subrange(12, 16))),
            ),
        ),
{
}

/// NAT round trip of a TCP connection: a TCP segment routed out on
/// Ethernet registers its source port, so that a segment to that port,
/// addressed to the router's Ethernet address, is then readdressed to the
/// original sender (with both checksums recomputed) and routed towards it.
pub proof fn lemma_tcp_nat_roundtrip(r: RouterView, dst: Seq<u8>, segment: Seq<u8>, src: Seq<u8>, answer: Seq<u8>)
    requires
        ipv4_header_ok(segment),
        segment[9] == 6,
        tcp_header_ok(transport_part(segment)),
        route_choice(r, dst).1 == InterfaceType::Ethernet,
        ipv4_header_ok(answer),
        answer[9] == 6,
        answer.subrange(16, 20) == r.config.eth_ip@,
        tcp_header_ok(transport_part(answer)),
        be16_value(transport_part(answer)[2], transport_part(answer)[3]) == be16_value(
            transport_part(segment)[0],
            transport_part(segment)[1],
        ),
    ensures
        local_step(routing_step(r, dst, segment).router, src, answer).next == Some(
            StateView::Routing(
                src,
                segment.subrange(12, 16),
                l4_checksum_recomputed(
                    checksum_recomputed(with_octets(answer, 16, segment.subrange(12, 16))),
                    answer.subrange(12, 16),
                    segment.subrange(12, 16),
                    6,
                ),
            ),
        ),
{
}

/// UDP source NAT round trip: a UDP datagram (at least 8 transport bytes)
/// routed out on Ethernet registers its source port for its sender, and
/// when it is sent at once it leaves on Ethernet with the router's Ethernet
/// address as source; a UDP answer to that port, addressed to the router's
/// Ethernet address, is then readdressed to the original sender (both
/// checksums recomputed) and routed on towards it.
pub proof fn lemma_udp_nat_roundtrip(r: RouterView, dst: Seq<u8>, datagram: Seq<u8>, src: Seq<u8>, answer: Seq<u8>)
    requires
        ipv4_header_ok(datagram),
        datagram[9] == 17,
        transport_part(datagram).len() >= 8,
        route_choice(r, dst).1 == InterfaceType::Ethernet,
        ipv4_header_ok(answer),
        answer[9] == 17,
        answer.subrange(16, 20) == r.config.eth_ip@,
        transport_part(answer).len() >= 8,
        be16_value(transport_part(answer)[2], transport_part(answer)[3]) == be16_value(
            transport_part(datagram)[0],
            transport_part(datagram)[1],
        ),
    ensures
        ({
            let step = routing_step(r, dst, datagram);
            let port = be16_value(transport_part(datagram)[0], transport_part(datagram)[1]);
            &&& step.router.sessions.contains_key(port)
            &&& step.router.sessions[port] == datagram.subrange(12, 16)
            &&& step.next matches Some(StateView::Send(out, p, _, _)) ==> out == InterfaceType::Ethernet
                && p.subrange(12, 16) == r.config.eth_ip@
        }),
        local_step(routing_step(r, dst, datagram).router, src, answer).next == Some(
            StateView::Routing(
                src,
                datagram.subrange(12, 16),
                l4_checksum_recomputed(
                    checksum_recomputed(with_octets(answer, 16, datagram.subrange(12, 16))),
                    answer.subrange(12, 16),
                    datagram.subrange(12, 16),
                    17,
                ),
            ),
        ),
{
    let c = r.config;
    let m = with_octets(datagram, 12, c.eth_ip@);
    let m1 = checksum_recomputed(m);
    let p = l4_checksum_recomputed(m1, c.eth_ip@, dst, 17);
    assert(m.len() == datagram.len() && m[0] == datagram[0]);
    assert(m.subrange(12, 16) =~= c.eth_ip@);
    assert(m1.len() == m.len() && m1[0] == m[0]);
    assert(m1.subrange(12, 16) =~= m.subrange(12, 16));
    assert(header_len(m1) == header_len(datagram));
    assert(p.subrange(12, 16) =~= m1.subrange(12, 16));
}

/// ARP learning: once an ARP reply from an address arrives on an
/// interface (other than TUN), the packets held for that address are
/// released addressed to the MAC it announced, and a packet routed to that
/// address on that interface goes out at once, addressed to that MAC.
pub proof fn lemma_arp_reply_resolves(r: RouterView, iface: InterfaceType, reply: Seq<u8>, packet: Seq<u8>)
    requires
        is_arp_frame(reply),
        is_arp_reply(reply),
        iface != InterfaceType::Tun,
    ensures
        ({
            let key = ip_value(reply.subrange(14, 18));
            let held = if r.pending.contains_key(key) {
                r.pending[key]
            } else {
                Seq::empty()
            };
            let after = ingress_step(r, iface, reply);
            &&& !after.router.pending.contains_key(key)
            &&& after.actions == (if iface == InterfaceType::Acoustic {
                seq![ActionView::Tun(reply)]
            } else {
                Seq::empty()
            }) + release_actions(held, reply.subrange(8, 14))
            &&& next_hop_step(after.router, packet, reply.subrange(14, 18), iface).next == Some(
                StateView::Send(iface, packet, interface_mac(r.config, iface), reply.subrange(8, 14)),
            )
        }),
{
}


/// Whether a frame captured on an interface whose MAC is `own` is for the
/// router: addressed to `own` or broadcast, and, where the router sees its
/// own frames (`skip_own_source`), not sent by it.
pub fn frame_is_for_router(own: [u8; 6], src: [u8; 6], dst: [u8; 6], skip_own_source: bool) -> (b: bool)
    ensures
        b == (!(skip_own_source && src == own) && (dst == own || dst@ == broadcast_mac())),
{
    if skip_own_source && crate::bytes::mac_equal(&src, &own) {
        return false;
    }
    let broadcast: [u8; 6] = [0xff, 0xff, 0xff, 0xff, 0xff, 0xff];
    assert(broadcast@ =~= broadcast_mac());
    let b = crate::bytes::mac_equal(&dst, &own) || crate::bytes::mac_equal(&dst, &broadcast);
    proof {
        if dst@ == broadcast_mac() {
            assert(dst =~= broadcast);
        }
    }
    b
}

} // verus!
