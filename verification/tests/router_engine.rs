use etherparse::{Icmpv4Slice, Icmpv4Type, Ipv4HeaderSlice, PacketBuilder, TcpHeaderSlice};
use trackmaker_rs::net::router::{
    decrement_ttl, recalculate_l4_checksum, ArpTable, InterfaceType, Router, RouterAction, RouterConfig,
};

const GATEWAY_MAC: [u8; 6] = [0xaa, 0xbb, 0xcc, 0xdd, 0xee, 0xff];

fn config() -> RouterConfig {
    let mut c = RouterConfig::default();
    c.gateway_mac = Some(GATEWAY_MAC);
    c
}

fn echo(src: [u8; 4], dst: [u8; 4], ttl: u8, request: bool, id: u16, seq: u16, payload: &[u8]) -> Vec<u8> {
    let mut out = Vec::new();
    if request {
        PacketBuilder::ipv4(src, dst, ttl)
            .icmpv4_echo_request(id, seq)
            .write(&mut out, payload)
            .unwrap();
    } else {
        PacketBuilder::ipv4(src, dst, ttl)
            .icmpv4_echo_reply(id, seq)
            .write(&mut out, payload)
            .unwrap();
    }
    out
}

fn tcp(src: [u8; 4], dst: [u8; 4], sport: u16, dport: u16, payload: &[u8]) -> Vec<u8> {
    let mut out = Vec::new();
    PacketBuilder::ipv4(src, dst, 64)
        .tcp(sport, dport, 1000, 4096)
        .write(&mut out, payload)
        .unwrap();
    out
}

fn ones_sum(bytes: &[u8], mut sum: u32) -> u32 {
    let mut i = 0;
    while i < bytes.len() {
        let hi = bytes[i] as u32;
        let lo = if i + 1 < bytes.len() { bytes[i + 1] as u32 } else { 0 };
        sum += (hi << 8) | lo;
        i += 2;
    }
    while sum >> 16 != 0 {
        sum = (sum & 0xFFFF) + (sum >> 16);
    }
    sum
}

/// The IPv4 header checksum of `packet` is correct.
fn ip_checksum_ok(packet: &[u8]) -> bool {
    let ihl = ((packet[0] & 0x0F) as usize) * 4;
    ones_sum(&packet[..ihl], 0) == 0xFFFF
}

/// The TCP/UDP checksum of `packet` is correct for its addresses.
fn l4_checksum_ok(packet: &[u8]) -> bool {
    let ihl = ((packet[0] & 0x0F) as usize) * 4;
    let l4 = &packet[ihl..];
    let mut pseudo = Vec::new();
    pseudo.extend_from_slice(&packet[12..20]);
    pseudo.push(0);
    pseudo.push(packet[9]);
    pseudo.extend_from_slice(&(l4.len() as u16).to_be_bytes());
    pseudo.extend_from_slice(l4);
    ones_sum(&pseudo, 0) == 0xFFFF
}

fn arp_reply(sender_mac: [u8; 6], sender_ip: [u8; 4]) -> Vec<u8> {
    let mut raw = vec![0x00, 0x01, 0x08, 0x00, 6, 4, 0x00, 0x02];
    raw.extend_from_slice(&sender_mac);
    raw.extend_from_slice(&sender_ip);
    raw.extend_from_slice(&[0u8; 6]);
    raw.extend_from_slice(&[192, 168, 2, 1]);
    raw
}

#[test]
fn router_config_defaults() {
    let c = RouterConfig::default();
    assert_eq!(c.acoustic_ip, [192, 168, 1, 1]);
    assert_eq!(c.acoustic_mac, 2);
    assert_eq!(c.wifi_interface, "wlan0");
    assert_eq!(c.gateway_ip, [192, 168, 2, 254]);
    assert_eq!(c.gateway_mac, None);
    assert_eq!(c.eth_ip, [10, 20, 0, 1]);
    assert_eq!(c.eth_mac, [0x9c, 0x29, 0x76, 0x0c, 0x49, 0x00]);
    assert_eq!(c.tun_name, "tun0");
    assert_eq!(c.node1_ip, [192, 168, 1, 2]);
    assert_eq!(c.node3_ip, [192, 168, 2, 2]);
}

#[test]
fn router_arp_table_entries() {
    let mut t = ArpTable::new();
    assert_eq!(t.get_mac(&[192, 168, 1, 3], InterfaceType::Acoustic), Some([0, 0, 0, 0, 0, 3]));
    assert_eq!(t.get_mac(&[192, 168, 1, 3], InterfaceType::WiFi), None);
    t.add_entry([192, 168, 2, 2], [1, 2, 3, 4, 5, 6], InterfaceType::WiFi);
    assert_eq!(t.get_mac(&[192, 168, 2, 2], InterfaceType::WiFi), Some([1, 2, 3, 4, 5, 6]));
    t.update([192, 168, 2, 2], [9, 9, 9, 9, 9, 9], InterfaceType::WiFi);
    assert_eq!(t.get_mac(&[192, 168, 2, 2], InterfaceType::WiFi), Some([9, 9, 9, 9, 9, 9]));
    assert_eq!(t.get_mac(&[192, 168, 1, 1], InterfaceType::Acoustic), Some([0, 0, 0, 0, 0, 1]));
}

#[test]
fn ethernet_frames_and_arp_requests() {
    let r = Router::new(config());
    let frame = r.build_ethernet_frame([1, 1, 1, 1, 1, 1], [2, 2, 2, 2, 2, 2], &[9, 8, 7]);
    assert_eq!(frame, vec![2, 2, 2, 2, 2, 2, 1, 1, 1, 1, 1, 1, 0x08, 0x00, 9, 8, 7]);
    let parsed = Router::parse_ethernet_frame(&frame).unwrap();
    assert_eq!(parsed, (vec![9, 8, 7], [1, 1, 1, 1, 1, 1], [2, 2, 2, 2, 2, 2], 0x0800));
    let mut other = frame.clone();
    other[12] = 0x86;
    other[13] = 0xdd;
    assert_eq!(Router::parse_ethernet_frame(&other), None);
    assert_eq!(Router::parse_ethernet_frame(&frame[..10]), None);

    let arp = r.prepare_arp_request([1, 2, 3, 4, 5, 6], [192, 168, 2, 1], [192, 168, 2, 2]);
    assert_eq!(arp.len(), 42);
    assert_eq!(&arp[0..6], &[0xff; 6]);
    assert_eq!(&arp[6..12], &[1, 2, 3, 4, 5, 6]);
    assert_eq!(&arp[12..14], &[0x08, 0x06]);
    assert_eq!(&arp[20..22], &[0x00, 0x01]);
    assert_eq!(&arp[28..32], &[192, 168, 2, 1]);
    assert_eq!(&arp[38..42], &[192, 168, 2, 2]);
    assert!(r.is_for_us(&[10, 20, 0, 1]));
    assert!(!r.is_for_us(&[10, 20, 0, 2]));
}

#[test]
fn forwarding_rewrites_headers() {
    let request = echo([192, 168, 1, 2], [192, 168, 2, 2], 64, true, 7, 1, b"abcdefgh");
    let out = Router::process_packet_with_etherparse(&request).unwrap();
    let h = Ipv4HeaderSlice::from_slice(&out).unwrap();
    assert_eq!(h.ttl(), 63);
    assert!(ip_checksum_ok(&out));
    assert_eq!(&out[28..], b"abcdefgh");

    let segment = tcp([192, 168, 1, 2], [1, 1, 1, 1], 40000, 80, b"hi");
    let out = Router::process_packet_with_etherparse(&segment).unwrap();
    assert_eq!(out[8], 63);
    assert!(ip_checksum_ok(&out));
    assert_eq!(&out[20..], &segment[20..]);

    let dying = echo([192, 168, 1, 2], [192, 168, 2, 2], 1, true, 7, 1, b"x");
    assert!(Router::process_packet_with_etherparse(&dying).is_err());
    assert!(Router::process_packet_with_etherparse(&[0x45, 0, 0]).is_err());
}

#[test]
fn l4_checksum_after_readdressing() {
    let mut segment = tcp([192, 168, 1, 2], [1, 1, 1, 1], 40000, 80, b"payload");
    assert!(l4_checksum_ok(&segment));
    segment[12..16].copy_from_slice(&[10, 20, 0, 1]);
    assert!(!l4_checksum_ok(&segment));
    recalculate_l4_checksum(&mut segment, &[10, 20, 0, 1], &[1, 1, 1, 1], 6);
    assert!(l4_checksum_ok(&segment));

    let mut udp = Vec::new();
    PacketBuilder::ipv4([192, 168, 1, 2], [8, 8, 4, 4], 64)
        .udp(5353, 53, )
        .write(&mut udp, b"query")
        .unwrap();
    udp[12..16].copy_from_slice(&[10, 20, 0, 1]);
    recalculate_l4_checksum(&mut udp, &[10, 20, 0, 1], &[8, 8, 4, 4], 17);
    assert!(l4_checksum_ok(&udp));

    // another protocol is left alone
    let mut other = echo([1, 2, 3, 4], [5, 6, 7, 8], 9, true, 1, 1, b"zz");
    let before = other.clone();
    recalculate_l4_checksum(&mut other, &[1, 2, 3, 4], &[5, 6, 7, 8], 1);
    assert_eq!(other, before);
}

#[test]
fn acoustic_traffic_is_copied_to_tun_and_waits_for_arp() {
    let mut r = Router::new(config());
    let packet = echo([192, 168, 1, 2], [192, 168, 2, 2], 64, true, 1, 1, b"hello");
    let actions = r.handle_packet(packet.clone(), InterfaceType::Acoustic);
    assert_eq!(actions.len(), 2);
    match &actions[0] {
        RouterAction::Tun(p) => assert_eq!(p, &packet),
        _ => panic!("expected a copy to TUN"),
    }
    match &actions[1] {
        RouterAction::WiFi(f) => {
            assert_eq!(&f[12..14], &[0x08, 0x06]);
            assert_eq!(&f[38..42], &[192, 168, 2, 2]);
        },
        _ => panic!("expected an ARP request on WiFi"),
    }

    // a second packet for the same host is held without another request
    let second = echo([192, 168, 1, 2], [192, 168, 2, 2], 64, true, 1, 2, b"again");
    let actions = r.handle_packet(second, InterfaceType::Acoustic);
    assert_eq!(actions.len(), 1);

    // the ARP reply releases both, addressed to the announced MAC
    let node3_mac = [0x02, 0x11, 0x22, 0x33, 0x44, 0x55];
    let actions = r.handle_packet(arp_reply(node3_mac, [192, 168, 2, 2]), InterfaceType::WiFi);
    assert_eq!(actions.len(), 2);
    for a in &actions {
        match a {
            RouterAction::WiFi(f) => {
                assert_eq!(&f[0..6], &node3_mac);
                assert_eq!(&f[6..12], &r.config().wifi_mac);
                assert_eq!(&f[12..14], &[0x08, 0x00]);
                assert_eq!(f[14 + 8], 63);
            },
            _ => panic!("expected WiFi frames"),
        }
    }

    // now packets for that host go out at once
    let third = echo([192, 168, 1, 2], [192, 168, 2, 2], 64, true, 1, 3, b"now");
    let actions = r.handle_packet(third, InterfaceType::Acoustic);
    assert_eq!(actions.len(), 2);
    match &actions[1] {
        RouterAction::WiFi(f) => assert_eq!(&f[0..6], &node3_mac),
        _ => panic!("expected a WiFi frame"),
    }
}

#[test]
fn packet_for_acoustic_address_goes_to_tun() {
    let mut r = Router::new(config());
    let packet = tcp([192, 168, 2, 2], [192, 168, 1, 1], 1234, 22, b"ssh");
    let actions = r.handle_packet(packet.clone(), InterfaceType::WiFi);
    assert_eq!(actions.len(), 1);
    match &actions[0] {
        RouterAction::Tun(p) => assert_eq!(p, &packet),
        _ => panic!("expected delivery to TUN"),
    }
}

#[test]
fn ping_nat_round_trip() {
    let mut r = Router::new(config());
    let request = echo([192, 168, 1, 2], [8, 8, 8, 8], 64, true, 0x1234, 5, b"ping data");
    let actions = r.handle_packet(request, InterfaceType::Acoustic);
    assert_eq!(actions.len(), 2);
    let frame = match &actions[1] {
        RouterAction::Ethernet(f) => f.clone(),
        _ => panic!("expected an Ethernet frame"),
    };
    assert_eq!(&frame[0..6], &GATEWAY_MAC);
    assert_eq!(&frame[6..12], &r.config().eth_mac);
    let ip = &frame[14..];
    let h = Ipv4HeaderSlice::from_slice(ip).unwrap();
    assert_eq!(h.source(), [10, 20, 0, 1]);
    assert_eq!(h.destination(), [8, 8, 8, 8]);
    assert_eq!(h.ttl(), 60);
    let icmp = Icmpv4Slice::from_slice(&ip[20..]).unwrap();
    match icmp.header().icmp_type {
        Icmpv4Type::EchoRequest(e) => assert_eq!((e.id, e.seq), (0x1234, 5)),
        _ => panic!("expected an Echo Request"),
    }

    let reply = echo([8, 8, 8, 8], [10, 20, 0, 1], 50, false, 0x1234, 5, b"ping data");
    let actions = r.handle_packet(reply, InterfaceType::Ethernet);
    assert_eq!(actions.len(), 2);
    match (&actions[0], &actions[1]) {
        (RouterAction::Acoustic { packet, dst_mac }, RouterAction::Tun(copy)) => {
            assert_eq!(*dst_mac, 2);
            assert_eq!(packet, copy);
            assert_eq!(&packet[16..20], &[192, 168, 1, 2]);
            assert!(ip_checksum_ok(packet));
        },
        _ => panic!("expected delivery on the acoustic link"),
    }

    // a reply with an unknown identifier is not translated
    let stray = echo([8, 8, 8, 8], [10, 20, 0, 1], 50, false, 0x9999, 5, b"x");
    assert!(r.handle_packet(stray, InterfaceType::Ethernet).is_empty());
}

#[test]
fn tcp_nat_round_trip() {
    let mut r = Router::new(config());
    r.add_arp_entry([192, 168, 2, 254], GATEWAY_MAC, InterfaceType::Ethernet);
    let segment = tcp([192, 168, 1, 2], [1, 1, 1, 1], 40000, 80, b"GET /");
    let actions = r.handle_packet(segment, InterfaceType::Acoustic);
    assert_eq!(actions.len(), 2);
    let frame = match &actions[1] {
        RouterAction::Ethernet(f) => f.clone(),
        _ => panic!("expected an Ethernet frame"),
    };
    assert_eq!(&frame[0..6], &GATEWAY_MAC);
    let ip = &frame[14..];
    assert_eq!(&ip[12..16], &[10, 20, 0, 1]);
    assert!(ip_checksum_ok(ip));
    assert!(l4_checksum_ok(ip));

    let answer = tcp([1, 1, 1, 1], [10, 20, 0, 1], 80, 40000, b"200 OK");
    let actions = r.handle_packet(answer, InterfaceType::Ethernet);
    assert_eq!(actions.len(), 2);
    match &actions[0] {
        RouterAction::Acoustic { packet, dst_mac } => {
            assert_eq!(*dst_mac, 2);
            assert_eq!(&packet[16..20], &[192, 168, 1, 2]);
            assert!(ip_checksum_ok(packet));
            assert!(l4_checksum_ok(packet));
            let t = TcpHeaderSlice::from_slice(&packet[20..]).unwrap();
            assert_eq!(t.destination_port(), 40000);
        },
        _ => panic!("expected delivery on the acoustic link"),
    }
}

#[test]
fn traversal_request_is_readdressed() {
    let mut r = Router::new(config());
    let mut payload = vec![0u8; 20];
    payload[16] = 0xaa;
    let request = echo([10, 20, 0, 9], [10, 20, 0, 1], 64, true, 77, 1, &payload);
    let actions = r.handle_packet(request, InterfaceType::Ethernet);
    // NODE3's MAC is not known yet: held, with an ARP request on WiFi
    assert_eq!(actions.len(), 1);
    match &actions[0] {
        RouterAction::WiFi(f) => {
            assert_eq!(&f[12..14], &[0x08, 0x06]);
            assert_eq!(&f[38..42], &[192, 168, 2, 2]);
        },
        _ => panic!("expected an ARP request"),
    }
    let actions = r.handle_packet(arp_reply([7; 6], [192, 168, 2, 2]), InterfaceType::WiFi);
    assert_eq!(actions.len(), 1);
    match &actions[0] {
        RouterAction::WiFi(f) => {
            let ip = &f[14..];
            assert_eq!(&ip[16..20], &[192, 168, 2, 2]);
            assert_eq!(ip[8], 63);
            assert!(ip_checksum_ok(ip));
        },
        _ => panic!("expected the held request"),
    }
}

#[test]
fn dropped_packets_have_no_effect() {
    let mut r = Router::new(config());
    assert!(r.handle_packet(vec![1, 2, 3], InterfaceType::WiFi).is_empty());
    let dying = echo([192, 168, 2, 2], [10, 0, 0, 5], 1, true, 1, 1, b"x");
    assert!(r.handle_packet(dying, InterfaceType::WiFi).is_empty());
    // an ARP request (not a reply) is consumed without effect
    let mut request = arp_reply([1; 6], [192, 168, 2, 9]);
    request[7] = 1;
    assert!(r.handle_packet(request, InterfaceType::WiFi).is_empty());
}

#[test]
fn tun_network_needs_no_arp() {
    let mut r = Router::new(config());
    let packet = tcp([192, 168, 2, 2], [10, 0, 0, 5], 1, 2, b"x");
    let actions = r.handle_packet(packet, InterfaceType::WiFi);
    assert_eq!(actions.len(), 1);
    match &actions[0] {
        RouterAction::Tun(p) => assert_eq!(p[8], 63),
        _ => panic!("expected delivery to TUN"),
    }
}

#[test]
fn refused_packets_say_why() {
    let mut short = vec![0x45u8; 10];
    assert_eq!(decrement_ttl(&mut short), Err("IP packet too short"));
    assert_eq!(short, vec![0x45u8; 10]);
    let dying = echo([192, 168, 2, 2], [10, 0, 0, 5], 1, true, 1, 1, b"x");
    let mut d = dying.clone();
    assert_eq!(decrement_ttl(&mut d), Err("TTL expired"));
    assert_eq!(d, dying);
    assert_eq!(Router::process_packet_with_etherparse(&dying), Err("TTL expired".to_string()));
    let detail = Ipv4HeaderSlice::from_slice(&[1, 2, 3]).unwrap_err();
    assert_eq!(
        Router::process_packet_with_etherparse(&[1, 2, 3]),
        Err(format!("Invalid IPv4 header: {}", detail))
    );
    assert!(detail.to_string().len() > 0);
}

#[test]
fn forwarded_header_drops_reserved_bit_and_gets_fresh_checksum() {
    let mut p = tcp([10, 0, 0, 5], [192, 168, 2, 2], 1234, 80, b"data");
    p[6] |= 0x80;
    p[10] = 0x12;
    p[11] = 0x34;
    let out = Router::process_packet_with_etherparse(&p).unwrap();
    assert_eq!(out[6], p[6] & 0x7F);
    assert_eq!(out[8], p[8] - 1);
    assert!(ip_checksum_ok(&out));
    assert_eq!(&out[20..], &p[20..]);
}
