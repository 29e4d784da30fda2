use trackmaker_rs::net::pcap_utils::device_index_by_name;
use trackmaker_rs::net::router::{
    decrement_ttl, recalculate_ip_checksum, DirectNetwork, InterfaceType, RoutingTable,
};

/// Octets of a dotted-quad address.
fn ip(s: &str) -> [u8; 4] {
    let mut out = [0u8; 4];
    for (i, part) in s.split('.').enumerate() {
        out[i] = part.parse::<u8>().unwrap();
    }
    out
}

#[test]
fn test_direct_network_contains() {
    let net = DirectNetwork::new(ip("192.168.1.0"), ip("255.255.255.0"), InterfaceType::Acoustic);

    assert!(net.contains(&ip("192.168.1.1")));
    assert!(net.contains(&ip("192.168.1.254")));
    assert!(!net.contains(&ip("192.168.2.1")));
    assert!(!net.contains(&ip("10.0.0.1")));
}

#[test]
fn test_routing_table_lookup() {
    let mut table = RoutingTable::new();
    table.add_direct_network(ip("192.168.1.0"), ip("255.255.255.0"), InterfaceType::Acoustic);
    table.add_direct_network(ip("192.168.2.0"), ip("255.255.255.0"), InterfaceType::WiFi);

    assert_eq!(table.lookup(&ip("192.168.1.5")), Some((None, InterfaceType::Acoustic)));
    assert_eq!(table.lookup(&ip("192.168.2.100")), Some((None, InterfaceType::WiFi)));
    assert_eq!(table.lookup(&ip("10.0.0.1")), None);
}

#[test]
fn test_decrement_ttl() {
    let mut packet = vec![
        0x45, 0x00, 0x00, 0x14, 0x00, 0x00, 0x00, 0x00, 0x40, 0x01, 0x00, 0x00, 0xC0, 0xA8, 0x01,
        0x01, 0xC0, 0xA8, 0x02, 0x01,
    ];

    let mut sum: u32 = 0;
    for i in (0..20).step_by(2) {
        let word = u16::from_be_bytes([packet[i], packet[i + 1]]);
        sum = sum.wrapping_add(word as u32);
    }
    while (sum >> 16) != 0 {
        sum = (sum & 0xFFFF) + (sum >> 16);
    }
    let checksum = !(sum as u16);
    packet[10] = (checksum >> 8) as u8;
    packet[11] = (checksum & 0xFF) as u8;

    assert!(decrement_ttl(&mut packet).is_ok());
    assert_eq!(packet[8], 63);
}

#[test]
fn ttl_refusals_and_checksum_validity() {
    let mut short = vec![0x45u8; 10];
    assert!(decrement_ttl(&mut short).is_err());
    assert_eq!(short, vec![0x45u8; 10]);
    let mut expiring = vec![0x45, 0, 0, 20, 0, 0, 0, 0, 1, 6, 0, 0, 1, 2, 3, 4, 5, 6, 7, 8];
    let before = expiring.clone();
    assert!(decrement_ttl(&mut expiring).is_err());
    assert_eq!(expiring, before);

    let mut packet = vec![0x45, 0, 0, 20, 0, 0, 0, 0, 9, 6, 0x12, 0x34, 1, 2, 3, 4, 5, 6, 7, 8];
    decrement_ttl(&mut packet).unwrap();
    // a correct header sums to 0xFFFF in one's complement
    let mut sum: u32 = 0;
    for i in (0..20).step_by(2) {
        sum += u16::from_be_bytes([packet[i], packet[i + 1]]) as u32;
    }
    while sum >> 16 != 0 {
        sum = (sum & 0xFFFF) + (sum >> 16);
    }
    assert_eq!(sum, 0xFFFF);
    let ttl_checksum = [packet[10], packet[11]];
    packet[10] = 0;
    packet[11] = 0;
    recalculate_ip_checksum(&mut packet);
    assert_eq!([packet[10], packet[11]], ttl_checksum);
}

#[test]
fn routing_first_match_and_next_hop() {
    let mut table = RoutingTable::new();
    table.add_network(ip("0.0.0.0"), ip("0.0.0.0"), InterfaceType::Ethernet, ip("10.0.0.254"));
    table.add_direct_network(ip("192.168.1.0"), ip("255.255.255.0"), InterfaceType::Acoustic);
    assert_eq!(
        table.lookup(&ip("192.168.1.5")),
        Some((Some(ip("10.0.0.254")), InterfaceType::Ethernet))
    );
}

#[test]
fn device_lookup_by_name() {
    let names = vec!["lo".to_string(), "eth0".to_string(), "eth0".to_string()];
    assert_eq!(device_index_by_name(&names, "eth0"), Some(1));
    assert_eq!(device_index_by_name(&names, "wlan0"), None);
}
