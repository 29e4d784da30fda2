use etherparse::{Icmpv4Slice, Icmpv4Type, Ipv4HeaderSlice, PacketBuilder};
use trackmaker_rs::net::arp::ArpTable;
use trackmaker_rs::net::mac_address::{parse_mac, MacParseError};
use trackmaker_rs::net::nat_table::NatTable;
use trackmaker_rs::net::tool::{
    answer_echo_request, build_ping_request, classify_ping_reply, refresh_ipv4_checksum,
    reply_mac, resolve_ping_macs, tun_target_mac, PingReply, PingSetupError,
};

fn echo(src: [u8; 4], dst: [u8; 4], request: bool, id: u16, seq: u16, payload: &[u8]) -> Vec<u8> {
    let mut out = Vec::new();
    if request {
        PacketBuilder::ipv4(src, dst, 64)
            .icmpv4_echo_request(id, seq)
            .write(&mut out, payload)
            .unwrap();
    } else {
        PacketBuilder::ipv4(src, dst, 64)
            .icmpv4_echo_reply(id, seq)
            .write(&mut out, payload)
            .unwrap();
    }
    out
}

#[test]
fn static_arp_table() {
    let arp = ArpTable::new();
    assert_eq!(arp.get_mac(&[192, 168, 1, 2]), Some(2));
    assert_eq!(arp.get_mac(&[192, 168, 1, 9]), None);
    assert_eq!(arp.get_ip(3), Some([192, 168, 1, 3]));
    assert_eq!(arp.get_ip(7), None);
}

#[test]
fn nat_table_translates_registered_replies() {
    let mut nat = NatTable::new();
    assert_eq!(nat.translate_echo_reply(42), None);
    nat.register_echo_request(42, [192, 168, 1, 2]);
    assert_eq!(nat.translate_echo_reply(42), Some([192, 168, 1, 2]));
    nat.register_echo_request(42, [192, 168, 1, 3]);
    assert_eq!(nat.translate_echo_reply(42), Some([192, 168, 1, 3]));
    assert!(!nat.is_dnat_session(7));
    nat.register_dnat_session(7);
    assert!(nat.is_dnat_session(7));
    assert_eq!(nat.translate_echo_reply(7), None);
}

#[test]
fn ping_mac_resolution() {
    let arp = ArpTable::new();
    assert_eq!(resolve_ping_macs(&arp, [192, 168, 1, 3], [192, 168, 1, 2], None), Ok((3, 2)));
    assert_eq!(
        resolve_ping_macs(&arp, [8, 8, 8, 8], [192, 168, 1, 2], Some([192, 168, 1, 1])),
        Ok((1, 2))
    );
    assert_eq!(
        resolve_ping_macs(&arp, [8, 8, 8, 8], [192, 168, 1, 2], None),
        Err(PingSetupError::TargetUnknown)
    );
    assert_eq!(
        resolve_ping_macs(&arp, [8, 8, 8, 8], [192, 168, 1, 2], Some([10, 0, 0, 1])),
        Err(PingSetupError::GatewayUnknown)
    );
    assert_eq!(
        resolve_ping_macs(&arp, [192, 168, 1, 3], [10, 0, 0, 1], None),
        Err(PingSetupError::LocalUnknown)
    );
}

#[test]
fn ping_request_layout() {
    let p = build_ping_request(0xBEEF, 3, [192, 168, 1, 2], [192, 168, 1, 1], 10, 64);
    assert_eq!(p.len(), 38);
    let h = Ipv4HeaderSlice::from_slice(&p).unwrap();
    assert_eq!(h.total_len(), 38);
    assert_eq!(h.identification(), 3);
    assert_eq!(h.ttl(), 64);
    assert_eq!(h.protocol().0, 1);
    assert_eq!(h.source(), [192, 168, 1, 2]);
    assert_eq!(h.destination(), [192, 168, 1, 1]);
    assert_eq!(&p[20..28], &[8, 0, 0, 0, 0xBE, 0xEF, 0, 3]);
    assert!(p[28..].iter().all(|b| *b == 0));
}

#[test]
fn ping_reply_classification() {
    let reply = echo([192, 168, 1, 1], [192, 168, 1, 2], false, 1, 4, b"abc");
    assert_eq!(classify_ping_reply(&reply, 4), PingReply::Matched { ttl: 64 });
    assert_eq!(classify_ping_reply(&reply, 5), PingReply::Unrelated);
    let request = echo([192, 168, 1, 1], [192, 168, 1, 2], true, 1, 4, b"abc");
    assert_eq!(classify_ping_reply(&request, 4), PingReply::Unrelated);
    assert_eq!(classify_ping_reply(&[1, 2, 3], 4), PingReply::Unreadable);
    assert_eq!(classify_ping_reply(&reply[..24], 4), PingReply::Unreadable);
}

#[test]
fn echo_host_answers_requests_to_it() {
    let request = echo([192, 168, 1, 2], [192, 168, 1, 3], true, 9, 2, b"payload!");
    let (reply, to) = answer_echo_request(&request, [192, 168, 1, 3], 64).unwrap();
    assert_eq!(to, [192, 168, 1, 2]);
    let h = Ipv4HeaderSlice::from_slice(&reply).unwrap();
    assert_eq!(h.source(), [192, 168, 1, 3]);
    assert_eq!(h.destination(), [192, 168, 1, 2]);
    assert_eq!(h.total_len() as usize, reply.len());
    let icmp = Icmpv4Slice::from_slice(&reply[20..]).unwrap();
    match icmp.header().icmp_type {
        Icmpv4Type::EchoReply(e) => assert_eq!((e.id, e.seq), (9, 2)),
        _ => panic!("expected an Echo Reply"),
    }
    assert_eq!(icmp.payload(), b"payload!");
    assert!(answer_echo_request(&request, [192, 168, 1, 4], 64).is_none());
    let reply_packet = echo([192, 168, 1, 2], [192, 168, 1, 3], false, 9, 2, b"x");
    assert!(answer_echo_request(&reply_packet, [192, 168, 1, 3], 64).is_none());
    let arp = ArpTable::new();
    assert_eq!(reply_mac(&arp, [192, 168, 1, 2]), 2);
    assert_eq!(reply_mac(&arp, [10, 1, 1, 1]), 1);
}

#[test]
fn tun_next_hops() {
    let local = [192, 168, 1, 2];
    let mask = [255, 255, 255, 0];
    let to = |dst: [u8; 4]| echo(local, dst, true, 1, 1, b"");
    assert_eq!(tun_target_mac(&to([192, 168, 1, 3]), local, mask, Some([192, 168, 1, 1])), Some(3));
    assert_eq!(tun_target_mac(&to([8, 8, 8, 8]), local, mask, Some([192, 168, 1, 1])), Some(1));
    assert_eq!(tun_target_mac(&to([8, 8, 8, 8]), local, mask, None), Some(8));
    assert_eq!(tun_target_mac(&to([224, 0, 0, 251]), local, mask, None), None);
    assert_eq!(tun_target_mac(&to([255, 255, 255, 255]), local, mask, None), None);
    assert_eq!(tun_target_mac(&[0x60, 0, 0], local, mask, None), None);
}

#[test]
fn checksum_refreshed_for_tun() {
    let mut packet = echo([192, 168, 1, 2], [192, 168, 1, 3], true, 1, 1, b"data");
    packet[10] = 0;
    packet[11] = 0;
    let fixed = refresh_ipv4_checksum(packet.clone());
    assert_eq!(fixed.len(), packet.len());
    assert_ne!(&fixed[10..12], &[0, 0]);
    let mut sum: u32 = 0;
    for i in (0..20).step_by(2) {
        sum += u16::from_be_bytes([fixed[i], fixed[i + 1]]) as u32;
    }
    while sum >> 16 != 0 {
        sum = (sum & 0xFFFF) + (sum >> 16);
    }
    assert_eq!(sum, 0xFFFF);
    assert_eq!(&fixed[20..], &packet[20..]);
    assert_eq!(refresh_ipv4_checksum(vec![1, 2, 3]), vec![1, 2, 3]);
}

#[test]
fn mac_address_text() {
    assert_eq!(parse_mac("aa:bb:cc:dd:ee:ff"), Ok([0xaa, 0xbb, 0xcc, 0xdd, 0xee, 0xff]));
    assert_eq!(parse_mac("0:1:2:3:4:F"), Ok([0, 1, 2, 3, 4, 15]));
    assert_eq!(parse_mac("+a:0b:00c:d:e:f"), Ok([10, 11, 12, 13, 14, 15]));
    assert_eq!(parse_mac("aa:bb:cc:dd:ee"), Err(MacParseError::WrongLength));
    assert_eq!(parse_mac("aa:bb:cc:dd:ee:ff:00"), Err(MacParseError::WrongLength));
    assert_eq!(parse_mac("aa:bb:cc:dd:ee:fg"), Err(MacParseError::InvalidOctet));
    assert_eq!(parse_mac("aa:bb:cc:dd:ee:100"), Err(MacParseError::InvalidOctet));
    assert_eq!(parse_mac("aa::cc"), Err(MacParseError::InvalidOctet));
    assert_eq!(parse_mac(""), Err(MacParseError::InvalidOctet));
    assert_eq!(parse_mac("-1:0:0:0:0:0"), Err(MacParseError::InvalidOctet));
}
