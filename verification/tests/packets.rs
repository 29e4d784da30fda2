use trackmaker_rs::net::icmp::{IcmpPacket, IcmpType};
use trackmaker_rs::net::ip::Ipv4Header;
use trackmaker_rs::net::Protocol;

#[test]
fn test_icmp_packet_serialization() {
    let payload = vec![1, 2, 3, 4];
    let packet = IcmpPacket::new(IcmpType::EchoRequest, 0, 123, 456, payload.clone());

    let bytes = packet.to_bytes().unwrap();
    let deserialized = IcmpPacket::from_bytes(&bytes).unwrap();

    assert_eq!(packet.icmp_type, deserialized.icmp_type);
    assert_eq!(packet.code, deserialized.code);
    assert_eq!(packet.identifier, deserialized.identifier);
    assert_eq!(packet.sequence_number, deserialized.sequence_number);
    assert_eq!(packet.payload, deserialized.payload);
    assert_eq!(packet.checksum, deserialized.checksum);
}

#[test]
fn test_ipv4_header_serialization() {
    let header = Ipv4Header::new(20, 12345, 64, 17, [192, 168, 1, 1], [192, 168, 1, 2]);

    let bytes = header.to_bytes().unwrap();
    assert_eq!(bytes.len(), 20);

    let deserialized = Ipv4Header::from_bytes(&bytes).unwrap();
    assert_eq!(header, deserialized);
    assert_eq!(header.checksum, deserialized.checksum);
}

#[test]
fn ipv4_checksum_known_value() {
    // Classic example header: checksum 0xB861.
    let header = Ipv4Header {
        version_ihl: 0x45,
        tos: 0,
        total_length: 0x0073,
        identification: 0,
        flags_fragment_offset: 0x4000,
        ttl: 0x40,
        protocol: 0x11,
        checksum: 0,
        source_ip: [0xc0, 0xa8, 0x00, 0x01],
        dest_ip: [0xc0, 0xa8, 0x00, 0xc7],
    };
    assert_eq!(header.calculate_checksum(), 0xB861);
    let bytes = header.to_bytes().unwrap();
    assert_eq!(&bytes[..4], &[0x45, 0x00, 0x00, 0x73]);
    assert!(Ipv4Header::from_bytes(&bytes[..19]).is_err());
}

#[test]
fn icmp_checksum_pads_odd_length_and_parses_rest_as_payload() {
    let packet = IcmpPacket::new(IcmpType::EchoReply, 0, 1, 2, vec![0xFF]);
    // words: 0x0000, 0x0000(checksum), 0x0001, 0x0002, 0xFF00 -> sum 0xFF03 -> !0xFF03 = 0x00FC
    assert_eq!(packet.checksum, 0x00FC);
    let bytes = packet.to_bytes().unwrap();
    assert_eq!(bytes, vec![0, 0, 0x00, 0xFC, 0, 1, 0, 2, 0xFF]);
    assert!(IcmpPacket::from_bytes(&bytes[..7]).is_err());
    let parsed = IcmpPacket::from_bytes(&bytes).unwrap();
    assert_eq!(parsed, packet);
}

#[test]
fn protocol_and_icmp_type_conversions() {
    assert_eq!(Protocol::from(1u8), Protocol::Icmp);
    assert_eq!(Protocol::from(6u8), Protocol::Tcp);
    assert_eq!(Protocol::from(17u8), Protocol::Udp);
    assert_eq!(Protocol::from(99u8), Protocol::Unknown);
    assert_eq!(u8::from(Protocol::Udp), 17);
    assert_eq!(u8::from(Protocol::Unknown), 255);
    assert_eq!(IcmpType::from(0u8), IcmpType::EchoReply);
    assert_eq!(IcmpType::from(8u8), IcmpType::EchoRequest);
    assert_eq!(IcmpType::from(3u8), IcmpType::Unknown(3));
    let code: u8 = IcmpType::Unknown(3).into();
    assert_eq!(code, 3);
    let code: u8 = IcmpType::EchoRequest.into();
    assert_eq!(code, 8);
}

fn ones_sum_folded(bytes: &[u8]) -> u32 {
    let mut sum: u32 = 0;
    for chunk in bytes.chunks(2) {
        let hi = chunk[0] as u32;
        let lo = if chunk.len() > 1 { chunk[1] as u32 } else { 0 };
        sum += (hi << 8) | lo;
    }
    while sum >> 16 != 0 {
        sum = (sum & 0xffff) + (sum >> 16);
    }
    sum
}

#[test]
fn icmp_checksum_in_place_verifies() {
    let mut p = IcmpPacket::new(IcmpType::EchoRequest, 0, 0x1234, 7, b"odd payload".to_vec());
    let c = p.calculate_checksum();
    let mut other = IcmpPacket::new(IcmpType::EchoRequest, 0, 0x1234, 7, b"odd payload".to_vec());
    other.checksum = 0xbeef;
    assert_eq!(other.calculate_checksum(), c);
    p.checksum = c;
    let bytes = p.to_bytes().unwrap();
    assert_eq!(&bytes[2..4], &c.to_be_bytes());
    assert_eq!(ones_sum_folded(&bytes), 0xffff);
}
