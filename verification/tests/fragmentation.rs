use trackmaker_rs::net::fragmentation::{FragmentationInfo, IpFragmenter, IpReassembler};

#[test]
fn test_fragmentation_info_encode_decode() {
    let info = FragmentationInfo::new(12345, true, 100);
    let encoded = info.to_u16();

    assert_eq!(encoded & 0x2000, 0x2000);
    assert_eq!(encoded & 0x1FFF, 100);

    let decoded = FragmentationInfo::from_u16(encoded);
    assert_eq!(decoded.more_fragments, true);
    assert_eq!(decoded.fragment_offset, 100);
}

#[test]
fn test_no_fragmentation_needed() {
    let mut fragmenter = IpFragmenter::new(500);
    let packet = vec![0u8; 100];
    let fragments = fragmenter.fragment_packet(&packet).unwrap();

    assert_eq!(fragments.len(), 1);
    assert_eq!(fragments[0], packet);
}

#[test]
fn test_fragmentation_basic() {
    let mut fragmenter = IpFragmenter::new(100);
    let mut packet = vec![0x45u8; 20];
    packet.extend(vec![0x00u8; 300]);

    let fragments = fragmenter.fragment_packet(&packet).unwrap();
    assert!(fragments.len() > 1);
    for frag in &fragments {
        assert!(frag.len() <= 100);
    }
}

#[test]
fn test_fragment_assemble() {
    let mut fragmenter = IpFragmenter::new(60);
    let mut reassembler = IpReassembler::new();

    let mut packet = vec![
        0x45, 0x00, 0x00, 0x00, 0x00, 0x00, 0x00, 0x00, 0x40, 0x11, 0x00, 0x00, 192, 168, 1, 1,
        192, 168, 1, 2,
    ];
    let payload: Vec<u8> = (0..100u8).collect();
    packet.extend(&payload);
    let total_len = packet.len() as u16;
    packet[2..4].copy_from_slice(&total_len.to_be_bytes());

    let fragments = fragmenter.fragment_packet(&packet).unwrap();
    assert!(fragments.len() > 1, "Packet should be fragmented into multiple parts");

    let mut result: Option<Vec<u8>> = None;
    for fragment in &fragments {
        result = reassembler.process_fragment(fragment).unwrap();
    }
    assert!(result.is_some(), "Packet should be reassembled");
    let reassembled = result.unwrap();
    let reassembled_payload = &reassembled[20..];
    assert_eq!(reassembled_payload, &payload, "Reassembled payload should match original");
}

#[test]
fn fragment_headers_carry_offsets_flags_and_lengths() {
    let mut fragmenter = IpFragmenter::new(60);
    let mut packet = vec![0x45u8, 0, 0, 120, 0, 0, 0, 0, 64, 17, 0xAB, 0xCD, 10, 0, 0, 1, 10, 0, 0, 2];
    packet.extend((0..100u8).collect::<Vec<u8>>());
    let fragments = fragmenter.fragment_packet(&packet).unwrap();
    // 40 data bytes per fragment: 40 + 40 + 20.
    assert_eq!(fragments.len(), 3);
    assert_eq!(fragments[0].len(), 60);
    assert_eq!(fragments[2].len(), 40);
    // total length, identification 0, flags/offset
    assert_eq!(&fragments[0][2..4], &[0, 60]);
    assert_eq!(&fragments[0][4..6], &[0, 0]);
    assert_eq!(&fragments[0][6..8], &[0x20, 0]);
    assert_eq!(&fragments[1][6..8], &[0x20, 5]);
    assert_eq!(&fragments[2][6..8], &[0x00, 10]);
    // checksum bytes copied unchanged
    assert_eq!(&fragments[1][10..12], &[0xAB, 0xCD]);
    assert_eq!(&fragments[2][20..], &packet[100..]);
    // the next packet gets the next identification
    let again = fragmenter.fragment_packet(&packet).unwrap();
    assert_eq!(&again[0][4..6], &[0, 1]);
}

#[test]
fn fragmentation_refusals() {
    let mut small_mtu = IpFragmenter::new(25);
    let mut packet = vec![0x45u8; 20];
    packet.extend(vec![1u8; 20]);
    assert!(small_mtu.fragment_packet(&packet).is_err());

    let mut fragmenter = IpFragmenter::new(10);
    assert!(fragmenter.fragment_packet(&[0x45u8; 15]).is_err());
    let mut bad_ihl = vec![0x44u8; 20];
    bad_ihl.extend(vec![0u8; 10]);
    assert!(fragmenter.fragment_packet(&bad_ihl).is_err());
    let mut id_counter = IpFragmenter::new(100);
    assert_eq!(id_counter.next_identification(), 0);
    assert_eq!(id_counter.next_identification(), 1);
}

#[test]
fn reassembler_handles_out_of_order_fragments_and_refusals() {
    let mut fragmenter = IpFragmenter::new(60);
    let mut reassembler = IpReassembler::new();
    let mut packet = vec![0x45u8, 0, 0, 0, 0, 0, 0, 0, 64, 17, 0, 0, 10, 0, 0, 1, 10, 0, 0, 2];
    let payload: Vec<u8> = (100..200u8).collect();
    packet.extend(&payload);
    let fragments = fragmenter.fragment_packet(&packet).unwrap();
    assert_eq!(reassembler.process_fragment(&fragments[2]).unwrap(), None);
    assert_eq!(reassembler.process_fragment(&fragments[0]).unwrap(), None);
    let whole = reassembler.process_fragment(&fragments[1]).unwrap().unwrap();
    assert_eq!(&whole[20..], &payload[..]);
    assert_eq!(whole.len(), 120);
    assert_eq!(&whole[2..4], &[0, 120]);
    assert_eq!(&whole[6..8], &[0, 0]);

    // an unfragmented packet passes through unchanged
    let single = vec![0x45u8; 20];
    let mut plain = single.clone();
    plain[6] = 0;
    plain[7] = 0;
    assert_eq!(reassembler.process_fragment(&plain).unwrap(), Some(plain.clone()));
    assert!(reassembler.process_fragment(&[0x45u8; 10]).is_err());
}

#[test]
fn identification_counts_up_and_wraps() {
    let mut f = IpFragmenter::new(100);
    assert_eq!(f.next_identification(), 0);
    assert_eq!(f.next_identification(), 1);
    assert_eq!(f.next_identification(), 2);
    for _ in 3..65536u32 {
        f.next_identification();
    }
    assert_eq!(f.next_identification(), 0);
    assert_eq!(f.next_identification(), 1);
}

#[test]
fn fragments_reassemble_in_any_order() {
    let mut packet = vec![
        0x45, 0x00, 0x00, 0x00, 0x00, 0x00, 0x00, 0x00, 0x40, 0x11, 0x00, 0x00, 192, 168, 1, 1,
        192, 168, 1, 2,
    ];
    let payload: Vec<u8> = (0..100u8).collect();
    packet.extend(&payload);
    let total_len = packet.len() as u16;
    packet[2..4].copy_from_slice(&total_len.to_be_bytes());
    let fragments = IpFragmenter::new(60).fragment_packet(&packet).unwrap();
    assert!(fragments.len() >= 3);
    let n = fragments.len();
    let orders: Vec<Vec<usize>> = vec![(0..n).rev().collect(), {
        let mut o: Vec<usize> = (1..n).collect();
        o.push(0);
        o
    }];
    for order in orders {
        let mut reassembler = IpReassembler::new();
        for (step, &i) in order.iter().enumerate() {
            let r = reassembler.process_fragment(&fragments[i]).unwrap();
            if step + 1 < n {
                assert_eq!(r, None);
            } else {
                let q = r.unwrap();
                assert_eq!(q.len(), packet.len());
                assert_eq!(&q[20..], &packet[20..]);
                assert_eq!(&q[2..4], &total_len.to_be_bytes());
                assert_eq!(&q[6..8], &[0, 0]);
            }
        }
    }
}
