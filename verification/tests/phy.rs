use trackmaker_rs::phy::crc::{
    bits_to_byte, bits_to_bytes, byte_to_bits, bytes_to_bits, calculate_crc8, verify_crc8,
};
use trackmaker_rs::phy::frame::{Frame, FrameType};
use trackmaker_rs::phy::line_coding::{
    decode_4b5b_bits, encode_4b5b_bits, fourb_fiveb_samples_for_bits, nrzi_levels,
    parse_line_coding, LineCodingKind, ManchesterCodec,
};

#[test]
fn test_crc8() {
    let data = b"Hello, World!";
    let crc = calculate_crc8(data);
    assert!(verify_crc8(data, crc));

    let mut modified = data.to_vec();
    modified[0] = b'h';
    assert!(!verify_crc8(&modified, crc));
}

#[test]
fn test_bit_conversion() {
    let byte = 0b10110011;
    let bits = byte_to_bits(byte);
    assert_eq!(bits, [1, 0, 1, 1, 0, 0, 1, 1]);
    assert_eq!(bits_to_byte(&bits), byte);
}

#[test]
fn test_bytes_bits_conversion() {
    let bytes = vec![0xAB, 0xCD, 0xEF];
    let bits = bytes_to_bits(&bytes);
    assert_eq!(bits.len(), 24);
    let recovered = bits_to_bytes(&bits);
    assert_eq!(bytes, recovered);
}

#[test]
fn crc8_known_values_and_partial_bit_groups() {
    assert_eq!(calculate_crc8(&[]), 0);
    assert_eq!(calculate_crc8(&[0x01]), 0x07);
    // CRC-8 (poly 0x07, init 0) check value of "123456789".
    assert_eq!(calculate_crc8(b"123456789"), 0xF4);
    assert_eq!(bits_to_byte(&[1, 1]), 0b1100_0000);
    assert_eq!(bits_to_byte(&[1, 0, 0, 0, 0, 0, 0, 1, 1, 1]), 0b1000_0001);
    assert_eq!(bits_to_bytes(&[1, 0, 1, 0, 1, 0, 1, 0, 1]), vec![0xAA, 0x80]);
    assert_eq!(bits_to_byte(&[2, 0, 0, 0, 0, 0, 0, 0]), 0x80);
}

#[test]
fn frame_roundtrip_through_bytes_and_bits() {
    let frame = Frame::new_data(7, 1, 2, vec![0x12, 0x34, 0x56]);
    let bytes = frame.to_bytes();
    assert_eq!(bytes[..7], [0, 3, calculate_crc8(&[0x12, 0x34, 0x56]), 1, 7, 1, 2]);
    let parsed = Frame::from_bytes(&bytes).unwrap();
    assert_eq!(parsed.frame_type, FrameType::Data);
    assert_eq!((parsed.sequence, parsed.src, parsed.dst), (7, 1, 2));
    assert_eq!(parsed.data, vec![0x12, 0x34, 0x56]);

    let bits = frame.to_bits();
    assert_eq!(bits.len(), bytes.len() * 8);
    let from_bits = Frame::from_bits(&bits).unwrap();
    assert_eq!(from_bits.data, frame.data);
    let header = Frame::parse_header(&bits).unwrap();
    assert_eq!(header, (3, bytes[2], FrameType::Data, 7, 1, 2));

    let ack = Frame::new_ack(9, 2, 1);
    let parsed_ack = Frame::from_bytes(&ack.to_bytes()).unwrap();
    assert_eq!(parsed_ack.frame_type, FrameType::Ack);
    assert!(parsed_ack.data.is_empty());
}

#[test]
fn frame_rejections() {
    let frame = Frame::new(FrameType::Data, 1, 1, 2, vec![1, 2, 3, 4]);
    let mut bytes = frame.to_bytes();
    assert!(Frame::from_bytes(&bytes[..6]).is_none());
    assert!(Frame::from_bytes(&bytes[..10]).is_none());
    bytes[8] ^= 0xFF;
    assert!(Frame::from_bytes(&bytes).is_none());
    let mut bad_type = frame.to_bytes();
    bad_type[3] = 9;
    assert!(Frame::from_bytes(&bad_type).is_none());
    assert_eq!(FrameType::from_u8(2), Some(FrameType::Ack));
    assert_eq!(FrameType::from_u8(0), None);
    assert_eq!(FrameType::Data.to_u8(), 1);
}

#[test]
fn fourb_fiveb_roundtrip_and_symbols() {
    let bits = vec![1, 0, 1, 0, 0, 1, 1, 1, 0, 0, 0, 0, 1, 1, 1, 1];
    let encoded = encode_4b5b_bits(&bits);
    assert_eq!(encoded.len(), 20);
    // 0xA -> 10110
    assert_eq!(&encoded[..5], &[1, 0, 1, 1, 0]);
    assert_eq!(decode_4b5b_bits(&encoded), bits);
    // a short last nibble is zero-padded
    assert_eq!(decode_4b5b_bits(&encode_4b5b_bits(&[1, 1])), vec![1, 1, 0, 0]);
    // decoding stops at the first invalid symbol (00000)
    let mut broken = encoded.clone();
    for b in broken[5..10].iter_mut() {
        *b = 0;
    }
    assert_eq!(decode_4b5b_bits(&broken), vec![1, 0, 1, 0]);
    assert_eq!(fourb_fiveb_samples_for_bits(16, 4), 80);
}

#[test]
fn nrzi_and_manchester_levels() {
    assert_eq!(nrzi_levels(&[1, 0, 1, 1], 2), vec![-1, -1, -1, -1, 1, 1, -1, -1]);
    let codec = ManchesterCodec::new(2);
    assert_eq!(codec.levels(&[0, 1]), vec![1, 1, -1, -1, -1, -1, 1, 1]);
    assert_eq!(codec.samples_for_bits(16), 64);
}

#[test]
fn line_coding_names_and_parsing() {
    assert_eq!(LineCodingKind::Manchester.name(), "Manchester");
    assert_eq!(LineCodingKind::FourBFiveB.name(), "4B5B");
    assert_eq!(parse_line_coding("Manchester"), LineCodingKind::Manchester);
    assert_eq!(parse_line_coding("MANCHESTER-BIPHASE"), LineCodingKind::Manchester);
    assert_eq!(parse_line_coding("4b5b-nrz"), LineCodingKind::FourBFiveB);
    assert_eq!(parse_line_coding("unknown"), LineCodingKind::FourBFiveB);
}

#[test]
fn test_manchester_encoding_decoding() {
    let codec = ManchesterCodec::new(2);
    let bits = vec![0, 1, 0, 1, 1, 0, 1, 0];
    let samples = codec.levels(&bits);
    let decoded = codec.decode_levels(&samples);

    assert_eq!(bits, decoded);
}

#[test]
fn manchester_decoding_of_noisy_and_partial_input() {
    let codec = ManchesterCodec::new(3);
    // first half sums higher -> 0, otherwise 1; a trailing partial bit is ignored
    let levels: Vec<i8> = vec![1, 1, -1, -1, -1, 1, -1, 1, 1, 1, 1, -1, 5, 5];
    assert_eq!(codec.decode_levels(&levels), vec![0, 1]);
    let flat: Vec<i8> = vec![0; 6];
    assert_eq!(codec.decode_levels(&flat), vec![1]);
}

#[test]
fn test_manchester_preamble_generation() {
    let codec = ManchesterCodec::new(2);
    let mut bits = Vec::new();
    for _ in 0..2 {
        bits.extend_from_slice(&[0, 0, 1, 1, 0, 0, 1, 1]);
    }
    let preamble = codec.levels(&bits);
    // 2 bytes * 8 bits/byte * 2 levels/bit * 2 samples_per_level = 64 samples
    assert_eq!(preamble.len(), 64);
}

#[test]
fn test_4b5b_encoding_decoding() {
    let bits = vec![1, 0, 1, 0, 0, 1, 1, 1, 0, 0, 0, 0, 1, 1, 1, 1]; // 0xA70F
    let encoded = encode_4b5b_bits(&bits);
    let levels = nrzi_levels(&encoded, 4);
    assert_eq!(levels.len(), 80);
    let decoded = decode_4b5b_bits(&encoded);

    assert_eq!(bits, decoded);
}

#[test]
fn test_4b5b_preamble_length() {
    let mut bits = Vec::new();
    for _ in 0..2 {
        bits.extend_from_slice(&[0, 0, 1, 1, 0, 0, 1, 1]);
    }
    let preamble = nrzi_levels(&encode_4b5b_bits(&bits), 4);
    // 16 bits -> 4 nibbles -> 20 encoded bits -> 80 samples at 4 per level
    assert_eq!(preamble.len(), 80);
    assert_eq!(fourb_fiveb_samples_for_bits(16, 4), 80);
}

#[test]
fn crc8_is_linear_and_catches_one_byte_changes() {
    let a = b"Hello, World!";
    let b = b"hello, World!";
    let x: Vec<u8> = a.iter().zip(b.iter()).map(|(p, q)| p ^ q).collect();
    assert_eq!(calculate_crc8(a) ^ calculate_crc8(b), calculate_crc8(&x));
    assert_ne!(calculate_crc8(a), calculate_crc8(b));
}
