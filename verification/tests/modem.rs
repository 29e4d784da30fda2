use trackmaker_rs::simple_test::{
    decode_varicode_buffer, find_varicode_in, varicode_bits, Interleaver, ViterbiDecoder,
    ViterbiEncoder,
};

#[test]
fn viterbi_encoder_emits_parities_of_register() {
    let mut enc = ViterbiEncoder::new(7, 0x6d, 0x4f);
    // register 1: 0x6d & 1 = 1 -> parity 1; 0x4f & 1 = 1 -> parity 1
    assert_eq!(enc.encode(1), [1, 1]);
    // register 0b10: 0x6d & 2 = 0 -> 0; 0x4f & 2 = 2 -> 1
    assert_eq!(enc.encode(0), [0, 1]);
    enc.reset();
    assert_eq!(enc.encode(0), [0, 0]);
    // register keeps only k - 1 = 2 bits
    let mut small = ViterbiEncoder::new(3, 0b11, 0b01);
    small.encode(1);
    small.encode(1);
    assert_eq!(small.encode(0), [1, 0]);
}

#[test]
fn viterbi_decoder_waits_for_traceback() {
    let mut dec = ViterbiDecoder::new(2, 0b11, 0b01);
    for _ in 0..9 {
        assert_eq!(dec.decode([1, 0]), None);
    }
    assert_eq!(dec.decode([1, 0]), Some(1));
    assert_eq!(dec.decode([1, 1]), Some(0));
    dec.reset();
    assert_eq!(dec.decode([0, 0]), None);
}

#[test]
fn interleaver_is_a_delay_line() {
    let mut it = Interleaver::new(2, 2);
    let mut a = [1u8, 2];
    it.interleave(&mut a);
    assert_eq!(a, [0, 0]);
    let mut b = [3u8, 4];
    it.interleave(&mut b);
    assert_eq!(b, [0, 0]);
    let mut c = [5u8, 6];
    it.deinterleave(&mut c);
    assert_eq!(c, [1, 2]);
    it.reset();
    let mut d = [7u8, 8];
    it.interleave(&mut d);
    assert_eq!(d, [0, 0]);
}

#[test]
fn varicode_lookup_and_decoding() {
    assert_eq!(varicode_bits(32), vec![1]);
    assert_eq!(varicode_bits(65), vec![1, 1, 0, 1, 0, 1, 1, 1, 1, 1]);
    assert_eq!(varicode_bits(200), vec![1, 0, 1, 0, 1, 1]);
    // a code followed by the "00" separator decodes to the first table
    // entry with that code
    let mut buffer = varicode_bits(72);
    buffer.extend_from_slice(&[0, 0, 1]);
    assert_eq!(decode_varicode_buffer(&buffer), Some(55));
    let mut buffer = varicode_bits(65);
    buffer.extend_from_slice(&[0, 0]);
    assert_eq!(decode_varicode_buffer(&buffer), Some(5));
    // no separator yet, a leading separator, or an unknown code
    assert_eq!(decode_varicode_buffer(&[1, 0, 1, 1]), None);
    assert_eq!(decode_varicode_buffer(&[0, 0, 1, 1]), None);
    assert_eq!(decode_varicode_buffer(&[1, 1, 1, 1, 1, 1, 1, 1, 1, 1, 1, 1, 1, 1, 1, 1, 1, 0, 0]), None);
    assert_eq!(decode_varicode_buffer(&[1]), None);
}

#[test]
fn varicode_search_in_a_window() {
    assert_eq!(find_varicode_in(&[0, 0, 0, 1, 0, 1, 1, 0, 0, 0]), Some(32));
    assert_eq!(find_varicode_in(&[0, 0, 0, 0]), None);
}
