use trackmaker_rs::pcm::{decode_pcm_samples, full_scale, playback_step, PcmError};

#[test]
fn pcm_8bit_samples_are_signed() {
    let s = decode_pcm_samples(&[0x00, 0x7f, 0x80, 0xff], 8).unwrap();
    assert_eq!(s, vec![0, 127, -128, -1]);
}

#[test]
fn pcm_16bit_samples_are_little_endian_and_drop_a_trailing_byte() {
    let s = decode_pcm_samples(&[0x34, 0x12, 0x00, 0x80, 0xff, 0xff, 0x07], 16).unwrap();
    assert_eq!(s, vec![0x1234, -32768, -1]);
}

#[test]
fn pcm_24bit_samples_are_not_sign_extended() {
    let s = decode_pcm_samples(&[0x01, 0x02, 0x03, 0xff, 0xff, 0xff], 24).unwrap();
    assert_eq!(s, vec![0x030201, 0xffffff]);
}

#[test]
fn pcm_32bit_samples_are_signed() {
    let s = decode_pcm_samples(&[0x78, 0x56, 0x34, 0x12, 0x00, 0x00, 0x00, 0x80], 32).unwrap();
    assert_eq!(s, vec![0x12345678, i32::MIN]);
}

#[test]
fn pcm_unsupported_bit_depth_is_refused() {
    assert_eq!(decode_pcm_samples(&[1, 2, 3], 12), Err(PcmError::UnsupportedBitDepth(12)));
    assert_eq!(decode_pcm_samples(&[], 0), Err(PcmError::UnsupportedBitDepth(0)));
}

#[test]
fn pcm_full_scale_per_depth() {
    assert_eq!(full_scale(8), 128);
    assert_eq!(full_scale(16), 32768);
    assert_eq!(full_scale(24), 8388608);
    assert_eq!(full_scale(32), 2147483648);
}

#[test]
fn playback_one_shot_stops_at_the_end() {
    let a = playback_step(3, 5, 4, false, true);
    assert_eq!(a.sources, vec![3, 4]);
    assert_eq!(a.position, 5);
    assert!(a.playing);
    let b = playback_step(a.position, 5, 4, false, a.playing);
    assert!(b.sources.is_empty());
    assert_eq!(b.position, 5);
    assert!(!b.playing);
}

#[test]
fn playback_looping_wraps_around() {
    let a = playback_step(3, 5, 4, true, true);
    assert_eq!(a.sources, vec![3, 4, 0, 1]);
    assert_eq!(a.position, 2);
    assert!(a.playing);
    let b = playback_step(4, 5, 1, true, true);
    assert_eq!(b.sources, vec![4]);
    assert_eq!(b.position, 5);
    let c = playback_step(b.position, 5, 2, true, true);
    assert_eq!(c.sources, vec![0, 1]);
    assert_eq!(c.position, 2);
}

#[test]
fn playback_paused_or_empty_plays_nothing() {
    let a = playback_step(2, 5, 4, true, false);
    assert!(a.sources.is_empty());
    assert_eq!(a.position, 2);
    assert!(!a.playing);
    let b = playback_step(0, 0, 4, true, true);
    assert!(b.sources.is_empty());
    assert_eq!(b.position, 0);
    assert!(b.playing);
}

#[test]
fn playback_is_seamless_across_buffers() {
    for looping in [false, true] {
        let whole = playback_step(2, 7, 10, looping, true);
        let first = playback_step(2, 7, 4, looping, true);
        let second = playback_step(first.position, 7, 6, looping, first.playing);
        let mut joined = first.sources.clone();
        joined.extend(second.sources.iter().copied());
        assert_eq!(joined, whole.sources);
    }
}
