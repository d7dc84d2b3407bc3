use kibbled::g711::{alaw_decode, ulaw_decode, upsample_2x_linear};

#[test]
fn ulaw_decode_silence_bytes_are_zero() {
    assert_eq!(ulaw_decode(0xFF), 0);
    assert_eq!(ulaw_decode(0x7F), 0);
}

#[test]
fn ulaw_decode_matches_itu_reference_values() {
    assert_eq!(ulaw_decode(0x00), -32124); // maximum-magnitude negative code word
    assert_eq!(ulaw_decode(0x3C), -2364); // arbitrary mid-range code word
}

#[test]
fn alaw_decode_matches_itu_reference_values() {
    assert_eq!(alaw_decode(0xD5), 8);
    assert_eq!(alaw_decode(0x55), -8);
    assert_eq!(alaw_decode(0x2A), -32256); // maximum-magnitude negative code word
    assert_eq!(alaw_decode(0x13), -2880); // arbitrary mid-range code word
}

#[test]
fn alaw_and_ulaw_never_panic_across_every_byte_value() {
    for b in 0..=255u8 {
        let _ = ulaw_decode(b);
        let _ = alaw_decode(b);
    }
}

#[test]
fn upsample_doubles_length_and_interpolates_midpoints() {
    let input: [i16; 3] = [0, 100, 200];
    let out = upsample_2x_linear(&input);
    assert_eq!(out, vec![0, 50, 100, 150, 200, 200]);
}

#[test]
fn upsample_handles_negative_and_single_sample_input() {
    assert_eq!(upsample_2x_linear(&[-100, 100]), vec![-100, 0, 100, 100]);
    assert_eq!(upsample_2x_linear(&[42]), vec![42, 42]);
    assert_eq!(upsample_2x_linear(&[]), Vec::<i16>::new());
}
