use kibbled::adts::{is_kibble_mic_stream, parse, AOT_AAC_LC};

const REAL_HEADER: [u8; 7] = [0xff, 0xf1, 0x60, 0x40, 0x21, 0x5f, 0xfc];

#[test]
fn parses_real_captured_header() {
    let h = parse(&REAL_HEADER).expect("real capture must parse");
    assert_eq!(h.audio_object_type, AOT_AAC_LC);
    assert_eq!(h.sample_rate, 16000);
    assert_eq!(h.channels, 1);
    assert!(h.protection_absent);
    assert_eq!(h.header_len, 7);
    assert_eq!(h.frame_length, 266);
    assert!(is_kibble_mic_stream(&h));
}

#[test]
fn parses_a_second_real_captured_header_with_a_different_frame_length() {
    let raw = [0xff, 0xf1, 0x60, 0x40, 0x23, 0xff, 0xfc];
    let h = parse(&raw).expect("second real capture must parse");
    assert_eq!(h.frame_length, 287);
    assert!(is_kibble_mic_stream(&h));
}

#[test]
fn rejects_bad_syncword() {
    let mut bad = REAL_HEADER;
    bad[1] = 0x00;
    assert!(parse(&bad).is_none());
}

#[test]
fn rejects_short_buffer() {
    assert!(parse(&REAL_HEADER[..6]).is_none());
}

#[test]
fn rejects_frame_length_shorter_than_its_own_header() {
    let bad = [0xff, 0xf1, 0x60, 0x00, 0x00, 0x20, 0xe8];
    assert!(parse(&bad).is_none());
}

#[test]
fn parses_nine_byte_header_when_protection_present() {
    let mut raw = REAL_HEADER;
    raw[1] &= !0x01;
    let mut buf = raw.to_vec();
    buf.extend_from_slice(&[0x00, 0x00]);
    let h = parse(&buf).expect("9-byte header must parse");
    assert!(!h.protection_absent);
    assert_eq!(h.header_len, 9);
}

#[test]
fn reserved_rate_index_is_rejected() {
    let mut bad = REAL_HEADER;
    bad[2] = 0x74;
    assert!(parse(&bad).is_none());
}

#[test]
fn bytes_behind_the_header_change_nothing() {
    let mut longer = REAL_HEADER.to_vec();
    longer.extend_from_slice(&[9, 9, 9, 9]);
    assert_eq!(parse(&longer), parse(&REAL_HEADER));
}

#[test]
fn another_stream_is_not_the_microphone() {
    let mut stereo = REAL_HEADER;
    stereo[3] = 0x80;
    let h = parse(&stereo).unwrap();
    assert_eq!(h.channels, 2);
    assert!(!is_kibble_mic_stream(&h));
}
