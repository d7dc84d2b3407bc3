use kibbled::backchannel::{on_rtp_packet, rtp_payload};

fn rtp_packet(cc: u8, payload: &[u8]) -> Vec<u8> {
    let mut p = vec![0x80 | cc, 0, 0, 0, 0, 0, 0, 0, 0, 0, 0, 0];
    p.extend(std::iter::repeat(0u8).take(cc as usize * 4));
    p.extend_from_slice(payload);
    p
}

#[test]
fn rtp_payload_strips_the_bare_12_byte_header() {
    let packet = rtp_packet(0, &[0xFF, 0x7F, 0xD5]);
    assert_eq!(rtp_payload(&packet), Some(&[0xFFu8, 0x7F, 0xD5][..]));
}

#[test]
fn rtp_payload_accounts_for_csrc_entries() {
    let packet = rtp_packet(2, &[0x55]);
    assert_eq!(rtp_payload(&packet), Some(&[0x55u8][..]));
}

#[test]
fn rtp_payload_rejects_a_packet_shorter_than_the_bare_header() {
    assert_eq!(rtp_payload(&[0u8; 11]), None);
}

#[test]
fn rtp_payload_rejects_a_packet_too_short_for_its_own_csrc_count() {
    assert_eq!(rtp_payload(&rtp_packet(0, &[])[..12]), Some(&[][..]));
    assert_eq!(rtp_payload(&[0x83u8, 0, 0, 0, 0, 0, 0, 0, 0, 0, 0, 0]), None);
}

#[test]
fn a_packet_becomes_samples_at_twice_the_rate() {
    let packet = rtp_packet(0, &[0xFF, 0x00]);
    assert_eq!(on_rtp_packet(&packet, 0), Some(vec![0, -16062, -32124, -32124]));
    let packet = rtp_packet(0, &[0xD5]);
    assert_eq!(on_rtp_packet(&packet, 8), Some(vec![8, 8]));
}

#[test]
fn stray_packets_give_no_audio() {
    assert_eq!(on_rtp_packet(&rtp_packet(0, &[1, 2]), 96), None);
    assert_eq!(on_rtp_packet(&rtp_packet(0, &[]), 0), None);
    assert_eq!(on_rtp_packet(&[0x80, 0], 0), None);
}
