use kibbled::ringmon::{parse_header, scan, DATA_ORIGIN, HDR, WRAP_MOD};
use kibbled::sendmsg::{parse_num, payload};

#[test]
fn message_ids_are_read_in_both_bases() {
    assert_eq!(parse_num("0x6004"), Some(0x6004));
    assert_eq!(parse_num("24580"), Some(24_580));
    assert_eq!(parse_num("0x10000"), None);
    assert_eq!(parse_num("x"), None);
}

#[test]
fn payloads_end_with_a_zero_unless_there_is_none() {
    assert_eq!(payload("ab"), vec![b'a', b'b', 0]);
    assert_eq!(payload(""), vec![0]);
    assert!(payload("-empty-").is_empty());
}

fn record(seq: u32, chan: u8, len: usize) -> Vec<u8> {
    let mut r = vec![0u8; HDR + len];
    r[0..4].copy_from_slice(&seq.to_le_bytes());
    r[4..8].copy_from_slice(&(len as u32).to_le_bytes());
    r[8..12].copy_from_slice(&77u32.to_le_bytes());
    r[34] = chan;
    r
}

#[test]
fn records_between_two_cursors_are_listed() {
    let mut ring = vec![0u8; DATA_ORIGIN];
    ring.extend(record(1, 2, 10));
    ring.extend(record(2, 8, 5));
    let cursor = (ring.len() - DATA_ORIGIN) as u32;
    let got = scan(&ring, 0, cursor);
    assert_eq!(got.len(), 2);
    assert_eq!((got[0].0, got[0].1.seq, got[0].1.chan_seq), (0, 1, 77));
    assert_eq!((got[1].0, got[1].1.chan), (66, 8));
    assert!(scan(&ring, cursor, cursor).is_empty());
    assert!(scan(&ring, WRAP_MOD, 0).is_empty());
}

#[test]
fn headers_that_make_no_sense_are_refused() {
    let ring = record(1, 3, 10);
    assert!(parse_header(&ring, 0).is_none());
    assert!(parse_header(&record(1, 2, 0), 0).is_none());
    assert!(parse_header(&record(1, 2, 10)[..60], 0).is_none());
    assert!(parse_header(&record(1, 16, 10), 0).is_some());
}
