use kibbled::ring::{
    advise_plan, find_next_header, frame_of, parse_header, whole_pages, Frame, VideoFeed, Walker,
    ADVISE_CHUNK, CHAN_MAIN, CHAN_SUB, DATA_START, HDR, RING_LEN, STALL_RESYNC_AFTER,
};

fn make_record(seq: u32, chan: u8, frame_type: u8, payload: &[u8]) -> Vec<u8> {
    let mut r = vec![0u8; HDR + payload.len()];
    r[0..4].copy_from_slice(&seq.to_le_bytes());
    r[4..8].copy_from_slice(&(payload.len() as u32).to_le_bytes());
    r[32] = frame_type;
    r[34] = chan;
    r[HDR..].copy_from_slice(payload);
    r
}

fn ring_prefix() -> Vec<u8> {
    vec![0u8; DATA_START]
}

#[test]
fn parse_header_reads_known_fields() {
    let mut buf = ring_prefix();
    buf.extend(make_record(7, CHAN_SUB, 1, b"\x00\x00\x00\x01payload"));
    let h = parse_header(&buf, DATA_START).expect("valid header");
    assert_eq!(h.seq, 7);
    assert_eq!(h.chan, CHAN_SUB);
    assert_eq!(h.frame_type, 1);
    assert_eq!(h.length as usize, b"\x00\x00\x00\x01payload".len());
}

#[test]
fn parse_header_rejects_record_that_would_run_past_the_mapping() {
    let mut buf = ring_prefix();
    buf.extend(vec![0u8; HDR]);
    buf[DATA_START + 4..DATA_START + 8].copy_from_slice(&1000u32.to_le_bytes());
    buf[DATA_START + 34] = CHAN_SUB;
    assert!(parse_header(&buf, DATA_START).is_none());
}

#[test]
fn parse_header_rejects_unknown_channel() {
    let mut buf = ring_prefix();
    buf.extend(make_record(1, 99, 1, b"x"));
    assert!(parse_header(&buf, DATA_START).is_none());
}

#[test]
fn parse_header_rejects_zero_length() {
    let mut buf = ring_prefix();
    buf.extend(make_record(1, CHAN_SUB, 1, b""));
    assert!(parse_header(&buf, DATA_START).is_none());
}

#[test]
fn find_next_header_skips_false_positive_start_codes() {
    let mut buf = ring_prefix();
    buf.extend_from_slice(&[0, 0, 0, 1, 0xAA]);
    buf.extend(make_record(3, CHAN_SUB, 2, &[0, 0, 0, 1, 0x41, 0x42]));
    let found = find_next_header(&buf, DATA_START).expect("should find the real header");
    let h = parse_header(&buf, found).unwrap();
    assert_eq!(h.seq, 3);
}

#[test]
fn find_next_header_wraps_when_nothing_matches_before_the_end() {
    let mut buf = ring_prefix();
    let real_at = buf.len();
    buf.extend(make_record(9, CHAN_MAIN, 2, &[0, 0, 0, 1, 5])); // real record right after DATA_START
    let scan_start = buf.len();
    buf.extend(vec![0xAAu8; 64]); // junk tail with no start code at all -> first pass finds nothing
    let found = find_next_header(&buf, scan_start).expect("wraps around to find the earlier record");
    assert_eq!(found, real_at);
}

#[test]
fn walker_steps_through_a_contiguous_chain_in_order() {
    let mut buf = ring_prefix();
    buf.extend(make_record(1, CHAN_SUB, 1, b"a"));
    buf.extend(make_record(2, CHAN_MAIN, 2, b"bb"));
    buf.extend(make_record(3, CHAN_SUB, 2, b"c"));
    let mut w = Walker::new();
    let (h1, _) = w.step(&buf, 0).expect("first record");
    assert_eq!(h1.seq, 1);
    let (h2, _) = w.step(&buf, 0).expect("second record");
    assert_eq!(h2.seq, 2);
    let (h3, _) = w.step(&buf, 0).expect("third record");
    assert_eq!(h3.seq, 3);
    assert!(w.step(&buf, 0).is_none(), "caught up to the writer, nothing more to read");
}

#[test]
fn walker_wraps_next_pos_back_to_data_start_at_the_physical_end() {
    let ring_len = DATA_START + 200;
    let buf = vec![0u8; ring_len];
    let mut w = Walker::new();
    w.next_pos = ring_len - 2; // too close to the end to hold a full header
    assert!(w.step(&buf, 0).is_none());
    assert_eq!(w.next_pos, DATA_START);
}

#[test]
fn walker_stalls_on_seq_gap_then_resyncs_after_the_threshold() {
    let mut buf = ring_prefix();
    buf.extend(make_record(1, CHAN_SUB, 1, &[0, 0, 0, 1, 0x41]));
    let gap_start = buf.len();
    buf.extend(make_record(5, CHAN_SUB, 2, &[0, 0, 0, 1, 0x42, 0x43]));
    let mut w = Walker::new();
    let (h1, _) = w.step(&buf, 0).expect("first record");
    assert_eq!(h1.seq, 1);
    assert!(w.step(&buf, 0).is_none(), "seq 5 != prev+1, must not be accepted as-is");
    assert_eq!(w.stalled_since, Some(0));
    assert!(w.step(&buf, STALL_RESYNC_AFTER).is_none(), "this call performs the resync itself");
    assert_eq!(w.next_pos, gap_start);
    let (h2, _) = w.step(&buf, 0).expect("resynced record");
    assert_eq!(h2.seq, 5);
}

#[test]
fn advise_plan_waits_until_a_full_chunk_has_accumulated() {
    let (upto, range) = advise_plan(DATA_START, DATA_START + ADVISE_CHUNK - 1, RING_LEN);
    assert_eq!(upto, DATA_START);
    assert_eq!(range, None);
}

#[test]
fn advise_plan_fires_once_a_chunk_is_crossed() {
    let next = DATA_START + ADVISE_CHUNK;
    let (upto, range) = advise_plan(DATA_START, next, RING_LEN);
    assert_eq!(upto, next);
    assert_eq!(range, Some((DATA_START, next)));
}

#[test]
fn advise_plan_flushes_the_tail_on_wraparound() {
    let (upto, range) = advise_plan(RING_LEN - 100, DATA_START + 5, RING_LEN);
    assert_eq!(upto, DATA_START);
    assert_eq!(range, Some((RING_LEN - 100, RING_LEN)));
}

#[test]
fn seeding_skips_the_backlog() {
    let mut buf = ring_prefix();
    buf.extend(make_record(1, CHAN_SUB, 1, &[0, 0, 0, 1, 9]));
    buf.extend(make_record(2, CHAN_SUB, 2, &[0, 0, 0, 1, 9]));
    let mut w = Walker::new();
    w.seed(&buf);
    assert_eq!(w.prev_seq, Some(2));
    buf.extend(make_record(3, CHAN_SUB, 2, &[0, 0, 0, 1, 9]));
    let (h, _) = w.step(&buf, 0).expect("the record behind the backlog");
    assert_eq!(h.seq, 3);
}

#[test]
fn only_whole_pages_are_given_back() {
    assert_eq!(whole_pages(4095, 12_288), Some((4096, 12_288)));
    assert_eq!(whole_pages(4097, 8192), None);
}

#[test]
fn a_frame_is_taken_from_its_channel() {
    let mut buf = ring_prefix();
    buf.extend(make_record(7, CHAN_SUB, 1, &[0, 0, 0, 1, 0x65]));
    let h = parse_header(&buf, DATA_START).unwrap();
    let f = frame_of(&buf, &h, DATA_START + HDR, CHAN_SUB).unwrap();
    assert!(f.keyframe);
    assert_eq!(f.data, vec![0, 0, 0, 1, 0x65]);
    assert!(frame_of(&buf, &h, DATA_START + HDR, CHAN_MAIN).is_none());
}

#[test]
fn the_feed_keeps_the_latest_keyframe() {
    let mut feed = VideoFeed::new();
    let mut seen = 0;
    assert!(feed.wait_next(&mut seen).is_none());
    feed.publish(Frame { pts_us: 1, keyframe: true, data: vec![1] });
    feed.publish(Frame { pts_us: 2, keyframe: false, data: vec![2] });
    assert_eq!(feed.latest_keyframe().1.unwrap().data, vec![1]);
    assert_eq!(feed.wait_next(&mut seen).unwrap().data, vec![2]);
    assert_eq!(seen, 2);
    assert!(feed.wait_next(&mut seen).is_none());
}
