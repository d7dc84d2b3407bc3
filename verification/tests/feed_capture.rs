use kibbled::feed_capture::{
    evict_oldest_if_over_cap, list_json, list_records, meta_stem, read_file, save_pair, watch, CycleAction,
    FeedCapture, MetaFile, Saved, Watch, MANUAL_FEED_WINDOW, MAX_CYCLE_WAIT, MAX_FEEDS,
    SETTLE_AFTER_FEED,
};

fn on_disk(s: &Saved) -> MetaFile {
    MetaFile {
        stem: meta_stem(&s.meta_name).unwrap().to_string(),
        text: s.meta.clone(),
        before: s.record.before.is_some(),
        after: s.record.after.is_some(),
    }
}

#[test]
fn save_pair_writes_both_frames_and_a_readable_sidecar_for_a_fake_feed() {
    let saved = save_pair(1_700_000_000, "fake-feed-1", Some(3), Some(4), true, true, true);
    assert_eq!(saved.record.before.as_deref(), Some("1700000000-fake-feed-1-before.h264"));
    assert_eq!(saved.record.after.as_deref(), Some("1700000000-fake-feed-1-after.h264"));
    assert_eq!(saved.meta_name, "1700000000-fake-feed-1.json");
    let listed = list_records(&vec![on_disk(&saved)]);
    assert_eq!(listed.len(), 1);
    assert_eq!(listed[0], saved.record);
}

#[test]
fn save_pair_tolerates_a_missing_before_frame() {
    let record = save_pair(1, "x", None, None, false, false, true).record;
    assert_eq!(record.before, None);
    assert_eq!(record.after.as_deref(), Some("1-x-after.h264"));
}

#[test]
fn feed_id_containing_slashes_is_sanitised_before_touching_the_filesystem() {
    let record = save_pair(1, "../../etc/passwd", None, None, false, true, true).record;
    assert_eq!(record.id, "../../etc/passwd");
    assert_eq!(record.before.as_deref(), Some("1-.._.._etc_passwd-before.h264"));
}

#[test]
fn eviction_keeps_the_newest_cap_events_and_removes_every_file_of_the_rest() {
    let files: Vec<MetaFile> = (0..5u64)
        .map(|i| on_disk(&save_pair(1_000 + i, &format!("f{i}"), Some(1), Some(1), true, true, true)))
        .collect();
    let records = list_records(&files);
    let gone = evict_oldest_if_over_cap(&records, 3);
    assert_eq!(
        gone,
        vec![
            "1000-f0-before.h264",
            "1000-f0-after.h264",
            "1000-f0.json",
            "1001-f1-before.h264",
            "1001-f1-after.h264",
            "1001-f1.json",
        ]
    );
    let left: Vec<&str> = records[2..].iter().map(|r| r.id.as_str()).collect();
    assert_eq!(left, vec!["f2", "f3", "f4"]);
}

#[test]
fn eviction_goes_by_the_name_a_feed_was_found_under() {
    let saved = save_pair(5, "Tom's", None, None, true, true, true);
    let listed = list_records(&vec![on_disk(&saved)]);
    assert_eq!(listed[0].stem, "5-Tom's");
    assert_eq!(
        evict_oldest_if_over_cap(&listed, 0),
        vec!["5-Tom's-before.h264", "5-Tom's-after.h264", "5-Tom's.json"]
    );
}

#[test]
fn eviction_is_a_no_op_at_or_under_the_cap() {
    let records = list_records(&vec![on_disk(&save_pair(1, "only", None, None, false, true, true))]);
    assert!(evict_oldest_if_over_cap(&records, 20).is_empty());
}

#[test]
fn finish_cycle_never_exceeds_max_feeds_across_many_manual_notes() {
    let mut capture = FeedCapture::new();
    let mut files: Vec<MetaFile> = Vec::new();
    for i in 0..(MAX_FEEDS + 7) {
        capture.note_manual_feed(format!("id-{i}"), 1, 2, 1_000);
        let c = capture.start_cycle(1_000, 100 + i as u64);
        assert_eq!(c.id, format!("id-{i}"), "a fresh note must be claimed by the very next cycle");
        assert!(c.manual);
        let saved = save_pair(100 + i as u64, &c.id, c.amount1, c.amount2, c.manual, true, true);
        files.push(on_disk(&saved));
        let gone = evict_oldest_if_over_cap(&list_records(&files), MAX_FEEDS);
        files.retain(|f| !gone.contains(&format!("{}.json", f.stem)));
    }
    assert_eq!(list_records(&files).len(), MAX_FEEDS);
}

#[test]
fn start_cycle_falls_back_to_a_spontaneous_id_with_no_pending_manual_note() {
    let mut capture = FeedCapture::new();
    let c = capture.start_cycle(0, 1_700_000_000);
    assert!(c.id.starts_with("scheduled-"), "got {:?}", c.id);
    assert_eq!(c.amount1, None);
    assert_eq!(c.amount2, None);
    assert!(!c.manual);
}

#[test]
fn stale_manual_notes_are_not_claimed_by_a_much_later_cycle() {
    let mut capture = FeedCapture::new();
    capture.note_manual_feed("late".into(), 5, 5, 1_000);
    let c = capture.start_cycle(1_000 + MANUAL_FEED_WINDOW + 1_000, 7);
    assert!(!c.manual);
    assert!(c.id.starts_with("scheduled-"), "got {:?}", c.id);
}

#[test]
fn read_file_rejects_names_outside_the_before_after_convention() {
    assert!(read_file("../../etc/passwd").is_err());
    assert!(read_file("1-x.json").is_err(), "sidecar metadata is not a served file");
    assert_eq!(read_file("1-x-before.h264").unwrap(), "/opt/kibble/feeds/1-x-before.h264");
}

#[test]
fn list_json_on_a_fresh_directory_is_an_empty_array() {
    assert_eq!(list_json(&list_records(&vec![])), "[]");
}

#[test]
fn the_scheduler_s_amounts_are_used_once() {
    let mut capture = FeedCapture::new();
    capture.note_scheduled_feed(2, 3, 0);
    let c = capture.start_cycle(10, 7);
    assert_eq!((c.id.as_str(), c.amount1, c.amount2), ("scheduled-7-0", Some(2), Some(3)));
    let c = capture.start_cycle(20, 7);
    assert_eq!((c.id.as_str(), c.amount1, c.amount2), ("scheduled-7-1", None, None));
}

#[test]
fn a_feed_is_watched_from_start_to_finish() {
    let (w, a) = watch(Watch::Idle, true, 0);
    assert_eq!(a, CycleAction::Start);
    let (w, a) = watch(w, true, 10);
    assert_eq!(a, CycleAction::Wait);
    let (w, a) = watch(w, false, 20);
    assert_eq!(a, CycleAction::Cleared);
    let (w, a) = watch(w, false, 20 + SETTLE_AFTER_FEED - 1);
    assert_eq!(a, CycleAction::Wait);
    let (w, a) = watch(w, false, 20 + SETTLE_AFTER_FEED);
    assert_eq!((w, a), (Watch::Idle, CycleAction::Finish));
    assert_eq!(watch(Watch::Feeding(0), true, MAX_CYCLE_WAIT), (Watch::Idle, CycleAction::Drop));
}

#[test]
fn records_are_reported_with_their_pictures() {
    let saved = save_pair(5, "a\"b", Some(1), None, true, true, false);
    assert_eq!(
        saved.record.to_json(),
        r#"{"ts":5,"id":"a\"b","amount1":1,"amount2":null,"manual":true,"before":"5-a\"b-before.h264","after":null}"#
    );
}

#[test]
fn only_json_files_are_records() {
    assert_eq!(meta_stem("5-a.b.json"), Some("5-a.b"));
    assert_eq!(meta_stem("5-a-before.h264"), None);
    assert_eq!(meta_stem(".json"), None);
    assert_eq!(meta_stem("json"), None);
}
