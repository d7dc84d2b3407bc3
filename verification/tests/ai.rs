use kibbled::ai::{
    event_file_name, is_safe_name, parse_event_name, prune_events_dir, read_event, should_read,
    track_key, track_step, CtrlEventMsgHeader, Detection, EventFileError, Feed, PetTrack,
    TrackEntry, CTRL_EVENT_MSG_LEN, EVENT_TYPE_PET_TRACKING, MAX_EVENTS, MAX_EVENT_FILES,
};

#[test]
fn decodes_pet_tracking_event_type_from_a_disassembly_derived_payload() {
    let mut payload = [0u8; CTRL_EVENT_MSG_LEN];
    payload[0..4].copy_from_slice(&EVENT_TYPE_PET_TRACKING.to_le_bytes());
    let hdr = CtrlEventMsgHeader::decode(&payload).unwrap();
    assert_eq!(hdr.event_type, 0x18);
    assert!(hdr.is_pet_tracking());
}

#[test]
fn other_event_types_are_not_misidentified_as_pet_tracking() {
    let mut payload = [0u8; CTRL_EVENT_MSG_LEN];
    payload[0..4].copy_from_slice(&7u32.to_le_bytes());
    let hdr = CtrlEventMsgHeader::decode(&payload).unwrap();
    assert!(!hdr.is_pet_tracking());
}

#[test]
fn decode_rejects_a_too_short_payload() {
    assert!(CtrlEventMsgHeader::decode(&[1, 2, 3]).is_none());
}

#[test]
fn feed_snapshot_is_empty_json_array_before_anything_is_pushed() {
    let feed = Feed::new();
    assert_eq!(feed.snapshot_json(), "[]");
}

#[test]
fn push_assigns_increasing_seq_and_caps_at_max_events() {
    let mut feed = Feed::new();
    for _ in 0..(MAX_EVENTS + 10) {
        feed.push(100, "visit", None, None);
    }
    assert_eq!(feed.len(), MAX_EVENTS);
    assert_eq!(feed.get(0).seq, 11);
    assert_eq!(feed.get(MAX_EVENTS - 1).seq, (MAX_EVENTS + 10) as u64);
}

#[test]
fn wait_since_returns_immediately_when_already_caught_up_to_a_past_seq() {
    let mut feed = Feed::new();
    feed.push(1, "eat", None, None);
    feed.push(2, "eat", None, None);
    assert!(feed.has_past(0));
    let json = feed.wait_since(0);
    assert!(json.contains("\"seq\":1"));
    assert!(json.contains("\"seq\":2"));
}

#[test]
fn wait_since_filters_out_already_seen_events() {
    let mut feed = Feed::new();
    feed.push(1, "eat", None, None);
    feed.push(2, "eat", None, None);
    let json = feed.wait_since(1);
    assert!(!json.contains("\"seq\":1"));
    assert!(json.contains("\"seq\":2"));
}

#[test]
fn wait_since_times_out_to_an_empty_array_with_nothing_new() {
    let mut feed = Feed::new();
    feed.push(1, "eat", None, None);
    assert!(!feed.has_past(1));
    assert_eq!(feed.wait_since(1), "[]");
}

fn face(cat: Option<String>) -> Detection {
    Detection {
        seq: 1,
        ts: 100,
        class: "face",
        score: None,
        pet_id: None,
        b0x: None,
        image: None,
        cat,
        total_score: None,
    }
}

#[test]
fn detection_json_uses_null_for_the_fields_this_tap_cannot_fill() {
    let json = face(None).to_json();
    assert!(json.contains(r#""score":null"#));
    assert!(json.contains(r#""pet_id":null"#));
    assert!(json.contains(r#""box":null"#));
    assert!(json.contains(r#""image":null"#));
    assert!(json.contains(r#""cat":null"#));
    assert_eq!(
        json,
        r#"{"seq":1,"ts":100,"class":"face","score":null,"box":null,"pet_id":null,"image":null,"cat":null,"total_score":null}"#
    );
}

#[test]
fn detection_json_includes_a_real_cat_when_the_classifier_is_confident() {
    assert!(face(Some("Rashy".to_string())).to_json().contains(r#""cat":"Rashy""#));
}

#[test]
fn push_carries_the_identified_cat_through_to_the_stored_detection() {
    let mut feed = Feed::new();
    feed.push(1, "face", Some("1-Rashy.jpg".to_string()), Some("Rashy".to_string()));
    assert_eq!(feed.get(0).cat.as_deref(), Some("Rashy"));
}

#[test]
fn push_track_publishes_the_vendor_pet_id_under_its_own_start_time() {
    let mut feed = Feed::new();
    feed.push_track(&TrackEntry {
        pet_id: 101320712,
        start_time: 1789528968,
        value: "2058.042".to_string(),
    });
    let json = feed.snapshot_json();
    assert!(json.contains(r#""ts":1789528968,"class":"track""#), "{json}");
    assert!(json.contains(r#""pet_id":101320712"#), "{json}");
    assert!(json.contains(r#""score":null"#), "{json}");
    assert!(json.contains(r#""total_score":2058.042"#), "{json}");
}

#[test]
fn track_key_changes_only_when_the_newest_entry_changes() {
    let e = |pet_id, start_time| TrackEntry { pet_id, start_time, value: "0".to_string() };
    let track = |trackers| PetTrack { pet_id: 7, count: 1, area: 100, trackers };
    let empty = PetTrack { pet_id: 0, count: 0, area: 0, trackers: vec![] };
    assert_eq!(track_key(&empty), None);
    let one = track(vec![e(7, 100)]);
    assert_eq!(track_key(&one), Some((7, 100)));
    let two = track(vec![e(7, 100), e(7, 50)]);
    assert_eq!(track_key(&two), track_key(&one));
    let newer = track(vec![e(7, 100), e(9, 200)]);
    assert_eq!(track_key(&newer), Some((9, 200)));
    assert_eq!(track_step(None, Some(&one)), (Some((7, 100)), true));
    assert_eq!(track_step(Some((7, 100)), Some(&two)), (Some((7, 100)), false));
    assert_eq!(track_step(Some((7, 100)), Some(&newer)), (Some((9, 200)), true));
    assert_eq!(track_step(Some((7, 100)), None), (Some((7, 100)), false));
}

#[test]
fn read_event_rejects_path_traversal() {
    let err = read_event("../../etc/passwd").unwrap_err();
    assert!(matches!(err, EventFileError::InvalidName));
    assert_eq!(err.message(), "invalid file name");
}

#[test]
fn read_event_rejects_absolute_paths() {
    let err = read_event("/etc/passwd").unwrap_err();
    assert!(matches!(err, EventFileError::InvalidName));
}

#[test]
fn a_plain_name_is_read_below_the_events() {
    assert_eq!(read_event("1-visit.jpg").unwrap(), "/opt/kibble/events/1-visit.jpg");
    assert_eq!(EventFileError::NotFound.message(), "no such event file");
    assert_eq!(EventFileError::Io("disk".into()).message(), "disk");
}

#[test]
fn is_safe_name_rejects_empty_dot_and_dotdot() {
    assert!(!is_safe_name(""));
    assert!(!is_safe_name("."));
    assert!(!is_safe_name(".."));
    assert!(!is_safe_name("a\\b"));
    assert!(is_safe_name("1700000000-face.jpg"));
}

#[test]
fn crop_names_read_back() {
    assert_eq!(event_file_name(5, "eat"), "5-eat.jpg");
    assert_eq!(parse_event_name("5-eat.jpg"), Some((5, "eat")));
    assert_eq!(parse_event_name("7-visit.jpeg"), Some((7, "visit")));
    assert_eq!(parse_event_name("7-other.jpg"), None);
    assert_eq!(parse_event_name("x-eat.jpg"), None);
}

#[test]
fn the_feed_is_rebuilt_from_the_crops_on_disk() {
    let names = vec!["20-visit.jpg".to_string(), "junk".to_string(), "10-face.jpg".to_string()];
    let feed = Feed::rehydrate_from_disk(&names, &Vec::new());
    assert_eq!(feed.get(0).cat, None);
    assert_eq!(feed.len(), 2);
    assert_eq!((feed.get(0).ts, feed.get(0).class, feed.get(0).seq), (10, "face", 1));
    assert_eq!(feed.get(1).image.as_deref(), Some("20-visit.jpg"));
    assert_eq!(feed.latest_scene_image(), Some((20, "20-visit.jpg".to_string())));
}

#[test]
fn rebuilt_faces_are_named_by_the_labelled_crops() {
    let names: Vec<String> =
        ["10-face.jpg", "20-visit.jpg", "30-face.jpg"].iter().map(|n| n.to_string()).collect();
    let cats = vec![(20, "Pancake".to_string()), (10, "Rashy".to_string()), (10, "Pancake".to_string())];
    let feed = Feed::rehydrate_from_disk(&names, &cats);
    assert_eq!(feed.get(0).cat.as_deref(), Some("Rashy"));
    assert_eq!(feed.get(1).cat, None);
    assert_eq!(feed.get(2).cat, None);
}

#[test]
fn the_oldest_crops_are_pruned() {
    let names: Vec<String> = (0..MAX_EVENT_FILES + 2).rev().map(|i| format!("{i}-face.jpg")).collect();
    assert_eq!(prune_events_dir(&names), vec!["0-face.jpg", "1-face.jpg"]);
    assert!(prune_events_dir(&names[2..].to_vec()).is_empty());
}

#[test]
fn a_file_is_read_when_its_time_changes() {
    assert!(should_read(None, Some(1)));
    assert!(should_read(Some(1), Some(2)));
    assert!(!should_read(Some(1), Some(1)));
    assert!(!should_read(Some(1), None));
}
