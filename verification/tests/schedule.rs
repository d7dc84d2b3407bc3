use kibbled::bus::MAX_PAYLOAD;
use kibbled::json::{json_object_body, split_object_pairs};
use kibbled::localtime::{device_tz, Civil};
use kibbled::schedule::{
    encode_table, entry_id_from_query, format_time_of_day, parse_amount, parse_entries, parse_entry,
    parse_time_of_day, rtc_payload, Cache, Entry, Error, Fired, FiredRecord, Outcome, Schedule,
    WireEntry, MAX_ENTRIES, WIRE_ENTRY_LEN,
};

const NOW: u64 = 1_700_000_000;

fn seeded(entries: Vec<Entry>) -> Schedule {
    Schedule { cache: Cache { entries, last_modified: 0, fired: Fired::new() } }
}

fn entry(id: &str, minute_of_day: u16, enabled: bool) -> Entry {
    Entry { id: id.into(), minute_of_day, amount_l: 1, amount_r: 1, enabled }
}

#[test]
fn wire_entry_round_trips() {
    let e = WireEntry { id: "morning".into(), amount_l: 12, amount_r: 8, time: 27_000 };
    let decoded = WireEntry::decode(&e.encode());
    assert_eq!(decoded.id, "morning");
    assert_eq!(decoded.amount_l, 12);
    assert_eq!(decoded.amount_r, 8);
    assert_eq!(decoded.time, 27_000);
}

#[test]
fn wire_entry_round_trips_negative_time() {
    let e = WireEntry { id: "x".into(), amount_l: 1, amount_r: 1, time: -1 };
    assert_eq!(WireEntry::decode(&e.encode()).time, -1);
}
#[test]
fn sixteen_char_id_stays_nul_terminated_and_does_not_reach_amount_l() {
    let id = "0123456789abcdef"; // exactly 16 chars
    assert_eq!(id.len(), 16);
    let e = WireEntry { id: id.into(), amount_l: 42, amount_r: 43, time: 1 };
    let bytes = e.encode();
    assert_eq!(&bytes[0..15], b"0123456789abcde");
    assert_eq!(bytes[15], 0, "byte 15 must be NUL, not the 16th source character");
    assert_eq!(bytes[16], 42, "amount_l must be untouched by the id field");
    assert_eq!(bytes[17], 43, "amount_r must be untouched by the id field");
    assert_eq!(WireEntry::decode(&bytes).id, "0123456789abcde");
}

#[test]
fn schedule_oversized_id_is_truncated_and_terminated() {
    let e = WireEntry { id: "x".repeat(200), amount_l: 7, amount_r: 9, time: 5 };
    let bytes = e.encode();
    assert_eq!(bytes[14], b'x');
    assert_eq!(bytes[15], 0, "id field must stay NUL-terminated");
    assert_eq!(bytes[16], 7);
    assert_eq!(bytes[17], 9);
}

#[test]
fn encode_table_header_is_count_then_reserved_zero() {
    let entries = vec![
        WireEntry { id: "a".into(), amount_l: 1, amount_r: 1, time: 1 },
        WireEntry { id: "b".into(), amount_l: 2, amount_r: 2, time: 2 },
    ];
    let buf = encode_table(&entries).unwrap();
    assert_eq!(buf.len(), 2 + 2 * WIRE_ENTRY_LEN);
    assert_eq!(buf[0], 2, "count");
    assert_eq!(buf[1], 0, "reserved");
}

#[test]
fn empty_table_is_just_the_header() {
    let buf = encode_table(&[]).unwrap();
    assert_eq!(buf, vec![0, 0]);
}

#[test]
fn twenty_four_entries_is_accepted() {
    let entries: Vec<WireEntry> = (0..24)
        .map(|i| WireEntry { id: format!("e{i}"), amount_l: 1, amount_r: 1, time: 1 })
        .collect();
    let buf = encode_table(&entries).expect("24 entries must fit");
    assert_eq!(buf[0], 24);
    assert_eq!(buf.len(), 2 + 24 * WIRE_ENTRY_LEN);
}
#[test]
fn twenty_fifth_entry_is_rejected_not_truncated() {
    let entries: Vec<WireEntry> = (0..25)
        .map(|i| WireEntry { id: format!("e{i}"), amount_l: 1, amount_r: 1, time: 1 })
        .collect();
    let err = encode_table(&entries).expect_err("25 entries must be rejected");
    assert!(err.contains("25"), "error should mention the attempted count: {err}");
    assert!(err.contains("24"), "error should mention the cap: {err}");
}

#[test]
fn max_entries_payload_fits_within_bus_max_payload() {
    assert!(2 + MAX_ENTRIES * WIRE_ENTRY_LEN <= MAX_PAYLOAD);
    assert!(2 + (MAX_ENTRIES + 1) * WIRE_ENTRY_LEN > MAX_PAYLOAD);
}

#[test]
fn time_of_day_boundaries() {
    assert_eq!(parse_time_of_day("00:00"), Some(0));
    assert_eq!(parse_time_of_day("23:59"), Some(1439));
    assert_eq!(format_time_of_day(0), "00:00");
    assert_eq!(format_time_of_day(1439), "23:59");
}

#[test]
fn time_of_day_rejects_out_of_range() {
    assert_eq!(parse_time_of_day("24:00"), None, "hour 24 does not exist");
    assert_eq!(parse_time_of_day("12:60"), None, "minute 60 does not exist");
    assert_eq!(parse_time_of_day("23:60"), None);
    assert_eq!(parse_time_of_day("99:99"), None);
}

#[test]
fn time_of_day_rejects_malformed_input() {
    assert_eq!(parse_time_of_day(""), None);
    assert_eq!(parse_time_of_day("7:30"), None, "hour must be zero-padded HH");
    assert_eq!(parse_time_of_day("07:3"), None, "minute must be zero-padded MM");
    assert_eq!(parse_time_of_day("07-30"), None, "must be colon-separated");
    assert_eq!(parse_time_of_day("ab:cd"), None);
    assert_eq!(parse_time_of_day("12:30:00"), None);
    assert_eq!(parse_time_of_day("+7:30"), None);
    assert_eq!(parse_time_of_day("07:+3"), None);
    assert_eq!(parse_time_of_day("07:3\u{0663}"), None);
}

#[test]
fn format_and_parse_time_of_day_round_trip() {
    for minute in [0u16, 1, 60, 719, 720, 1439] {
        assert_eq!(parse_time_of_day(&format_time_of_day(minute)), Some(minute));
    }
}

#[test]
fn amount_accepts_boundaries_and_rejects_out_of_range() {
    let ok = r#"{"amount_l":0,"amount_r":50}"#;
    assert_eq!(parse_amount(ok, "amount_l"), Ok(0));
    assert_eq!(parse_amount(ok, "amount_r"), Ok(50));
    let bad = r#"{"amount_l":51}"#;
    assert!(parse_amount(bad, "amount_l").is_err());
    let neg = r#"{"amount_l":-1}"#;
    assert!(parse_amount(neg, "amount_l").is_err());
}

#[test]
fn parses_one_entry_with_defaults() {
    let e = Entry::parse_one(r#"{"time":"07:30","amount_l":10,"amount_r":5}"#, NOW).unwrap();
    assert_eq!(e.minute_of_day, 7 * 60 + 30);
    assert_eq!(e.amount_l, 10);
    assert_eq!(e.amount_r, 5);
    assert!(e.enabled, "enabled defaults to true");
    assert!(!e.id.is_empty(), "a missing id gets a generated one");
}

#[test]
fn parses_one_entry_explicit_fields() {
    let e = Entry::parse_one(r#"{"id":"morning","time":"06:15","amount_l":1,"amount_r":2,"enabled":false}"#, NOW)
    .unwrap();
    assert_eq!(e.id, "morning");
    assert_eq!(e.minute_of_day, 6 * 60 + 15);
    assert!(!e.enabled);
}

#[test]
fn rejects_entry_missing_time() {
    assert!(Entry::parse_one(r#"{"amount_l":1,"amount_r":1}"#, NOW).is_err());
}

#[test]
fn parses_entries_array() {
    let body = r#"{"entries":[{"time":"06:00","amount_l":1,"amount_r":1},{"time":"18:30","amount_l":2,"amount_r":2}]}"#;
    let entries = parse_entries(body, NOW).unwrap();
    assert_eq!(entries.len(), 2);
    assert_eq!(entries[0].minute_of_day, 6 * 60);
    assert_eq!(entries[1].minute_of_day, 18 * 60 + 30);
}

#[test]
fn empty_entries_array_parses_to_no_entries() {
    assert_eq!(parse_entries(r#"{"entries":[]}"#, NOW).unwrap(), vec![]);
}

#[test]
fn entry_round_trips_through_json() {
    let e = Entry {
        id: "a".into(),
        minute_of_day: 450,
        amount_l: 10,
        amount_r: 10,
        enabled: true,
    };
    let body = format!(r#"{{"entries":[{}]}}"#, e.to_json());
    let parsed = parse_entries(&body, NOW).unwrap();
    assert_eq!(parsed, vec![e]);
}

#[test]
fn reads_id_from_query_string() {
    assert_eq!(entry_id_from_query("id=abc123"), Some("abc123"));
    assert_eq!(entry_id_from_query("foo=bar&id=xyz"), Some("xyz"));
    assert_eq!(entry_id_from_query(""), None);
    assert_eq!(entry_id_from_query("id="), None);
}

#[test]
fn json_object_body_extracts_nested_object_text() {
    let body = r#"{"entries":[],"fired":{"a":{"date":"2026-09-16","outcome":"dispensed","at_utc":1},"b":{"date":"2026-09-15","outcome":"missed","at_utc":2}},"last_modified":0}"#;
    let inner = json_object_body(body, "fired").unwrap();
    assert_eq!(
        inner,
        r#""a":{"date":"2026-09-16","outcome":"dispensed","at_utc":1},"b":{"date":"2026-09-15","outcome":"missed","at_utc":2}"#
    );
}

#[test]
fn json_object_body_missing_key_is_none() {
    assert_eq!(json_object_body(r#"{"entries":[]}"#, "fired"), None);
}

#[test]
fn split_object_pairs_splits_arbitrary_keys() {
    let inner = r#""a":{"x":1},"b":{"y":2}"#;
    assert_eq!(split_object_pairs(inner), vec![("a", r#"{"x":1}"#), ("b", r#"{"y":2}"#)]);
}

#[test]
fn split_object_pairs_on_empty_object_is_empty() {
    assert_eq!(split_object_pairs(""), Vec::<(&str, &str)>::new());
}

#[test]
fn outcome_round_trips_through_its_string_form() {
    assert_eq!(Outcome::parse(Outcome::Dispensed.as_str()), Some(Outcome::Dispensed));
    assert_eq!(Outcome::parse(Outcome::Missed.as_str()), Some(Outcome::Missed));
    assert_eq!(Outcome::parse("bogus"), None);
}

#[test]
fn claim_fire_first_call_for_an_occurrence_claims_it() {
    let mut schedule = seeded(Vec::new());
    let claimed = schedule.claim_fire("breakfast", "2026-09-16", Outcome::Dispensed, 1_789_594_000);
    assert!(claimed, "the first call for a fresh occurrence must claim it");
    let record = schedule.fired_record("breakfast").unwrap();
    assert_eq!(record.date, "2026-09-16");
    assert_eq!(record.outcome, Outcome::Dispensed);
}

#[test]
fn claim_fire_same_occurrence_twice_only_claims_once() {
    let mut schedule = seeded(Vec::new());
    assert!(schedule.claim_fire("breakfast", "2026-09-16", Outcome::Dispensed, 1));
    assert!(!schedule.claim_fire("breakfast", "2026-09-16", Outcome::Missed, 2));
    assert_eq!(schedule.fired_record("breakfast").unwrap().outcome, Outcome::Dispensed);
}

#[test]
fn claim_fire_a_later_date_for_the_same_entry_claims_fresh() {
    let mut schedule = seeded(Vec::new());
    assert!(schedule.claim_fire("breakfast", "2026-09-16", Outcome::Dispensed, 1));
    assert!(schedule.claim_fire("breakfast", "2026-09-17", Outcome::Dispensed, 2));
    assert_eq!(schedule.fired_record("breakfast").unwrap().date, "2026-09-17");
}
#[test]
fn claim_fire_does_not_allow_reclaiming_an_earlier_date_once_a_later_one_is_resolved() {
    let mut schedule = seeded(Vec::new());
    assert!(schedule.claim_fire("breakfast", "2026-01-14", Outcome::Missed, 1));
    assert!(schedule.claim_fire("breakfast", "2026-01-15", Outcome::Dispensed, 2));
    assert!(!schedule.claim_fire("breakfast", "2026-01-14", Outcome::Dispensed, 3));
    let record = schedule.fired_record("breakfast").unwrap();
    assert_eq!(record.date, "2026-01-15", "the later resolution must survive untouched");
    assert_eq!(record.outcome, Outcome::Dispensed);
}

#[test]
fn cache_round_trips_through_json() {
    let cache = Cache {
        entries: vec![Entry {
            id: "a".into(),
            minute_of_day: 90,
            amount_l: 3,
            amount_r: 4,
            enabled: false,
        }],
        last_modified: 1_700_000_000,
        fired: Fired::new(),
    };
    let parsed = Cache::parse(&cache.to_json(), NOW).unwrap();
    assert_eq!(parsed, cache);
}

#[test]
fn missing_cache_file_loads_as_empty() {
    let schedule = Schedule::load(None, NOW).unwrap_or_else(|_| unreachable!());
    assert_eq!(schedule.cache, Cache::empty());
    assert!(schedule.entries_snapshot().is_empty());
}

#[test]
fn save_then_load_round_trips_on_disk() {
    let cache = Cache {
        entries: vec![entry("disk", 5, true)],
        last_modified: 42,
        fired: Fired::new(),
    };
    let text = cache.to_json();
    let loaded = Schedule::load(Some(&text), NOW).unwrap_or_else(|_| unreachable!());
    assert_eq!(loaded.cache, cache);
}

#[test]
fn a_garbled_cache_is_an_error() {
    assert!(Schedule::load(Some("garbage"), NOW).is_err());
}

#[test]
fn cache_with_fired_records_round_trips_through_json() {
    let mut fired = Fired::new();
    fired.insert(
        "breakfast".to_string(),
        FiredRecord { date: "2026-09-16".into(), outcome: Outcome::Dispensed, at_utc: 1_789_594_000 },
    );
    fired.insert(
        "dinner".to_string(),
        FiredRecord { date: "2026-09-15".into(), outcome: Outcome::Missed, at_utc: 1_789_500_000 },
    );
    let cache = Cache { entries: Vec::new(), last_modified: 5, fired };
    let parsed = Cache::parse(&cache.to_json(), NOW).unwrap();
    assert_eq!(parsed, cache);
    let r = parsed.fired.get("dinner").unwrap();
    assert_eq!((r.date.as_str(), r.outcome, r.at_utc), ("2026-09-15", Outcome::Missed, 1_789_500_000));
}

#[test]
fn cache_with_no_fired_key_at_all_parses_as_empty() {
    let parsed = Cache::parse(r#"{"entries":[],"last_modified":0}"#, NOW).unwrap();
    assert_eq!(parsed.fired, Fired::new());
}

#[test]
fn claim_fire_is_durably_recorded_before_returning() {
    let mut schedule = seeded(Vec::new());
    assert!(schedule.claim_fire("breakfast", "2026-09-16", Outcome::Dispensed, 1));
    let text = schedule.cache.to_json();
    let reloaded = Schedule::load(Some(&text), NOW).unwrap_or_else(|_| unreachable!());
    let record = reloaded.fired_record("breakfast").unwrap();
    assert_eq!(record.date, "2026-09-16");
    assert_eq!(record.outcome, Outcome::Dispensed);
}

#[test]
fn entries_snapshot_reflects_current_entries() {
    let schedule = seeded(vec![entry("a", 90, true)]);
    assert_eq!(schedule.entries_snapshot(), vec![entry("a", 90, true)]);
}

#[test]
fn snapshot_json_includes_next_fire_and_scheduler_fields() {
    let schedule = seeded(vec![entry("morning", 7 * 60, true), entry("off", 8 * 60, false)]);
    let tz = device_tz();
    let now = tz.local_to_utc(Civil { year: 2026, month: 1, day: 15 }, 6 * 3600);
    let json = schedule.snapshot_json(&tz, now, false);
    assert!(json.contains(r#""scheduler_enabled":false"#));
    assert!(json.contains(r#""id":"morning""#));
    assert!(json.contains("\"next_fire_utc\":"), "enabled entry must carry a next-fire value");
    assert!(json.contains(r#""id":"off""#));
    assert!(json.contains(r#""next_fire_utc":null"#), "a disabled entry never fires");
}

fn refusal(r: Result<(), Error>) -> String {
    match r {
        Err(Error::Invalid(m)) => m,
        Err(Error::Internal(m)) => panic!("{m}"),
        Ok(()) => panic!("not refused"),
    }
}

#[test]
fn entries_are_added_switched_and_removed() {
    let mut schedule = seeded(vec![entry("a", 1, true)]);
    assert!(schedule.add(entry("b", 2, true), 7).is_ok());
    assert_eq!(schedule.cache.last_modified, 7);
    assert_eq!(refusal(schedule.add(entry("b", 3, true), 8)), r#"entry id "b" already exists"#);
    assert!(schedule.set_enabled("a", false, 9).is_ok());
    assert!(!schedule.entries_snapshot()[0].enabled);
    assert_eq!(refusal(schedule.set_enabled("x", true, 9)), r#"no schedule entry with id "x""#);
    assert!(schedule.remove("a", 10).is_ok());
    assert_eq!(schedule.entries_snapshot(), vec![entry("b", 2, true)]);
    assert_eq!(refusal(schedule.remove("a", 11)), r#"no schedule entry with id "a""#);
    assert_eq!(schedule.cache.last_modified, 10);
}

#[test]
fn the_table_is_capped() {
    let full: Vec<Entry> = (0..MAX_ENTRIES as u16).map(|i| entry(&format!("e{i}"), i, true)).collect();
    let mut schedule = seeded(Vec::new());
    assert!(schedule.replace(full, 1).is_ok());
    let m = refusal(schedule.add(entry("more", 1, true), 2));
    assert!(m.contains("25") && m.contains("24"), "{m}");
    let over: Vec<Entry> = (0..26u16).map(|i| entry(&format!("e{i}"), i, true)).collect();
    assert!(refusal(schedule.replace(over, 3)).contains("26"));
    assert_eq!(schedule.entries_snapshot().len(), MAX_ENTRIES);
}

#[test]
fn only_enabled_entries_are_sent() {
    let schedule = seeded(vec![entry("a", 1, true), entry("b", 2, false), entry("c", 3, true)]);
    let table = schedule.table().unwrap_or_else(|_| unreachable!());
    assert_eq!(table[0], 2);
    assert_eq!(table.len(), 2 + 2 * WIRE_ENTRY_LEN);
    assert_eq!(&table[2..4], b"a\0");
    assert_eq!(&table[24..26], b"c\0");
}

#[test]
fn the_clock_is_sent_in_seconds() {
    assert_eq!(rtc_payload(0x1234_5678), [0x78, 0x56, 0x34, 0x12]);
}

#[test]
fn one_entry_is_read_from_a_body() {
    let e = parse_entry(r#"{"id":"x","time":"01:02","amount_l":1,"amount_r":2}"#, NOW).unwrap();
    assert_eq!((e.id.as_str(), e.minute_of_day), ("x", 62));
    assert!(parse_entry("{}", NOW).is_err());
}

#[test]
fn a_body_of_entries_reads_back() {
    let entries = vec![entry("fired", 0, true), entry("Abc9", 1439, false)];
    let body = format!(r#"{{"entries":[{},{}]}}"#, entries[0].to_json(), entries[1].to_json());
    assert_eq!(parse_entries(&body, NOW).unwrap(), entries);
}

#[test]
fn a_claim_is_there_after_a_restart() {
    let mut schedule = seeded(vec![]);
    assert!(schedule.claim_fire("meal-1", "2026-03-08", Outcome::Dispensed, 1_772_953_200));
    assert!(schedule.claim_fire("meal-2", "2026-03-08", Outcome::Dispensed, 1_772_953_300));
    let mut again = Schedule::load(Some(&schedule.cache.to_json()), NOW).ok().unwrap();
    assert_eq!(again.fired_record("meal-1"), schedule.fired_record("meal-1"));
    assert_eq!(again.fired_record("meal-2").unwrap().at_utc, 1_772_953_300);
    assert_eq!(again.fired_record("meal-3"), None);
    assert!(!again.claim_fire("meal-1", "2026-03-08", Outcome::Dispensed, 1_772_953_400));
}

#[test]
fn a_claim_is_there_beside_records_that_are_escaped() {
    let mut schedule = seeded(vec![entry("tea time", 990, true)]);
    for id in ["say \"cheese\"", "a,b}{[", "it's", "back\\slash", "caf\u{e9}", "new\nline"] {
        assert!(schedule.claim_fire(id, "2026-03-07", Outcome::Missed, 1));
    }
    assert!(schedule.claim_fire("tea time", "2026-03-08", Outcome::Dispensed, 2));
    let again = Schedule::load(Some(&schedule.cache.to_json()), NOW).ok().unwrap();
    assert_eq!(again.fired_record("tea time"), schedule.fired_record("tea time"));
    assert_eq!(again.fired_record("a,b}{["), schedule.fired_record("a,b}{["));
    assert_eq!(again.cache.entries, schedule.cache.entries);
}
