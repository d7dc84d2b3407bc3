use kibbled::desired::{load, parse, to_json, upsert};

#[test]
fn missing_file_loads_as_empty() {
    assert_eq!(load(None), vec![]);
}

#[test]
fn desired_save_then_load_round_trips() {
    let entries = vec![("volume".to_string(), 5u32), ("light".to_string(), 1u32)];
    let text = to_json(&entries);
    assert_eq!(load(Some(&text)), entries);
}

#[test]
fn parse_skips_malformed_entries_without_losing_wellformed_neighbours() {
    let text = r#"{
  "volume": 5,
  "no_colon_here",
  "light": 1,
  "not_a_number": "oops",
  "manual_lock": 1
}"#;
    let mut got = parse(text);
    got.sort();
    assert_eq!(
        got,
        vec![
            ("light".to_string(), 1),
            ("manual_lock".to_string(), 1),
            ("volume".to_string(), 5),
        ]
    );
}

#[test]
fn a_dropped_comma_merges_two_entries_into_one_unmatchable_key_rather_than_corrupting_either_value() {
    let text = r#"{"volume": 5, "no_comma_after_this" "light": 1}"#;
    let got = parse(text);
    assert!(got.contains(&("volume".to_string(), 5)));
    assert!(!got.iter().any(|(k, v)| k == "light" && *v == 1));
    assert!(got.iter().any(|(k, _)| k.contains("no_comma_after_this")));
}

#[test]
fn upsert_replaces_an_existing_key_in_place_rather_than_duplicating() {
    let text = to_json(&vec![("volume".to_string(), 5)]);
    let mut entries = load(Some(&text));
    upsert(&mut entries, "volume", 8);
    let text = to_json(&entries);
    assert_eq!(load(Some(&text)), vec![("volume".to_string(), 8)]);
}

#[test]
fn a_new_setting_goes_last() {
    let mut entries = vec![("a".to_string(), 1)];
    upsert(&mut entries, "b", 2);
    assert_eq!(entries, vec![("a".to_string(), 1), ("b".to_string(), 2)]);
}
