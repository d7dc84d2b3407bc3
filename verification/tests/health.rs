use kibbled::health::{last_exit_code, parse_count, record_start, to_json, Health};

#[test]
fn parse_count_reads_the_field_regardless_of_field_order() {
    assert_eq!(parse_count(r#"{"start_count":42,"last_start_unix":100}"#), Some(42));
    assert_eq!(parse_count(r#"{"last_start_unix":100,"start_count":7}"#), Some(7));
}

#[test]
fn parse_count_handles_missing_or_garbled_input() {
    assert_eq!(parse_count(""), None);
    assert_eq!(parse_count("not json"), None);
    assert_eq!(parse_count(r#"{"other":1}"#), None);
}

#[test]
fn last_exit_code_reads_the_most_recent_exit_line_not_the_first() {
    let log = "=== start #1 at ... ===\n\
                === exit  #1 at ..., rc=0 ===\n\
                === start #2 at ... ===\n\
                === exit  #2 at ..., rc=134 ===\n";
    assert_eq!(last_exit_code(log), Some(134));
}

#[test]
fn last_exit_code_is_none_when_the_process_has_never_exited_yet() {
    assert_eq!(last_exit_code("=== start #1 at ... ===\n"), None);
    assert_eq!(last_exit_code(""), None);
}

#[test]
fn every_start_counts() {
    let first = record_start(None, 100);
    assert_eq!(first.start_count, 1);
    let text = to_json(&first);
    assert_eq!(text, "{\"start_count\":1,\"last_start_unix\":100}");
    let second = record_start(Some(&text), 200);
    assert_eq!((second.start_count, second.last_start_unix), (2, 200));
    assert_eq!(record_start(Some("garbled"), 5).start_count, 1);
}

#[test]
fn a_recorded_count_reads_back() {
    let h = Health { start_count: 41, last_start_unix: 7 };
    assert_eq!(parse_count(&to_json(&h)), Some(41));
}

#[test]
fn a_negative_exit_code_is_read() {
    assert_eq!(last_exit_code("=== exit  #1 at ..., rc=-9 ===\n"), Some(-9));
}
