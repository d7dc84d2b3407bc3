use kibbled::advertise::{format_status, payload, resolve_deadline, BleAdv, DEFAULT_SECONDS, MAX_SECONDS};

#[test]
fn payload_byte_zero_is_the_only_thing_that_differs() {
    assert_eq!(payload(true), [1, 0, 0, 0]);
    assert_eq!(payload(false), [0, 0, 0, 0]);
}

#[test]
fn resolve_deadline_defaults_to_300_seconds() {
    assert_eq!(resolve_deadline(1_000, None), 1_000 + DEFAULT_SECONDS);
}

#[test]
fn resolve_deadline_clamps_below_one_second_up_to_one() {
    assert_eq!(resolve_deadline(1_000, Some(0)), 1_001);
}

#[test]
fn resolve_deadline_clamps_above_the_max_down_to_the_max() {
    assert_eq!(resolve_deadline(1_000, Some(999_999)), 1_000 + MAX_SECONDS);
}

#[test]
fn resolve_deadline_honors_a_request_inside_the_allowed_range() {
    assert_eq!(resolve_deadline(1_000, Some(60)), 1_060);
}

#[test]
fn format_status_omits_the_deadline_while_off() {
    assert_eq!(format_status(false, 12_345), r#"{"advertising":false,"until":null}"#);
}

#[test]
fn format_status_reports_the_deadline_while_on() {
    assert_eq!(format_status(true, 12_345), r#"{"advertising":true,"until":12345}"#);
}

#[test]
fn advertising_ends_at_its_deadline() {
    let mut adv = BleAdv::new();
    assert_eq!(adv.status_json(), r#"{"advertising":false,"until":null}"#);
    adv.set(true, Some(60), 1_000);
    assert_eq!(adv.status_json(), r#"{"advertising":true,"until":1060}"#);
    assert!(!adv.reconcile_once(1_059));
    assert!(adv.reconcile_once(1_060));
    assert_eq!(adv.status_json(), r#"{"advertising":false,"until":null}"#);
    assert!(!adv.reconcile_once(2_000));
}

#[test]
fn advertising_can_be_turned_off_early() {
    let mut adv = BleAdv::new();
    adv.set(true, None, 1_000);
    adv.set(false, None, 1_001);
    assert_eq!(adv.status_json(), r#"{"advertising":false,"until":null}"#);
}
