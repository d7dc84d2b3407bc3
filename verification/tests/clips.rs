use kibbled::clips::{clips_json, list, path_for, valid_name, MAX_NAME_LEN};

#[test]
fn valid_name_accepts_ordinary_identifiers() {
    for name in ["feed-start", "alert_1", "v2.announcement"] {
        assert!(valid_name(name), "{name} should be valid");
    }
}

#[test]
fn valid_name_rejects_path_traversal_and_separators() {
    for name in ["..", ".", "../etc/passwd", "a/b", "a\\b", ""] {
        assert!(!valid_name(name), "{name} must be rejected");
    }
}

#[test]
fn valid_name_rejects_names_over_the_length_cap() {
    let long = "a".repeat(MAX_NAME_LEN + 1);
    assert!(!valid_name(&long));
    let ok = "a".repeat(MAX_NAME_LEN);
    assert!(valid_name(&ok));
}

#[test]
fn path_for_stays_inside_the_clips_dir_for_any_valid_name() {
    let p = path_for("feed-start");
    assert_eq!(p, "/opt/kibble/clips/feed-start.aac");
}

#[test]
fn clips_are_listed_by_name() {
    let files = vec![
        ("b.aac".to_string(), 2),
        ("notes.txt".to_string(), 9),
        ("a\"x.aac".to_string(), 1),
        ("B.aac".to_string(), 3),
    ];
    let clips = list(&files);
    let names: Vec<&str> = clips.iter().map(|c| c.name.as_str()).collect();
    assert_eq!(names, vec!["B", "a\"x", "b"]);
    assert_eq!(
        clips_json(&clips),
        r#"[{"name":"B","bytes":3},{"name":"a\"x","bytes":1},{"name":"b","bytes":2}]"#
    );
    assert_eq!(clips_json(&vec![]), "[]");
}
