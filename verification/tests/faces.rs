use std::collections::BTreeMap;

use kibbled::embed::EMBED_DIM;
use kibbled::faces::store::{
    add_cat, associate_track, associate_track_in, delete_cat, delete_sample,
    evict_oldest_if_over_cap, label, read_pending, read_sample, unlabel, upload_sample, FileOp,
    Sidecars,
};
use kibbled::faces::{
    cats_json, guess_json, identify_target, is_reserved_bucket, labelled_cats_by_ts, last_seen_from,
    list_enrolled_cats, list_labelled, list_pending, list_pending_full, list_samples, load_embedding,
    load_guess, parse_pending_name, review_target, save_embedding, save_pending, validate_upload,
    CatDir, CatSummary, DirFile, FaceError, FaceTarget, Guess, LabelledCrop, Listed, UploadError,
    MAX_PENDING, MAX_UPLOAD_BYTES, NOT_A_CAT_BUCKET, SKIP_BUCKET, TRACK_ASSOCIATION_WINDOW_SECS,
};

#[test]
fn is_reserved_bucket_matches_only_the_two_reserved_names() {
    assert!(is_reserved_bucket(SKIP_BUCKET));
    assert!(is_reserved_bucket(NOT_A_CAT_BUCKET));
    assert!(!is_reserved_bucket("Rashy"));
}

#[test]
fn parse_pending_name_parses_ts_and_vendor_pet_id() {
    assert_eq!(parse_pending_name("1700000000-101321488.jpg"), Some((1700000000, Some(101321488))));
    assert_eq!(parse_pending_name("1700000000-unknown.jpg"), Some((1700000000, None)));
}

#[test]
fn parse_pending_name_rejects_anything_that_does_not_match_the_convention() {
    assert_eq!(parse_pending_name("not-a-crop.txt"), None);
    assert_eq!(parse_pending_name("nope.jpg"), None);
    assert_eq!(parse_pending_name("abc-unknown.jpg"), None);
}

#[test]
fn a_crop_name_holds_plain_numbers_or_unknown() {
    assert_eq!(parse_pending_name("1700000000-abc.jpg"), None);
    assert_eq!(parse_pending_name("1700000000-.jpg"), None);
    assert_eq!(parse_pending_name("1700000000-4294967296.jpg"), None);
    assert_eq!(parse_pending_name("1700000000-+7.jpg"), None);
    assert_eq!(parse_pending_name("+1700000000-7.jpg"), None);
    assert_eq!(parse_pending_name("1700000000-4294967295.jpg"), Some((1700000000, Some(u32::MAX))));
}

#[test]
fn validate_upload_accepts_a_well_formed_small_jpeg() {
    let mut bytes = vec![0xFF, 0xD8, 0xFF, 0xE0];
    bytes.extend(std::iter::repeat(0u8).take(100));
    assert!(validate_upload(&bytes).is_ok());
}

#[test]
fn validate_upload_rejects_missing_jpeg_magic() {
    let bytes = vec![0x89, 0x50, 0x4E, 0x47]; // PNG magic, not JPEG
    assert!(matches!(validate_upload(&bytes), Err(UploadError::NotJpeg)));
}

#[test]
fn validate_upload_rejects_an_empty_body() {
    assert!(matches!(validate_upload(&[]), Err(UploadError::NotJpeg)));
}

#[test]
fn validate_upload_accepts_exactly_at_the_size_cap() {
    let mut bytes = vec![0xFF, 0xD8, 0xFF];
    bytes.resize(MAX_UPLOAD_BYTES, 0);
    assert!(validate_upload(&bytes).is_ok());
}

#[test]
fn validate_upload_rejects_a_body_one_byte_over_the_size_cap() {
    let mut bytes = vec![0xFF, 0xD8, 0xFF];
    bytes.resize(MAX_UPLOAD_BYTES + 1, 0);
    assert!(matches!(validate_upload(&bytes), Err(UploadError::TooLarge(n)) if n == MAX_UPLOAD_BYTES + 1));
}

#[test]
fn validate_upload_checks_size_before_magic_when_both_are_wrong() {
    let bytes = vec![0u8; MAX_UPLOAD_BYTES + 1];
    assert!(matches!(validate_upload(&bytes), Err(UploadError::TooLarge(_))));
}

fn file(name: &str, mtime: u64) -> DirFile {
    DirFile { name: name.to_string(), mtime }
}

fn names(v: &[&str]) -> Vec<String> {
    v.iter().map(|s| s.to_string()).collect()
}

#[test]
fn last_seen_ignores_uploaded_reference_photos() {
    let at = |secs: u64| secs * 1_000_000_000;
    let crop = |cat: &str, name: &str, secs: u64| LabelledCrop {
        cat: cat.to_string(),
        name: name.to_string(),
        jpg_path: name.to_string(),
        mtime: at(secs),
    };
    let crops = vec![
        crop("Pancake", "1789600000-101321488.jpg", 1_789_600_000),
        crop("Pancake", "upload-1789609534401.jpg", 1_789_609_534),
        crop("Kitty", "upload-1789609470108.jpg", 1_789_609_470),
    ];
    assert_eq!(last_seen_from(&crops, "Pancake"), Some(1_789_600_000));
    assert_eq!(last_seen_from(&crops, "Kitty"), None, "an upload alone is not a sighting");
    assert_eq!(
        labelled_cats_by_ts(&crops),
        vec![(1_789_600_000, "Pancake".to_string())]
    );
}

#[test]
fn save_pending_creates_the_directory_and_names_by_unix_time_and_label() {
    assert_eq!(save_pending(1_700_000_000, Some(7)), "1700000000-7.jpg");
}

#[test]
fn save_pending_labels_unknown_when_no_pet_id_is_available() {
    let name = save_pending(1_700_000_000, None);
    assert!(name.ends_with("-unknown.jpg"), "got {name}");
    assert_eq!(parse_pending_name(&name), Some((1_700_000_000, None)));
}

#[test]
fn enrolled_cats_include_sample_less_directories() {
    assert_eq!(list_enrolled_cats(&names(&["Kitty", "Pancake", "pending"])), vec!["Kitty", "Pancake"]);
    assert_eq!(list_enrolled_cats(&names(&["pending", "Pancake", "Kitty"])), vec!["Kitty", "Pancake"]);
}

#[test]
fn enrolled_cats_exclude_pending_and_reserved_buckets() {
    assert_eq!(
        list_enrolled_cats(&names(&["pending", SKIP_BUCKET, NOT_A_CAT_BUCKET, "Kitty"])),
        vec!["Kitty"]
    );
}

/// The files of a directory after some steps.
fn left(dir: &str, files: &[DirFile], ops: &[FileOp]) -> Vec<DirFile> {
    let gone = |f: &DirFile| {
        let path = format!("{dir}/{}", f.name);
        ops.iter().any(|op| matches!(op, FileOp::Remove(a) | FileOp::TryRemove(a) if *a == path))
    };
    files.iter().filter(|f| !gone(f)).map(|f| file(&f.name, f.mtime)).collect()
}

#[test]
fn eviction_keeps_exactly_the_cap_and_drops_the_oldest_first() {
    let files: Vec<DirFile> = (0..5u64).map(|i| file(&format!("f{i}.jpg"), 1_000_000 + i)).collect();
    let ops = evict_oldest_if_over_cap("/d", &files, 3);
    let remaining = list_pending(&left("/d", &files, &ops));
    assert_eq!(remaining, vec!["f2.jpg", "f3.jpg", "f4.jpg"]);
    assert_eq!(
        ops,
        vec![
            FileOp::Remove("/d/f0.jpg".into()),
            FileOp::TryRemove("/d/f0.emb".into()),
            FileOp::TryRemove("/d/f0.guess".into()),
            FileOp::Remove("/d/f1.jpg".into()),
            FileOp::TryRemove("/d/f1.emb".into()),
            FileOp::TryRemove("/d/f1.guess".into()),
        ]
    );
}

#[test]
fn eviction_is_a_no_op_under_the_cap() {
    let files = vec![file("a.jpg", 1)];
    let ops = evict_oldest_if_over_cap("/d", &files, 200);
    assert!(ops.is_empty());
    assert_eq!(list_pending(&left("/d", &files, &ops)).len(), 1);
}

#[test]
fn save_pending_never_exceeds_the_cap_across_many_saves() {
    let mut files: Vec<DirFile> = Vec::new();
    for i in 0..(MAX_PENDING + 25) {
        files.push(file(&save_pending(1_700_000_000, Some(i as u32)), i as u64));
        let ops = evict_oldest_if_over_cap("/d", &files, MAX_PENDING);
        files = left("/d", &files, &ops);
    }
    assert_eq!(list_pending(&files).len(), MAX_PENDING);
}

#[test]
fn eviction_counts_only_jpg_crops_and_removes_their_sidecars() {
    let mut files: Vec<DirFile> = Vec::new();
    for i in 0..5u64 {
        for ending in ["jpg", "emb", "guess"] {
            files.push(file(&format!("{i}-unknown.{ending}"), 1_000_000 + i));
        }
    }
    let ops = evict_oldest_if_over_cap("/d", &files, 3);
    let after = left("/d", &files, &ops);
    assert_eq!(list_pending(&after).len(), 3);
    let names: Vec<&str> = after.iter().map(|f| f.name.as_str()).collect();
    for i in 0..2 {
        assert!(!names.contains(&format!("{i}-unknown.emb").as_str()));
        assert!(!names.contains(&format!("{i}-unknown.guess").as_str()));
    }
    for i in 2..5 {
        assert!(names.contains(&format!("{i}-unknown.emb").as_str()));
        assert!(names.contains(&format!("{i}-unknown.guess").as_str()));
    }
}

#[test]
fn list_pending_on_a_missing_directory_is_an_empty_list_not_an_error() {
    assert!(list_pending(&vec![]).is_empty());
}

#[test]
fn list_pending_excludes_sidecar_files() {
    let files = vec![file("1-unknown.emb", 1), file("1-unknown.jpg", 2), file("1-unknown.guess", 3)];
    assert_eq!(list_pending(&files), vec!["1-unknown.jpg".to_string()]);
}

#[test]
fn pending_crops_of_one_time_go_by_name() {
    let files = vec![file("b.jpg", 5), file("a.jpg", 5), file("c.jpg", 4)];
    assert_eq!(list_pending(&files), vec!["c.jpg", "a.jpg", "b.jpg"]);
}

fn guess(cat: &str, score: &str) -> Guess {
    Guess { cat: cat.to_string(), score: score.to_string() }
}

#[test]
fn list_pending_full_reports_ts_vendor_pet_id_and_guess() {
    let listed = vec![
        Listed { name: "100-7.jpg".into(), guess: Some(guess("Pancake", "0.83")) },
        Listed { name: "200-unknown.jpg".into(), guess: None },
        Listed { name: "junk.jpg".into(), guess: None },
    ];
    let crops = list_pending_full(&listed);
    assert_eq!(crops.len(), 2);
    assert_eq!((crops[0].name.as_str(), crops[1].name.as_str()), ("100-7.jpg", "200-unknown.jpg"));
    assert_eq!((crops[0].ts, crops[0].vendor_pet_id), (100, Some(7)));
    assert_eq!(crops[0].guess, Some(guess("Pancake", "0.83")));
    assert_eq!((crops[1].ts, crops[1].vendor_pet_id), (200, None));
    assert_eq!(crops[1].guess, None);
}

#[test]
fn list_pending_full_sorts_newest_last_by_ts_regardless_of_write_order() {
    let listed = vec![
        Listed { name: "300-unknown.jpg".into(), guess: None },
        Listed { name: "100-unknown.jpg".into(), guess: None },
        Listed { name: "200-unknown.jpg".into(), guess: None },
    ];
    let names: Vec<String> = list_pending_full(&listed).into_iter().map(|c| c.name).collect();
    assert_eq!(names, vec!["100-unknown.jpg", "200-unknown.jpg", "300-unknown.jpg"]);
}

#[test]
fn guesses_read_back() {
    let g = guess("Pancake", "0.83");
    assert_eq!(guess_json(&g), r#"{"cat":"Pancake","score":0.83}"#);
    assert_eq!(load_guess(&guess_json(&g)), Some(g));
    assert_eq!(load_guess("{}"), None);
    let spaced = guess("Mister Pancake (2)", "1e-3");
    assert_eq!(load_guess(&guess_json(&spaced)), Some(spaced));
    assert_eq!(load_guess(r#"{"cat":"Pancake","score":high}"#), None);
    assert_eq!(load_guess(r#"{"cat":"Pancake","score":}"#), None);
    assert_eq!(load_guess(r#"{"score":0.5}"#), None);
}

#[test]
fn read_pending_rejects_path_traversal() {
    let err = read_pending("../../etc/passwd").unwrap_err();
    assert!(matches!(err, FaceError::InvalidName));
}

#[test]
fn a_pending_crop_is_read_from_its_directory() {
    assert_eq!(read_pending("1.jpg").unwrap(), "/opt/kibble/faces/pending/1.jpg");
}

const NONE: Option<Sidecars> = Some(Sidecars { embedding: false, guess: false });

#[test]
fn label_moves_a_pending_crop_into_the_named_directory() {
    assert_eq!(
        label("1700000000-unknown.jpg", "Rashy", NONE).unwrap(),
        vec![
            FileOp::MakeDir("/opt/kibble/faces/Rashy".into()),
            FileOp::Rename(
                "/opt/kibble/faces/pending/1700000000-unknown.jpg".into(),
                "/opt/kibble/faces/Rashy/1700000000-unknown.jpg".into()
            ),
        ]
    );
}

#[test]
fn label_rejects_traversal_in_either_the_name_or_the_cat() {
    assert!(matches!(label("../a.jpg", "Rashy", NONE), Err(FaceError::InvalidName)));
    assert!(matches!(label("a.jpg", "../escape", NONE), Err(FaceError::InvalidCat(c)) if c == "../escape"));
    assert!(matches!(label("../a.jpg", "../escape", NONE), Err(FaceError::InvalidName)));
}

#[test]
fn label_reports_not_found_for_a_name_that_was_never_pending() {
    assert!(matches!(label("ghost.jpg", "other", None), Err(FaceError::NotFound)));
}

#[test]
fn label_moves_the_embedding_sidecar_alongside_the_crop_when_present() {
    let ops = label("1-unknown.jpg", "Rashy", Some(Sidecars { embedding: true, guess: false })).unwrap();
    assert_eq!(
        ops[2],
        FileOp::TryRename(
            "/opt/kibble/faces/pending/1-unknown.emb".into(),
            "/opt/kibble/faces/Rashy/1-unknown.emb".into()
        )
    );
    assert_eq!(ops.len(), 3);
}

#[test]
fn label_moves_the_guess_sidecar_alongside_the_crop_when_present() {
    let ops = label("1-unknown.jpg", "Rashy", Some(Sidecars { embedding: false, guess: true })).unwrap();
    assert_eq!(
        ops[2],
        FileOp::TryRename(
            "/opt/kibble/faces/pending/1-unknown.guess".into(),
            "/opt/kibble/faces/Rashy/1-unknown.guess".into()
        )
    );
}

#[test]
fn label_succeeds_with_no_sidecar_at_all() {
    assert_eq!(label("1-unknown.jpg", "Rashy", NONE).unwrap().len(), 2);
}

#[test]
fn unlabel_moves_a_labelled_crop_and_its_sidecar_back_to_pending() {
    let ops = unlabel("Rashy", "1-unknown.jpg", Some(true)).unwrap();
    assert_eq!(
        ops,
        vec![
            FileOp::MakeDir("/opt/kibble/faces/pending".into()),
            FileOp::Rename(
                "/opt/kibble/faces/Rashy/1-unknown.jpg".into(),
                "/opt/kibble/faces/pending/1-unknown.jpg".into()
            ),
            FileOp::TryRename(
                "/opt/kibble/faces/Rashy/1-unknown.emb".into(),
                "/opt/kibble/faces/pending/1-unknown.emb".into()
            ),
            FileOp::TryRemove("/opt/kibble/faces/Rashy/1-unknown.guess".into()),
        ]
    );
}

#[test]
fn unlabel_reports_not_found_for_a_crop_that_was_never_labelled_into_that_cat() {
    assert!(matches!(unlabel("Rashy", "ghost.jpg", None), Err(FaceError::NotFound)));
}

#[test]
fn unlabel_rejects_traversal_in_either_the_cat_or_the_name() {
    assert!(matches!(unlabel("../escape", "a.jpg", Some(false)), Err(FaceError::InvalidCat(_))));
    assert!(matches!(unlabel("Rashy", "../a.jpg", Some(false)), Err(FaceError::InvalidName)));
}

#[test]
fn unlabel_drops_the_guess_sidecar_without_restoring_it_to_pending() {
    let ops = unlabel("Rashy", "1-unknown.jpg", Some(false)).unwrap();
    assert_eq!(ops[2], FileOp::TryRemove("/opt/kibble/faces/Rashy/1-unknown.guess".into()));
    assert_eq!(ops.len(), 3);
}

fn cat_dir(name: &str, files: Vec<DirFile>) -> CatDir {
    CatDir { name: name.to_string(), files }
}

#[test]
fn list_labelled_excludes_pending_and_reserved_buckets() {
    let dirs = vec![
        cat_dir("pending", vec![file("x.jpg", 1)]),
        cat_dir(SKIP_BUCKET, vec![file("y.jpg", 2)]),
        cat_dir(NOT_A_CAT_BUCKET, vec![file("w.jpg", 4)]),
        cat_dir("Rashy", vec![file("z.jpg", 3), file("z.emb", 3)]),
    ];
    let crops = list_labelled(&dirs);
    assert_eq!(crops.len(), 1);
    assert_eq!((crops[0].cat.as_str(), crops[0].name.as_str()), ("Rashy", "z.jpg"));
    assert_eq!(crops[0].jpg_path, "/opt/kibble/faces/Rashy/z.jpg");
}

#[test]
fn list_labelled_on_a_missing_root_is_empty_not_an_error() {
    assert_eq!(list_labelled(&vec![]).len(), 0);
}

#[test]
fn review_target_prefers_the_oldest_pending_crop() {
    let files = vec![file("new.jpg", 200), file("old.jpg", 100)];
    assert_eq!(
        review_target(&files, &vec![]),
        Some(FaceTarget::Pending { name: "old.jpg".into() })
    );
}

#[test]
fn identify_target_prefers_the_newest_pending_crop() {
    let files = vec![file("new.jpg", 200), file("old.jpg", 100)];
    let t = identify_target(&files, &vec![]).unwrap();
    assert_eq!(t.name(), "new.jpg");
    assert_eq!(t.jpg_path(), "/opt/kibble/faces/pending/new.jpg");
}

#[test]
fn both_targets_fall_back_to_the_newest_labelled_crop_once_pending_is_empty() {
    let crops = list_labelled(&vec![cat_dir("Rashy", vec![file("only.jpg", 5)])]);
    let want = || Some(FaceTarget::Labelled { cat: "Rashy".into(), name: "only.jpg".into() });
    assert_eq!(review_target(&vec![], &crops), want());
    assert_eq!(identify_target(&vec![], &crops), want());
}

#[test]
fn the_newest_labelled_crop_is_the_target() {
    let dirs = vec![cat_dir("Rashy", vec![file("1.jpg", 5), file("2.jpg", 9), file("3.jpg", 7)])];
    let crops = list_labelled(&dirs);
    let want = FaceTarget::Labelled { cat: "Rashy".into(), name: "2.jpg".into() };
    assert_eq!(review_target(&vec![file("x.emb", 1)], &crops), Some(want));
    let t = identify_target(&vec![], &crops).unwrap();
    assert_eq!(t.jpg_path(), "/opt/kibble/faces/Rashy/2.jpg");
}

#[test]
fn both_targets_are_none_when_nothing_has_ever_been_captured() {
    assert_eq!(review_target(&vec![], &vec![]), None);
    assert_eq!(identify_target(&vec![], &vec![]), None);
}

#[test]
fn associate_track_renames_a_crop_exactly_at_the_window_boundary() {
    let out = associate_track_in(&names(&["1000-unknown.jpg"]), 42, 1000 + TRACK_ASSOCIATION_WINDOW_SECS);
    assert_eq!(out.len(), 1);
    assert_eq!((out[0].from.as_str(), out[0].to.as_str()), ("1000-unknown.jpg", "1000-42.jpg"));
}

#[test]
fn associate_track_leaves_a_crop_one_second_outside_the_window_alone() {
    let at = 1000 + TRACK_ASSOCIATION_WINDOW_SECS + 1;
    assert!(associate_track_in(&names(&["1000-unknown.jpg"]), 42, at).is_empty());
}

#[test]
fn associate_track_accepts_a_track_landing_before_the_crops_own_timestamp_too() {
    let out = associate_track_in(&names(&["1000-unknown.jpg"]), 42, 1000 - 100);
    assert_eq!(out.len(), 1);
    assert_eq!(out[0].to, "1000-42.jpg");
}

#[test]
fn associate_track_moves_sidecars_along_with_the_renamed_crop() {
    let d = "/opt/kibble/faces/pending";
    assert_eq!(
        associate_track(&names(&["1000-unknown.jpg"]), 42, 1000),
        vec![
            FileOp::Rename(format!("{d}/1000-unknown.jpg"), format!("{d}/1000-42.jpg")),
            FileOp::TryRename(format!("{d}/1000-unknown.emb"), format!("{d}/1000-42.emb")),
            FileOp::TryRename(format!("{d}/1000-unknown.guess"), format!("{d}/1000-42.guess")),
        ]
    );
}

#[test]
fn associate_track_ignores_crops_already_associated_with_a_real_pet_id() {
    assert!(associate_track_in(&names(&["1000-9.jpg"]), 42, 1000).is_empty());
}

#[test]
fn associate_track_never_overwrites_an_existing_destination() {
    assert!(associate_track_in(&names(&["1000-unknown.jpg", "1000-42.jpg"]), 42, 1000).is_empty());
    let twice = associate_track_in(&names(&["1000-unknown.jpg", "01000-unknown.jpg"]), 42, 1000);
    assert_eq!(twice.len(), 1);
}

#[test]
fn list_samples_returns_a_cats_crops_sorted_by_ts() {
    let samples = list_samples("Rashy", Some(&names(&["200-unknown.jpg", "100-unknown.jpg"]))).unwrap();
    let got: Vec<(&str, u64)> = samples.iter().map(|s| (s.name.as_str(), s.ts)).collect();
    assert_eq!(got, vec![("100-unknown.jpg", 100), ("200-unknown.jpg", 200)]);
}

#[test]
fn list_samples_includes_uploaded_reference_photos() {
    let files =
        names(&["upload-1789609470108.jpg", "upload-1789609470108.emb", "1789595577-unknown.jpg"]);
    let samples = list_samples("Kitty", Some(&files)).unwrap();
    let got: Vec<(&str, u64)> = samples.iter().map(|s| (s.name.as_str(), s.ts)).collect();
    assert_eq!(
        got,
        vec![("1789595577-unknown.jpg", 1789595577), ("upload-1789609470108.jpg", 1789609470)]
    );
}

#[test]
fn list_samples_reports_not_found_for_an_unknown_cat() {
    assert!(matches!(list_samples("Ghost", None), Err(FaceError::NotFound)));
}

#[test]
fn list_samples_rejects_the_pending_staging_directory_as_a_cat() {
    assert!(matches!(list_samples("pending", Some(&names(&["1-unknown.jpg"]))), Err(FaceError::NotFound)));
}

#[test]
fn read_sample_rejects_traversal_in_either_the_cat_or_the_name() {
    assert!(matches!(read_sample("../escape", "a.jpg"), Err(FaceError::InvalidCat(_))));
    assert!(matches!(read_sample("Rashy", "../a.jpg"), Err(FaceError::InvalidName)));
    assert!(matches!(read_sample("../escape", "../a.jpg"), Err(FaceError::InvalidCat(_))));
    assert!(matches!(read_sample("pending", "1-unknown.jpg"), Err(FaceError::NotFound)));
    assert_eq!(read_sample("Rashy", "1-unknown.jpg").unwrap(), "/opt/kibble/faces/Rashy/1-unknown.jpg");
}

#[test]
fn cats_come_and_go() {
    assert_eq!(add_cat("Rashy").unwrap(), "/opt/kibble/faces/Rashy");
    assert!(matches!(add_cat("other"), Err(FaceError::InvalidCat(_))));
    assert!(matches!(add_cat("a/b"), Err(FaceError::InvalidCat(_))));
    assert_eq!(delete_cat("Rashy", true).unwrap(), "/opt/kibble/faces/Rashy");
    assert!(matches!(delete_cat("Rashy", false), Err(FaceError::NotFound)));
    assert!(matches!(delete_cat("pending", true), Err(FaceError::NotFound)));
    assert!(matches!(delete_cat("not_a_cat", true), Err(FaceError::InvalidCat(_))));
}

#[test]
fn a_sample_is_deleted_with_what_stands_beside_it() {
    let ops = delete_sample("Rashy", "a.b.jpg", true).unwrap();
    assert_eq!(
        ops,
        vec![
            FileOp::Remove("/opt/kibble/faces/Rashy/a.b.jpg".into()),
            FileOp::TryRemove("/opt/kibble/faces/Rashy/a.b.emb".into()),
            FileOp::TryRemove("/opt/kibble/faces/Rashy/a.b.guess".into()),
        ]
    );
    assert!(matches!(delete_sample("Rashy", "1.jpg", false), Err(FaceError::NotFound)));
    assert!(matches!(delete_sample("pending", "1.jpg", true), Err(FaceError::NotFound)));
    assert!(matches!(delete_sample("..", "..", true), Err(FaceError::InvalidName)));
    assert!(matches!(delete_sample("..", "1.jpg", true), Err(FaceError::InvalidCat(_))));
}

#[test]
fn photos_are_taken_in_for_enrolled_cats_only() {
    let jpeg = [0xFF, 0xD8, 0xFF, 0xE0];
    assert_eq!(upload_sample(&jpeg, "Rashy", true, 1_789_609_534_401).unwrap(), "upload-1789609534401.jpg");
    assert!(matches!(upload_sample(&jpeg, "Rashy", false, 1), Err(FaceError::NotFound)));
    assert!(matches!(upload_sample(&jpeg, "other", true, 1), Err(FaceError::NotFound)));
    assert!(matches!(upload_sample(&jpeg, "pending", true, 1), Err(FaceError::NotFound)));
    assert!(matches!(upload_sample(&[1], "a/b", true, 1), Err(FaceError::InvalidCat(_))));
    let e = upload_sample(&[1], "Rashy", false, 1).unwrap_err();
    assert_eq!(e.message(), "not a JPEG (missing FF D8 FF magic)");
}

#[test]
fn each_face_error_says_what_is_wrong() {
    assert_eq!(FaceError::InvalidName.message(), "invalid file name");
    assert_eq!(FaceError::InvalidCat("a\"b".into()).message(), "invalid \"cat\" \"a\\\"b\"");
    assert_eq!(FaceError::NotFound.message(), "no such pending face crop");
    assert_eq!(FaceError::Io("disk".into()).message(), "disk");
    assert_eq!(
        FaceError::InvalidUpload(UploadError::TooLarge(600_000)).message(),
        "600000 bytes exceeds the 524288-byte limit"
    );
}

#[test]
fn embeddings_read_back() {
    let feat: Vec<u32> = (0..EMBED_DIM as u32).map(|i| i * 0x0101_0101).collect();
    assert_eq!(load_embedding(&save_embedding(&feat)), Some(feat));
    assert_eq!(load_embedding(&[0; 10]), None);
}

#[test]
fn cats_are_reported_by_name() {
    let cats = vec![
        CatSummary { name: "Rashy".into(), samples: 2, avatar: Some("1-7.jpg".into()) },
        CatSummary { name: "Kitty".into(), samples: 0, avatar: None },
    ];
    let dirs = vec![cat_dir("Rashy", vec![file("1-7.jpg", 5_000_000_000)])];
    assert_eq!(
        cats_json(&cats, &list_labelled(&dirs)),
        r#"[{"name":"Kitty","samples":0,"last_seen":null,"avatar":null},{"name":"Rashy","samples":2,"last_seen":5,"avatar":"1-7.jpg"}]"#
    );
}

fn carried_out(files: &BTreeMap<String, u8>, ops: &[FileOp]) -> BTreeMap<String, u8> {
    let mut files = files.clone();
    for op in ops {
        match op {
            FileOp::MakeDir(_) => {}
            FileOp::Rename(a, b) | FileOp::TryRename(a, b) => {
                if let Some(v) = files.remove(a) {
                    files.insert(b.clone(), v);
                }
            }
            FileOp::Remove(a) | FileOp::TryRemove(a) => {
                files.remove(a);
            }
        }
    }
    files
}

#[test]
fn unlabelling_puts_the_files_back_without_the_guess() {
    let d = "/opt/kibble/faces/pending";
    let mut files = BTreeMap::new();
    files.insert(format!("{d}/1.jpg"), 1);
    files.insert(format!("{d}/1.emb"), 2);
    files.insert(format!("{d}/1.guess"), 3);
    files.insert(format!("{d}/2.jpg"), 4);
    let found = Some(Sidecars { embedding: true, guess: true });
    let labelled = carried_out(&files, &label("1.jpg", "Rashy", found).unwrap());
    assert_eq!(labelled.get("/opt/kibble/faces/Rashy/1.guess"), Some(&3));
    assert_eq!(labelled.get(&format!("{d}/1.jpg")), None);
    let back = carried_out(&labelled, &unlabel("Rashy", "1.jpg", Some(true)).unwrap());
    files.remove(&format!("{d}/1.guess"));
    assert_eq!(back, files);
}

#[test]
fn unlabelling_puts_back_a_file_of_any_name() {
    let d = "/opt/kibble/faces/pending";
    let mut files = BTreeMap::new();
    files.insert(format!("{d}/photo"), 1);
    files.insert(format!("{d}/photo.emb"), 2);
    let found = Some(Sidecars { embedding: true, guess: false });
    let labelled = carried_out(&files, &label("photo", "Rashy", found).unwrap());
    assert_eq!(labelled.get("/opt/kibble/faces/Rashy/photo.emb"), Some(&2));
    assert_eq!(carried_out(&labelled, &unlabel("Rashy", "photo", Some(true)).unwrap()), files);
}

#[test]
fn unlabelling_puts_back_a_file_named_like_a_sidecar() {
    let d = "/opt/kibble/faces/pending";
    for name in ["a.emb", "a.guess"] {
        let mut files = BTreeMap::new();
        files.insert(format!("{d}/a.emb"), 1);
        files.insert(format!("{d}/a.guess"), 2);
        files.insert(format!("{d}/b.jpg"), 3);
        let found = Some(Sidecars { embedding: true, guess: true });
        let labelled = carried_out(&files, &label(name, "Rashy", found).unwrap());
        let back = carried_out(&labelled, &unlabel("Rashy", name, Some(true)).unwrap());
        if name == "a.emb" {
            files.remove(&format!("{d}/a.guess"));
        }
        assert_eq!(back, files);
    }
}
