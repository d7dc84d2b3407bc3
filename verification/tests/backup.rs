use kibbled::backup::{backup_once, BACKUP, SOURCE};

#[test]
fn backup_path_lives_under_the_kibble_directory_not_alongside_the_original() {
    assert!(BACKUP.starts_with("/opt/kibble/"));
    assert_ne!(BACKUP, SOURCE);
}

#[test]
fn first_call_copies_the_source_and_returns_matching_hashes() {
    let src = b"pre-kibble user.conf content";
    let (source_md5, backup_md5) = backup_once(false, src, src).expect("first call copies");
    assert_eq!(source_md5, backup_md5);
    assert_eq!(source_md5.len(), 32);
}

#[test]
fn a_second_call_does_not_overwrite_an_existing_backup() {
    let second = backup_once(
        true,
        b"content changed after the backup was taken",
        b"original content",
    );
    assert!(second.is_none(), "must not re-copy once a backup exists");
}

#[test]
fn a_copy_that_differs_shows_in_the_hashes() {
    let (a, b) = backup_once(false, b"", b"a").unwrap();
    assert_eq!(a, "d41d8cd98f00b204e9800998ecf8427e");
    assert_eq!(b, "0cc175b9c0f1b6a831c399e269772661");
}
