use kibbled::bus::Peer;
use kibbled::persist::{find, reconcile_one, write_setting, Kind, Notify, Reconcile, Setting, Width, WriteError};

fn table() -> Vec<Setting> {
    vec![
        Setting {
            key: "camera",
            offset: 0x10,
            width: Width::U8,
            kind: Kind::Bool,
            writable: false,
            notify: None,
        },
        Setting {
            key: "volume",
            offset: 0x20,
            width: Width::U32,
            kind: Kind::Range { min: 1, max: 9 },
            writable: true,
            notify: Some(Notify { peer: Peer::Media, msg_id: 0x3001, payload_len: 1 }),
        },
        Setting {
            key: "light",
            offset: 0x30,
            width: Width::U8,
            kind: Kind::Bool,
            writable: true,
            notify: None,
        },
    ]
}

#[test]
fn unknown_key_is_rejected_before_touching_anything() {
    assert!(matches!(write_setting(&table(), "not_a_real_setting", 1), Err(WriteError::UnknownKey)));
}

#[test]
fn read_only_setting_is_rejected_before_touching_anything() {
    let table = table();
    assert!(!table[find(&table, "camera").unwrap()].writable);
    assert!(matches!(write_setting(&table, "camera", 1), Err(WriteError::NotWritable)));
}

#[test]
fn out_of_range_value_is_rejected_for_a_bool_kind() {
    assert!(!Kind::Bool.accepts(7));
}

#[test]
fn a_range_takes_its_ends() {
    let k = Kind::Range { min: 1, max: 9 };
    assert!(k.accepts(1) && k.accepts(9));
    assert!(!k.accepts(0) && !k.accepts(10));
}

#[test]
fn a_write_is_planned_with_its_message() {
    let o = write_setting(&table(), "volume", 5).unwrap();
    assert_eq!(o.setting, 1);
    assert_eq!(o.offset, 0x20);
    assert_eq!(o.bytes, vec![5, 0, 0, 0]);
    let (peer, id, payload) = o.notify.unwrap();
    assert_eq!((peer, id, payload), (Peer::Media, 0x3001, vec![5]));
    let o = write_setting(&table(), "light", 1).unwrap();
    assert_eq!(o.bytes, vec![1]);
    assert!(o.notify.is_none());
}

#[test]
fn a_value_out_of_range_is_refused() {
    let e = write_setting(&table(), "volume", 10).err().unwrap();
    assert!(matches!(e, WriteError::OutOfRange));
    assert_eq!(e.message(), "value out of range for this setting");
    assert_eq!(WriteError::UnknownKey.message(), "unknown setting key");
    assert_eq!(WriteError::NotWritable.message(), "setting is read-only (write not yet verified)");
    assert_eq!(WriteError::Io("disk".into()).message(), "disk");
}

#[test]
fn only_what_has_drifted_is_written_again() {
    let t = table();
    assert!(matches!(reconcile_one(&t, "gone", 1, 1), Reconcile::Unknown));
    assert!(matches!(reconcile_one(&t, "camera", 1, 0), Reconcile::Stale));
    assert!(matches!(reconcile_one(&t, "volume", 12, 0), Reconcile::Stale));
    assert!(matches!(reconcile_one(&t, "volume", 5, 5), Reconcile::InSync));
    assert!(matches!(reconcile_one(&t, "volume", 5, 6), Reconcile::Apply(o) if o.bytes == vec![5, 0, 0, 0]));
}
