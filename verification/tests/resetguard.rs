use kibbled::resetguard::{already_mounted_in, REPLACEMENT, REPLACEMENT_SCRIPT, TARGET};

#[test]
fn already_mounted_true_when_proc_mounts_has_the_exact_pair() {
    let mounts = "/dev/root / ext4 rw,relatime 0 0\n\
                   /opt/kibble/reset_wifi_noop.sh /app/script/reset_wifi.sh none rw,bind 0 0\n";
    assert!(already_mounted_in(mounts, REPLACEMENT, TARGET));
}

#[test]
fn already_mounted_false_when_absent_entirely() {
    let mounts = "/dev/root / ext4 rw,relatime 0 0\n";
    assert!(!already_mounted_in(mounts, REPLACEMENT, TARGET));
}

#[test]
fn already_mounted_false_for_a_different_source_on_the_same_target() {
    let mounts = "/some/unrelated/file /app/script/reset_wifi.sh none rw,bind 0 0\n";
    assert!(!already_mounted_in(mounts, REPLACEMENT, TARGET));
}

#[test]
fn already_mounted_false_for_the_replacement_mounted_somewhere_else() {
    let mounts = "/opt/kibble/reset_wifi_noop.sh /app/script/wifi_connect.sh none rw,bind 0 0\n";
    assert!(!already_mounted_in(mounts, REPLACEMENT, TARGET));
}

#[test]
fn replacement_script_is_a_well_formed_noop() {
    assert!(REPLACEMENT_SCRIPT.starts_with("#!/bin/sh\n"));
    assert!(REPLACEMENT_SCRIPT.trim_end().ends_with("exit 0"));
    let executable: String = REPLACEMENT_SCRIPT
        .lines()
        .filter(|l| !l.trim_start().starts_with('#'))
        .collect::<Vec<_>>()
        .join("\n")
        .to_lowercase();
    for forbidden in ["gpio", "wpa_supplicant", "udhcpc", "ifconfig", "killall", "wpa_cli"] {
        assert!(!executable.contains(forbidden), "replacement script must never run anything touching {forbidden}");
    }
}

