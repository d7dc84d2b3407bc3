use kibbled::bus::{frame, BusError, FeedCtrl, Peer};

#[test]
fn feed_payload_matches_proven_frame() {
    let got = FeedCtrl {
        cancel: false,
        id: "kibbletest1".into(),
        amount1: 1,
        amount2: 0,
    }
    .encode();
    assert_eq!(got[0], 0x00);
    assert_eq!(&got[1..12], b"kibbletest1");
    assert!(got[12..65].iter().all(|&b| b == 0));
    assert_eq!(got[65], 1);
    assert_eq!(got[66], 0);
}
#[test]
fn bus_oversized_id_is_truncated_and_terminated() {
    let got = FeedCtrl {
        cancel: false,
        id: "x".repeat(200),
        amount1: 7,
        amount2: 9,
    }
    .encode();
    assert_eq!(got[63], b'x');
    assert_eq!(got[64], 0, "id field must stay NUL-terminated");
    assert_eq!(got[65], 7);
    assert_eq!(got[66], 9);
}

#[test]
fn a_message_starts_with_its_id_and_its_sender() {
    assert_eq!(frame(0x6004, Peer::Ctrl.id(), &[7, 8]).unwrap(), vec![0x04, 0x60, 1, 0, 7, 8]);
}

#[test]
fn a_payload_that_is_too_long_is_refused() {
    assert!(frame(1, 1, &[0u8; 540]).is_ok());
    let e = frame(1, 1, &[0u8; 541]).unwrap_err();
    assert_eq!(e, BusError::TooLong);
    assert_eq!(e.message(), "payload exceeds 540 bytes");
}

#[test]
fn a_cancelled_feed_says_so_first() {
    let got = FeedCtrl { cancel: true, id: String::new(), amount1: 0, amount2: 0 }.encode();
    assert_eq!(got[0], 1);
    assert!(got[1..].iter().all(|&b| b == 0));
}

#[test]
fn queues_are_named_after_their_peers() {
    assert_eq!(Peer::Ctrl.queue_name(), "/msg_dispatch_1");
    assert_ne!(Peer::Ble.queue_name(), Peer::Media.queue_name());
}
