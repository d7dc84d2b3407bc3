use std::collections::BTreeSet;

use kibbled::push::{
    accept_key, close_payload, decode_client_frame, drain, encode_frame, frame_json, handshake,
    hello_json, mark, mark_all, reply_to, upgrade_key, Bus, ClientFrame, Ending, Field, FrameError, Handshake,
    Reply, Session, CLIENT_TIMEOUT, MAX_CLIENT_FRAME, PING_INTERVAL,
};

#[test]
fn accept_key_matches_the_rfc_6455_worked_example() {
    assert_eq!(accept_key("dGhlIHNhbXBsZSBub25jZQ=="), "s3pPLMBiTxaQ9kYGzzhZRbK+xOo=");
}

#[test]
fn server_frames_use_the_three_length_encodings() {
    assert_eq!(encode_frame(0x1, b"hi")[..2], [0x81, 2]);
    let mid = encode_frame(0x1, &[0u8; 300]);
    assert_eq!(mid[..4], [0x81, 126, 1, 44]);
    let big = encode_frame(0x1, &[0u8; 70_000]);
    assert_eq!(big[1], 127);
    assert_eq!(u64::from_be_bytes(big[2..10].try_into().unwrap()), 70_000);
}

fn masked(opcode: u8, payload: &[u8]) -> Vec<u8> {
    let mask = [0x37, 0xfa, 0x21, 0x3d];
    let mut f = vec![0x80 | opcode, 0x80 | payload.len() as u8];
    f.extend_from_slice(&mask);
    f.extend(payload.iter().enumerate().map(|(i, b)| b ^ mask[i % 4]));
    f
}

#[test]
fn decodes_the_rfc_masked_hello_and_reports_bytes_used() {
    let buf = [0x81, 0x85, 0x37, 0xfa, 0x21, 0x3d, 0x7f, 0x9f, 0x4d, 0x51, 0x58, 0xff];
    let (frame, used) = decode_client_frame(&buf).unwrap().unwrap();
    assert!(matches!(&frame, ClientFrame::Text(t) if t == "Hello"));
    assert_eq!(used, 11);
}

#[test]
fn partial_frames_wait_and_unmasked_or_oversized_frames_are_rejected() {
    let full = masked(0x1, br#"{"type":"resync"}"#);
    assert!(decode_client_frame(&full[..5]).unwrap().is_none());
    assert!(decode_client_frame(&[0x81, 0x05, b'H']).is_err()); // no mask bit
    let mut big = vec![0x81, 0x80 | 126];
    big.extend_from_slice(&(MAX_CLIENT_FRAME as u16 + 1).to_be_bytes());
    assert!(decode_client_frame(&big).is_err());
}

#[test]
fn control_frames_decode_to_their_variants() {
    assert!(matches!(&decode_client_frame(&masked(0x9, b"x")).unwrap().unwrap().0, ClientFrame::Ping(p) if p == b"x"));
    assert!(matches!(decode_client_frame(&masked(0xA, b"")).unwrap().unwrap().0, ClientFrame::Pong));
    assert!(matches!(decode_client_frame(&masked(0x8, &[0x03, 0xe8])).unwrap().unwrap().0, ClientFrame::Close));
}

#[test]
fn marks_coalesce_and_drain_clears() {
    let mut bus = Bus::new();
    mark(&mut bus, Field::Events);
    mark(&mut bus, Field::State);
    mark(&mut bus, Field::Events);
    let got = drain(&mut bus);
    assert_eq!(got, vec![Field::State, Field::Events]);
    assert!(drain(&mut bus).is_empty());
}

#[test]
fn frame_json_serialises_only_the_named_fields_in_order() {
    let fields = [Field::Cloud, Field::Events];
    let bodies: Vec<String> = fields.iter().map(|f| format!(r#"{{"is":"{}"}}"#, f.name())).collect();
    let json = frame_json("update", 7, &fields, &bodies);
    assert_eq!(json, r#"{"type":"update","seq":7,"fields":{"cloud":{"is":"cloud"},"events":{"is":"events"}}}"#);
}

#[test]
fn field_names_are_unique_and_cover_all() {
    let names: BTreeSet<&str> = Field::ALL.iter().map(|f| f.name()).collect();
    assert_eq!(names.len(), Field::ALL.len());
}

const UPGRADE: &[u8] = b"GET / HTTP/1.1\r\nHost: x\r\nUpgrade: websocket\r\nConnection: Upgrade\r\nSec-WebSocket-Key: dGhlIHNhbXBsZSBub25jZQ==\r\nSec-WebSocket-Version: 13\r\n\r\n";

#[test]
fn a_handshake_waits_for_its_headers_and_is_accepted() {
    assert!(matches!(handshake(&UPGRADE[..40]), Handshake::More));
    match handshake(UPGRADE) {
        Handshake::Accept(s) => {
            assert!(s.starts_with("HTTP/1.1 101 Switching Protocols\r\n"));
            assert!(s.ends_with("Sec-WebSocket-Accept: s3pPLMBiTxaQ9kYGzzhZRbK+xOo=\r\n\r\n"));
        }
        _ => panic!("expected an upgrade"),
    }
}

#[test]
fn what_is_no_upgrade_is_refused() {
    match handshake(b"GET / HTTP/1.1\r\nHost: x\r\n\r\n") {
        Handshake::Refuse(s, _) => assert!(s.starts_with("HTTP/1.1 400 Bad Request\r\n")),
        _ => panic!("expected a refusal"),
    }
    match handshake(&[b'x'; 4096]) {
        Handshake::Refuse(_, why) => assert_eq!(why, "request too large"),
        _ => panic!("expected a refusal"),
    }
}

#[test]
fn the_upgrade_header_decides_in_any_case() {
    let head = "GET / HTTP/1.1\r\nUPGRADE: WebSocket\r\nsec-websocket-key:  abc \r\n";
    assert_eq!(upgrade_key(head), Some("abc".to_string()));
    assert_eq!(upgrade_key("GET / HTTP/1.1\r\nSec-WebSocket-Key: abc\r\n"), None);
}

#[test]
fn hello_names_the_protocol() {
    assert!(hello_json(3).starts_with(r#"{"type":"hello","proto":1,"seq":3"#), "{}", hello_json(3));
}

#[test]
fn marking_all_marks_each() {
    let mut bus = Bus::new();
    assert!(bus.is_clean());
    mark_all(&mut bus, &[Field::Events, Field::Cats, Field::Cats]);
    assert!(!bus.is_clean());
    assert_eq!(drain(&mut bus), vec![Field::Cats, Field::Events]);
    assert!(bus.is_clean());
}

#[test]
fn a_session_answers_pings_and_resyncs() {
    let mut s = Session::new(0);
    match s.on_read(&masked(0x9, b"hey"), 10) {
        Ok(Reply::Frame(f)) => assert_eq!(f, encode_frame(0xA, b"hey")),
        _ => panic!("expected a pong"),
    }
    let resync = masked(0x1, br#"{"type":"resync"}"#);
    assert!(matches!(s.on_read(&resync[..7], 20), Ok(Reply::Nothing)));
    assert!(matches!(s.on_read(&resync[7..], 30), Ok(Reply::Snapshot)));
    assert!(matches!(s.on_read(&masked(0x8, b""), 40), Err(Ending::Closed)));
}

#[test]
fn a_session_ends_on_bad_frames_and_silence() {
    let mut s = Session::new(0);
    assert!(matches!(s.on_read(&[0x81, 0x05, b'H'], 1), Err(Ending::Bad(FrameError::Unmasked))));
    let mut s = Session::new(0);
    assert!(matches!(s.tick(PING_INTERVAL - 1), Ok(Reply::Nothing)));
    match s.tick(PING_INTERVAL) {
        Ok(Reply::Frame(f)) => assert_eq!(f, encode_frame(0x9, b"kibble")),
        _ => panic!("expected a ping"),
    }
    assert!(matches!(s.tick(PING_INTERVAL + 1), Ok(Reply::Nothing)));
    assert!(matches!(s.tick(CLIENT_TIMEOUT + 1), Err(Ending::Silent)));
}

#[test]
fn each_bad_frame_has_its_error() {
    let error = |b: &[u8]| decode_client_frame(b).err().unwrap();
    assert_eq!(error(&[0x01, 0x80]), FrameError::Fragmented);
    assert_eq!(error(&[0x81, 0xff]), FrameError::Wide);
    assert_eq!(error(&[0x83, 0x80, 0, 0, 0, 0]), FrameError::Opcode(3));
    assert_eq!(error(&[0x81, 0xfe, 0x04, 0x01]), FrameError::TooLarge);
    assert_eq!(FrameError::Unmasked.message(), "unmasked client frame");
}

#[test]
fn a_close_carries_its_code_first() {
    assert_eq!(close_payload(1002, "bad"), vec![0x03, 0xea, b'b', b'a', b'd']);
}

#[test]
fn a_client_frame_reads_back_with_what_follows() {
    let mut buf = masked(0x1, b"hi");
    let n = buf.len();
    buf.push(0x81);
    let (frame, used) = decode_client_frame(&buf).unwrap().unwrap();
    assert!(matches!(frame, ClientFrame::Text(t) if t == "hi"));
    assert_eq!(used, n);
}

#[test]
fn each_client_frame_has_its_reply() {
    assert!(matches!(reply_to(&ClientFrame::Text("x \"resync\"".into())), Ok(Reply::Snapshot)));
    assert!(matches!(reply_to(&ClientFrame::Text("resync".into())), Ok(Reply::Nothing)));
    assert!(matches!(reply_to(&ClientFrame::Pong), Ok(Reply::Nothing)));
    assert!(matches!(reply_to(&ClientFrame::Close), Err(Ending::Closed)));
    assert!(matches!(reply_to(&ClientFrame::Ping(vec![7])), Ok(Reply::Frame(f)) if f == vec![0x8A, 1, 7]));
}
