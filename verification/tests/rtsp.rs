use kibbled::base64::base64_encode;
use kibbled::http::find_headers_end;
use kibbled::number::hex_encode;
use kibbled::ring::Frame;
use kibbled::rtsp::media::{
    build_rtp_packet, find_nal_by_type, fragment_nal, interleaved_frame, send_access_unit,
    send_audio_frame, split_nal_units, PAYLOAD_TYPE, RTP_MTU,
};
use kibbled::rtsp::{
    build_sdp, control_due, describe, new_session_id, parse_request, parse_request_text, play,
    poll_control, read_request, select, streams_json, track_id_from_url, url_names_segment, Control, ControlEvent,
    Intake, Mount, MountInfo, Player, RtspRequest, Session, Step, MAX_SESSIONS_PER_STREAM,
};

#[test]
fn split_nal_units_handles_mixed_start_code_lengths() {
    let data = [
        &[0, 0, 0, 1][..], &[0x67, 1, 2][..], // 4-byte start code, SPS-ish
        &[0, 0, 1][..], &[0x68, 3, 4][..],     // 3-byte start code, PPS-ish
        &[0, 0, 0, 1][..], &[0x65, 5, 6, 7][..], // 4-byte start code, slice-ish
    ]
    .concat();
    let nals = split_nal_units(&data);
    assert_eq!(nals, vec![&[0x67, 1, 2][..], &[0x68, 3, 4][..], &[0x65, 5, 6, 7][..]]);
}

#[test]
fn find_nal_by_type_matches_on_the_low_five_bits_of_the_first_byte() {
    let sps = [0x67u8, 9, 9];
    let pps = [0x68u8, 8, 8];
    let nals: Vec<&[u8]> = vec![&sps, &pps];
    assert_eq!(find_nal_by_type(&nals, 7), Some(&sps[..]));
    assert_eq!(find_nal_by_type(&nals, 8), Some(&pps[..]));
    assert_eq!(find_nal_by_type(&nals, 5), None);
}

#[test]
fn fragment_nal_keeps_small_nals_whole() {
    let nal = vec![0x65, 1, 2, 3];
    assert_eq!(fragment_nal(&nal), vec![nal]);
}

#[test]
fn fragment_nal_splits_large_nals_and_reassembles_byte_identical() {
    let mut nal = vec![0x65u8]; // nal_ref_idc=3, type=5 (IDR)
    nal.extend((0..5000u32).map(|i| (i % 256) as u8));
    let frags = fragment_nal(&nal);
    assert!(frags.len() > 1, "5000 bytes must not fit in one RTP_MTU-sized packet");
    assert_eq!(frags[0][0] & 0xE0, nal[0] & 0xE0, "nal_ref_idc preserved in FU indicator");
    assert_eq!(frags[0][0] & 0x1F, 28, "FU-A type in the indicator byte");
    assert_eq!(frags[0][1] & 0x80, 0x80, "S=1 on the first fragment");
    assert_eq!(frags[0][1] & 0x40, 0, "E=0 on the first fragment");
    assert_eq!(frags[0][1] & 0x1F, nal[0] & 0x1F, "original nal_type carried in the FU header");
    let last = frags.last().unwrap();
    assert_eq!(last[1] & 0x40, 0x40, "E=1 on the last fragment");
    assert_eq!(last[1] & 0x80, 0, "S=0 on the last fragment");
    let mut rebuilt = vec![nal[0]];
    for f in &frags {
        rebuilt.extend_from_slice(&f[2..]);
    }
    assert_eq!(rebuilt, nal, "concatenated fragment payloads must reproduce the original NAL exactly");
}

#[test]
fn base64_encode_matches_rfc4648_test_vectors() {
    assert_eq!(base64_encode(b""), "");
    assert_eq!(base64_encode(b"f"), "Zg==");
    assert_eq!(base64_encode(b"fo"), "Zm8=");
    assert_eq!(base64_encode(b"foo"), "Zm9v");
    assert_eq!(base64_encode(b"foob"), "Zm9vYg==");
    assert_eq!(base64_encode(b"fooba"), "Zm9vYmE=");
    assert_eq!(base64_encode(b"foobar"), "Zm9vYmFy");
}

#[test]
fn hex_encode_is_lowercase_zero_padded() {
    assert_eq!(hex_encode(&[0x00, 0x0a, 0xff]), "000aff");
}

#[test]
fn build_rtp_packet_lays_out_fixed_header_fields() {
    let pkt = build_rtp_packet(PAYLOAD_TYPE, &[1, 2, 3], 0x1234, 0x89AB_CDEF, 0xDEAD_BEEF, true);
    assert_eq!(pkt[0], 0x80, "V=2,P=0,X=0,CC=0");
    assert_eq!(pkt[1], 0x80 | PAYLOAD_TYPE, "marker set, PT=96");
    assert_eq!(&pkt[2..4], &0x1234u16.to_be_bytes());
    assert_eq!(&pkt[4..8], &0x89AB_CDEFu32.to_be_bytes());
    assert_eq!(&pkt[8..12], &0xDEAD_BEEFu32.to_be_bytes());
    assert_eq!(&pkt[12..], &[1, 2, 3]);
}

#[test]
fn build_rtp_packet_clears_marker_bit_when_not_set() {
    let pkt = build_rtp_packet(PAYLOAD_TYPE, &[], 0, 0, 0, false);
    assert_eq!(pkt[1], PAYLOAD_TYPE);
}

#[test]
fn interleaved_frame_uses_dollar_marker_and_big_endian_length() {
    let framed = interleaved_frame(0, &[9, 9, 9]);
    assert_eq!(framed[0], b'$');
    assert_eq!(framed[1], 0);
    assert_eq!(&framed[2..4], &3u16.to_be_bytes());
    assert_eq!(&framed[4..], &[9, 9, 9]);
}

#[test]
fn parse_request_extracts_method_url_and_cseq() {
    let head = b"DESCRIBE rtsp://host:8554/sub RTSP/1.0\r\nCSeq: 2\r\nAccept: application/sdp\r\n\r\n";
    let req = parse_request(head);
    assert_eq!(req.method, "DESCRIBE");
    assert_eq!(req.url, "rtsp://host:8554/sub");
    assert_eq!(req.cseq, "2");
}

#[test]
fn rtsp_headers_end_is_found_only_on_the_blank_line() {
    assert_eq!(find_headers_end(b"OPTIONS rtsp://x RTSP/1.0\r\n"), None);
    assert_eq!(find_headers_end(b"OPTIONS rtsp://x RTSP/1.0\r\n\r\n"), Some(29));
}

#[test]
fn build_sdp_embeds_base64_parameter_sets_and_profile_level_id() {
    let sps = [0x67, 0x42, 0x00, 0x1F, 0xAA];
    let pps = [0x68, 0xCE, 0x3C, 0x80];
    let sdp = build_sdp("rtsp://host:8554/sub", &sps, &pps, false);
    assert!(sdp.contains("profile-level-id=42001f"));
    assert!(sdp.contains(&format!(
        "sprop-parameter-sets={},{}",
        base64_encode(&sps),
        base64_encode(&pps)
    )));
    assert!(sdp.contains("a=rtpmap:96 H264/90000"));
    assert!(sdp.contains("a=control:rtsp://host:8554/sub/trackID=0"));
    assert!(sdp.contains("a=rtpmap:97 MPEG4-GENERIC/16000/1"), "audio track always offered");
    assert!(sdp.contains("a=control:rtsp://host:8554/sub/trackID=1"));
    assert!(sdp.contains("config=1408"), "AudioSpecificConfig from adts::AUDIO_SPECIFIC_CONFIG");
    assert!(!sdp.contains("trackID=2"), "backchannel not offered unless requested");
}

#[test]
fn build_sdp_offers_backchannel_only_when_requested() {
    let sdp = build_sdp("rtsp://host:8554/sub", &[0x67, 0, 0, 0], &[0x68], true);
    assert!(sdp.contains("a=control:rtsp://host:8554/sub/trackID=2"));
    assert!(sdp.contains("m=audio 0 RTP/AVP 98 0 8"), "L16/16000 offered first, G.711 as baseline");
    assert!(sdp.contains("a=rtpmap:98 L16/16000"));
    assert!(sdp.contains("a=rtpmap:0 PCMU/8000"));
    assert!(sdp.contains("a=sendonly"));
}

#[test]
fn url_names_segment_matches_a_whole_path_segment_case_insensitively() {
    assert!(url_names_segment("rtsp://host:8554/main", "main"));
    assert!(url_names_segment("rtsp://host:8554/Main/trackID=0", "main"));
    assert!(!url_names_segment("rtsp://host:8554/sub", "main"));
    assert!(!url_names_segment("rtsp://host:8554/mainstream", "main"), "must match a whole segment, not a substring");
}

#[test]
fn session_ids_are_unique_and_tagged() {
    let mut next = 1;
    let a = new_session_id(&mut next);
    let b = new_session_id(&mut next);
    assert_ne!(a, b);
    assert!(a.starts_with("kibble"));
    assert!(b.starts_with("kibble"));
    let mut next = 0xbeef;
    assert_eq!(new_session_id(&mut next), "kibblebeef");
}

#[test]
fn feeds_select_defaults_to_sub_and_recognizes_main() {
    assert_eq!(select("rtsp://host:8554/main").name(), "main");
    assert_eq!(select("rtsp://host:8554/sub").name(), "sub");
    assert_eq!(select("rtsp://host:8554/").name(), "sub", "unnamed mount defaults to sub");
    assert_eq!(select("rtsp://host:8554/main/trackID=0").name(), "main");
}

fn mount() -> MountInfo {
    MountInfo { width: 1152, height: 720, fps: "25.0".to_string(), sessions: Vec::new() }
}

#[test]
fn streams_json_reports_each_mount_independently() {
    let main = mount();
    let mut sub = mount();
    sub.subscribe("1.2.3.4:9".into(), 2).unwrap();
    let body = streams_json(&main, &sub);
    assert!(body.starts_with(r#"{"main":{"#));
    assert!(body.contains(r#""session_count":0"#), "main mount has no sessions");
    assert!(body.contains(r#""session_count":1"#), "sub mount has the one subscribed session");
    assert!(body.contains("\"1.2.3.4:9\""));
    assert_eq!(
        body,
        r#"{"main":{"width":1152,"height":720,"fps":25.0,"session_count":0,"sessions":[]},"sub":{"width":1152,"height":720,"fps":25.0,"session_count":1,"sessions":["1.2.3.4:9"]}}"#
    );
}

#[test]
fn a_full_mount_takes_nobody_in() {
    let mut m = mount();
    assert_eq!(m.subscribe("a".into(), MAX_SESSIONS_PER_STREAM), Some(1));
    assert_eq!(m.subscribe("b".into(), MAX_SESSIONS_PER_STREAM), Some(2));
    assert_eq!(m.subscribe("c".into(), MAX_SESSIONS_PER_STREAM), None);
    assert_eq!(m.sessions, vec!["a", "b"]);
}

fn request(line: &str) -> RtspRequest {
    parse_request(format!("{line} RTSP/1.0\r\nCSeq: 3\r\n\r\n").as_bytes())
}

fn answer(step: Step) -> String {
    match step {
        Step::Answer(s) => s,
        other => panic!("expected an answer, got {other:?}"),
    }
}

#[test]
fn a_session_is_set_up_track_by_track() {
    let mut s = Session::new("kibble1".into());
    assert_eq!(
        answer(s.on_request(&request("SETUP rtsp://h/sub/trackID=0"))),
        "RTSP/1.0 200 OK\r\nCSeq: 3\r\nTransport: RTP/AVP/TCP;unicast;interleaved=0-1\r\nSession: kibble1\r\n\r\n"
    );
    assert!(!s.audio && !s.backchannel);
    assert!(answer(s.on_request(&request("SETUP rtsp://h/sub/trackID=1"))).contains("interleaved=2-3"));
    assert!(s.audio);
    let refused = answer(s.on_request(&request("SETUP rtsp://h/sub/trackID=2")));
    assert!(refused.starts_with("RTSP/1.0 461 Unsupported Transport\r\n"), "{refused}");
    assert!(!s.backchannel);
    let mut req = request("SETUP rtsp://h/sub/trackID=2");
    req.transport = Some("RTP/AVP/TCP;unicast".into());
    assert!(answer(s.on_request(&req)).contains("interleaved=4-5"));
    assert!(s.backchannel);
}

#[test]
fn each_method_has_its_answer() {
    let mut s = Session::new("kibble1".into());
    assert!(answer(s.on_request(&request("OPTIONS rtsp://h/"))).contains("Public: OPTIONS, DESCRIBE"));
    assert!(matches!(s.on_request(&request("DESCRIBE rtsp://h/main")), Step::Describe(Mount::Main)));
    assert!(matches!(s.on_request(&request("PLAY rtsp://h/sub")), Step::Play(Mount::Sub)));
    assert!(answer(s.on_request(&request("GET_PARAMETER rtsp://h/"))).contains("Session: kibble1"));
    assert!(matches!(s.on_request(&request("TEARDOWN rtsp://h/")), Step::Finish(_)));
    let odd = answer(s.on_request(&request("RECORD rtsp://h/")));
    assert_eq!(odd, "RTSP/1.0 501 Not Implemented\r\nCSeq: 3\r\n\r\n");
}

#[test]
fn playing_depends_on_a_place() {
    let req = request("PLAY rtsp://h/sub");
    assert_eq!(
        play(&req, "kibble1", true),
        "RTSP/1.0 200 OK\r\nCSeq: 3\r\nSession: kibble1\r\nRange: npt=0.000-\r\n\r\n"
    );
    assert_eq!(play(&req, "kibble1", false), "RTSP/1.0 453 Not Enough Bandwidth\r\nCSeq: 3\r\n\r\n");
}

#[test]
fn a_description_takes_a_keyframe_with_both_parameter_sets() {
    let req = request("DESCRIBE rtsp://h/sub");
    assert!(describe(&req, None).starts_with("RTSP/1.0 503 Service Unavailable"));
    assert!(describe(&req, Some(&[0, 0, 1, 0x65])).starts_with("RTSP/1.0 500 Internal Server Error"));
    let kf = [0, 0, 0, 1, 0x67, 0x42, 0, 0x1f, 0, 0, 1, 0x68, 1, 0, 0, 1, 0x65, 9];
    let out = describe(&req, Some(&kf));
    let body = build_sdp("rtsp://h/sub", &[0x67, 0x42, 0, 0x1f], &[0x68, 1], false);
    assert!(out.starts_with("RTSP/1.0 200 OK\r\nCSeq: 3\r\nContent-Base: rtsp://h/sub\r\n"), "{out}");
    assert!(out.ends_with(&format!("Content-Length: {}\r\n\r\n{body}", body.len())), "{out}");
}

#[test]
fn requests_are_read_up_to_their_blank_line() {
    assert!(matches!(read_request(b""), Intake::More(4096)));
    assert!(matches!(read_request(b"OPTIONS rtsp://x RTSP/1.0\r\n"), Intake::More(4069)));
    match read_request(b"OPTIONS rtsp://x RTSP/1.0\r\ncseq: 9\r\n\r\nrest") {
        Intake::Done(req) => assert_eq!((req.method.as_str(), req.cseq.as_str()), ("OPTIONS", "9")),
        _ => panic!("expected a request"),
    }
    assert!(matches!(read_request(&[b'x'; 4096]), Intake::TooLarge));
}

#[test]
fn tracks_are_read_from_the_end_of_the_url() {
    assert_eq!(track_id_from_url("rtsp://h/trackID=1/trackID=2"), 2);
    assert_eq!(track_id_from_url("rtsp://h/trackID=x"), 0);
    assert_eq!(track_id_from_url("rtsp://h/"), 0);
}

#[test]
fn headers_are_kept_by_their_last_value() {
    let req = parse_request(b"SETUP u RTSP/1.0\r\nCSeq: 1\r\nTransport: a\r\nREQUIRE: b\r\ntransport: c\r\n\r\n");
    assert_eq!(req.transport.as_deref(), Some("c"));
    assert_eq!(req.require.as_deref(), Some("b"));
}

fn talk(payload_type: u8, payload: &[u8]) -> Vec<u8> {
    interleaved_frame(4, &build_rtp_packet(payload_type, payload, 1, 2, 3, false))
}

#[test]
fn what_the_client_sends_is_worked_off_in_order() {
    let mut buf = talk(0, &[0xFF]);
    buf.extend_from_slice(&interleaved_frame(1, &[1, 2, 3]));
    buf.extend_from_slice(b"GET_PARAMETER rtsp://h/ RTSP/1.0\r\nCSeq: 8\r\n\r\n$\x04\x00");
    let (todo, event) = poll_control(&mut buf, "kibble1", true);
    assert_eq!(event, ControlEvent::Handled);
    assert_eq!(todo.len(), 2);
    assert!(matches!(&todo[0], Control::Feed(pcm) if *pcm == vec![0, 0]));
    assert!(matches!(&todo[1], Control::Answer(s) if s == "RTSP/1.0 200 OK\r\nCSeq: 8\r\nSession: kibble1\r\n\r\n"));
    assert_eq!(buf, b"$\x04\x00");
}

#[test]
fn reads_may_be_cut_anywhere() {
    let mut all = talk(8, &[0xD5]);
    all.extend_from_slice(b"TEARDOWN rtsp://h/ RTSP/1.0\r\nCSeq: 9\r\n\r\n");
    for cut in 0..all.len() {
        let mut buf = all[..cut].to_vec();
        let (mut todo, first) = poll_control(&mut buf, "s", true);
        assert_ne!(first, ControlEvent::Teardown);
        buf.extend_from_slice(&all[cut..]);
        let (more, last) = poll_control(&mut buf, "s", true);
        todo.extend(more);
        assert_eq!(last, ControlEvent::Teardown);
        assert_eq!(todo.len(), 2);
        assert!(buf.is_empty());
    }
}

#[test]
fn audio_is_dropped_while_the_way_back_is_closed() {
    let mut buf = talk(0, &[0xFF]);
    let (todo, event) = poll_control(&mut buf, "s", false);
    assert!(todo.is_empty());
    assert_eq!(event, ControlEvent::Idle);
    assert!(buf.is_empty());
}

#[test]
fn an_access_unit_is_sent_with_its_last_packet_marked() {
    let mut nal = vec![0x65u8];
    nal.extend(vec![7u8; RTP_MTU + 10]);
    let mut data = vec![0, 0, 0, 1, 0x67, 1, 2, 0, 0, 1];
    data.extend_from_slice(&nal);
    let mut seq = 65_535;
    let out = send_access_unit(&Frame { pts_us: 1_000_000, keyframe: true, data }, &mut seq);
    assert_eq!(out.len(), 3);
    assert_eq!(seq, 2);
    let marks: Vec<u8> = out.iter().map(|p| p[5] >> 7).collect();
    assert_eq!(marks, vec![0, 0, 1]);
    let seqs: Vec<u16> = out.iter().map(|p| u16::from_be_bytes([p[6], p[7]])).collect();
    assert_eq!(seqs, vec![65_535, 0, 1]);
    assert_eq!(&out[0][8..12], &90_000u32.to_be_bytes());
    assert!(out.iter().all(|p| p[0] == b'$' && p[1] == 0));
}

#[test]
fn a_microphone_frame_is_sent_without_its_adts_header() {
    let mut data = vec![0xff, 0xf1, 0x60, 0x40, 0x01, 0x3f, 0xfc];
    data.extend_from_slice(&[1, 2, 3]);
    let mut seq = 5;
    let out = send_audio_frame(&data, 1_000_000, &mut seq).unwrap();
    assert_eq!(seq, 6);
    assert_eq!(out[1], 2);
    assert_eq!(out[5], 0x80 | 97);
    assert_eq!(&out[8..12], &16_000u32.to_be_bytes());
    assert_eq!(&out[16..], &[0, 16, 0, 24, 1, 2, 3]);
    assert!(send_audio_frame(&[1, 2, 3], 0, &mut seq).is_none());
    assert_eq!(seq, 6);
}

#[test]
fn units_come_back_from_behind_their_start_codes() {
    let units: Vec<&[u8]> = vec![&[0x67, 0, 0, 2], &[0x68], &[0x65, 0, 0, 0, 9]];
    let mut data = vec![9, 9];
    for u in &units {
        data.extend_from_slice(&[0, 0, 0, 1]);
        data.extend_from_slice(u);
    }
    assert_eq!(split_nal_units(&data), units);
    assert!(split_nal_units(&[0, 0, 1]).is_empty());
}

#[test]
fn requests_are_looked_for_ten_times_a_second() {
    assert!(!control_due(1_000, 1_099));
    assert!(control_due(1_000, 1_100));
}

#[test]
fn a_playing_session_numbers_its_tracks_apart() {
    let mut p = Player::new(1_000);
    let video = Frame { pts_us: 0, keyframe: true, data: vec![0, 0, 1, 0x65, 1] };
    assert_eq!(p.on_video(&video).len(), 1);
    assert_eq!(p.on_video(&video).len(), 1);
    let audio = vec![0xff, 0xf1, 0x60, 0x40, 0x01, 0x3f, 0xfc, 1, 2];
    assert!(p.on_audio(&Frame { pts_us: 0, keyframe: false, data: audio }).is_some());
    assert!(p.on_audio(&Frame { pts_us: 0, keyframe: false, data: vec![1] }).is_none());
    assert_eq!((p.video_seq, p.audio_seq), (2, 1));
    assert!(!p.check(1_099));
    assert!(p.check(1_100));
    assert!(!p.check(1_150));
    let (todo, event) = p.on_read(b"OPTIONS rtsp://h/ RTSP/1.0\r\nCSeq: 4\r\n", "s", false);
    assert!(todo.is_empty() && event == ControlEvent::Idle);
    let (todo, event) = p.on_read(b"\r\n", "s", false);
    assert_eq!((todo.len(), event), (1, ControlEvent::Handled));
}

#[test]
fn a_request_is_read_from_its_text() {
    let req = parse_request_text("PLAY rtsp://h/sub RTSP/1.0\r\nCSeq: 12\r\n");
    assert_eq!((req.method.as_str(), req.url.as_str(), req.cseq.as_str()), ("PLAY", "rtsp://h/sub", "12"));
    assert_eq!(parse_request_text("").cseq, "0");
}
