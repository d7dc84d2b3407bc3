use kibbled::audioout::{
    call_active, count_frames, fifo_blocked, live_stats, next_adts_frame, pack_all, pack_chunk,
    parse_snd_frm, play_path, play_payload, record_last, talkback_active, vendor_pid, wait_for_ao,
    Drain, Drainer, EncoderIn, NextFrame, PlaybackStats, ProcEntry, SpeakError, SpeakerOwner,
    FIFO_WRITE_TIMEOUT, FRAME_BYTES, FRAME_SAMPLES, GATE_RECHECK_FRAMES, PLAY_GRACE, PREROLL_FRAMES,
};

const REAL_AO_PROC: &str = "-------- AO VERSION ------------------------\n\
[Axera version]: ax_audio V3.0.0_20250707110135 Jul  7 2025 11:43:31 JK\n\
\n\
-------- AO DEV ATTR ------------------------\n\
AoCardId        AoDevId         ChnCnt          Samplerate      PeriodSize      PeriodCount     LinkMode        InsertSilence   AoDepth         enBitwidth      \n\
0               1               2               16000           160             8               0               0               30              16bit           \n\
-------- AO DEV VOLCTL ATTR ------------------------\n\
AoCardId        AoDevId         VqeVolume       CurrVqeVolume   MuteEnable      Fade            FadeInRate      FadeOutRate     \n\
0               1               0.700000        0.700000        0               0               0               0               \n\
-------- AO DEV STATUS ------------------------\n\
AoCardId        AoDevId         SndFrm          GetFrm          Writei          \n\
0               1               161             161             161             \n";

#[test]
fn parse_snd_frm_reads_the_status_table_by_column_name() {
    assert_eq!(parse_snd_frm(REAL_AO_PROC), Some(161));
}

#[test]
fn parse_snd_frm_is_none_when_the_status_table_is_absent_or_truncated() {
    assert_eq!(parse_snd_frm("-------- AO VERSION ---\n[Axera version]: x\n"), None);
    let header_only = REAL_AO_PROC.rsplit_once('\n').unwrap().0.rsplit_once('\n').unwrap().0;
    assert_eq!(parse_snd_frm(header_only), None);
}

#[test]
fn count_frames_stops_at_a_truncated_trailing_frame() {
    let hdr = [0xffu8, 0xf1, 0x60, 0x40, 0x21, 0x5f, 0xfc];
    let mut buf = Vec::new();
    for _ in 0..2 {
        buf.extend_from_slice(&hdr);
        buf.extend(std::iter::repeat(0u8).take(266 - 7));
    }
    buf.extend_from_slice(&hdr);
    buf.extend(std::iter::repeat(0u8).take(100));
    assert_eq!(count_frames(&buf), 2);
    assert_eq!(count_frames(&[]), 0);
}

#[test]
fn pack_chunk_zero_pads_a_short_final_chunk() {
    let samples = [1i16, -1, 2];
    let packed = pack_chunk(&samples);
    assert_eq!(&packed[0..2], &1i16.to_le_bytes());
    assert_eq!(&packed[2..4], &(-1i16).to_le_bytes());
    assert_eq!(&packed[4..6], &2i16.to_le_bytes());
    assert!(packed[6..].iter().all(|&b| b == 0), "remainder must be zero-padded");
}

#[test]
fn call_active_fails_closed_when_the_proc_file_is_missing() {
    assert!(call_active(None));
}

#[test]
fn talkback_active_fails_closed_without_a_media_process() {
    assert!(talkback_active(None));
}

#[test]
fn next_adts_frame_returns_none_on_clean_eof_with_nothing_buffered() {
    let mut buf = Vec::new();
    assert!(matches!(next_adts_frame(&mut buf, true), NextFrame::End));
}

#[test]
fn next_adts_frame_errors_on_eof_with_unparsable_trailing_bytes() {
    let mut buf = vec![0xFFu8, 0xAA];
    assert!(matches!(next_adts_frame(&mut buf, false), NextFrame::More));
    match next_adts_frame(&mut buf, true) {
        NextFrame::Trailing(m) => {
            assert_eq!(m, "aacenc closed stdout with 2 unparsed trailing byte(s)")
        }
        _ => panic!("trailing garbage at EOF must be reported, not silently dropped"),
    }
}

#[test]
fn only_the_idle_banner_means_no_call() {
    assert!(!call_active(Some("-------- AENC VERSION ---\nx\ny\n")));
    assert!(call_active(Some("-------- AENC VERSION ---\nx\ny\nz\n")));
    assert!(call_active(Some("x\ny\nz\n")));
    assert!(call_active(Some("")));
}

#[test]
fn the_vendor_s_flag_is_any_bit() {
    assert!(!talkback_active(Some([0, 0, 0, 0])));
    assert!(talkback_active(Some([1, 0, 0, 0])));
    assert!(talkback_active(Some([0, 0, 0, 128])));
}

#[test]
fn a_process_is_found_by_its_program() {
    let entry = |name: &str, comm: Option<&str>| ProcEntry {
        name: name.to_string(),
        comm: comm.map(str::to_string),
    };
    let procs = vec![
        entry("self", Some("media\n")),
        entry("12", None),
        entry("13", Some("mediad\n")),
        entry("14", Some("media\n")),
        entry("15", Some("media\n")),
    ];
    assert_eq!(vendor_pid(&procs, "media"), Some(14));
    assert_eq!(vendor_pid(&procs, "ctrl"), None);
}

#[test]
fn the_speaker_has_one_owner_at_a_time() {
    let mut o = SpeakerOwner::new();
    let guard = o.try_acquire(true, false, false).ok().unwrap();
    assert_eq!(
        o.try_acquire(true, false, false).err(),
        Some("the speaker is already in use by another kibbled session")
    );
    o.release(guard);
    assert!(o.try_acquire(true, false, false).is_ok());
}

#[test]
fn a_claim_is_refused_for_the_first_reason() {
    let mut o = SpeakerOwner::new();
    assert_eq!(
        o.try_acquire(false, true, true).err(),
        Some("audio is disabled (POST /audio {\"enabled\":true} to enable)")
    );
    assert_eq!(
        o.try_acquire(true, true, true).err(),
        Some("a live app talkback is active (media's speak_start guard flag is set)")
    );
    assert_eq!(
        o.try_acquire(true, false, true).err(),
        Some("a live app talk session appears active (/proc/ax_proc/aenc)")
    );
    assert!(o.try_acquire(true, false, false).is_ok());
}

fn frame(n: u8) -> Vec<u8> {
    let mut f = vec![0xff, 0xf1, 0x60, 0x40, 0x01, 0x1f, 0xfc];
    f.push(n);
    f
}

#[test]
fn frames_are_taken_off_however_they_arrive() {
    let mut all = frame(1);
    all.extend(frame(2));
    assert_eq!(count_frames(&all), 2);
    let mut buf = Vec::new();
    let mut got = Vec::new();
    for b in &all {
        buf.push(*b);
        if let NextFrame::Frame(f) = next_adts_frame(&mut buf, false) {
            got.push(f);
        }
    }
    assert_eq!(got, vec![frame(1), frame(2)]);
    assert!(buf.is_empty());
}

#[test]
fn frames_are_held_back_until_there_is_a_cushion() {
    let mut d = Drainer::new();
    for i in 0..PREROLL_FRAMES as u8 - 1 {
        assert!(matches!(d.on_frame(frame(i), false), Drain::Write(v) if v.is_empty()));
    }
    match d.on_frame(frame(7), false) {
        Drain::Write(v) => assert_eq!(v, (0..8).map(frame).collect::<Vec<_>>()),
        Drain::Abort => panic!("no call is active"),
    }
    assert!(matches!(d.on_frame(frame(8), false), Drain::Write(v) if v == vec![frame(8)]));
    assert!(d.finish().is_empty());
}

#[test]
fn a_short_session_still_plays_what_it_had() {
    let mut d = Drainer::new();
    d.on_frame(frame(1), false);
    assert_eq!(d.finish(), vec![frame(1)]);
}

#[test]
fn a_call_ends_a_session() {
    let mut d = Drainer::new();
    assert!(d.gate_due());
    d.wrote();
    assert!(!d.gate_due());
    for _ in 1..GATE_RECHECK_FRAMES {
        d.wrote();
    }
    assert!(d.gate_due());
    assert!(matches!(d.on_frame(frame(1), true), Drain::Abort));
    assert!(d.stats.aborted_call_active);
    assert_eq!(d.stats.frames_written, GATE_RECHECK_FRAMES);
}

#[test]
fn silence_fills_what_the_client_owes() {
    let mut e = EncoderIn::new();
    assert_eq!(e.fill(10_000_000), 0);
    assert_eq!(e.write_pcm(&[1, -1], 1_000_000), vec![1, 0, 255, 255]);
    e.wrote(2);
    assert_eq!(e.fill(1_384_000), 0);
    assert_eq!(e.max_lag_samples, 6_142);
    let owed = e.fill(2_000_000);
    assert_eq!(owed, 10);
    for _ in 0..owed {
        e.wrote_silence();
    }
    assert_eq!(e.fill(2_000_000), 0);
    let s = live_stats(PlaybackStats { frames_written: 9, ..PlaybackStats::default() }, 8, &e);
    assert_eq!((s.frames_written, s.frames_played, s.silence_frames, s.max_lag_frames), (9, 8, 10, 15));
}

#[test]
fn the_wait_ends_with_the_last_frame_or_in_silence() {
    assert!(wait_for_ao(None, 5, 0).is_none());
    let mut w = wait_for_ao(Some(100), 5, 0).unwrap();
    assert_eq!(w.poll(Some(103), 100), None);
    assert_eq!(w.poll(None, 200), None);
    assert_eq!(w.poll(Some(105), 300), Some(5));
    let mut w = wait_for_ao(Some(100), 5, 0).unwrap();
    assert_eq!(w.poll(Some(102), 100), None);
    assert_eq!(w.poll(Some(102), 99 + PLAY_GRACE), None);
    assert_eq!(w.poll(Some(102), 100 + PLAY_GRACE), Some(2));
}

#[test]
fn samples_are_packed_in_whole_frames() {
    let pcm = vec![1i16; FRAME_SAMPLES + 1];
    let out = pack_all(&pcm);
    assert_eq!(out.len(), 2 * FRAME_BYTES);
    assert_eq!(&out[FRAME_BYTES..FRAME_BYTES + 4], &[1, 0, 0, 0]);
    assert!(pack_all(&[]).is_empty());
}

#[test]
fn a_playback_is_reported() {
    let s = play_path(23, 22);
    assert_eq!(
        s.to_json(),
        r#"{"frames_written":23,"frames_played":22,"silence_frames":0,"max_lag_frames":0,"aborted_call_active":false}"#
    );
    let mut last = None;
    record_last(&mut last, s);
    assert_eq!(last, Some(s));
    assert_eq!(play_payload("/a"), vec![b'/', b'a', 0]);
}

#[test]
fn each_speaker_error_says_where() {
    assert_eq!(SpeakError::Encoder("x".into()).message(), "encoder: x");
    assert_eq!(SpeakError::Bus("x".into()).message(), "media bus: x");
    assert!(fifo_blocked(0, FIFO_WRITE_TIMEOUT - 1).is_ok());
    assert_eq!(
        fifo_blocked(0, FIFO_WRITE_TIMEOUT).unwrap_err().message(),
        "clip file: /tmp/kibble-talk.aac: media stopped reading"
    );
}
