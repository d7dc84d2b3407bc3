//! The speaker: who may use it, how clips and live sessions are handed to the decoder, and what is
//! known of a playback afterwards.
//!
//! The decoder takes a file of ADTS frames. A clip is such a file; a live session is a pipe in its
//! place, which must never run dry: frames are held back until there is a cushion, and where the
//! client falls behind the clock, silence is encoded instead.

use vstd::prelude::*;
use vstd::slice::slice_subrange;
use vstd::string::*;
use vstd::utf8::encode_utf8;

use crate::adts;
use crate::adts::{frame_length_of, is_header};
use crate::bytes::{le32_at, push_all, push_zeros};
use crate::json::{bool_str, bool_text};
use crate::number::{dec, parse_u32, parse_u64, push_dec, uint_of};
use crate::text::{
    lines, same, split_lines, split_whitespace, starts, starts_with, texts, trim_end, trimmed_end,
    words, Pat,
};

pub mod laws;

verus! {

/// The encoder.
pub const AACENC_PATH: &'static str = "/opt/kibble/aacenc";

/// The file whose presence turns audio on.
pub const AUDIO_ENABLED_PATH: &'static str = "/opt/kibble/audio_enabled";

pub const CALL_ACTIVE_PROC: &'static str = "/proc/ax_proc/aenc";

/// The status of the audio output.
pub const AO_PROC: &'static str = "/proc/ax_proc/ao";

/// Where a clip is staged.
pub const SPEAK_FILE: &'static str = "/tmp/kibble-speak.aac";

/// The pipe of a live session.
pub const TALK_FIFO: &'static str = "/tmp/kibble-talk.aac";

/// Where the vendor keeps the flag of a talk session.
pub const MEDIA_GUARD_FLAG_ADDR: u64 = 0x767f0;

/// The samples of a frame.
pub const FRAME_SAMPLES: usize = 1024;

/// The bytes of a frame's samples.
pub const FRAME_BYTES: usize = 2048;

/// How long a frame lasts, in microseconds.
pub const FRAME_DURATION: u64 = 64_000;

/// How many lines the driver prints while no call is active.
pub const IDLE_BANNER_LINES: usize = 3;

/// How often, in milliseconds, the count of emitted frames is read.
pub const PLAY_POLL: u64 = 100;

/// How long, in milliseconds, the count may stand still before the wait is given up.
pub const PLAY_GRACE: u64 = 3_000;

/// How many frames are held back at the start of a live session.
pub const PREROLL_FRAMES: usize = 8;

/// How far, in samples, a client may fall behind.
pub const SILENCE_SLACK_SAMPLES: u64 = 6_144;

/// How many frames of silence end a live session.
pub const TAIL_SILENCE_FRAMES: usize = 4;

/// How long, in milliseconds, the pipe may stay full.
pub const FIFO_WRITE_TIMEOUT: u64 = 3_000;

/// How long, in milliseconds, to wait before a full pipe is tried again.
pub const FIFO_RETRY: u64 = 5;

/// After how many frames a live session looks for a call again.
pub const GATE_RECHECK_FRAMES: u64 = 16;

/// Whether the driver's lines are those of a channel that is not open.
pub open spec fn is_idle_banner(text: Seq<char>) -> bool {
    lines(text).len() == IDLE_BANNER_LINES && starts(lines(text)[0], "--------"@)
}

/// Whether a call looks active. What cannot be read counts as active.
pub fn call_active(text: Option<&str>) -> (r: bool)
    ensures
        r == (match text {
            Some(t) => !is_idle_banner(t@),
            None => true,
        }),
{
    match text {
        Some(t) => {
            let ls: Vec<&str> = split_lines(t);
            let ghost all = texts(ls@);
            assert(all.len() == ls@.len());
            if ls.len() != IDLE_BANNER_LINES {
                return true;
            }
            assert(all[0] == ls@[0]@);
            !starts_with(ls[0], "--------")
        },
        None => true,
    }
}

/// Whether a talk session is going on, by the vendor's flag. What cannot be read counts as active.
pub fn talkback_active(word: Option<[u8; 4]>) -> (r: bool)
    ensures
        r == (match word {
            Some(w) => le32_at(w@, 0) != 0,
            None => true,
        }),
{
    match word {
        Some(w) => w[0] != 0 || w[1] != 0 || w[2] != 0 || w[3] != 0,
        None => true,
    }
}

/// An entry of the process list, with the name of the program where it can be read.
pub struct ProcEntry {
    pub name: String,
    pub comm: Option<String>,
}

/// The process that an entry is, where it runs the program `name`.
pub open spec fn runs(e: ProcEntry, name: Seq<char>) -> Option<u32> {
    match (uint_of(e.name@, 10, u32::MAX as nat), e.comm) {
        (Some(pid), Some(c)) => if trimmed_end(c@, Pat::Space) == name {
            Some(pid as u32)
        } else {
            None
        },
        _ => None,
    }
}

/// The first process at or behind `i` that runs a program.
pub open spec fn pid_from(v: Seq<ProcEntry>, name: Seq<char>, i: int) -> Option<u32>
    decreases v.len() - i,
{
    if i < 0 || i >= v.len() {
        None
    } else if runs(v[i], name) is Some {
        runs(v[i], name)
    } else {
        pid_from(v, name, i + 1)
    }
}

/// The first process that runs the program `name`.
pub fn vendor_pid(procs: &Vec<ProcEntry>, name: &str) -> (r: Option<u32>)
    ensures
        r == pid_from(procs@, name@, 0),
{
    let mut i: usize = 0;
    while i < procs.len()
        invariant
            i <= procs@.len(),
            pid_from(procs@, name@, 0) == pid_from(procs@, name@, i as int),
        decreases procs@.len() - i,
    {
        if let Some(pid) = parse_u32(procs[i].name.as_str()) {
            if let Some(c) = &procs[i].comm {
                if same(trim_end(c.as_str(), Pat::Space), name) {
                    return Some(pid);
                }
            }
        }
        i = i + 1;
    }
    None
}

/// The one claim on the speaker. It lasts until it is handed back.
pub struct OwnerGuard {
    claimed: bool,
}

/// Who may use the speaker: one session at a time.
pub struct SpeakerOwner {
    busy: bool,
}

/// Why a claim is refused.
pub open spec fn refusal(enabled: bool, talkback: bool, call: bool, busy: bool) -> Option<Seq<char>> {
    if !enabled {
        Some("audio is disabled (POST /audio {\"enabled\":true} to enable)"@)
    } else if talkback {
        Some("a live app talkback is active (media's speak_start guard flag is set)"@)
    } else if call {
        Some("a live app talk session appears active (/proc/ax_proc/aenc)"@)
    } else if busy {
        Some("the speaker is already in use by another kibbled session"@)
    } else {
        None
    }
}

impl SpeakerOwner {
    /// Whether a session holds the speaker.
    pub closed spec fn in_use(&self) -> bool {
        self.busy
    }

    pub fn new() -> (o: SpeakerOwner)
        ensures
            !o.in_use(),
    {
        SpeakerOwner { busy: false }
    }

    /// Claims the speaker, or says why not: audio is off, a talk session or a call is active, or
    /// another session holds it.
    pub fn try_acquire(&mut self, enabled: bool, talkback: bool, call: bool) -> (r: Result<
        OwnerGuard,
        &'static str,
    >)
        ensures
            match r {
                Ok(_) => refusal(enabled, talkback, call, old(self).in_use()) is None && final(self).in_use(),
                Err(m) => refusal(enabled, talkback, call, old(self).in_use()) == Some(m@) && final(self).in_use() == old(self).in_use(),
            },
    {
        if !enabled {
            return Err("audio is disabled (POST /audio {\"enabled\":true} to enable)");
        }
        if talkback {
            return Err("a live app talkback is active (media's speak_start guard flag is set)");
        }
        if call {
            return Err("a live app talk session appears active (/proc/ax_proc/aenc)");
        }
        if self.busy {
            return Err("the speaker is already in use by another kibbled session");
        }
        self.busy = true;
        Ok(OwnerGuard { claimed: true })
    }

    /// Hands the claim back.
    pub fn release(&mut self, guard: OwnerGuard)
        ensures
            !final(self).in_use(),
    {
        self.busy = false;
    }
}

/// Why a playback failed.
#[derive(Debug)]
pub enum SpeakError {
    Encoder(String),
    Bus(String),
    File(String),
}

impl SpeakError {
    pub open spec fn text(&self) -> Seq<char> {
        match self {
            SpeakError::Encoder(e) => "encoder: "@ + e@,
            SpeakError::Bus(e) => "media bus: "@ + e@,
            SpeakError::File(e) => "clip file: "@ + e@,
        }
    }

    pub fn message(&self) -> (s: String)
        ensures
            s@ == self.text(),
    {
        match self {
            SpeakError::Encoder(e) => {
                let mut s: String = "encoder: ".to_owned();
                s.append(e.as_str());
                s
            },
            SpeakError::Bus(e) => {
                let mut s: String = "media bus: ".to_owned();
                s.append(e.as_str());
                s
            },
            SpeakError::File(e) => {
                let mut s: String = "clip file: ".to_owned();
                s.append(e.as_str());
                s
            },
        }
    }
}

/// What a playback did.
#[derive(Debug, Clone, Copy, PartialEq, Eq, Structural)]
pub struct PlaybackStats {
    /// Frames that were handed over.
    pub frames_written: u64,
    /// Frames that the driver emitted.
    pub frames_played: u64,
    /// Frames of silence that a live session had to insert.
    pub silence_frames: u64,
    /// How far behind the clock a live session ever was, in frames.
    pub max_lag_frames: u64,
    pub aborted_call_active: bool,
}

impl Default for PlaybackStats {
    fn default() -> (s: PlaybackStats)
        ensures
            s == (PlaybackStats {
                frames_written: 0,
                frames_played: 0,
                silence_frames: 0,
                max_lag_frames: 0,
                aborted_call_active: false,
            }),
    {
        PlaybackStats {
            frames_written: 0,
            frames_played: 0,
            silence_frames: 0,
            max_lag_frames: 0,
            aborted_call_active: false,
        }
    }
}

impl PlaybackStats {
    pub open spec fn text(self) -> Seq<char> {
        "{\"frames_written\":"@ + dec(self.frames_written as nat) + ",\"frames_played\":"@ + dec(
            self.frames_played as nat,
        ) + ",\"silence_frames\":"@ + dec(self.silence_frames as nat) + ",\"max_lag_frames\":"@
            + dec(self.max_lag_frames as nat) + ",\"aborted_call_active\":"@ + bool_text(
            self.aborted_call_active,
        ) + "}"@
    }

    pub fn to_json(&self) -> (s: String)
        ensures
            s@ == self.text(),
    {
        let mut s: String = "{\"frames_written\":".to_owned();
        push_dec(&mut s, self.frames_written);
        s.append(",\"frames_played\":");
        push_dec(&mut s, self.frames_played);
        s.append(",\"silence_frames\":");
        push_dec(&mut s, self.silence_frames);
        s.append(",\"max_lag_frames\":");
        push_dec(&mut s, self.max_lag_frames);
        s.append(",\"aborted_call_active\":");
        s.append(bool_str(self.aborted_call_active));
        s.append("}");
        s
    }
}

/// Keeps what the latest playback did.
pub fn record_last(last: &mut Option<PlaybackStats>, stats: PlaybackStats)
    ensures
        *final(last) == Some(stats),
{
    *last = Some(stats);
}

/// What is known of a clip: how many frames it has and how many were emitted.
pub fn play_path(frames: u64, played: u64) -> (s: PlaybackStats)
    ensures
        s == (PlaybackStats {
            frames_written: frames,
            frames_played: played,
            silence_frames: 0,
            max_lag_frames: 0,
            aborted_call_active: false,
        }),
{
    PlaybackStats {
        frames_written: frames,
        frames_played: played,
        silence_frames: 0,
        max_lag_frames: 0,
        aborted_call_active: false,
    }
}

/// What tells the decoder to play a file: the path, and a zero behind it.
pub fn play_payload(path: &str) -> (out: Vec<u8>)
    ensures
        out@ == encode_utf8(path@).push(0),
{
    let mut out: Vec<u8> = path.as_bytes_vec();
    out.push(0);
    out
}

/// Whether a whole frame stands at the start of `b`.
pub open spec fn has_frame(b: Seq<u8>) -> bool {
    is_header(b) && frame_length_of(b) > 0 && frame_length_of(b) <= b.len()
}

/// The whole frames that `b` starts with.
pub open spec fn frames_of(b: Seq<u8>) -> Seq<Seq<u8>>
    decreases b.len(),
{
    if has_frame(b) {
        seq![b.subrange(0, frame_length_of(b) as int)] + frames_of(
            b.subrange(frame_length_of(b) as int, b.len() as int),
        )
    } else {
        Seq::empty()
    }
}

/// How many whole frames stand at the start of `adts_bytes`. A frame that is cut off does not count.
pub fn count_frames(adts_bytes: &[u8]) -> (n: u64)
    ensures
        n == frames_of(adts_bytes@).len(),
{
    let mut frames: u64 = 0;
    let mut off: usize = 0;
    let total: usize = adts_bytes.len();
    assert(adts_bytes@.subrange(0, total as int) =~= adts_bytes@);
    loop
        invariant_except_break
            frames + frames_of(adts_bytes@.subrange(off as int, total as int)).len() == frames_of(
                adts_bytes@,
            ).len(),
        invariant
            frames <= off <= total == adts_bytes.len(),
        ensures
            frames == frames_of(adts_bytes@).len(),
        decreases total - off,
    {
        let rest: &[u8] = slice_subrange(adts_bytes, off, total);
        let len: usize = match adts::parse(rest) {
            Some(h) => h.frame_length as usize,
            None => break ,
        };
        if len == 0 || len > total - off {
            break ;
        }
        proof {
            let b = rest@;
            assert(b.subrange(len as int, b.len() as int) =~= adts_bytes@.subrange(
                off + len,
                total as int,
            ));
        }
        frames = frames + 1;
        off = off + len;
    }
    frames
}

/// What the bytes of the encoder so far amount to.
#[derive(Debug)]
pub enum NextFrame {
    Frame(Vec<u8>),
    /// More bytes are needed.
    More,
    /// The encoder is done and nothing is left.
    End,
    /// The encoder is done and bytes are left that are no frame.
    Trailing(String),
}

pub open spec fn trailing_text(n: nat) -> Seq<char> {
    "aacenc closed stdout with "@ + dec(n) + " unparsed trailing byte(s)"@
}

/// Takes the next whole frame off what the encoder has written. `eof` says whether it is done.
pub fn next_adts_frame(buf: &mut Vec<u8>, eof: bool) -> (r: NextFrame)
    ensures
        match r {
            NextFrame::Frame(f) => has_frame(old(buf)@) && f@ == old(buf)@.subrange(
                0,
                frame_length_of(old(buf)@) as int,
            ) && final(buf)@ == old(buf)@.subrange(
                frame_length_of(old(buf)@) as int,
                old(buf)@.len() as int,
            ),
            NextFrame::More => !has_frame(old(buf)@) && !eof && final(buf)@ == old(buf)@,
            NextFrame::End => old(buf)@.len() == 0 && eof && final(buf)@ == old(buf)@,
            NextFrame::Trailing(m) => !has_frame(old(buf)@) && old(buf)@.len() > 0 && eof && final(buf)@ == old(buf)@ && m@ == trailing_text(old(buf)@.len()),
        },
{
    let n: usize = buf.len();
    if let Some(h) = adts::parse(buf.as_slice()) {
        let total: usize = h.frame_length as usize;
        if total > 0 && n >= total {
            let mut frame: Vec<u8> = Vec::new();
            push_all(&mut frame, slice_subrange(buf.as_slice(), 0, total));
            let mut rest: Vec<u8> = Vec::new();
            push_all(&mut rest, slice_subrange(buf.as_slice(), total, n));
            assert(frame@ =~= buf@.subrange(0, total as int));
            assert(rest@ =~= buf@.subrange(total as int, n as int));
            *buf = rest;
            return NextFrame::Frame(frame);
        }
    }
    if !eof {
        return NextFrame::More;
    }
    if n == 0 {
        return NextFrame::End;
    }
    let mut m: String = "aacenc closed stdout with ".to_owned();
    push_dec(&mut m, n as u64);
    m.append(" unparsed trailing byte(s)");
    NextFrame::Trailing(m)
}

/// The first column at or behind `i` with the name `name`.
pub open spec fn column_from(ws: Seq<Seq<char>>, name: Seq<char>, i: int) -> Option<int>
    decreases ws.len() - i,
{
    if i < 0 || i >= ws.len() {
        None
    } else if ws[i] == name {
        Some(i)
    } else {
        column_from(ws, name, i + 1)
    }
}

/// The number below the column of emitted frames, in the lines from `i` on.
pub open spec fn snd_frm_from(ls: Seq<Seq<char>>, i: int) -> Option<u64>
    decreases ls.len() - i,
{
    if i < 0 || i >= ls.len() {
        None
    } else {
        match column_from(words(ls[i]), "SndFrm"@, 0) {
            None => snd_frm_from(ls, i + 1),
            Some(col) => if i + 1 < ls.len() && col < words(ls[i + 1]).len() {
                match uint_of(words(ls[i + 1])[col], 10, u64::MAX as nat) {
                    Some(n) => Some(n as u64),
                    None => None,
                }
            } else {
                None
            },
        }
    }
}

fn column(ws: &Vec<&str>, name: &str) -> (r: Option<usize>)
    ensures
        match r {
            Some(i) => column_from(texts(ws@), name@, 0) == Some(i as int),
            None => column_from(texts(ws@), name@, 0) is None,
        },
{
    let ghost all = texts(ws@);
    let mut i: usize = 0;
    while i < ws.len()
        invariant
            i <= ws@.len(),
            all == texts(ws@),
            column_from(all, name@, 0) == column_from(all, name@, i as int),
        decreases ws@.len() - i,
    {
        assert(all[i as int] == ws@[i as int]@);
        if same(ws[i], name) {
            return Some(i);
        }
        i = i + 1;
    }
    None
}

/// How many frames the driver has emitted, by the name of the column.
pub fn parse_snd_frm(text: &str) -> (r: Option<u64>)
    ensures
        r == snd_frm_from(lines(text@), 0),
{
    let ls: Vec<&str> = split_lines(text);
    let ghost all = texts(ls@);
    let mut i: usize = 0;
    while i < ls.len()
        invariant
            i <= ls@.len(),
            all == texts(ls@),
            all == lines(text@),
            snd_frm_from(all, 0) == snd_frm_from(all, i as int),
        decreases ls@.len() - i,
    {
        assert(all[i as int] == ls@[i as int]@);
        let ws: Vec<&str> = split_whitespace(ls[i]);
        if let Some(col) = column(&ws, "SndFrm") {
            if ls.len() - i <= 1 {
                return None;
            }
            assert(all[i + 1] == ls@[i + 1]@);
            let row: Vec<&str> = split_whitespace(ls[i + 1]);
            let ghost cells = texts(row@);
            assert(cells.len() == row@.len());
            if col >= row.len() {
                return None;
            }
            assert(cells[col as int] == row@[col as int]@);
            return parse_u64(row[col]);
        }
        i = i + 1;
    }
    None
}

/// A sample as two bytes, the low one first.
pub open spec fn sample_byte(s: i16, high: bool) -> u8 {
    let bits = if s < 0 {
        s + 65536
    } else {
        s as int
    };
    if high {
        (bits / 256) as u8
    } else {
        (bits % 256) as u8
    }
}

/// Samples as bytes.
pub open spec fn pcm_bytes(samples: Seq<i16>) -> Seq<u8> {
    Seq::new(2 * samples.len(), |i: int| sample_byte(samples[i / 2], i % 2 == 1))
}

/// Appends samples as bytes.
pub fn push_pcm(out: &mut Vec<u8>, samples: &[i16])
    ensures
        final(out)@ == old(out)@ + pcm_bytes(samples@),
{
    let ghost start = out@;
    let ghost all = pcm_bytes(samples@);
    let mut i: usize = 0;
    assert(out@ =~= start + all.subrange(0, 0));
    while i < samples.len()
        invariant
            i <= samples@.len(),
            all == pcm_bytes(samples@),
            out@ == start + all.subrange(0, 2 * i),
        decreases samples@.len() - i,
    {
        let s: i16 = samples[i];
        let bits: u32 = if s < 0 {
            (s as i32 + 65536) as u32
        } else {
            s as u32
        };
        out.push((bits % 256) as u8);
        out.push((bits / 256) as u8);
        assert(all[2 * i] == sample_byte(samples@[i as int], false));
        assert(all[2 * i + 1] == sample_byte(samples@[i as int], true));
        i = i + 1;
        assert(out@ =~= start + all.subrange(0, 2 * i));
    }
    assert(all.subrange(0, 2 * i) =~= all);
}

/// One frame's samples as bytes, filled up with zeros.
pub open spec fn packed(samples: Seq<i16>) -> Seq<u8> {
    pcm_bytes(samples) + Seq::new((FRAME_BYTES - 2 * samples.len()) as nat, |i: int| 0u8)
}

pub fn pack_chunk(samples: &[i16]) -> (out: Vec<u8>)
    requires
        samples@.len() <= FRAME_SAMPLES,
    ensures
        out@ == packed(samples@),
        out@.len() == FRAME_BYTES,
{
    let mut out: Vec<u8> = Vec::new();
    push_pcm(&mut out, samples);
    assert(out@ =~= pcm_bytes(samples@));
    push_zeros(&mut out, FRAME_BYTES - 2 * samples.len());
    assert(out@ =~= packed(samples@));
    out
}

/// What the encoder is fed for samples: whole frames, the last one filled up.
pub open spec fn packed_all(pcm: Seq<i16>) -> Seq<u8>
    decreases pcm.len(),
{
    if pcm.len() == 0 {
        Seq::empty()
    } else if pcm.len() <= FRAME_SAMPLES {
        packed(pcm)
    } else {
        packed(pcm.subrange(0, FRAME_SAMPLES as int)) + packed_all(
            pcm.subrange(FRAME_SAMPLES as int, pcm.len() as int),
        )
    }
}

/// Packs samples for the encoder.
pub fn pack_all(pcm: &[i16]) -> (out: Vec<u8>)
    ensures
        out@ == packed_all(pcm@),
{
    let mut out: Vec<u8> = Vec::new();
    let n: usize = pcm.len();
    let mut at: usize = 0;
    proof {
        assert(pcm@.subrange(0, n as int) =~= pcm@);
        assert(out@ + packed_all(pcm@) =~= packed_all(pcm@));
    }
    while at < n
        invariant
            at <= n == pcm@.len(),
            out@ + packed_all(pcm@.subrange(at as int, n as int)) == packed_all(pcm@),
        decreases n - at,
    {
        let end: usize = if n - at <= FRAME_SAMPLES {
            n
        } else {
            at + FRAME_SAMPLES
        };
        let part: &[i16] = slice_subrange(pcm, at, end);
        let ghost before = out@;
        let chunk: Vec<u8> = pack_chunk(part);
        push_all(&mut out, chunk.as_slice());
        proof {
            let rest = pcm@.subrange(at as int, n as int);
            assert(part@ =~= rest.subrange(0, end - at));
            if end < n {
                assert(rest.subrange(FRAME_SAMPLES as int, rest.len() as int) =~= pcm@.subrange(
                    end as int,
                    n as int,
                ));
                let tail = packed_all(pcm@.subrange(end as int, n as int));
                assert(before + (packed(part@) + tail) =~= out@ + tail);
            } else {
                assert(part@ =~= rest);
                assert(out@ + packed_all(pcm@.subrange(end as int, n as int)) =~= out@);
            }
        }
        at = end;
    }
    assert(out@ + packed_all(pcm@.subrange(at as int, n as int)) =~= out@);
    out
}

/// The wait for the driver to emit the frames of a playback.
pub struct AoWait {
    pub before: u64,
    pub frames: u64,
    pub played: u64,
    /// When the count last moved, in milliseconds.
    pub last_move: u64,
}

/// Starts the wait. Where the count could not be read before the playback, there is none.
pub fn wait_for_ao(before: Option<u64>, frames: u64, now_ms: u64) -> (r: Option<AoWait>)
    ensures
        r == (match before {
            Some(b) => Some(AoWait { before: b, frames, played: 0, last_move: now_ms }),
            None => None,
        }),
{
    match before {
        Some(b) => Some(AoWait { before: b, frames, played: 0, last_move: now_ms }),
        None => None,
    }
}

/// How many frames were emitted since the wait began.
pub open spec fn emitted(w: AoWait, count: u64) -> u64 {
    if count > w.before {
        (count - w.before) as u64
    } else {
        0
    }
}

/// Whether the count has stood still for too long.
pub open spec fn is_stalled(last_move: u64, now_ms: u64) -> bool {
    now_ms - last_move >= PLAY_GRACE
}

impl AoWait {
    /// Takes a reading of the count. Gives the number of frames once all are out, or once the count
    /// has not moved for [`PLAY_GRACE`].
    pub fn poll(&mut self, reading: Option<u64>, now_ms: u64) -> (r: Option<u64>)
        ensures
            final(self).before == old(self).before,
            final(self).frames == old(self).frames,
            final(self).played == (match reading {
                Some(n) => emitted(*old(self), n),
                None => old(self).played,
            }),
            final(self).last_move == (if final(self).played != old(self).played {
                now_ms
            } else {
                old(self).last_move
            }),
            r == (if (reading is Some && final(self).played >= final(self).frames) || is_stalled(final(self).last_move, now_ms) {
                Some(final(self).played)
            } else {
                None
            }),
    {
        if let Some(n) = reading {
            let p: u64 = n.saturating_sub(self.before);
            if p != self.played {
                self.played = p;
                self.last_move = now_ms;
            }
            if self.played >= self.frames {
                return Some(self.played);
            }
        }
        if now_ms.saturating_sub(self.last_move) >= PLAY_GRACE {
            return Some(self.played);
        }
        None
    }
}

/// The clock of a live session: how much it was fed, and how much it should have been.
pub struct EncoderIn {
    /// When the client's first audio came, in microseconds.
    pub started: Option<u64>,
    pub samples_fed: u64,
    pub silence_frames: u64,
    pub max_lag_samples: u64,
}

/// How many samples the session should have been fed.
pub open spec fn expected_samples(started: u64, now_us: u64) -> int {
    if now_us > started {
        (now_us - started) * 16_000 / 1_000_000
    } else {
        0
    }
}

/// How many frames of silence are owed: as many as bring the session back to within
/// [`SILENCE_SLACK_SAMPLES`] of the clock, and no more.
pub open spec fn owed(fed: int, expected: int) -> int {
    if fed + SILENCE_SLACK_SAMPLES >= expected {
        0
    } else {
        (expected - fed - SILENCE_SLACK_SAMPLES + FRAME_SAMPLES - 1) / FRAME_SAMPLES as int
    }
}

impl EncoderIn {
    pub fn new() -> (e: EncoderIn)
        ensures
            e.started is None,
            e.samples_fed == 0,
            e.silence_frames == 0,
            e.max_lag_samples == 0,
    {
        EncoderIn { started: None, samples_fed: 0, silence_frames: 0, max_lag_samples: 0 }
    }

    /// The bytes for samples that are about to be fed; the clock starts with the first ones.
    pub fn write_pcm(&mut self, pcm: &[i16], now_us: u64) -> (out: Vec<u8>)
        ensures
            out@ == pcm_bytes(pcm@),
            final(self).started == Some(
                match old(self).started {
                    Some(t) => t,
                    None => now_us,
                },
            ),
            final(self).samples_fed == old(self).samples_fed,
            final(self).silence_frames == old(self).silence_frames,
            final(self).max_lag_samples == old(self).max_lag_samples,
    {
        if self.started.is_none() {
            self.started = Some(now_us);
        }
        let mut out: Vec<u8> = Vec::new();
        push_pcm(&mut out, pcm);
        assert(out@ =~= pcm_bytes(pcm@));
        out
    }

    /// Samples were fed.
    pub fn wrote(&mut self, samples: usize)
        ensures
            final(self).started == old(self).started,
            final(self).samples_fed == old(self).samples_fed.wrapping_add(samples as u64),
            final(self).silence_frames == old(self).silence_frames,
            final(self).max_lag_samples == old(self).max_lag_samples,
    {
        self.samples_fed = self.samples_fed.wrapping_add(samples as u64);
    }

    /// A frame of silence was fed.
    pub fn wrote_silence(&mut self)
        ensures
            final(self).started == old(self).started,
            final(self).samples_fed == old(self).samples_fed.wrapping_add(FRAME_SAMPLES as u64),
            final(self).silence_frames == old(self).silence_frames.wrapping_add(1),
            final(self).max_lag_samples == old(self).max_lag_samples,
    {
        self.wrote(FRAME_SAMPLES);
        self.silence_frames = self.silence_frames.wrapping_add(1);
    }

    /// Looks at the clock: notes how far behind the session is, and gives how many frames of silence
    /// are to be fed. Before the client's first audio there is nothing to fill.
    pub fn fill(&mut self, now_us: u64) -> (n: u64)
        ensures
            final(self).started == old(self).started,
            final(self).samples_fed == old(self).samples_fed,
            final(self).silence_frames == old(self).silence_frames,
            match old(self).started {
                None => n == 0 && final(self).max_lag_samples == old(self).max_lag_samples,
                Some(t) => {
                    let expected = expected_samples(t, now_us);
                    let lag = expected - old(self).samples_fed;
                    &&& n == owed(old(self).samples_fed as int, expected)
                    &&& final(self).max_lag_samples == (if lag > old(self).max_lag_samples {
                        lag
                    } else {
                        old(self).max_lag_samples as int
                    })
                },
            },
    {
        let started: u64 = match self.started {
            Some(t) => t,
            None => return 0,
        };
        let elapsed: u64 = now_us.saturating_sub(started);
        let expected: u64 = (elapsed as u128 * 16_000 / 1_000_000) as u64;
        let lag: u64 = expected.saturating_sub(self.samples_fed);
        if lag > self.max_lag_samples {
            self.max_lag_samples = lag;
        }
        if lag <= SILENCE_SLACK_SAMPLES {
            0
        } else {
            let missing: u64 = lag - SILENCE_SLACK_SAMPLES;
            let whole: u64 = missing / (FRAME_SAMPLES as u64);
            if missing % (FRAME_SAMPLES as u64) == 0 {
                whole
            } else {
                whole + 1
            }
        }
    }
}

/// What a live session has to do next with a frame of the encoder.
#[derive(Debug)]
pub enum Drain {
    /// Write these frames, in order.
    Write(Vec<Vec<u8>>),
    /// A call has become active: stop.
    Abort,
}

pub open spec fn frame_views(v: Seq<Vec<u8>>) -> Seq<Seq<u8>> {
    v.map_values(|f: Vec<u8>| f@)
}

/// What a session holds back, and whether its cushion is there.
pub struct DrainState {
    pub held: Seq<Seq<u8>>,
    pub rolling: bool,
}

/// A session after one more frame, and the frames to write: none until there is a cushion, then all
/// of it, and after that each frame at once.
pub open spec fn drained(s: DrainState, frame: Seq<u8>) -> (DrainState, Seq<Seq<u8>>) {
    let all = s.held.push(frame);
    if s.rolling || all.len() == PREROLL_FRAMES {
        (DrainState { held: Seq::empty(), rolling: true }, all)
    } else {
        (DrainState { held: all, rolling: false }, Seq::empty())
    }
}

/// The way of the encoder's frames to the pipe.
pub struct Drainer {
    /// Frames that are held back.
    pub preroll: Vec<Vec<u8>>,
    /// Whether the cushion is there, and nothing is held back any more.
    pub rolling: bool,
    pub stats: PlaybackStats,
}

impl Drainer {
    pub open spec fn wf(&self) -> bool {
        &&& self.preroll@.len() < PREROLL_FRAMES
        &&& self.rolling ==> self.preroll@.len() == 0
    }

    pub open spec fn state(&self) -> DrainState {
        DrainState { held: frame_views(self.preroll@), rolling: self.rolling }
    }

    pub fn new() -> (d: Drainer)
        ensures
            d.wf(),
            d.state() == (DrainState { held: Seq::empty(), rolling: false }),
            d.stats == (PlaybackStats {
                frames_written: 0,
                frames_played: 0,
                silence_frames: 0,
                max_lag_frames: 0,
                aborted_call_active: false,
            }),
    {
        let d: Drainer = Drainer {
            preroll: Vec::new(),
            rolling: false,
            stats: PlaybackStats::default(),
        };
        assert(d.state().held =~= Seq::<Seq<u8>>::empty());
        d
    }

    /// Whether the next frame calls for another look for a call.
    pub fn gate_due(&self) -> (r: bool)
        ensures
            r == (self.stats.frames_written % GATE_RECHECK_FRAMES == 0),
    {
        self.stats.frames_written % GATE_RECHECK_FRAMES == 0
    }

    /// Takes a frame of the encoder. `blocked` says whether a look that was due found a call.
    pub fn on_frame(&mut self, frame: Vec<u8>, blocked: bool) -> (r: Drain)
        requires
            old(self).wf(),
        ensures
            final(self).wf(),
            final(self).stats.frames_written == old(self).stats.frames_written,
            final(self).stats.frames_played == old(self).stats.frames_played,
            final(self).stats.silence_frames == old(self).stats.silence_frames,
            final(self).stats.max_lag_frames == old(self).stats.max_lag_frames,
            final(self).stats.aborted_call_active == (old(self).stats.aborted_call_active
                || blocked),
            match r {
                Drain::Abort => blocked && final(self).state() == old(self).state(),
                Drain::Write(v) => !blocked && (final(self).state(), frame_views(v@)) == drained(
                    old(self).state(),
                    frame@,
                ),
            },
    {
        if blocked {
            self.stats.aborted_call_active = true;
            return Drain::Abort;
        }
        let ghost before = self.state();
        let ghost all = before.held.push(frame@);
        let mut v: Vec<Vec<u8>> = Vec::new();
        assert(frame_views(v@) =~= Seq::<Seq<u8>>::empty());
        if self.rolling {
            assert(before.held =~= Seq::<Seq<u8>>::empty());
            v.push(frame);
            assert(frame_views(v@) =~= all);
            return Drain::Write(v);
        }
        self.preroll.push(frame);
        assert(self.state().held =~= all);
        if self.preroll.len() == PREROLL_FRAMES {
            self.rolling = true;
            std::mem::swap(&mut v, &mut self.preroll);
            assert(self.state().held =~= Seq::<Seq<u8>>::empty());
        }
        Drain::Write(v)
    }

    /// A frame was written.
    pub fn wrote(&mut self)
        ensures
            final(self).preroll == old(self).preroll,
            final(self).rolling == old(self).rolling,
            final(self).stats == (PlaybackStats {
                frames_written: old(self).stats.frames_written.wrapping_add(1),
                ..old(self).stats
            }),
    {
        self.stats.frames_written = self.stats.frames_written.wrapping_add(1);
    }

    /// The encoder is done, or the session is: what was held back is still written.
    pub fn finish(&mut self) -> (v: Vec<Vec<u8>>)
        ensures
            frame_views(v@) == old(self).state().held,
            final(self).state() == (DrainState { held: Seq::empty(), ..old(self).state() }),
            final(self).stats == old(self).stats,
    {
        let mut v: Vec<Vec<u8>> = Vec::new();
        std::mem::swap(&mut v, &mut self.preroll);
        assert(self.state().held =~= Seq::<Seq<u8>>::empty());
        v
    }
}

/// What a live session did: what was written, what was emitted, and how far the client fell behind.
pub fn live_stats(drained: PlaybackStats, played: u64, input: &EncoderIn) -> (s: PlaybackStats)
    ensures
        s == (PlaybackStats {
            frames_written: drained.frames_written,
            frames_played: played,
            silence_frames: input.silence_frames,
            max_lag_frames: (input.max_lag_samples / FRAME_SAMPLES as u64) as u64,
            aborted_call_active: drained.aborted_call_active,
        }),
{
    PlaybackStats {
        frames_written: drained.frames_written,
        frames_played: played,
        silence_frames: input.silence_frames,
        max_lag_frames: input.max_lag_samples / (FRAME_SAMPLES as u64),
        aborted_call_active: drained.aborted_call_active,
    }
}

/// Whether nothing could be written for too long.
pub open spec fn is_blocked(since_ms: u64, now_ms: u64) -> bool {
    now_ms - since_ms >= FIFO_WRITE_TIMEOUT
}

/// The pipe is full: whether to give up.
pub fn fifo_blocked(since_ms: u64, now_ms: u64) -> (r: Result<(), SpeakError>)
    ensures
        match r {
            Ok(_) => !is_blocked(since_ms, now_ms),
            Err(e) => is_blocked(since_ms, now_ms) && (e matches SpeakError::File(m) && m@
                == TALK_FIFO@ + ": media stopped reading"@),
        },
{
    if now_ms.saturating_sub(since_ms) >= FIFO_WRITE_TIMEOUT {
        let mut m: String = TALK_FIFO.to_owned();
        m.append(": media stopped reading");
        return Err(SpeakError::File(m));
    }
    Ok(())
}

} // verus!
