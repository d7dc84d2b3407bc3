//! A small RTSP/1.0 server: two video mounts, the microphone, and a way back to the speaker.
//!
//! Everything rides on the one connection that carries the requests. Which mount a client gets is
//! decided by the URL: a path segment `main` names the large one, and everything else the small one.
//! A session answers one request after another until one starts to play; from then on requests and
//! incoming audio share the connection.

use vstd::prelude::*;
use vstd::slice::slice_subrange;
use vstd::string::*;
use vstd::utf8::encode_utf8;

use crate::adts::{is_header, AUDIO_SPECIFIC_CONFIG};
use crate::backchannel::{on_rtp_packet, packet_audio};
use crate::base64::{base64_encode, base64_of};
use crate::bytes::{be16_at, push_all, read_be16};
use crate::http::{find_headers_end, headers_end, word_at, word_or_empty};
use crate::json::{join, joined, opt_text, string_texts};
use crate::number::{dec, hex, hex_encode, hex_of, parse_u8, push_dec, push_hex, uint_of};
use crate::ring::Frame;
use crate::text::{
    char_len, contains, cut, eq_ignore_ascii_case, escape_debug, escaped, from_utf8_lossy, has_text,
    lossy, match_back, pieces, pieces_by, rfind_str, same, same_ignoring_case, skip, split,
    split_once, split_str, split_whitespace, texts, trim, trim_end, trimmed, trimmed_end, words,
    Pat,
};

use self::media::{
    audio_packet, byte_views, find_nal_by_type, first_of_type, send_access_unit, send_audio_frame,
    seq_after, split_nal_units, units, video_packets, BACKCHANNEL_RTP_CHANNEL,
};

pub mod laws;

pub mod media;

verus! {

/// The largest request.
pub const MAX_REQUEST: usize = 4096;

/// How many sessions a mount serves at a time.
pub const MAX_SESSIONS_PER_STREAM: usize = 2;

/// How many frames are queued for a client.
pub const CLIENT_QUEUE_CAP: usize = 3;

pub const AUDIO_TRACK: u8 = 1;

pub const BACKCHANNEL_TRACK: u8 = 2;

/// How often, in milliseconds, a playing session looks for requests.
pub const CONTROL_CHECK_INTERVAL: u64 = 100;

/// Whether one of the path segments of a URL is `name`, in any case.
pub open spec fn names_segment(url: Seq<char>, name: Seq<char>) -> bool {
    exists|i: int|
        0 <= i < pieces(url, Pat::Is('/')).len() && same_ignoring_case(
            #[trigger] pieces(url, Pat::Is('/'))[i],
            name,
        )
}

pub fn url_names_segment(url: &str, name: &str) -> (r: bool)
    ensures
        r == names_segment(url@, name@),
{
    let segs: Vec<&str> = split(url, Pat::Is('/'));
    let ghost all = texts(segs@);
    let mut i: usize = 0;
    while i < segs.len()
        invariant
            i <= segs@.len(),
            all == texts(segs@),
            all == pieces(url@, Pat::Is('/')),
            forall|j: int| 0 <= j < i ==> !same_ignoring_case(#[trigger] all[j], name@),
        decreases segs@.len() - i,
    {
        assert(all[i as int] == segs@[i as int]@);
        if eq_ignore_ascii_case(segs[i], name) {
            return true;
        }
        i = i + 1;
    }
    false
}

/// One of the two mounts.
#[derive(Debug, Clone, Copy, PartialEq, Eq, Structural)]
pub enum Mount {
    Main,
    Sub,
}

impl Mount {
    pub open spec fn text(self) -> Seq<char> {
        match self {
            Mount::Main => "main"@,
            Mount::Sub => "sub"@,
        }
    }

    pub fn name(self) -> (s: &'static str)
        ensures
            s@ == self.text(),
    {
        match self {
            Mount::Main => "main",
            Mount::Sub => "sub",
        }
    }
}

/// The mount that a URL names.
pub open spec fn mount_of(url: Seq<char>) -> Mount {
    if names_segment(url, "main"@) {
        Mount::Main
    } else {
        Mount::Sub
    }
}

pub fn select(url: &str) -> (m: Mount)
    ensures
        m == mount_of(url@),
{
    if url_names_segment(url, "main") {
        Mount::Main
    } else {
        Mount::Sub
    }
}

/// What a mount produces, and who watches it. The frame rate is held as the text that stands for it.
pub struct MountInfo {
    pub width: u32,
    pub height: u32,
    pub fps: String,
    pub sessions: Vec<String>,
}

pub open spec fn quoted_upto(v: Seq<Seq<char>>) -> Seq<Seq<char>> {
    v.map_values(|p: Seq<char>| "\""@ + escaped(p) + "\""@)
}

pub open spec fn mount_text(m: MountInfo) -> Seq<char> {
    "{\"width\":"@ + dec(m.width as nat) + ",\"height\":"@ + dec(m.height as nat) + ",\"fps\":"@
        + m.fps@ + ",\"session_count\":"@ + dec(m.sessions@.len()) + ",\"sessions\":["@ + joined(
        quoted_upto(string_texts(m.sessions@)),
        ","@,
    ) + "]}"@
}

impl MountInfo {
    /// Takes a session in, where there is room for it; gives how many there are then.
    pub fn subscribe(&mut self, peer: String, max: usize) -> (r: Option<usize>)
        ensures
            final(self).width == old(self).width,
            final(self).height == old(self).height,
            final(self).fps == old(self).fps,
            match r {
                Some(n) => old(self).sessions@.len() < max && n == final(self).sessions@.len()
                    && final(self).sessions@ == old(self).sessions@.push(peer),
                None => old(self).sessions@.len() >= max && final(self).sessions == old(self).sessions,
            },
    {
        if self.sessions.len() >= max {
            return None;
        }
        self.sessions.push(peer);
        Some(self.sessions.len())
    }
}

fn mount_json(m: &MountInfo) -> (s: String)
    ensures
        s@ == mount_text(*m),
{
    let ghost names = string_texts(m.sessions@);
    let mut parts: Vec<String> = Vec::new();
    let mut i: usize = 0;
    while i < m.sessions.len()
        invariant
            i <= m.sessions@.len(),
            names == string_texts(m.sessions@),
            parts@.len() == i,
            forall|j: int| 0 <= j < i ==> (#[trigger] parts@[j])@ == quoted_upto(names)[j],
        decreases m.sessions@.len() - i,
    {
        assert(names[i as int] == m.sessions@[i as int]@);
        let mut p: String = "\"".to_owned();
        p.append(escape_debug(m.sessions[i].as_str()).as_str());
        p.append("\"");
        parts.push(p);
        i = i + 1;
    }
    assert(string_texts(parts@) =~= quoted_upto(names));
    let mut s: String = "{\"width\":".to_owned();
    push_dec(&mut s, m.width as u64);
    s.append(",\"height\":");
    push_dec(&mut s, m.height as u64);
    s.append(",\"fps\":");
    s.append(m.fps.as_str());
    s.append(",\"session_count\":");
    push_dec(&mut s, m.sessions.len() as u64);
    s.append(",\"sessions\":[");
    s.append(join(&parts, ",").as_str());
    s.append("]}");
    s
}

/// The body that reports both mounts.
pub fn streams_json(main: &MountInfo, sub: &MountInfo) -> (s: String)
    ensures
        s@ == "{\"main\":"@ + mount_text(*main) + ",\"sub\":"@ + mount_text(*sub) + "}"@,
{
    let mut s: String = "{\"main\":".to_owned();
    s.append(mount_json(main).as_str());
    s.append(",\"sub\":");
    s.append(mount_json(sub).as_str());
    s.append("}");
    s
}

/// The name of session number `n`.
pub open spec fn session_name(n: u64) -> Seq<char> {
    "kibble"@ + hex(n as nat)
}

/// A name for a session of its own; `next` is the number of the next one.
pub fn new_session_id(next: &mut u64) -> (s: String)
    ensures
        s@ == session_name(*old(next)),
        *final(next) == (*old(next)).wrapping_add(1),
{
    let mut s: String = "kibble".to_owned();
    push_hex(&mut s, *next);
    *next = (*next).wrapping_add(1);
    s
}

/// A request.
#[derive(Debug)]
pub struct RtspRequest {
    pub method: String,
    pub url: String,
    pub cseq: String,
    pub require: Option<String>,
    pub transport: Option<String>,
}

pub struct RequestView {
    pub method: Seq<char>,
    pub url: Seq<char>,
    pub cseq: Seq<char>,
    pub require: Option<Seq<char>>,
    pub transport: Option<Seq<char>>,
}

impl View for RtspRequest {
    type V = RequestView;

    open spec fn view(&self) -> RequestView {
        RequestView {
            method: self.method@,
            url: self.url@,
            cseq: self.cseq@,
            require: opt_text(self.require),
            transport: opt_text(self.transport),
        }
    }
}

/// The request as the first `n` lines give it; of two headers of one name the last one counts.
pub open spec fn request_upto(ls: Seq<Seq<char>>, n: int) -> RequestView
    decreases n,
{
    if n <= 1 {
        RequestView {
            method: word_at(words(ls[0]), 0),
            url: word_at(words(ls[0]), 1),
            cseq: "0"@,
            require: None,
            transport: None,
        }
    } else {
        let r = request_upto(ls, n - 1);
        match cut(ls[n - 1], Pat::Is(':')) {
            None => r,
            Some((k, v)) => {
                let key = trimmed(k, Pat::Space);
                let value = trimmed(v, Pat::Space);
                if same_ignoring_case(key, "CSeq"@) {
                    RequestView { cseq: value, ..r }
                } else if same_ignoring_case(key, "Require"@) {
                    RequestView { require: Some(value), ..r }
                } else if same_ignoring_case(key, "Transport"@) {
                    RequestView { transport: Some(value), ..r }
                } else {
                    r
                }
            },
        }
    }
}

/// The request that the text of a head is.
pub open spec fn request_in(text: Seq<char>) -> RequestView {
    let ls = pieces_by(text, "\r\n"@);
    request_upto(ls, ls.len() as int)
}

/// The request that a head is.
pub open spec fn request_of(head: Seq<u8>) -> RequestView {
    request_in(lossy(head))
}

pub fn parse_request(head: &[u8]) -> (req: RtspRequest)
    ensures
        req@ == request_of(head@),
{
    parse_request_text(from_utf8_lossy(head).as_str())
}

/// Reads a request from the text of its head.
pub fn parse_request_text(text: &str) -> (req: RtspRequest)
    ensures
        req@ == request_in(text@),
{
    proof {
        reveal_strlit("\r\n");
    }
    let ls: Vec<&str> = split_str(text, "\r\n");
    let ghost all = texts(ls@);
    assert(all.len() == ls@.len());
    assert(pieces_by(text@, "\r\n"@).len() >= 1);
    assert(all[0] == ls@[0]@);
    let start: Vec<&str> = split_whitespace(ls[0]);
    let mut req: RtspRequest = RtspRequest {
        method: word_or_empty(&start, 0),
        url: word_or_empty(&start, 1),
        cseq: "0".to_owned(),
        require: None,
        transport: None,
    };
    let mut i: usize = 1;
    while i < ls.len()
        invariant
            1 <= i <= ls@.len(),
            all == texts(ls@),
            req@ == request_upto(all, i as int),
        decreases ls@.len() - i,
    {
        assert(all[i as int] == ls@[i as int]@);
        if let Some((k, v)) = split_once(ls[i], Pat::Is(':')) {
            let key: &str = trim(k, Pat::Space);
            let value: String = trim(v, Pat::Space).to_owned();
            if eq_ignore_ascii_case(key, "CSeq") {
                req.cseq = value;
            } else if eq_ignore_ascii_case(key, "Require") {
                req.require = Some(value);
            } else if eq_ignore_ascii_case(key, "Transport") {
                req.transport = Some(value);
            }
        }
        i = i + 1;
    }
    req
}

/// What the bytes of a request so far amount to.
pub enum Intake {
    /// At most so many more can be read.
    More(usize),
    TooLarge,
    Done(RtspRequest),
}

/// Looks at what was read of a request. What stands behind it is dropped.
pub fn read_request(seen: &[u8]) -> (r: Intake)
    requires
        seen@.len() <= MAX_REQUEST,
    ensures
        match r {
            Intake::Done(req) => headers_end(seen@) matches Some(e) && req@ == request_of(
                seen@.subrange(0, e),
            ),
            Intake::TooLarge => headers_end(seen@) is None && seen@.len() == MAX_REQUEST,
            Intake::More(n) => headers_end(seen@) is None && n == MAX_REQUEST - seen@.len() && n > 0,
        },
{
    match find_headers_end(seen) {
        Some(e) => Intake::Done(parse_request(slice_subrange(seen, 0, e))),
        None => if seen.len() == MAX_REQUEST {
            Intake::TooLarge
        } else {
            Intake::More(MAX_REQUEST - seen.len())
        },
    }
}

/// The track that a URL names: the number behind the last `trackID=`, or zero.
pub open spec fn track_of(url: Seq<char>) -> u8 {
    match match_back(url, "trackID="@, url.len() as int) {
        Some(i) => match uint_of(url.subrange(i + 8, url.len() as int), 10, u8::MAX as nat) {
            Some(n) => n as u8,
            None => 0,
        },
        None => 0,
    }
}

pub fn track_id_from_url(url: &str) -> (t: u8)
    ensures
        t == track_of(url@),
{
    proof {
        reveal_strlit("trackID=");
    }
    let n: usize = char_len(url);
    match rfind_str(url, "trackID=") {
        Some(i) => if i + 8 <= n {
            match parse_u8(skip(url, i + 8)) {
                Some(t) => t,
                None => 0,
            }
        } else {
            0
        },
        None => 0,
    }
}

/// Whether a request asks for the transport that there is.
pub open spec fn wants_tcp(transport: Option<Seq<char>>) -> bool {
    match transport {
        Some(t) => has_text(t, "TCP"@) || has_text(t, "interleaved"@),
        None => false,
    }
}

pub fn wants_interleaved_tcp(req: &RtspRequest) -> (r: bool)
    ensures
        r == wants_tcp(req@.transport),
{
    match &req.transport {
        Some(t) => contains(t.as_str(), "TCP") || contains(t.as_str(), "interleaved"),
        None => false,
    }
}

/// An answer.
pub open spec fn status_text(
    cseq: Seq<char>,
    code: u16,
    reason: Seq<char>,
    extra: Seq<char>,
    body: Seq<char>,
) -> Seq<char> {
    "RTSP/1.0 "@ + dec(code as nat) + " "@ + reason + "\r\nCSeq: "@ + cseq + "\r\n"@ + extra + (
    if body.len() == 0 {
        "\r\n"@
    } else {
        "Content-Length: "@ + dec(encode_utf8(body).len()) + "\r\n\r\n"@ + body
    })
}

pub fn write_status(cseq: &str, code: u16, reason: &str, extra: &str, body: &str) -> (s: String)
    ensures
        s@ == status_text(cseq@, code, reason@, extra@, body@),
{
    let mut s: String = "RTSP/1.0 ".to_owned();
    push_dec(&mut s, code as u64);
    s.append(" ");
    s.append(reason);
    s.append("\r\nCSeq: ");
    s.append(cseq);
    s.append("\r\n");
    s.append(extra);
    if char_len(body) == 0 {
        s.append("\r\n");
    } else {
        let mut tail: String = "Content-Length: ".to_owned();
        push_dec(&mut tail, body.as_bytes().len() as u64);
        tail.append("\r\n\r\n");
        tail.append(body);
        s.append(tail.as_str());
    }
    s
}

/// The profile that a parameter set announces.
pub open spec fn profile(sps: Seq<u8>) -> Seq<char> {
    if sps.len() >= 4 {
        hex_of(sps.subrange(1, 4))
    } else {
        "000000"@
    }
}

/// The lines of the video track.
pub open spec fn sdp_video(base: Seq<char>, sps: Seq<u8>, pps: Seq<u8>) -> Seq<char> {
    "v=0\r\no=- 0 0 IN IP4 0.0.0.0\r\ns=kibble sub\r\nt=0 0\r\nm=video 0 RTP/AVP 96\r\nc=IN IP4 0.0.0.0\r\na=rtpmap:96 H264/90000\r\na=fmtp:96 packetization-mode=1;profile-level-id="@
        + profile(sps) + ";sprop-parameter-sets="@ + base64_of(sps) + ","@ + base64_of(pps)
        + "\r\na=control:"@ + base + "/trackID=0\r\n"@
}

/// The lines of the microphone's track.
pub open spec fn sdp_audio(base: Seq<char>) -> Seq<char> {
    "m=audio 0 RTP/AVP 97\r\na=rtpmap:97 MPEG4-GENERIC/16000/1\r\na=fmtp:97 streamtype=5; profile-level-id=1; mode=AAC-hbr; sizelength=13; indexlength=3; indexdeltalength=3; config="@
        + hex_of(AUDIO_SPECIFIC_CONFIG@) + "\r\na=control:"@ + base + "/trackID=1\r\n"@
}

/// The lines of the way back to the speaker.
pub open spec fn sdp_backchannel(base: Seq<char>) -> Seq<char> {
    "m=audio 0 RTP/AVP 98 0 8\r\na=rtpmap:98 L16/16000\r\na=rtpmap:0 PCMU/8000\r\na=rtpmap:8 PCMA/8000\r\na=sendonly\r\na=control:"@
        + base + "/trackID=2\r\n"@
}

/// The description of a mount.
pub open spec fn sdp(base_url: Seq<char>, sps: Seq<u8>, pps: Seq<u8>, backchannel: bool) -> Seq<
    char,
> {
    let base = trimmed_end(base_url, Pat::Is('/'));
    sdp_video(base, sps, pps) + sdp_audio(base) + (if backchannel {
        sdp_backchannel(base)
    } else {
        Seq::empty()
    })
}

pub fn build_sdp(base_url: &str, sps: &[u8], pps: &[u8], backchannel: bool) -> (s: String)
    ensures
        s@ == sdp(base_url@, sps@, pps@, backchannel),
{
    let base: &str = trim_end(base_url, Pat::Is('/'));
    let profile_level_id: String = if sps.len() >= 4 {
        hex_encode(slice_subrange(sps, 1, 4))
    } else {
        "000000".to_owned()
    };
    let mut s: String =
        "v=0\r\no=- 0 0 IN IP4 0.0.0.0\r\ns=kibble sub\r\nt=0 0\r\nm=video 0 RTP/AVP 96\r\nc=IN IP4 0.0.0.0\r\na=rtpmap:96 H264/90000\r\na=fmtp:96 packetization-mode=1;profile-level-id=".to_owned();
    s.append(profile_level_id.as_str());
    s.append(";sprop-parameter-sets=");
    s.append(base64_encode(sps).as_str());
    s.append(",");
    s.append(base64_encode(pps).as_str());
    s.append("\r\na=control:");
    s.append(base);
    s.append("/trackID=0\r\n");
    let mut a: String =
        "m=audio 0 RTP/AVP 97\r\na=rtpmap:97 MPEG4-GENERIC/16000/1\r\na=fmtp:97 streamtype=5; profile-level-id=1; mode=AAC-hbr; sizelength=13; indexlength=3; indexdeltalength=3; config=".to_owned();
    let config: [u8; 2] = AUDIO_SPECIFIC_CONFIG;
    a.append(hex_encode(config.as_slice()).as_str());
    a.append("\r\na=control:");
    a.append(base);
    a.append("/trackID=1\r\n");
    s.append(a.as_str());
    if backchannel {
        let mut b: String =
            "m=audio 0 RTP/AVP 98 0 8\r\na=rtpmap:98 L16/16000\r\na=rtpmap:0 PCMU/8000\r\na=rtpmap:8 PCMA/8000\r\na=sendonly\r\na=control:".to_owned();
        b.append(base);
        b.append("/trackID=2\r\n");
        s.append(b.as_str());
    } else {
        assert(s@ + Seq::<char>::empty() =~= s@);
    }
    s
}

/// Which tracks a session has set up, and its name.
pub struct Session {
    pub id: String,
    pub audio: bool,
    pub backchannel: bool,
}

/// What a request calls for.
#[derive(Debug)]
pub enum Step {
    /// Answer, and go on.
    Answer(String),
    /// Answer, and hang up.
    Finish(String),
    /// Wait for a keyframe of the mount, then answer by [`describe`].
    Describe(Mount),
    /// Take a place at the mount, then answer by [`play`].
    Play(Mount),
}

pub enum StepView {
    Answer(Seq<char>),
    Finish(Seq<char>),
    Describe(Mount),
    Play(Mount),
}

impl View for Step {
    type V = StepView;

    open spec fn view(&self) -> StepView {
        match self {
            Step::Answer(s) => StepView::Answer(s@),
            Step::Finish(s) => StepView::Finish(s@),
            Step::Describe(m) => StepView::Describe(*m),
            Step::Play(m) => StepView::Play(*m),
        }
    }
}

pub open spec fn ok_text(cseq: Seq<char>, extra: Seq<char>) -> Seq<char> {
    status_text(cseq, 200, "OK"@, extra, ""@)
}

pub open spec fn session_line(id: Seq<char>) -> Seq<char> {
    "Session: "@ + id + "\r\n"@
}

/// The channels of a track.
pub open spec fn channels_of(track: u8) -> Seq<char> {
    if track == AUDIO_TRACK {
        "2-3"@
    } else if track == BACKCHANNEL_TRACK {
        "4-5"@
    } else {
        "0-1"@
    }
}

/// Whether a request sets up the way back without the transport for it.
pub open spec fn refused_transport(req: RequestView) -> bool {
    track_of(req.url) == BACKCHANNEL_TRACK && !wants_tcp(req.transport)
}

/// What a request calls for, in a session of the name `id`.
pub open spec fn step_of(req: RequestView, id: Seq<char>) -> StepView {
    if req.method == "OPTIONS"@ {
        StepView::Answer(
            ok_text(
                req.cseq,
                "Public: OPTIONS, DESCRIBE, SETUP, PLAY, TEARDOWN, GET_PARAMETER\r\n"@,
            ),
        )
    } else if req.method == "DESCRIBE"@ {
        StepView::Describe(mount_of(req.url))
    } else if req.method == "SETUP"@ {
        if refused_transport(req) {
            StepView::Answer(status_text(req.cseq, 461, "Unsupported Transport"@, ""@, ""@))
        } else {
            StepView::Answer(
                ok_text(
                    req.cseq,
                    "Transport: RTP/AVP/TCP;unicast;interleaved="@ + channels_of(track_of(req.url))
                        + "\r\n"@ + session_line(id),
                ),
            )
        }
    } else if req.method == "PLAY"@ {
        StepView::Play(mount_of(req.url))
    } else if req.method == "TEARDOWN"@ {
        StepView::Finish(ok_text(req.cseq, session_line(id)))
    } else if req.method == "GET_PARAMETER"@ {
        StepView::Answer(ok_text(req.cseq, session_line(id)))
    } else {
        StepView::Answer(status_text(req.cseq, 501, "Not Implemented"@, ""@, ""@))
    }
}

/// Whether a request sets up a track.
pub open spec fn sets_up(req: RequestView, track: u8) -> bool {
    req.method == "SETUP"@ && track_of(req.url) == track && !refused_transport(req)
}

fn session_header(id: &str) -> (s: String)
    ensures
        s@ == session_line(id@),
{
    let mut s: String = "Session: ".to_owned();
    s.append(id);
    s.append("\r\n");
    s
}

fn respond(req: &RtspRequest, extra: &str) -> (s: String)
    ensures
        s@ == ok_text(req@.cseq, extra@),
{
    write_status(req.cseq.as_str(), 200, "OK", extra, "")
}

impl Session {
    pub fn new(id: String) -> (s: Session)
        ensures
            s.id == id,
            !s.audio,
            !s.backchannel,
    {
        Session { id, audio: false, backchannel: false }
    }

    fn on_setup(&mut self, req: &RtspRequest) -> (step: Step)
        requires
            req@.method == "SETUP"@,
        ensures
            step@ == (if refused_transport(req@) {
                StepView::Answer(status_text(req@.cseq, 461, "Unsupported Transport"@, ""@, ""@))
            } else {
                StepView::Answer(
                    ok_text(
                        req@.cseq,
                        "Transport: RTP/AVP/TCP;unicast;interleaved="@ + channels_of(
                            track_of(req@.url),
                        ) + "\r\n"@ + session_line(old(self).id@),
                    ),
                )
            }),
            final(self).id == old(self).id,
            final(self).audio == (old(self).audio || sets_up(req@, AUDIO_TRACK)),
            final(self).backchannel == (old(self).backchannel || sets_up(req@, BACKCHANNEL_TRACK)),
    {
        let track: u8 = track_id_from_url(req.url.as_str());
        if track == BACKCHANNEL_TRACK && !wants_interleaved_tcp(req) {
            return Step::Answer(
                write_status(req.cseq.as_str(), 461, "Unsupported Transport", "", ""),
            );
        }
        let channels: &str = if track == AUDIO_TRACK {
            self.audio = true;
            "2-3"
        } else if track == BACKCHANNEL_TRACK {
            self.backchannel = true;
            "4-5"
        } else {
            "0-1"
        };
        let mut extra: String = "Transport: RTP/AVP/TCP;unicast;interleaved=".to_owned();
        extra.append(channels);
        extra.append("\r\n");
        extra.append(session_header(self.id.as_str()).as_str());
        Step::Answer(respond(req, extra.as_str()))
    }

    /// Takes a request. The tracks that are set up add up until one starts to play.
    pub fn on_request(&mut self, req: &RtspRequest) -> (step: Step)
        ensures
            step@ == step_of(req@, old(self).id@),
            final(self).id == old(self).id,
            final(self).audio == (old(self).audio || sets_up(req@, AUDIO_TRACK)),
            final(self).backchannel == (old(self).backchannel || sets_up(req@, BACKCHANNEL_TRACK)),
    {
        proof {
            lemma_methods_differ();
        }
        let method: &str = req.method.as_str();
        if same(method, "OPTIONS") {
            Step::Answer(
                respond(req, "Public: OPTIONS, DESCRIBE, SETUP, PLAY, TEARDOWN, GET_PARAMETER\r\n"),
            )
        } else if same(method, "DESCRIBE") {
            Step::Describe(select(req.url.as_str()))
        } else if same(method, "SETUP") {
            self.on_setup(req)
        } else if same(method, "PLAY") {
            Step::Play(select(req.url.as_str()))
        } else if same(method, "TEARDOWN") {
            Step::Finish(respond(req, session_header(self.id.as_str()).as_str()))
        } else if same(method, "GET_PARAMETER") {
            Step::Answer(respond(req, session_header(self.id.as_str()).as_str()))
        } else {
            Step::Answer(write_status(req.cseq.as_str(), 501, "Not Implemented", "", ""))
        }
    }
}

proof fn lemma_methods_differ()
    ensures
        "SETUP"@ != "OPTIONS"@,
        "SETUP"@ != "DESCRIBE"@,
{
    reveal_strlit("SETUP");
    reveal_strlit("OPTIONS");
    reveal_strlit("DESCRIBE");
    assert("SETUP"@.len() == 5 && "OPTIONS"@.len() == 7 && "DESCRIBE"@.len() == 8);
}

/// Whether a request asks for the way back.
pub open spec fn wants_backchannel(req: RequestView) -> bool {
    match req.require {
        Some(r) => has_text(r, "www.onvif.org/ver20/backchannel"@),
        None => false,
    }
}

/// The answer to a request for a description, by the latest keyframe.
pub open spec fn describe_text(req: RequestView, keyframe: Option<Seq<u8>>) -> Seq<char> {
    match keyframe {
        None => status_text(req.cseq, 503, "Service Unavailable"@, ""@, ""@),
        Some(data) => match (
            first_of_type(units(data), 7, 0),
            first_of_type(units(data), 8, 0),
        ) {
            (Some(sps), Some(pps)) => status_text(
                req.cseq,
                200,
                "OK"@,
                "Content-Base: "@ + req.url + "\r\nContent-Type: application/sdp\r\n"@,
                sdp(req.url, sps, pps, wants_backchannel(req)),
            ),
            _ => status_text(req.cseq, 500, "Internal Server Error"@, ""@, ""@),
        },
    }
}

/// Answers a request for a description. Without a keyframe, or where the keyframe lacks a parameter
/// set, there is none.
pub fn describe(req: &RtspRequest, keyframe: Option<&[u8]>) -> (s: String)
    ensures
        s@ == describe_text(
            req@,
            match keyframe {
                Some(data) => Some(data@),
                None => None,
            },
        ),
{
    let cseq: &str = req.cseq.as_str();
    let data: &[u8] = match keyframe {
        Some(d) => d,
        None => return write_status(cseq, 503, "Service Unavailable", "", ""),
    };
    let nals: Vec<&[u8]> = split_nal_units(data);
    match (find_nal_by_type(&nals, 7), find_nal_by_type(&nals, 8)) {
        (Some(sps), Some(pps)) => {
            let backchannel: bool = match &req.require {
                Some(r) => contains(r.as_str(), "www.onvif.org/ver20/backchannel"),
                None => false,
            };
            let body: String = build_sdp(req.url.as_str(), sps, pps, backchannel);
            let mut extra: String = "Content-Base: ".to_owned();
            extra.append(req.url.as_str());
            extra.append("\r\nContent-Type: application/sdp\r\n");
            write_status(cseq, 200, "OK", extra.as_str(), body.as_str())
        },
        _ => write_status(cseq, 500, "Internal Server Error", "", ""),
    }
}

/// Answers a request to play: whether there is a place at the mount.
pub fn play(req: &RtspRequest, id: &str, admitted: bool) -> (s: String)
    ensures
        s@ == (if admitted {
            ok_text(req@.cseq, session_line(id@) + "Range: npt=0.000-\r\n"@)
        } else {
            status_text(req@.cseq, 453, "Not Enough Bandwidth"@, ""@, ""@)
        }),
{
    if admitted {
        let mut extra: String = session_header(id);
        extra.append("Range: npt=0.000-\r\n");
        respond(req, extra.as_str())
    } else {
        write_status(req.cseq.as_str(), 453, "Not Enough Bandwidth", "", "")
    }
}

/// Whether it is time to look at what the client sent.
pub open spec fn is_check_due(last_check: u64, now_ms: u64) -> bool {
    now_ms - last_check >= CONTROL_CHECK_INTERVAL
}

/// Whether it is time to look for requests again.
pub fn control_due(last_check: u64, now_ms: u64) -> (r: bool)
    ensures
        r == is_check_due(last_check, now_ms),
{
    now_ms.saturating_sub(last_check) >= CONTROL_CHECK_INTERVAL
}

/// What came of a look at what the client sent while playing.
#[derive(Debug, Clone, Copy, PartialEq, Eq, Structural)]
pub enum ControlEvent {
    /// There was nothing complete.
    Idle,
    Handled,
    Teardown,
}

/// What there is to do.
#[derive(Debug)]
pub enum Control {
    /// Hand these samples to the speaker.
    Feed(Vec<i16>),
    /// Write this answer.
    Answer(String),
}

pub enum ControlView {
    Feed(Seq<i16>),
    Answer(Seq<char>),
}

impl View for Control {
    type V = ControlView;

    open spec fn view(&self) -> ControlView {
        match self {
            Control::Feed(v) => ControlView::Feed(v@),
            Control::Answer(s) => ControlView::Answer(s@),
        }
    }
}

pub open spec fn control_views(v: Seq<Control>) -> Seq<ControlView> {
    v.map_values(|c: Control| c@)
}

/// What a frame that the client sent calls for: audio on the way back goes to the speaker, and
/// everything else is dropped.
pub open spec fn frame_control(channel: u8, data: Seq<u8>, talk: bool) -> Seq<ControlView> {
    if channel == BACKCHANNEL_RTP_CHANNEL && talk && data.len() >= 2 {
        match packet_audio(data, (data[1] % 128) as u8) {
            Some(pcm) => seq![ControlView::Feed(pcm)],
            None => Seq::empty(),
        }
    } else {
        Seq::empty()
    }
}

/// What the bytes at hand call for, what came of them, and the bytes that are left. A frame starts
/// with a dollar sign, and everything else is a request.
#[verifier::opaque]
pub open spec fn control_of(buf: Seq<u8>, id: Seq<char>, talk: bool, event: ControlEvent) -> (
    Seq<ControlView>,
    ControlEvent,
    Seq<u8>,
)
    decreases buf.len(),
{
    if buf.len() == 0 {
        (Seq::empty(), event, buf)
    } else if buf[0] == 36 {
        if buf.len() < 4 || buf.len() < 4 + be16_at(buf, 2) {
            (Seq::empty(), event, buf)
        } else {
            let end = 4 + be16_at(buf, 2) as int;
            let (rest, last, left) = control_of(
                buf.subrange(end, buf.len() as int),
                id,
                talk,
                event,
            );
            (frame_control(buf[1], buf.subrange(4, end), talk) + rest, last, left)
        }
    } else {
        match headers_end(buf) {
            Some(e) if 0 < e <= buf.len() => {
                let req = request_of(buf.subrange(0, e));
                let answer = seq![ControlView::Answer(ok_text(req.cseq, session_line(id)))];
                let after = buf.subrange(e, buf.len() as int);
                if same_ignoring_case(req.method, "TEARDOWN"@) {
                    (answer, ControlEvent::Teardown, after)
                } else {
                    let (rest, last, left) = control_of(after, id, talk, ControlEvent::Handled);
                    (answer + rest, last, left)
                }
            },
            _ => (Seq::empty(), event, buf),
        }
    }
}

/// Whether nothing can be worked off yet.
pub open spec fn is_stuck(buf: Seq<u8>) -> bool {
    buf.len() == 0 || if buf[0] == 36 {
        buf.len() < 4 || buf.len() < 4 + be16_at(buf, 2)
    } else {
        headers_end(buf) is None
    }
}

pub proof fn lemma_stuck(buf: Seq<u8>, id: Seq<char>, talk: bool, event: ControlEvent)
    requires
        is_stuck(buf),
    ensures
        control_of(buf, id, talk, event) == (Seq::<ControlView>::empty(), event, buf),
{
    reveal(control_of);
}

pub proof fn lemma_frame_step(buf: Seq<u8>, id: Seq<char>, talk: bool, event: ControlEvent)
    requires
        !is_stuck(buf),
        buf[0] == 36,
    ensures
        control_of(buf, id, talk, event) == ({
            let end = 4 + be16_at(buf, 2) as int;
            let (rest, last, left) = control_of(
                buf.subrange(end, buf.len() as int),
                id,
                talk,
                event,
            );
            (frame_control(buf[1], buf.subrange(4, end), talk) + rest, last, left)
        }),
{
    reveal(control_of);
}

/// The answer to a request that comes while playing.
pub open spec fn answer_to(head: Seq<u8>, id: Seq<char>) -> Seq<ControlView> {
    seq![ControlView::Answer(ok_text(request_of(head).cseq, session_line(id)))]
}

/// Whether a request ends the session.
pub open spec fn asks_to_stop(head: Seq<u8>) -> bool {
    same_ignoring_case(request_of(head).method, "TEARDOWN"@)
}

pub proof fn lemma_request_step(buf: Seq<u8>, e: int, id: Seq<char>, talk: bool, event: ControlEvent)
    requires
        buf.len() > 0,
        buf[0] != 36,
        headers_end(buf) == Some(e),
        0 < e <= buf.len(),
    ensures
        control_of(buf, id, talk, event) == ({
            let after = buf.subrange(e, buf.len() as int);
            let head = buf.subrange(0, e);
            if asks_to_stop(head) {
                (answer_to(head, id), ControlEvent::Teardown, after)
            } else {
                let (rest, last, left) = control_of(after, id, talk, ControlEvent::Handled);
                (answer_to(head, id) + rest, last, left)
            }
        }),
{
    reveal(control_of);
}

fn on_frame(channel: u8, data: &[u8], talk: bool, out: &mut Vec<Control>)
    ensures
        control_views(final(out)@) == control_views(old(out)@) + frame_control(channel, data@, talk),
{
    let ghost done = out@;
    if channel == BACKCHANNEL_RTP_CHANNEL && talk && data.len() >= 2 {
        if let Some(pcm) = on_rtp_packet(data, data[1] % 128) {
            let c: Control = Control::Feed(pcm);
            let ghost x = c@;
            out.push(c);
            assert(control_views(out@) =~= control_views(done) + seq![x]);
            return ;
        }
    }
    assert(control_views(out@) =~= control_views(done) + Seq::<ControlView>::empty());
}

/// Works off what the client has sent while playing: gives what there is to do, in order, and keeps
/// what is not complete yet. `talk` says whether the way back is open.
#[verifier::rlimit(40)]
pub fn poll_control(buf: &mut Vec<u8>, id: &str, talk: bool) -> (r: (Vec<Control>, ControlEvent))
    ensures
        (control_views(r.0@), r.1, final(buf)@) == control_of(
            old(buf)@,
            id@,
            talk,
            ControlEvent::Idle,
        ),
{
    let ghost all = buf@;
    let ghost want = control_of(all, id@, talk, ControlEvent::Idle);
    let n: usize = buf.len();
    let mut at: usize = 0;
    let mut event: ControlEvent = ControlEvent::Idle;
    let mut out: Vec<Control> = Vec::new();
    let mut more: bool = true;
    proof {
        assert(all.subrange(0, n as int) =~= all);
        assert(control_views(out@) + want.0 =~= want.0);
    }
    while more
        invariant
            at <= n == buf@.len(),
            buf@ == all,
            more ==> ({
                let rest = control_of(all.subrange(at as int, n as int), id@, talk, event);
                (control_views(out@) + rest.0, rest.1, rest.2) == want
            }),
            !more ==> (control_views(out@), event, all.subrange(at as int, n as int)) == want,
        decreases
            n - at,
            if more {
                1int
            } else {
                0
            },
    {
        let rest: &[u8] = slice_subrange(buf.as_slice(), at, n);
        let ghost b = rest@;
        let ghost done = out@;
        proof {
            if is_stuck(b) {
                lemma_stuck(b, id@, talk, event);
            }
        }
        assert(control_views(out@) + Seq::<ControlView>::empty() =~= control_views(out@));
        if rest.len() == 0 {
            more = false;
        } else if rest[0] == 36 {
            if rest.len() < 4 || rest.len() - 4 < read_be16(rest, 2) as usize {
                more = false;
            } else {
                let end: usize = 4 + read_be16(rest, 2) as usize;
                on_frame(rest[1], slice_subrange(rest, 4, end), talk, &mut out);
                at = at + end;
                proof {
                    lemma_frame_step(b, id@, talk, event);
                    let f = frame_control(b[1], b.subrange(4, end as int), talk);
                    let after = b.subrange(end as int, b.len() as int);
                    assert(after =~= all.subrange(at as int, n as int));
                    let r2 = control_of(after, id@, talk, event);
                    assert(control_views(done) + (f + r2.0) =~= control_views(out@) + r2.0);
                }
            }
        } else {
            match find_headers_end(rest) {
                None => {
                    more = false;
                },
                Some(e) => {
                    let req: RtspRequest = parse_request(slice_subrange(rest, 0, e));
                    let teardown: bool = eq_ignore_ascii_case(req.method.as_str(), "TEARDOWN");
                    let c: Control = Control::Answer(
                        respond(&req, session_header(id).as_str()),
                    );
                    let ghost x = c@;
                    out.push(c);
                    at = at + e;
                    proof {
                        lemma_request_step(b, e as int, id@, talk, event);
                        let after = b.subrange(e as int, b.len() as int);
                        assert(after =~= all.subrange(at as int, n as int));
                        assert(control_views(out@) =~= control_views(done) + seq![x]);
                        let r2 = control_of(after, id@, talk, ControlEvent::Handled);
                        assert(control_views(done) + (seq![x] + r2.0) =~= control_views(out@)
                            + r2.0);
                    }
                    if teardown {
                        event = ControlEvent::Teardown;
                        more = false;
                    } else {
                        event = ControlEvent::Handled;
                    }
                },
            }
        }
    }
    let mut left: Vec<u8> = Vec::new();
    push_all(&mut left, slice_subrange(buf.as_slice(), at, n));
    assert(left@ =~= all.subrange(at as int, n as int));
    *buf = left;
    (out, event)
}

/// A session that plays: the numbers of its next packets, what the client has sent and is not worked
/// off yet, and when that was last looked at.
pub struct Player {
    pub video_seq: u16,
    pub audio_seq: u16,
    pub inbox: Vec<u8>,
    /// In milliseconds.
    pub last_check: u64,
}

impl Player {
    pub fn new(now_ms: u64) -> (p: Player)
        ensures
            p.video_seq == 0,
            p.audio_seq == 0,
            p.inbox@.len() == 0,
            p.last_check == now_ms,
    {
        Player { video_seq: 0, audio_seq: 0, inbox: Vec::new(), last_check: now_ms }
    }

    /// The packets of a video frame.
    pub fn on_video(&mut self, frame: &Frame) -> (out: Vec<Vec<u8>>)
        ensures
            byte_views(out@) == video_packets(frame.data@, frame.pts_us, old(self).video_seq),
            final(self).video_seq == seq_after(
                old(self).video_seq,
                video_packets(frame.data@, frame.pts_us, old(self).video_seq).len(),
            ),
            final(self).audio_seq == old(self).audio_seq,
            final(self).inbox == old(self).inbox,
            final(self).last_check == old(self).last_check,
    {
        let mut seq: u16 = self.video_seq;
        let out: Vec<Vec<u8>> = send_access_unit(frame, &mut seq);
        self.video_seq = seq;
        out
    }

    /// The packet of a microphone frame, where it is one.
    pub fn on_audio(&mut self, frame: &Frame) -> (r: Option<Vec<u8>>)
        ensures
            match r {
                Some(p) => is_header(frame.data@) && p@ == audio_packet(
                    frame.data@,
                    frame.pts_us,
                    old(self).audio_seq,
                ) && final(self).audio_seq == seq_after(old(self).audio_seq, 1),
                None => !is_header(frame.data@) && final(self).audio_seq == old(self).audio_seq,
            },
            final(self).video_seq == old(self).video_seq,
            final(self).inbox == old(self).inbox,
            final(self).last_check == old(self).last_check,
    {
        let mut seq: u16 = self.audio_seq;
        let r: Option<Vec<u8>> = send_audio_frame(frame.data.as_slice(), frame.pts_us, &mut seq);
        self.audio_seq = seq;
        r
    }

    /// Whether to look for requests now; the next look is due a while after this one.
    pub fn check(&mut self, now_ms: u64) -> (due: bool)
        ensures
            due == is_check_due(old(self).last_check, now_ms),
            final(self).last_check == (if due {
                now_ms
            } else {
                old(self).last_check
            }),
            final(self).video_seq == old(self).video_seq,
            final(self).audio_seq == old(self).audio_seq,
            final(self).inbox == old(self).inbox,
    {
        if control_due(self.last_check, now_ms) {
            self.last_check = now_ms;
            true
        } else {
            false
        }
    }

    /// Takes what a read brought and works it off.
    pub fn on_read(&mut self, chunk: &[u8], id: &str, talk: bool) -> (r: (Vec<Control>, ControlEvent))
        ensures
            (control_views(r.0@), r.1, final(self).inbox@) == control_of(
                old(self).inbox@ + chunk@,
                id@,
                talk,
                ControlEvent::Idle,
            ),
            final(self).video_seq == old(self).video_seq,
            final(self).audio_seq == old(self).audio_seq,
            final(self).last_check == old(self).last_check,
    {
        push_all(&mut self.inbox, chunk);
        poll_control(&mut self.inbox, id, talk)
    }
}

} // verus!
