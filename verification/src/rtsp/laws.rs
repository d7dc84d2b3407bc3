//! Laws of the sessions and of what goes over the connection.

use vstd::prelude::*;
use vstd::string::*;
use vstd::utf8::encode_utf8;

use crate::backchannel::payload_of;
use crate::adts::{header_len_of, is_header, AUDIO_SPECIFIC_CONFIG};
use crate::base64::base64_of;
use crate::bytes::{be16, be16_at, be32};
use crate::number::{dec, hex, hex_of, lemma_dec_worth, lemma_hex_tells_apart, lemma_uint_of_dec};
use crate::rtsp::media::{
    audio_packet, audio_payload, code_len, first_of_type, fragment, fragments, framed, is_type,
    nal_packets, packet_count, part_count, part_end, rtp_packet, rtp_time, seq_after, unit, unit_packets, units, units_from,
    video_packets, CHUNK, PAYLOAD_TYPE, RTP_MTU, SSRC, VIDEO_RTP_CHANNEL,
};
use crate::http::{headers_end, lemma_headers_end_from, lemma_headers_end_prefix};
use crate::rtsp::{
    answer_to, asks_to_stop, channels_of, control_of, frame_control, is_check_due, is_stuck,
    lemma_frame_step, lemma_request_step, lemma_stuck, mount_of, names_segment, profile,
    refused_transport, request_upto, sdp, sdp_audio, sdp_backchannel, sdp_video, session_line,
    session_name, status_text, step_of, track_of, ControlEvent, ControlView, Mount, RequestView,
    StepView,
};
use crate::text::{
    ascii_lower, ends, is_digit, is_space, law_cut, law_message_lines, law_pieces, lemma_trimmed_id,
    match_back, occurs_at, pieces, pieces_by, same_ignoring_case, trimmed_end, Pat,
};

verus! {

/// No two sessions have one name, as long as their numbers differ.
pub proof fn law_session_names_are_unique(a: u64, b: u64)
    requires
        a != b,
    ensures
        session_name(a) != session_name(b),
{
    lemma_hex_tells_apart(a as nat, b as nat);
    if session_name(a) == session_name(b) {
        let k = "kibble"@.len() as int;
        assert(hex(a as nat) =~= session_name(a).subrange(k, session_name(a).len() as int));
        assert(hex(b as nat) =~= session_name(b).subrange(k, session_name(b).len() as int));
    }
}

/// What the first `n` fragments carry, behind the first byte of the unit.
pub open spec fn carried(nal: Seq<u8>, n: int) -> Seq<u8>
    decreases n,
{
    if n <= 0 {
        Seq::empty()
    } else {
        carried(nal, n - 1) + fragment(nal, n - 1).subrange(
            2,
            fragment(nal, n - 1).len() as int,
        )
    }
}

proof fn lemma_part_bounds(len: int, i: int)
    requires
        len >= 1,
        0 <= i < part_count(len),
    ensures
        i * CHUNK < len,
        i * CHUNK < part_end(len, i) <= len,
        part_end(len, i) <= i * CHUNK + CHUNK,
        (part_end(len, i) == len) == (i == part_count(len) - 1),
        i < part_count(len) - 1 ==> part_end(len, i) == (i + 1) * CHUNK,
{
    let q = part_count(len);
    vstd::arithmetic::div_mod::lemma_fundamental_div_mod(len + CHUNK - 1, CHUNK as int);
    assert((i + 1) * CHUNK == i * CHUNK + CHUNK) by (nonlinear_arith);
    assert(i * CHUNK + CHUNK <= CHUNK * q) by (nonlinear_arith)
        requires
            i + 1 <= q,
    ;
    if i < q - 1 {
        assert((i + 1) * CHUNK + CHUNK <= CHUNK * q) by (nonlinear_arith)
            requires
                i + 2 <= q,
        ;
    } else {
        assert((i + 1) * CHUNK == CHUNK * q) by (nonlinear_arith)
            requires
                i + 1 == q,
        ;
    }
}

proof fn lemma_carried(nal: Seq<u8>, n: int)
    requires
        nal.len() >= 2,
        0 <= n <= part_count(nal.len() - 1),
    ensures
        carried(nal, n) == nal.subrange(
            1,
            if n == 0 {
                1
            } else {
                1 + part_end(nal.len() - 1, n - 1)
            },
        ),
    decreases n,
{
    let len = nal.len() - 1;
    if n > 0 {
        lemma_part_bounds(len, n - 1);
        lemma_carried(nal, n - 1);
        let f = fragment(nal, n - 1);
        let from = 1 + (n - 1) * CHUNK;
        let to = 1 + part_end(len, n - 1);
        assert(f.subrange(2, f.len() as int) =~= nal.subrange(from, to));
        if n > 1 {
            lemma_part_bounds(len, n - 2);
        }
        assert(carried(nal, n - 1) =~= nal.subrange(1, from));
        assert(carried(nal, n) =~= nal.subrange(1, to));
    } else {
        assert(carried(nal, 0) =~= nal.subrange(1, 1));
    }
}

/// A unit that was cut into fragments comes back from them byte for byte.
pub proof fn law_fragments_reassemble(nal: Seq<u8>)
    requires
        nal.len() > RTP_MTU,
    ensures
        seq![nal[0]] + carried(nal, fragments(nal).len() as int) == nal,
{
    let len = nal.len() - 1;
    let q = part_count(len);
    vstd::arithmetic::div_mod::lemma_fundamental_div_mod(len + CHUNK - 1, CHUNK as int);
    assert(q >= 1) by (nonlinear_arith)
        requires
            len + CHUNK - 1 == CHUNK * q + (len + CHUNK - 1) % CHUNK as int,
            (len + CHUNK - 1) % (CHUNK as int) < CHUNK,
            len >= CHUNK,
    ;
    lemma_carried(nal, q);
    lemma_part_bounds(len, q - 1);
    assert(seq![nal[0]] + carried(nal, q) =~= nal);
}

/// Each fragment tells the kind of the unit, and whether it is its first or its last, and none is
/// larger than a packet may be.
pub proof fn law_fragment_headers(nal: Seq<u8>, i: int)
    requires
        nal.len() > RTP_MTU,
        0 <= i < fragments(nal).len(),
    ensures
        fragments(nal)[i].len() <= RTP_MTU,
        fragments(nal)[i][0] / 32 == nal[0] / 32,
        fragments(nal)[i][0] % 32 == 28,
        fragments(nal)[i][1] % 32 == nal[0] % 32,
        (fragments(nal)[i][1] / 128 == 1) == (i == 0),
        (fragments(nal)[i][1] / 64 % 2 == 1) == (i == fragments(nal).len() - 1),
{
    lemma_part_bounds(nal.len() - 1, i);
    assert(nal[0] / 32 * 32 + 28 <= 255);
}

/// No NAL unit holds a start code.
pub proof fn law_units_hold_no_start_code(data: Seq<u8>, k: int, j: int)
    requires
        0 <= k < units(data).len(),
        0 <= j < units(data)[k].len(),
    ensures
        code_len(units(data)[k], j) == 0,
{
    lemma_units_plain(data, None, 0, k, j);
}

proof fn lemma_units_plain(data: Seq<u8>, s: Option<int>, i: int, k: int, j: int)
    requires
        0 <= i <= data.len(),
        s matches Some(a) ==> 0 <= a <= i && forall|m: int|
            a <= m < i ==> #[trigger] code_len(data, m) == 0,
        0 <= k < units_from(data, s, i).len(),
        0 <= j < units_from(data, s, i)[k].len(),
    ensures
        code_len(units_from(data, s, i)[k], j) == 0,
    decreases data.len() - i,
{
    let us = units_from(data, s, i);
    if i >= data.len() {
        lemma_unit_plain(data, s, i, j);
    } else if code_len(data, i) > 0 {
        let u = unit(data, s, i);
        let e = i + code_len(data, i);
        if k < u.len() {
            lemma_unit_plain(data, s, i, j);
        } else {
            lemma_units_plain(data, Some(e), e, k - u.len(), j);
        }
    } else {
        lemma_units_plain(data, s, i + 1, k, j);
    }
}

proof fn lemma_unit_plain(data: Seq<u8>, s: Option<int>, e: int, j: int)
    requires
        0 <= e <= data.len(),
        s matches Some(a) ==> 0 <= a <= e && forall|m: int|
            a <= m < e ==> #[trigger] code_len(data, m) == 0,
        unit(data, s, e).len() > 0,
        0 <= j < unit(data, s, e)[0].len(),
    ensures
        code_len(unit(data, s, e)[0], j) == 0,
{
    let a = s.unwrap();
    let u = data.subrange(a, e);
    assert(code_len(data, a + j) == 0);
    assert(u[j] == data[a + j]);
    if j + 1 < u.len() {
        assert(u[j + 1] == data[a + j + 1]);
    }
    if j + 2 < u.len() {
        assert(u[j + 2] == data[a + j + 2]);
    }
    if j + 3 < u.len() {
        assert(u[j + 3] == data[a + j + 3]);
    }
}

/// The first `n` units, each behind a start code.
pub open spec fn with_codes(us: Seq<Seq<u8>>, n: int) -> Seq<u8>
    decreases n,
{
    if n <= 0 {
        Seq::empty()
    } else {
        with_codes(us, n - 1) + seq![0u8, 0, 0, 1] + us[n - 1]
    }
}

/// Whether a unit can stand between start codes: it is not empty, holds none, and does not end in
/// a zero.
pub open spec fn is_plain(u: Seq<u8>) -> bool {
    u.len() > 0 && u.last() != 0 && forall|j: int|
        0 <= j < u.len() ==> #[trigger] code_len(u, j) == 0
}

/// Units that were put behind start codes come back.
pub proof fn law_units_read_back(us: Seq<Seq<u8>>)
    requires
        forall|i: int| 0 <= i < us.len() ==> is_plain(#[trigger] us[i]),
    ensures
        units(with_codes(us, us.len() as int)) == us,
{
    let data = with_codes(us, us.len() as int);
    if us.len() == 0 {
        assert(units(data) =~= us);
    } else {
        lemma_read_back(us, data, None, 0);
        assert(us.subrange(0, us.len() as int) =~= us);
        assert(unit(data, None, 0) + us =~= us);
    }
}

proof fn lemma_codes_prefix(us: Seq<Seq<u8>>, n: int, m: int)
    requires
        0 <= n <= m <= us.len(),
    ensures
        with_codes(us, n).len() <= with_codes(us, m).len(),
        with_codes(us, m).subrange(0, with_codes(us, n).len() as int) == with_codes(us, n),
    decreases m - n,
{
    if n < m {
        lemma_codes_prefix(us, n, m - 1);
        let a = with_codes(us, m - 1);
        let b = with_codes(us, m);
        assert(b.subrange(0, a.len() as int) =~= a);
        assert(b.subrange(0, with_codes(us, n).len() as int) =~= a.subrange(
            0,
            with_codes(us, n).len() as int,
        ));
    } else {
        assert(with_codes(us, m).subrange(0, with_codes(us, n).len() as int) =~= with_codes(us, n));
    }
}

/// Where no start code lies ahead up to `e`, the scan gets there with the same unit at hand.
proof fn lemma_scan(data: Seq<u8>, s: Option<int>, i: int, e: int)
    requires
        0 <= i <= e <= data.len(),
        forall|m: int| i <= m < e ==> #[trigger] code_len(data, m) == 0,
    ensures
        units_from(data, s, i) == units_from(data, s, e),
    decreases e - i,
{
    if i < e {
        assert(code_len(data, i) == 0);
        lemma_scan(data, s, i + 1, e);
    }
}

proof fn lemma_read_back(us: Seq<Seq<u8>>, data: Seq<u8>, s: Option<int>, n: int)
    requires
        forall|i: int| 0 <= i < us.len() ==> is_plain(#[trigger] us[i]),
        data == with_codes(us, us.len() as int),
        0 <= n < us.len(),
    ensures
        units_from(data, s, with_codes(us, n).len() as int) == unit(
            data,
            s,
            with_codes(us, n).len() as int,
        ) + us.subrange(n, us.len() as int),
    decreases us.len() - n,
{
    let i = with_codes(us, n).len() as int;
    let u = us[n];
    let full = with_codes(us, n + 1);
    lemma_codes_prefix(us, n + 1, us.len() as int);
    let e = full.len() as int;
    let a = i + 4;
    assert(e == a + u.len());
    assert forall|m: int| 0 <= m < e implies data[m] == #[trigger] full[m] by {
        assert(data.subrange(0, e)[m] == data[m]);
    }
    assert(full[i] == 0 && full[i + 1] == 0 && full[i + 2] == 0 && full[i + 3] == 1);
    assert(data[i] == 0 && data[i + 1] == 0 && data[i + 2] == 0 && data[i + 3] == 1);
    assert(code_len(data, i) == 4);
    assert(is_plain(u));
    assert forall|j: int| 0 <= j < u.len() implies data[a + j] == #[trigger] u[j] by {
        assert(full[a + j] == u[j]);
    }
    assert forall|m: int| a <= m < e implies #[trigger] code_len(data, m) == 0 by {
        let j = m - a;
        assert(code_len(u, j) == 0);
        assert(data[m] == u[j]);
        assert(data[e - 1] == u[u.len() - 1]);
        if j + 1 < u.len() {
            assert(data[m + 1] == u[j + 1]);
        }
        if j + 2 < u.len() {
            assert(data[m + 2] == u[j + 2]);
        }
        if j + 3 < u.len() {
            assert(data[m + 3] == u[j + 3]);
        }
    }
    lemma_scan(data, Some(a), a, e);
    assert(units_from(data, s, i) == unit(data, s, i) + units_from(data, Some(a), a));
    assert(data.subrange(a, e) =~= u);
    if n + 1 < us.len() {
        lemma_read_back(us, data, Some(a), n + 1);
        assert(seq![u] + us.subrange(n + 1, us.len() as int) =~= us.subrange(n, us.len() as int));
    } else {
        assert(e == data.len());
        assert(seq![u] =~= us.subrange(n, us.len() as int));
    }
}

/// The payload of a packet is what stands behind its header.
pub proof fn law_packet_reads_back(
    payload_type: u8,
    payload: Seq<u8>,
    seq: u16,
    rtp_ts: u32,
    ssrc: u32,
    marker: bool,
)
    ensures
        payload_of(rtp_packet(payload_type, payload, seq, rtp_ts, ssrc, marker)) == Some(payload),
{
    let p = rtp_packet(payload_type, payload, seq, rtp_ts, ssrc, marker);
    assert(p[0] == 0x80);
    assert(p.subrange(12, p.len() as int) =~= payload);
}

/// A frame that the client sent is taken whole, and what follows it is worked off next.
pub proof fn law_frame_is_taken(
    channel: u8,
    data: Seq<u8>,
    rest: Seq<u8>,
    id: Seq<char>,
    talk: bool,
    event: ControlEvent,
)
    requires
        data.len() <= 65535,
    ensures
        control_of(framed(channel, data) + rest, id, talk, event) == ({
            let (more, last, left) = control_of(rest, id, talk, event);
            (frame_control(channel, data, talk) + more, last, left)
        }),
{
    reveal(control_of);
    let buf = framed(channel, data) + rest;
    let len = be16(data.len());
    assert(buf[0] == 36 && buf[1] == channel);
    assert(buf[2] == len[0] && buf[3] == len[1]);
    assert(be16_at(buf, 2) == data.len());
    let end = 4 + data.len() as int;
    assert(buf.subrange(4, end) =~= data);
    assert(buf.subrange(end, buf.len() as int) =~= rest);
}

/// It does not matter how what the client sends is cut up: what was not complete in one read is
/// worked off with the next, and nothing is done twice or lost. After a request to stop, nothing
/// more is worked off.
#[verifier::rlimit(40)]
pub proof fn law_reads_can_be_split(
    a: Seq<u8>,
    b: Seq<u8>,
    id: Seq<char>,
    talk: bool,
    event: ControlEvent,
)
    requires
        event != ControlEvent::Teardown,
    ensures
        ({
            let (first, last, left) = control_of(a, id, talk, event);
            control_of(a + b, id, talk, event) == (if last == ControlEvent::Teardown {
                (first, last, left + b)
            } else {
                let (second, end, rest) = control_of(left + b, id, talk, last);
                (first + second, end, rest)
            })
        }),
    decreases a.len(),
{
    let ab = a + b;
    if is_stuck(a) {
        lemma_stuck(a, id, talk, event);
        let all = control_of(ab, id, talk, event).0;
        assert(Seq::<ControlView>::empty() + all =~= all);
    } else if a[0] == 36 {
        let end = 4 + be16_at(a, 2) as int;
        let rest = a.subrange(end, a.len() as int);
        assert(be16_at(ab, 2) == be16_at(a, 2));
        lemma_frame_step(a, id, talk, event);
        lemma_frame_step(ab, id, talk, event);
        assert(ab.subrange(4, end) =~= a.subrange(4, end));
        assert(ab.subrange(end, ab.len() as int) =~= rest + b);
        law_reads_can_be_split(rest, b, id, talk, event);
        let f = frame_control(a[1], a.subrange(4, end), talk);
        let (first, last, left) = control_of(rest, id, talk, event);
        let second = control_of(left + b, id, talk, last).0;
        assert(f + (first + second) =~= (f + first) + second);
    } else {
        lemma_headers_end_from(a, 0);
        lemma_headers_end_prefix(a, b);
        let e = headers_end(a)->0;
        let rest = a.subrange(e, a.len() as int);
        let head = a.subrange(0, e);
        lemma_request_step(a, e, id, talk, event);
        lemma_request_step(ab, e, id, talk, event);
        assert(ab.subrange(0, e) =~= head);
        assert(ab.subrange(e, ab.len() as int) =~= rest + b);
        if !asks_to_stop(head) {
            law_reads_can_be_split(rest, b, id, talk, ControlEvent::Handled);
            let (first, last, left) = control_of(rest, id, talk, ControlEvent::Handled);
            let second = control_of(left + b, id, talk, last).0;
            assert(answer_to(head, id) + (first + second) =~= (answer_to(head, id) + first)
                + second);
        }
    }
}

/// Whether a framed packet has this number, and whether it is marked as the last of its access
/// unit.
pub open spec fn is_packet(p: Seq<u8>, seq: u16, marked: bool) -> bool {
    &&& p.len() >= 16
    &&& p[0] == 36
    &&& be16_at(p, 6) == seq
    &&& (p[5] >= 128) == marked
}

proof fn lemma_is_packet(payload: Seq<u8>, seq: u16, rtp_ts: u32, marker: bool)
    ensures
        is_packet(
            framed(
                VIDEO_RTP_CHANNEL,
                rtp_packet(PAYLOAD_TYPE, payload, seq, rtp_ts, SSRC, marker),
            ),
            seq,
            marker,
        ),
{
    let inner = rtp_packet(PAYLOAD_TYPE, payload, seq, rtp_ts, SSRC, marker);
    let p = framed(VIDEO_RTP_CHANNEL, inner);
    let bit: u8 = if marker {
        0x80u8
    } else {
        0u8
    };
    assert(p.len() == 4 + inner.len() && inner.len() >= 12);
    assert(p[5] == inner[1] && inner[1] == bit | PAYLOAD_TYPE);
    assert(p[6] == inner[2] && p[7] == inner[3]);
    assert(inner[2] == be16(seq as nat)[0] && inner[3] == be16(seq as nat)[1]);
    assert(0x80u8 | 96u8 == 224u8 && 0u8 | 96u8 == 96u8) by (bit_vector);
}

proof fn lemma_units_nonempty(data: Seq<u8>, s: Option<int>, i: int, k: int)
    requires
        0 <= i <= data.len(),
        s matches Some(a) ==> 0 <= a <= data.len(),
        0 <= k < units_from(data, s, i).len(),
    ensures
        units_from(data, s, i)[k].len() > 0,
    decreases data.len() - i,
{
    if i < data.len() {
        if code_len(data, i) > 0 {
            let u = unit(data, s, i);
            let e = i + code_len(data, i);
            if k >= u.len() {
                lemma_units_nonempty(data, Some(e), e, k - u.len());
            }
        } else {
            lemma_units_nonempty(data, s, i + 1, k);
        }
    }
}

proof fn lemma_count(us: Seq<Seq<u8>>, seq: u16, rtp_ts: u32, n: int)
    requires
        0 <= n <= us.len(),
    ensures
        unit_packets(us, seq, rtp_ts, n).len() == packet_count(us, n),
    decreases n,
{
    if n > 0 {
        lemma_count(us, seq, rtp_ts, n - 1);
    }
}

proof fn lemma_some_fragment(nal: Seq<u8>)
    requires
        nal.len() > 0,
    ensures
        fragments(nal).len() > 0,
{
    if nal.len() > RTP_MTU {
        let len = nal.len() - 1;
        vstd::arithmetic::div_mod::lemma_fundamental_div_mod(len + CHUNK - 1, CHUNK as int);
        assert(part_count(len) >= 1) by (nonlinear_arith)
            requires
                len + CHUNK - 1 == CHUNK * part_count(len) + (len + CHUNK - 1) % CHUNK as int,
                (len + CHUNK - 1) % (CHUNK as int) < CHUNK,
                len >= CHUNK,
        ;
    }
}

proof fn lemma_seq_after(seq: u16, a: nat, b: nat)
    ensures
        seq_after(seq_after(seq, a), b) == seq_after(seq, a + b),
{
}

/// The packets of one NAL unit are numbered from `start` on, and its last one is marked where the
/// unit ends an access unit.
proof fn lemma_nal_numbered(nal: Seq<u8>, start: u16, rtp_ts: u32, ends_unit: bool, k: int)
    requires
        0 <= k < fragments(nal).len(),
    ensures
        nal_packets(nal, start, rtp_ts, ends_unit).len() == fragments(nal).len(),
        is_packet(
            nal_packets(nal, start, rtp_ts, ends_unit)[k],
            seq_after(start, k as nat),
            k == fragments(nal).len() - 1 && ends_unit,
        ),
{
    let parts = fragments(nal);
    let last = k == parts.len() - 1 && ends_unit;
    lemma_is_packet(parts[k], seq_after(start, k as nat), rtp_ts, last);
}

/// What holds of packet `i` of the first `n` units.
#[verifier::opaque]
spec fn numbered(us: Seq<Seq<u8>>, seq: u16, rtp_ts: u32, n: int, i: int) -> bool {
    is_packet(
        unit_packets(us, seq, rtp_ts, n)[i],
        seq_after(seq, i as nat),
        n == us.len() && i == packet_count(us, n) - 1,
    )
}

/// A packet of an earlier unit stays as it was, and a later unit follows it.
proof fn lemma_numbered_before(us: Seq<Seq<u8>>, seq: u16, rtp_ts: u32, n: int, i: int)
    requires
        0 < n <= us.len(),
        us[n - 1].len() > 0,
        0 <= i < packet_count(us, n - 1),
        numbered(us, seq, rtp_ts, n - 1, i),
    ensures
        numbered(us, seq, rtp_ts, n, i),
{
    reveal(numbered);
    lemma_count(us, seq, rtp_ts, n - 1);
    lemma_some_fragment(us[n - 1]);
    assert(unit_packets(us, seq, rtp_ts, n)[i] == unit_packets(us, seq, rtp_ts, n - 1)[i]);
}

proof fn lemma_numbered_here(us: Seq<Seq<u8>>, seq: u16, rtp_ts: u32, n: int, k: int)
    requires
        0 < n <= us.len(),
        0 <= k < fragments(us[n - 1]).len(),
    ensures
        numbered(us, seq, rtp_ts, n, packet_count(us, n - 1) + k),
{
    reveal(numbered);
    let before = packet_count(us, n - 1);
    let start = seq_after(seq, before);
    lemma_count(us, seq, rtp_ts, n - 1);
    lemma_nal_numbered(us[n - 1], start, rtp_ts, n == us.len(), k);
    lemma_seq_after(seq, before, k as nat);
    let part = nal_packets(us[n - 1], start, rtp_ts, n == us.len());
    assert(unit_packets(us, seq, rtp_ts, n)[before + k] == part[k]);
}

proof fn lemma_numbered(us: Seq<Seq<u8>>, seq: u16, rtp_ts: u32, n: int, i: int)
    requires
        0 <= n <= us.len(),
        forall|k: int| 0 <= k < us.len() ==> (#[trigger] us[k]).len() > 0,
        0 <= i < packet_count(us, n),
    ensures
        numbered(us, seq, rtp_ts, n, i),
    decreases n,
{
    if n > 0 {
        let before = packet_count(us, n - 1) as int;
        if i < before {
            lemma_numbered(us, seq, rtp_ts, n - 1, i);
            lemma_numbered_before(us, seq, rtp_ts, n, i);
        } else {
            lemma_numbered_here(us, seq, rtp_ts, n, i - before);
        }
    }
}

/// The packets of an access unit are numbered one after the other, and the last of them alone is
/// marked.
pub proof fn law_packets_are_numbered(data: Seq<u8>, seq: u16, rtp_ts: u32, i: int)
    requires
        0 <= i < packet_count(units(data), units(data).len() as int),
    ensures
        ({
            let us = units(data);
            let n = us.len() as int;
            &&& unit_packets(us, seq, rtp_ts, n).len() == packet_count(us, n)
            &&& is_packet(
                unit_packets(us, seq, rtp_ts, n)[i],
                seq_after(seq, i as nat),
                i == packet_count(us, n) - 1,
            )
        }),
{
    let us = units(data);
    assert forall|k: int| 0 <= k < us.len() implies (#[trigger] us[k]).len() > 0 by {
        lemma_units_nonempty(data, None, 0, k);
    }
    lemma_numbered(us, seq, rtp_ts, us.len() as int, i);
    lemma_count(us, seq, rtp_ts, us.len() as int);
    reveal(numbered);
}

/// Whether `p` is a packet with this payload on a channel of the connection: the dollar sign, the
/// channel and the length, then the RTP header with its payload type, number, time and source.
pub open spec fn carries(
    p: Seq<u8>,
    payload: Seq<u8>,
    channel: u8,
    payload_type: u8,
    ssrc: u32,
    seq: int,
    rtp_ts: int,
) -> bool {
    &&& p.len() == 16 + payload.len()
    &&& p[0] == 36
    &&& p[1] == channel
    &&& 256 * p[2] + p[3] == (12 + payload.len()) % 65536
    &&& p[4] == 0x80
    &&& p[5] % 128 == payload_type
    &&& 256 * p[6] + p[7] == seq
    &&& 16777216 * p[8] + 65536 * p[9] + 256 * p[10] + p[11] == rtp_ts
    &&& 16777216 * p[12] + 65536 * p[13] + 256 * p[14] + p[15] == ssrc
    &&& p.subrange(16, p.len() as int) == payload
}

#[verifier::rlimit(40)]
proof fn lemma_carries(
    payload: Seq<u8>,
    channel: u8,
    payload_type: u8,
    ssrc: u32,
    seq: u16,
    rtp_ts: u32,
    marker: bool,
)
    requires
        payload_type < 128,
    ensures
        carries(
            framed(channel, rtp_packet(payload_type, payload, seq, rtp_ts, ssrc, marker)),
            payload,
            channel,
            payload_type,
            ssrc,
            seq as int,
            rtp_ts as int,
        ),
{
    let inner = rtp_packet(payload_type, payload, seq, rtp_ts, ssrc, marker);
    let p = framed(channel, inner);
    let bit: u8 = if marker {
        0x80u8
    } else {
        0u8
    };
    assert(payload_type < 128 ==> (0x80u8 | payload_type) == 128 + payload_type && (0u8
        | payload_type) == payload_type) by (bit_vector);
    assert(inner.len() == 12 + payload.len());
    let l = be16(inner.len() % 65536);
    assert(p[2] == l[0] && p[3] == l[1]);
    assert(p[4] == inner[0] && p[5] == inner[1] && p[6] == inner[2] && p[7] == inner[3]);
    assert(p[8] == inner[4] && p[9] == inner[5] && p[10] == inner[6] && p[11] == inner[7]);
    assert(p[12] == inner[8] && p[13] == inner[9] && p[14] == inner[10] && p[15] == inner[11]);
    let t = be32(rtp_ts as nat);
    let c = be32(ssrc as nat);
    assert(inner[2] == be16(seq as nat)[0] && inner[3] == be16(seq as nat)[1]);
    assert(inner[4] == t[0] && inner[5] == t[1] && inner[6] == t[2] && inner[7] == t[3]);
    assert(inner[8] == c[0] && inner[9] == c[1] && inner[10] == c[2] && inner[11] == c[3]);
    assert(p.subrange(16, p.len() as int) =~= payload);
}

/// The payloads that carry the first `n` units, one after the other.
pub open spec fn payloads_upto(us: Seq<Seq<u8>>, n: int) -> Seq<Seq<u8>>
    decreases n,
{
    if n <= 0 {
        Seq::empty()
    } else {
        payloads_upto(us, n - 1) + fragments(us[n - 1])
    }
}

proof fn lemma_packets_carry(us: Seq<Seq<u8>>, seq: u16, rtp_ts: u32, n: int, i: int)
    requires
        0 <= n <= us.len(),
        0 <= i < payloads_upto(us, n).len(),
    ensures
        unit_packets(us, seq, rtp_ts, n).len() == payloads_upto(us, n).len(),
        packet_count(us, n) == payloads_upto(us, n).len(),
        carries(
            unit_packets(us, seq, rtp_ts, n)[i],
            payloads_upto(us, n)[i],
            0,
            96,
            0x4B42_4C44,
            (seq + i) % 65536,
            rtp_ts as int,
        ),
    decreases n,
{
    lemma_payload_count(us, seq, rtp_ts, n);
    if n > 0 {
        lemma_payload_count(us, seq, rtp_ts, n - 1);
        let before = payloads_upto(us, n - 1).len() as int;
        if i < before {
            lemma_packets_carry(us, seq, rtp_ts, n - 1, i);
        } else {
            let k = i - before;
            let start = seq_after(seq, before as nat);
            let parts = fragments(us[n - 1]);
            lemma_seq_after(seq, before as nat, k as nat);
            let marked = k == parts.len() - 1 && n == us.len();
            lemma_carries(
                parts[k],
                0,
                96,
                0x4B42_4C44,
                seq_after(start, k as nat),
                rtp_ts,
                marked,
            );
            assert(unit_packets(us, seq, rtp_ts, n)[i] == nal_packets(
                us[n - 1],
                start,
                rtp_ts,
                n == us.len(),
            )[k]);
        }
    }
}

proof fn lemma_payload_count(us: Seq<Seq<u8>>, seq: u16, rtp_ts: u32, n: int)
    requires
        0 <= n <= us.len(),
    ensures
        unit_packets(us, seq, rtp_ts, n).len() == payloads_upto(us, n).len(),
        packet_count(us, n) == payloads_upto(us, n).len(),
    decreases n,
{
    if n > 0 {
        lemma_payload_count(us, seq, rtp_ts, n - 1);
    }
}

/// The timestamp of a frame is its time on the stream's clock: the last tick that has passed.
pub proof fn law_timestamp_is_the_time(pts_us: u32, rate: int)
    requires
        0 <= rate,
        pts_us * rate / 1_000_000 <= u32::MAX,
    ensures
        rtp_time(pts_us, rate) * 1_000_000 <= pts_us * rate,
        pts_us * rate < (rtp_time(pts_us, rate) + 1) * 1_000_000,
{
    let x = pts_us * rate;
    assert(0 <= x) by (nonlinear_arith)
        requires
            x == pts_us * rate,
            0 <= rate,
            0 <= pts_us,
    ;
    vstd::arithmetic::div_mod::lemma_fundamental_div_mod(x, 1_000_000);
}

/// Two frames are as many ticks apart as the time between them takes, up to one tick.
pub proof fn law_timestamps_keep_distances(a: u32, b: u32, rate: int)
    requires
        a <= b,
        0 <= rate,
        b * rate / 1_000_000 <= u32::MAX,
        a * rate / 1_000_000 <= u32::MAX,
    ensures
        (rtp_time(b, rate) - rtp_time(a, rate) - 1) * 1_000_000 < (b - a) * rate,
        (b - a) * rate < (rtp_time(b, rate) - rtp_time(a, rate) + 1) * 1_000_000,
{
    law_timestamp_is_the_time(a, rate);
    law_timestamp_is_the_time(b, rate);
    assert((b - a) * rate == b * rate - a * rate) by (nonlinear_arith);
}

/// Packet `i` of an access unit carries piece `i` of its NAL units on the channel of the video, is
/// numbered `i` on from the first, and is stamped with the time of the frame on a clock of 90 kHz.
pub proof fn law_video_packets(data: Seq<u8>, pts_us: u32, seq: u16, i: int) -> (rtp_ts: int)
    requires
        0 <= i < video_packets(data, pts_us, seq).len(),
    ensures
        video_packets(data, pts_us, seq).len() == payloads_upto(
            units(data),
            units(data).len() as int,
        ).len(),
        carries(
            video_packets(data, pts_us, seq)[i],
            payloads_upto(units(data), units(data).len() as int)[i],
            0,
            96,
            0x4B42_4C44,
            (seq + i) % 65536,
            rtp_ts,
        ),
        rtp_ts * 1_000_000 <= pts_us * 90_000 < (rtp_ts + 1) * 1_000_000,
{
    let us = units(data);
    let ts = rtp_time(pts_us, 90_000);
    lemma_payload_count(us, seq, ts, us.len() as int);
    lemma_packets_carry(us, seq, ts, us.len() as int, i);
    law_timestamp_is_the_time(pts_us, 90_000);
    ts as int
}

/// A unit that fits a packet is carried whole.
pub proof fn law_small_units_are_carried_whole(nal: Seq<u8>)
    requires
        0 < nal.len() <= 1400,
    ensures
        fragments(nal) == seq![nal],
{
}

/// The packet of a microphone frame carries what follows the frame's ADTS header, behind its size in
/// bits and bytes, is marked, and is stamped with the time of the frame on a clock of 16 kHz.
#[verifier::rlimit(40)]
pub proof fn law_audio_packet(data: Seq<u8>, pts_us: u32, seq: u16) -> (rtp_ts: int)
    requires
        is_header(data),
    ensures
        ({
            let raw = data.subrange(
                if data[1] % 2 == 1 {
                    7int
                } else {
                    9
                },
                data.len() as int,
            );
            let payload = audio_payload(data);
            let p = audio_packet(data, pts_us, seq);
            &&& carries(p, payload, 2, 97, 0x4B42_4C41, seq as int, rtp_ts)
            &&& p[5] >= 128
            &&& payload.len() == 4 + raw.len()
            &&& payload.subrange(4, payload.len() as int) == raw
            &&& 256 * payload[0] + payload[1] == 16
            &&& raw.len() <= 8191 ==> 256 * payload[2] + payload[3] == 8 * raw.len()
            &&& raw.len() > 8191 ==> 256 * payload[2] + payload[3] == 8 * 8191
        }),
        rtp_ts * 1_000_000 <= pts_us * 16_000 < (rtp_ts + 1) * 1_000_000,
{
    let raw = data.subrange(header_len_of(data) as int, data.len() as int);
    let payload = audio_payload(data);
    let ts = rtp_time(pts_us, 16_000);
    lemma_carries(payload, 2, 97, 0x4B42_4C41, seq, ts, true);
    assert(payload.subrange(4, payload.len() as int) =~= raw);
    law_timestamp_is_the_time(pts_us, 16_000);
    assert(0x80u8 | 97u8 == 225u8) by (bit_vector);
    let inner = rtp_packet(97, payload, seq, ts, 0x4B42_4C41, true);
    assert(audio_packet(data, pts_us, seq)[5] == inner[1]);
    ts as int
}

/// The track of a URL is the number at its end.
pub proof fn law_track_is_named(base: Seq<char>, n: u8)
    ensures
        track_of(base + "trackID="@ + dec(n as nat)) == n,
{
    let pat = "trackID="@;
    let d = dec(n as nat);
    let s = base + pat + d;
    let k = base.len() as int;
    assert(pat.len() == 8) by {
        reveal_strlit("trackID=");
    }
    lemma_dec_worth(n as nat);
    lemma_uint_of_dec(n as nat, u8::MAX as nat);
    assert(s.subrange(k, k + 8) =~= pat);
    assert(s.subrange(k + 8, s.len() as int) =~= d);
    assert forall|j: int| k < j <= s.len() implies !#[trigger] occurs_at(s, pat, j) by {
        lemma_no_later_track(base, d, j);
    }
    lemma_last_match(s, pat, s.len() as int, k);
}

/// No track is named again in the number of one.
proof fn lemma_no_later_track(base: Seq<char>, d: Seq<char>, j: int)
    requires
        forall|i: int| 0 <= i < d.len() ==> is_digit(#[trigger] d[i]),
        base.len() < j,
    ensures
        !occurs_at(base + "trackID="@ + d, "trackID="@, j),
{
    reveal_strlit("trackID=");
    let pat = "trackID="@;
    let s = base + pat + d;
    let k = base.len() as int;
    if occurs_at(s, pat, j) {
        assert(s.subrange(j, j + 8)[0] == s[j]);
        assert(pat[0] == 't');
        if j < k + 8 {
            assert(s[j] == pat[j - k]);
            assert(pat[1] != 't' && pat[2] != 't' && pat[3] != 't' && pat[4] != 't' && pat[5] != 't'
                && pat[6] != 't' && pat[7] != 't');
        } else {
            assert(s[j] == d[j - k - 8]);
            assert(is_digit(d[j - k - 8]));
        }
    }
}

proof fn lemma_last_match(s: Seq<char>, pat: Seq<char>, i: int, k: int)
    requires
        0 <= k <= i,
        occurs_at(s, pat, k),
        forall|j: int| k < j <= i ==> !#[trigger] occurs_at(s, pat, j),
    ensures
        match_back(s, pat, i) == Some(k),
    decreases i - k,
{
    if i > k {
        assert(!occurs_at(s, pat, i));
        lemma_last_match(s, pat, i - 1, k);
    }
}

/// Track `n` goes over the channels from twice `n` on, the second of them for reports.
pub proof fn law_channels_of_tracks(track: u8)
    requires
        track <= 2,
    ensures
        channels_of(track) == dec((2 * track) as nat) + seq!['-'] + dec((2 * track + 1) as nat),
{
    reveal_strlit("0-1");
    reveal_strlit("2-3");
    reveal_strlit("4-5");
    assert(channels_of(track) =~= dec((2 * track) as nat) + seq!['-'] + dec((2 * track + 1) as nat));
}

/// A request for a track over anything but the connection is refused for the talkback alone.
pub proof fn law_talkback_needs_the_connection(req: RequestView)
    ensures
        refused_transport(req) ==> track_of(req.url) == 2,
        track_of(req.url) == 2 && req.transport is None ==> refused_transport(req),
{
}

/// What the client sends is looked at ten times a second.
pub proof fn law_checks_are_frequent(last_check: u64, now: u64)
    ensures
        is_check_due(last_check, now) <==> now >= last_check + 100,
{
}

/// The first unit of a type is one of that type, and none before it is.
pub proof fn law_first_of_type(us: Seq<Seq<u8>>, nal_type: u8, i: int) -> (k: int)
    requires
        0 <= i <= us.len(),
    ensures
        match first_of_type(us, nal_type, i) {
            Some(u) => i <= k < us.len() && us[k] == u && u.len() > 0 && u[0] % 32 == nal_type
                && forall|j: int| i <= j < k ==> !is_type(#[trigger] us[j], nal_type),
            None => forall|j: int| i <= j < us.len() ==> !is_type(#[trigger] us[j], nal_type),
        },
    decreases us.len() - i,
{
    if i >= us.len() || is_type(us[i], nal_type) {
        i
    } else {
        law_first_of_type(us, nal_type, i + 1)
    }
}

/// A header of a request sets the field that it names, in whatever case, and no other.
pub proof fn law_request_headers(ls: Seq<Seq<char>>, n: int, key: Seq<char>, value: Seq<char>)
    requires
        1 < n <= ls.len(),
        ls[n - 1] == key + seq![':'] + value,
        forall|i: int| 0 <= i < key.len() ==> #[trigger] key[i] != ':' && !is_space(key[i]),
        value.len() > 0 ==> !is_space(value[0]) && !is_space(value.last()),
    ensures
        ({
            let was = request_upto(ls, n - 1);
            let is = request_upto(ls, n);
            &&& same_ignoring_case(key, "CSeq"@) ==> is == (RequestView { cseq: value, ..was })
            &&& same_ignoring_case(key, "Require"@) ==> is == (RequestView {
                require: Some(value),
                ..was
            })
            &&& same_ignoring_case(key, "Transport"@) ==> is == (RequestView {
                transport: Some(value),
                ..was
            })
        }),
{
    assert forall|i: int| 0 <= i < key.len() implies !Pat::Is(':').has(#[trigger] key[i]) by {}
    law_cut(key, ':', value, Pat::Is(':'));
    if key.len() > 0 {
        assert(!is_space(key[0]));
        assert(!is_space(key[key.len() - 1]));
    }
    lemma_trimmed_id(key, Pat::Space);
    lemma_trimmed_id(value, Pat::Space);
    reveal_strlit("CSeq");
    reveal_strlit("Require");
    reveal_strlit("Transport");
    let f = |c: char| ascii_lower(c);
    assert("CSeq"@.map_values(f).len() == 4);
    assert("Require"@.map_values(f).len() == 7);
    assert("Transport"@.map_values(f).len() == 9);
}

/// A description of a stream offers its video first, with the parameter sets in base64, then the
/// microphone, each at its own track of the URL, which is taken without slashes at its end.
pub proof fn law_description(base_url: Seq<char>, sps: Seq<u8>, pps: Seq<u8>, talk: bool) -> (r: (
    Seq<char>,
    Seq<char>,
    Seq<char>,
))
    ensures
        ({
            let base = trimmed_end(base_url, Pat::Is('/'));
            let d = sdp(base_url, sps, pps, talk);
            &&& d == r.0 + ";sprop-parameter-sets="@ + base64_of(sps) + ","@ + base64_of(pps)
                + "\r\na=control:"@ + base + "/trackID=0\r\n"@ + r.1 + "\r\na=control:"@ + base
                + "/trackID=1\r\n"@ + r.2
            &&& !talk ==> r.2.len() == 0
            &&& talk ==> ends(d, base + "/trackID=2\r\n"@)
        }),
{
    let base = trimmed_end(base_url, Pat::Is('/'));
    let d = sdp(base_url, sps, pps, talk);
    let a = "v=0\r\no=- 0 0 IN IP4 0.0.0.0\r\ns=kibble sub\r\nt=0 0\r\nm=video 0 RTP/AVP 96\r\nc=IN IP4 0.0.0.0\r\na=rtpmap:96 H264/90000\r\na=fmtp:96 packetization-mode=1;profile-level-id="@
        + profile(sps);
    let b = "m=audio 0 RTP/AVP 97\r\na=rtpmap:97 MPEG4-GENERIC/16000/1\r\na=fmtp:97 streamtype=5; profile-level-id=1; mode=AAC-hbr; sizelength=13; indexlength=3; indexdeltalength=3; config="@
        + hex_of(AUDIO_SPECIFIC_CONFIG@);
    let c = if talk {
        sdp_backchannel(base)
    } else {
        Seq::empty()
    };
    let video = a + ";sprop-parameter-sets="@ + base64_of(sps) + ","@ + base64_of(pps)
        + "\r\na=control:"@ + base + "/trackID=0\r\n"@;
    assert(video == sdp_video(base, sps, pps));
    let audio = b + "\r\na=control:"@ + base + "/trackID=1\r\n"@;
    assert(audio == sdp_audio(base));
    assert(d == video + audio + c);
    assert(d =~= video + b + "\r\na=control:"@ + base + "/trackID=1\r\n"@ + c);
    if talk {
        let e = base + "/trackID=2\r\n"@;
        assert(d.subrange(d.len() - e.len(), d.len() as int) =~= e);
    }
    (a, b, c)
}

/// An answer says in its first line what came of the request, and gives the number of the request in
/// its second.
pub proof fn law_answers_give_the_number(
    cseq: Seq<char>,
    code: u16,
    reason: Seq<char>,
    extra: Seq<char>,
    body: Seq<char>,
)
    requires
        forall|i: int| 0 <= i < cseq.len() ==> #[trigger] cseq[i] != '\r',
        forall|i: int| 0 <= i < reason.len() ==> #[trigger] reason[i] != '\r',
    ensures
        ({
            let ls = pieces_by(status_text(cseq, code, reason, extra, body), "\r\n"@);
            &&& ls[0] == "RTSP/1.0 "@ + dec(code as nat) + " "@ + reason
            &&& ls[1] == "CSeq: "@ + cseq
        }),
{
    let t = status_text(cseq, code, reason, extra, body);
    let tail = if body.len() == 0 {
        "\r\n"@
    } else {
        "Content-Length: "@ + dec(encode_utf8(body).len()) + "\r\n\r\n"@ + body
    };
    let a = "RTSP/1.0 "@ + dec(code as nat) + " "@ + reason;
    let b = "CSeq: "@ + cseq;
    let rest = extra + tail;
    assert("\r\nCSeq: "@ =~= "\r\n"@ + "CSeq: "@) by {
        reveal_strlit("\r\nCSeq: ");
        reveal_strlit("\r\n");
        reveal_strlit("CSeq: ");
    }
    assert(t =~= a + "\r\n"@ + (b + "\r\n"@ + rest));
    lemma_dec_worth(code as nat);
    assert forall|i: int| 0 <= i < a.len() implies #[trigger] a[i] != '\r' by {
        reveal_strlit("RTSP/1.0 ");
        reveal_strlit(" ");
        let d = dec(code as nat);
        if 9 <= i < 9 + d.len() {
            assert(a[i] == d[i - 9]);
            assert(is_digit(d[i - 9]));
        } else if i > 9 + d.len() {
            assert(a[i] == reason[i - 10 - d.len()]);
        }
    }
    assert forall|i: int| 0 <= i < b.len() implies #[trigger] b[i] != '\r' by {
        reveal_strlit("CSeq: ");
        if i >= 6 {
            assert(b[i] == cseq[i - 6]);
        }
    }
    law_message_lines(a, b + "\r\n"@ + rest);
    law_message_lines(b, rest);
    let ls = pieces_by(t, "\r\n"@);
    assert(ls[0] == a);
    assert(ls[1] == pieces_by(b + "\r\n"@ + rest, "\r\n"@)[0]);
}

/// A session goes on after every request but the one that tears it down, and whatever is answered
/// carries the number of the request.
pub proof fn law_requests_are_answered(req: RequestView, id: Seq<char>)
    requires
        forall|i: int| 0 <= i < req.cseq.len() ==> #[trigger] req.cseq[i] != '\r',
    ensures
        step_of(req, id) is Finish <==> req.method == "TEARDOWN"@,
        step_of(req, id) is Play <==> req.method == "PLAY"@,
        step_of(req, id) is Describe <==> req.method == "DESCRIBE"@,
        match step_of(req, id) {
            StepView::Answer(t) => pieces_by(t, "\r\n"@)[1] == "CSeq: "@ + req.cseq,
            StepView::Finish(t) => pieces_by(t, "\r\n"@)[1] == "CSeq: "@ + req.cseq,
            StepView::Play(m) => m == mount_of(req.url),
            StepView::Describe(m) => m == mount_of(req.url),
        },
{
    let options = "Public: OPTIONS, DESCRIBE, SETUP, PLAY, TEARDOWN, GET_PARAMETER\r\n"@;
    let setup = "Transport: RTP/AVP/TCP;unicast;interleaved="@ + channels_of(track_of(req.url)) + "\r\n"@
        + session_line(id);
    reveal_strlit("OK");
    reveal_strlit("Unsupported Transport");
    reveal_strlit("Not Implemented");
    reveal_strlit("OPTIONS");
    reveal_strlit("DESCRIBE");
    reveal_strlit("SETUP");
    reveal_strlit("PLAY");
    reveal_strlit("TEARDOWN");
    reveal_strlit("GET_PARAMETER");
    assert("OPTIONS"@.len() == 7 && "DESCRIBE"@.len() == 8 && "SETUP"@.len() == 5 && "PLAY"@.len() == 4
        && "TEARDOWN"@.len() == 8 && "DESCRIBE"@[0] == 'D' && "TEARDOWN"@[0] == 'T');
    law_answers_give_the_number(req.cseq, 200, "OK"@, options, ""@);
    law_answers_give_the_number(req.cseq, 200, "OK"@, setup, ""@);
    law_answers_give_the_number(req.cseq, 200, "OK"@, session_line(id), ""@);
    law_answers_give_the_number(req.cseq, 461, "Unsupported Transport"@, ""@, ""@);
    law_answers_give_the_number(req.cseq, 501, "Not Implemented"@, ""@, ""@);
}

/// An address of a single segment is that of the main stream exactly where it is called so, in either
/// case, and leads to the other stream otherwise; what stands before a slash does not change that of
/// what follows.
pub proof fn law_mounts_are_named(head: Seq<char>, name: Seq<char>, rest: Seq<char>)
    requires
        forall|i: int| 0 <= i < head.len() ==> #[trigger] head[i] != '/',
        forall|i: int| 0 <= i < name.len() ==> #[trigger] name[i] != '/',
    ensures
        mount_of(name) == Mount::Main <==> same_ignoring_case(name, "main"@),
        mount_of(rest) == Mount::Main || same_ignoring_case(head, "main"@) <==> mount_of(
            head + seq!['/'] + rest,
        ) == Mount::Main,
{
    let p = Pat::Is('/');
    assert forall|i: int| 0 <= i < head.len() implies !p.has(#[trigger] head[i]) by {}
    assert forall|i: int| 0 <= i < name.len() implies !p.has(#[trigger] name[i]) by {}
    law_pieces(name, '/', rest, p);
    law_pieces(head, '/', rest, p);
    let all = pieces(head + seq!['/'] + rest, p);
    let ps = pieces(rest, p);
    assert(pieces(name, p)[0] == name);
    assert(all[0] == head);
    assert forall|i: int| 0 <= i < ps.len() implies #[trigger] all[i + 1] == ps[i] by {}
    if names_segment(rest, "main"@) {
        let i = choose|i: int| 0 <= i < ps.len() && same_ignoring_case(#[trigger] ps[i], "main"@);
        assert(all[i + 1] == ps[i]);
    }
    if names_segment(head + seq!['/'] + rest, "main"@) {
        let i = choose|i: int| 0 <= i < all.len() && same_ignoring_case(#[trigger] all[i], "main"@);
        if i > 0 {
            assert(all[i] == ps[i - 1]);
        }
    }
}

} // verus!
