//! What goes out while a session plays: access units cut into NAL units, NAL units into RTP
//! packets (RFC 6184), and microphone frames as RFC 3640 packets, each framed for the connection
//! that also carries the requests.

use vstd::prelude::*;
use vstd::slice::slice_subrange;

use crate::adts;
use crate::adts::{header_len_of, is_header};
use crate::bytes::{be16, be32, push_all, push_be16, push_be32};
use crate::rfc3640::{au_header_section, section, MAX_AU_SIZE};
use crate::ring::Frame;

verus! {

/// The payload type of the video.
pub const PAYLOAD_TYPE: u8 = 96;

/// The source of the video.
pub const SSRC: u32 = 0x4B42_4C44;

/// The largest payload of a packet.
pub const RTP_MTU: usize = 1400;

/// The payload type of the microphone.
pub const AUDIO_PAYLOAD_TYPE: u8 = 97;

/// The source of the microphone's stream.
pub const AUDIO_SSRC: u32 = 0x4B42_4C41;

/// The channels of the tracks on the connection.
pub const VIDEO_RTP_CHANNEL: u8 = 0;

pub const AUDIO_RTP_CHANNEL: u8 = 2;

pub const BACKCHANNEL_RTP_CHANNEL: u8 = 4;

/// The length of the start code at `i`, or zero where there is none. There are two: `00 00 01`, and
/// the same with one more zero ahead.
pub open spec fn code_len(data: Seq<u8>, i: int) -> int {
    if i + 3 <= data.len() && data[i] == 0 && data[i + 1] == 0 && data[i + 2] == 1 {
        3
    } else if i + 4 <= data.len() && data[i] == 0 && data[i + 1] == 0 && data[i + 2] == 0 && data[i
        + 3] == 1 {
        4
    } else {
        0
    }
}

/// The unit from `s` to `e`, where there is one.
pub open spec fn unit(data: Seq<u8>, s: Option<int>, e: int) -> Seq<Seq<u8>> {
    match s {
        Some(a) if a < e => seq![data.subrange(a, e)],
        _ => Seq::empty(),
    }
}

/// The units that end behind `i`, where the unit at hand starts at `s`.
pub open spec fn units_from(data: Seq<u8>, s: Option<int>, i: int) -> Seq<Seq<u8>>
    decreases data.len() - i,
{
    if i >= data.len() {
        unit(data, s, data.len() as int)
    } else if code_len(data, i) > 0 {
        unit(data, s, i) + units_from(data, Some(i + code_len(data, i)), i + code_len(data, i))
    } else {
        units_from(data, s, i + 1)
    }
}

/// The NAL units of an access unit: what stands between the start codes. Nothing before the first
/// start code counts, and no unit is empty.
pub open spec fn units(data: Seq<u8>) -> Seq<Seq<u8>> {
    units_from(data, None, 0)
}

pub open spec fn slices(v: Seq<&[u8]>) -> Seq<Seq<u8>> {
    v.map_values(|s: &[u8]| s@)
}

fn push_unit<'a>(out: &mut Vec<&'a [u8]>, data: &'a [u8], s: Option<usize>, e: usize)
    requires
        e <= data@.len(),
    ensures
        slices(final(out)@) == slices(old(out)@) + unit(
            data@,
            match s {
                Some(a) => Some(a as int),
                None => None,
            },
            e as int,
        ),
{
    let ghost done = out@;
    if let Some(a) = s {
        if a < e {
            let u: &'a [u8] = slice_subrange(data, a, e);
            out.push(u);
            assert(slices(out@) =~= slices(done) + seq![u@]);
            return ;
        }
    }
    assert(slices(out@) =~= slices(done) + Seq::<Seq<u8>>::empty());
}

/// Splits an access unit into its NAL units.
pub fn split_nal_units(data: &[u8]) -> (out: Vec<&[u8]>)
    ensures
        slices(out@) == units(data@),
{
    let mut out: Vec<&[u8]> = Vec::new();
    let mut start: Option<usize> = None;
    let ghost mut s: Option<int> = None;
    let n: usize = data.len();
    let mut i: usize = 0;
    assert(slices(out@) + units_from(data@, s, 0) =~= units(data@));
    while i < n
        invariant
            i <= n == data@.len(),
            s == (match start {
                Some(a) => Some(a as int),
                None => None::<int>,
            }),
            slices(out@) + units_from(data@, s, i as int) == units(data@),
        decreases n - i,
    {
        let len: usize = if n - i >= 3 && data[i] == 0 && data[i + 1] == 0 && data[i + 2] == 1 {
            3
        } else if n - i >= 4 && data[i] == 0 && data[i + 1] == 0 && data[i + 2] == 0 && data[i + 3]
            == 1 {
            4
        } else {
            0
        };
        assert(len == code_len(data@, i as int));
        if len > 0 {
            let ghost before = slices(out@);
            let ghost rest = units_from(data@, Some(i + len as int), i + len as int);
            assert(units_from(data@, s, i as int) == unit(data@, s, i as int) + rest);
            push_unit(&mut out, data, start, i);
            assert(slices(out@) + rest =~= before + (unit(data@, s, i as int) + rest));
            i = i + len;
            start = Some(i);
            proof {
                s = Some(i as int);
            }
        } else {
            i = i + 1;
        }
    }
    push_unit(&mut out, data, start, n);
    out
}

/// The type of a unit.
pub open spec fn is_type(u: Seq<u8>, nal_type: u8) -> bool {
    u.len() > 0 && u[0] % 32 == nal_type
}

/// The first unit of a type at or behind `i`.
pub open spec fn first_of_type(us: Seq<Seq<u8>>, nal_type: u8, i: int) -> Option<Seq<u8>>
    decreases us.len() - i,
{
    if i < 0 || i >= us.len() {
        None
    } else if is_type(us[i], nal_type) {
        Some(us[i])
    } else {
        first_of_type(us, nal_type, i + 1)
    }
}

/// The first unit of a type.
pub fn find_nal_by_type<'a>(nals: &Vec<&'a [u8]>, nal_type: u8) -> (r: Option<&'a [u8]>)
    ensures
        match r {
            Some(u) => first_of_type(slices(nals@), nal_type, 0) == Some(u@),
            None => first_of_type(slices(nals@), nal_type, 0) is None,
        },
{
    let ghost us = slices(nals@);
    let mut i: usize = 0;
    while i < nals.len()
        invariant
            i <= nals@.len(),
            us == slices(nals@),
            first_of_type(us, nal_type, 0) == first_of_type(us, nal_type, i as int),
        decreases nals@.len() - i,
    {
        let u: &'a [u8] = nals[i];
        assert(us[i as int] == u@);
        if u.len() > 0 && u[0] % 32 == nal_type {
            return Some(u);
        }
        i = i + 1;
    }
    None
}

/// How much of a unit a fragment carries.
pub const CHUNK: usize = 1398;

/// Where the part of fragment `i` ends in what follows the unit's first byte.
pub open spec fn part_end(len: int, i: int) -> int {
    if (i + 1) * CHUNK < len {
        (i + 1) * CHUNK
    } else {
        len
    }
}

/// How many fragments a unit with `len` bytes behind its first takes.
pub open spec fn part_count(len: int) -> int {
    (len + CHUNK - 1) / CHUNK as int
}

/// Fragment `i` of a unit: the kind of unit and whether it is the first or the last, then its part.
pub open spec fn fragment(nal: Seq<u8>, i: int) -> Seq<u8> {
    let len = nal.len() - 1;
    seq![
        (nal[0] / 32 * 32 + 28) as u8,
        (nal[0] % 32 + (if i == 0 {
            128int
        } else {
            0
        }) + (if part_end(len, i) == len {
            64int
        } else {
            0
        })) as u8,
    ] + nal.subrange(1 + i * CHUNK, 1 + part_end(len, i))
}

/// The payloads that carry a unit: the unit itself where it fits, else its fragments.
pub open spec fn fragments(nal: Seq<u8>) -> Seq<Seq<u8>> {
    if nal.len() == 0 {
        Seq::empty()
    } else if nal.len() <= RTP_MTU {
        seq![nal]
    } else {
        Seq::new(part_count(nal.len() - 1) as nat, |i: int| fragment(nal, i))
    }
}

pub open spec fn byte_views(v: Seq<Vec<u8>>) -> Seq<Seq<u8>> {
    v.map_values(|b: Vec<u8>| b@)
}

/// Cuts a unit into payloads.
pub fn fragment_nal(nal: &[u8]) -> (out: Vec<Vec<u8>>)
    ensures
        byte_views(out@) == fragments(nal@),
{
    let mut out: Vec<Vec<u8>> = Vec::new();
    if nal.len() == 0 {
        assert(byte_views(out@) =~= fragments(nal@));
        return out;
    }
    if nal.len() <= RTP_MTU {
        let mut whole: Vec<u8> = Vec::new();
        push_all(&mut whole, nal);
        assert(whole@ =~= nal@);
        out.push(whole);
        assert(byte_views(out@) =~= fragments(nal@));
        return out;
    }
    let ghost len = nal@.len() - 1;
    let total: usize = nal.len() - 1;
    let mut at: usize = 0;
    while at < total
        invariant
            at <= total,
            total == len == nal@.len() - 1,
            total >= RTP_MTU,
            at == out@.len() * CHUNK || at == total,
            at == total ==> out@.len() == part_count(len),
            at < total ==> at == out@.len() * CHUNK && out@.len() < part_count(len),
            out@.len() <= part_count(len),
            forall|j: int| 0 <= j < out@.len() ==> (#[trigger] out@[j])@ == fragment(nal@, j),
        decreases total - at,
    {
        let ghost k = out@.len() as int;
        let last: bool = total - at <= CHUNK;
        let end: usize = if last {
            total
        } else {
            at + CHUNK
        };
        assert(end == part_end(len, k)) by (nonlinear_arith)
            requires
                at == k * CHUNK,
                at < total,
                total == len,
                last == (total - at <= CHUNK),
                end == (if last {
                    total as int
                } else {
                    at + CHUNK
                }),
                part_end(len, k) == (if (k + 1) * CHUNK < len {
                    (k + 1) * CHUNK
                } else {
                    len
                }),
        ;
        let mut p: Vec<u8> = Vec::new();
        p.push(nal[0] / 32 * 32 + 28);
        let kind: u8 = nal[0] % 32;
        let first_bit: u8 = if at == 0 {
            128
        } else {
            0
        };
        let last_bit: u8 = if last {
            64
        } else {
            0
        };
        assert((at == 0) == (k == 0)) by (nonlinear_arith)
            requires
                at == k * CHUNK,
        ;
        p.push(kind + first_bit + last_bit);
        push_all(&mut p, slice_subrange(nal, at + 1, end + 1));
        assert(p@ =~= fragment(nal@, k));
        out.push(p);
        proof {
            lemma_part_count(len, k, end as int);
        }
        at = end;
    }
    assert(byte_views(out@) =~= fragments(nal@));
    out
}

proof fn lemma_part_count(len: int, k: int, end: int)
    requires
        0 <= k,
        k * CHUNK < len,
        end == part_end(len, k),
    ensures
        end == len ==> part_count(len) == k + 1,
        end < len ==> end == (k + 1) * CHUNK && k + 1 < part_count(len),
{
    assert((k + 1) * CHUNK == k * CHUNK + CHUNK) by (nonlinear_arith);
    if end == len {
        assert(part_count(len) == k + 1) by {
            vstd::arithmetic::div_mod::lemma_fundamental_div_mod_converse(
                len + CHUNK - 1,
                CHUNK as int,
                k + 1,
                len - 1 - k * CHUNK,
            );
        }
    } else {
        let q = part_count(len);
        vstd::arithmetic::div_mod::lemma_fundamental_div_mod(len + CHUNK - 1, CHUNK as int);
        if q <= k + 1 {
            assert(CHUNK * q <= CHUNK * (k + 1)) by (nonlinear_arith)
                requires
                    q <= k + 1,
            ;
            assert(CHUNK * (k + 1) == (k + 1) * CHUNK) by (nonlinear_arith);
        }
    }
}

/// An RTP packet.
pub open spec fn rtp_packet(
    payload_type: u8,
    payload: Seq<u8>,
    seq: u16,
    rtp_ts: u32,
    ssrc: u32,
    marker: bool,
) -> Seq<u8> {
    seq![
        0x80u8,
        (if marker {
            0x80u8
        } else {
            0u8
        }) | payload_type,
    ] + be16(seq as nat) + be32(rtp_ts as nat) + be32(ssrc as nat) + payload
}

pub fn build_rtp_packet(
    payload_type: u8,
    payload: &[u8],
    seq: u16,
    rtp_ts: u32,
    ssrc: u32,
    marker: bool,
) -> (pkt: Vec<u8>)
    ensures
        pkt@ == rtp_packet(payload_type, payload@, seq, rtp_ts, ssrc, marker),
{
    let mut pkt: Vec<u8> = Vec::new();
    let bit: u8 = if marker {
        0x80
    } else {
        0
    };
    pkt.push(0x80);
    pkt.push(bit | payload_type);
    assert(pkt@ =~= seq![0x80u8, bit | payload_type]);
    push_be16(&mut pkt, seq);
    push_be32(&mut pkt, rtp_ts);
    push_be32(&mut pkt, ssrc);
    push_all(&mut pkt, payload);
    pkt
}

/// Bytes framed for a channel of the connection. The length is that of the bytes modulo 65536.
pub open spec fn framed(channel: u8, data: Seq<u8>) -> Seq<u8> {
    seq![36u8, channel] + be16(data.len() % 65536) + data
}

pub fn interleaved_frame(channel: u8, data: &[u8]) -> (out: Vec<u8>)
    ensures
        out@ == framed(channel, data@),
{
    let mut out: Vec<u8> = Vec::new();
    out.push(36);
    out.push(channel);
    assert(out@ =~= seq![36u8, channel]);
    push_be16(&mut out, (data.len() % 65536) as u16);
    push_all(&mut out, data);
    out
}

/// The sequence number `n` packets on.
pub open spec fn seq_after(seq: u16, n: nat) -> u16 {
    ((seq + n) % 65536) as u16
}

/// The packets of a NAL unit. The last one is marked where the unit ends an access unit.
pub open spec fn nal_packets(nal: Seq<u8>, seq: u16, rtp_ts: u32, ends_unit: bool) -> Seq<Seq<u8>> {
    let parts = fragments(nal);
    Seq::new(
        parts.len(),
        |i: int|
            framed(
                VIDEO_RTP_CHANNEL,
                rtp_packet(
                    PAYLOAD_TYPE,
                    parts[i],
                    seq_after(seq, i as nat),
                    rtp_ts,
                    SSRC,
                    i == parts.len() - 1 && ends_unit,
                ),
            ),
    )
}

/// One packet of the video, framed for its channel.
fn video_packet(part: &[u8], seq: u16, rtp_ts: u32, marker: bool) -> (f: Vec<u8>)
    ensures
        f@ == framed(
            VIDEO_RTP_CHANNEL,
            rtp_packet(PAYLOAD_TYPE, part@, seq, rtp_ts, SSRC, marker),
        ),
{
    let pkt: Vec<u8> = build_rtp_packet(PAYLOAD_TYPE, part, seq, rtp_ts, SSRC, marker);
    interleaved_frame(VIDEO_RTP_CHANNEL, pkt.as_slice())
}

/// Sends a NAL unit: gives its packets and moves the sequence number on.
#[verifier::rlimit(40)]
pub fn send_nal(nal: &[u8], seq: &mut u16, rtp_ts: u32, marker_on_last: bool, out: &mut Vec<Vec<u8>>)
    ensures
        byte_views(final(out)@) == byte_views(old(out)@) + nal_packets(
            nal@,
            *old(seq),
            rtp_ts,
            marker_on_last,
        ),
        *final(seq) == seq_after(*old(seq), fragments(nal@).len()),
{
    let parts: Vec<Vec<u8>> = fragment_nal(nal);
    let ghost start = byte_views(out@);
    let ghost first = *seq;
    let ghost all = nal_packets(nal@, first, rtp_ts, marker_on_last);
    let mut i: usize = 0;
    assert(start =~= start + all.subrange(0, 0));
    while i < parts.len()
        invariant
            i <= parts@.len() == all.len(),
            byte_views(parts@) == fragments(nal@),
            all == nal_packets(nal@, first, rtp_ts, marker_on_last),
            *seq == seq_after(first, i as nat),
            byte_views(out@) == start + all.subrange(0, i as int),
        decreases parts@.len() - i,
    {
        let marker: bool = i == parts.len() - 1 && marker_on_last;
        let ghost done = out@;
        assert(byte_views(parts@)[i as int] == parts@[i as int]@);
        let f: Vec<u8> = video_packet(parts[i].as_slice(), *seq, rtp_ts, marker);
        assert(f@ == all[i as int]);
        *seq = (*seq).wrapping_add(1);
        assert(*seq == seq_after(first, (i + 1) as nat));
        let ghost fv = f@;
        out.push(f);
        assert(byte_views(out@) =~= byte_views(done).push(fv));
        i = i + 1;
        assert(byte_views(out@) =~= start + all.subrange(0, i as int));
    }
    assert(all.subrange(0, i as int) =~= all);
}

/// The timestamp of a frame on a clock of `rate` ticks per second.
pub open spec fn rtp_time(pts_us: u32, rate: int) -> u32 {
    (pts_us * rate / 1_000_000) as u32
}

/// How many packets the first `n` units take.
pub open spec fn packet_count(us: Seq<Seq<u8>>, n: int) -> nat
    decreases n,
{
    if n <= 0 {
        0
    } else {
        packet_count(us, n - 1) + fragments(us[n - 1]).len()
    }
}

/// The packets of the first `n` units of an access unit.
pub open spec fn unit_packets(us: Seq<Seq<u8>>, seq: u16, rtp_ts: u32, n: int) -> Seq<Seq<u8>>
    decreases n,
{
    if n <= 0 {
        Seq::empty()
    } else {
        unit_packets(us, seq, rtp_ts, n - 1) + nal_packets(
            us[n - 1],
            seq_after(seq, packet_count(us, n - 1)),
            rtp_ts,
            n == us.len(),
        )
    }
}

/// The packets of an access unit, stamped with its time on a clock of 90 kHz.
pub open spec fn video_packets(data: Seq<u8>, pts_us: u32, seq: u16) -> Seq<Seq<u8>> {
    unit_packets(units(data), seq, rtp_time(pts_us, 90_000), units(data).len() as int)
}

/// Sends an access unit: gives the packets of its NAL units, the last of them marked, and moves the
/// sequence number on.
#[verifier::rlimit(40)]
pub fn send_access_unit(frame: &Frame, seq: &mut u16) -> (out: Vec<Vec<u8>>)
    ensures
        byte_views(out@) == video_packets(frame.data@, frame.pts_us, *old(seq)),
        *final(seq) == seq_after(
            *old(seq),
            video_packets(frame.data@, frame.pts_us, *old(seq)).len(),
        ),
{
    let rtp_ts: u32 = (frame.pts_us as u64 * 90_000 / 1_000_000) as u32;
    let nals: Vec<&[u8]> = split_nal_units(frame.data.as_slice());
    let ghost us = slices(nals@);
    let ghost first = *seq;
    let mut out: Vec<Vec<u8>> = Vec::new();
    let mut i: usize = 0;
    assert(byte_views(out@) =~= Seq::<Seq<u8>>::empty());
    while i < nals.len()
        invariant
            i <= nals@.len() == us.len(),
            us == slices(nals@),
            byte_views(out@) == unit_packets(us, first, rtp_ts, i as int),
            *seq == seq_after(first, packet_count(us, i as int)),
        decreases nals@.len() - i,
    {
        let ghost before = *seq;
        assert(us[i as int] == nals@[i as int]@);
        send_nal(nals[i], seq, rtp_ts, i == nals.len() - 1, &mut out);
        proof {
            let a = packet_count(us, i as int);
            let b = fragments(us[i as int]).len();
            assert(seq_after(seq_after(first, a), b) == seq_after(first, a + b));
        }
        i = i + 1;
    }
    proof {
        lemma_packet_count(us, first, rtp_ts, us.len() as int);
    }
    out
}

proof fn lemma_packet_count(us: Seq<Seq<u8>>, seq: u16, rtp_ts: u32, n: int)
    requires
        0 <= n <= us.len(),
    ensures
        unit_packets(us, seq, rtp_ts, n).len() == packet_count(us, n),
    decreases n,
{
    if n > 0 {
        lemma_packet_count(us, seq, rtp_ts, n - 1);
    }
}

/// The payload that carries a microphone frame: its size, then what follows its ADTS header.
pub open spec fn audio_payload(data: Seq<u8>) -> Seq<u8> {
    let raw = data.subrange(header_len_of(data) as int, data.len() as int);
    section(
        if raw.len() < MAX_AU_SIZE {
            raw.len()
        } else {
            MAX_AU_SIZE as nat
        },
    ) + raw
}

/// The packet of a microphone frame.
pub open spec fn audio_packet(data: Seq<u8>, pts_us: u32, seq: u16) -> Seq<u8> {
    framed(
        AUDIO_RTP_CHANNEL,
        rtp_packet(
            AUDIO_PAYLOAD_TYPE,
            audio_payload(data),
            seq,
            rtp_time(pts_us, 16_000),
            AUDIO_SSRC,
            true,
        ),
    )
}

/// Sends a microphone frame: gives its packet and moves the sequence number on. A frame without an
/// ADTS header is dropped.
pub fn send_audio_frame(data: &[u8], pts_us: u32, seq: &mut u16) -> (r: Option<Vec<u8>>)
    ensures
        match r {
            Some(p) => is_header(data@) && p@ == audio_packet(data@, pts_us, *old(seq))
                && *final(seq) == seq_after(*old(seq), 1),
            None => !is_header(data@) && *final(seq) == *old(seq),
        },
{
    let header_len: usize = match adts::parse(data) {
        Some(h) => h.header_len,
        None => return None,
    };
    let raw: &[u8] = slice_subrange(data, header_len, data.len());
    let size: u16 = if raw.len() < MAX_AU_SIZE as usize {
        raw.len() as u16
    } else {
        MAX_AU_SIZE
    };
    let head: [u8; 4] = au_header_section(size);
    let mut payload: Vec<u8> = Vec::new();
    payload.push(head[0]);
    payload.push(head[1]);
    payload.push(head[2]);
    payload.push(head[3]);
    assert(payload@ =~= head@);
    push_all(&mut payload, raw);
    let rtp_ts: u32 = (pts_us as u64 * 16_000 / 1_000_000) as u32;
    let pkt: Vec<u8> = build_rtp_packet(
        AUDIO_PAYLOAD_TYPE,
        payload.as_slice(),
        *seq,
        rtp_ts,
        AUDIO_SSRC,
        true,
    );
    *seq = (*seq).wrapping_add(1);
    Some(interleaved_frame(AUDIO_RTP_CHANNEL, pkt.as_slice()))
}

} // verus!
