//! The vendor's frame ring: finding records, walking them in order, and the latest frame.
//!
//! The ring is a table of readers and then records back to back: a header of 56 bytes and the
//! payload. There is no signal for a new record, so a walker polls: it takes the record at its
//! cursor where that is valid and its sequence number follows the last one, and where it has been
//! stuck for a while it looks for the next start code with a valid header before it.

use vstd::prelude::*;
use vstd::slice::{slice_subrange, slice_to_vec};

use crate::bytes::{le32, le32_at, lemma_le32, read_le32};

verus! {

/// The least size of the ring.
pub const RING_LEN: usize = 8_389_608;

/// Where the records start.
pub const DATA_START: usize = 1024;

/// The length of a record's header.
pub const HDR: usize = 56;

pub const CHAN_MAIN: u8 = 4;

pub const CHAN_SUB: u8 = 8;

pub const CHAN_THUMB: u8 = 16;

pub const CHAN_AUDIO: u8 = 1;

/// The frame type of a keyframe.
pub const FRAME_KEYFRAME: u8 = 1;

/// The longest payload that is taken for one.
pub const MAX_RECORD: u32 = 2_000_000;

/// How long, in milliseconds, a walker may find nothing before it looks for a new place.
pub const STALL_RESYNC_AFTER: u64 = 400;

/// How much of the ring may accumulate before it is given back.
pub const ADVISE_CHUNK: usize = 524288;

pub const PAGE_SIZE: usize = 4096;

/// One record's header.
#[derive(Clone, Copy, PartialEq, Eq, Debug, Structural)]
pub struct Header {
    pub seq: u32,
    pub length: u32,
    pub pts_us: u32,
    pub frame_type: u8,
    pub chan: u8,
}

pub open spec fn known_channel(chan: u8) -> bool {
    chan == CHAN_AUDIO || chan == CHAN_MAIN || chan == CHAN_SUB || chan == CHAN_THUMB
}

/// The fields at `off`.
pub open spec fn fields_at(b: Seq<u8>, off: int) -> Header {
    Header {
        seq: le32_at(b, off) as u32,
        length: le32_at(b, off + 4) as u32,
        pts_us: le32_at(b, off + 16) as u32,
        frame_type: b[off + 32],
        chan: b[off + 34],
    }
}

/// The header of the record at `off`: it must have a sane length and a known channel, and the
/// whole record must lie inside the buffer.
pub open spec fn header_at(b: Seq<u8>, off: int) -> Option<Header> {
    if 0 <= off && off + HDR <= b.len() && 1 <= fields_at(b, off).length <= MAX_RECORD
        && known_channel(fields_at(b, off).chan) && off + HDR + fields_at(b, off).length <= b.len() {
        Some(fields_at(b, off))
    } else {
        None
    }
}

/// Parse and structurally validate a record header at `off`.
pub fn parse_header(buf: &[u8], off: usize) -> (r: Option<Header>)
    ensures
        r == header_at(buf@, off as int),
        r matches Some(h) ==> 1 <= h.length <= MAX_RECORD && off + HDR + h.length <= buf.len(),
{
    if buf.len() < HDR || off > buf.len() - HDR {
        return None;
    }
    let seq: u32 = read_le32(buf, off);
    let length: u32 = read_le32(buf, off + 4);
    let pts_us: u32 = read_le32(buf, off + 16);
    let frame_type: u8 = buf[off + 32];
    let chan: u8 = buf[off + 34];
    if length < 1 || length > MAX_RECORD {
        return None;
    }
    if !(chan == CHAN_AUDIO || chan == CHAN_MAIN || chan == CHAN_SUB || chan == CHAN_THUMB) {
        return None;
    }
    if length as usize > buf.len() - HDR - off {
        return None;
    }
    Some(Header { seq, length, pts_us, frame_type, chan })
}

/// Whether a start code stands at `i` with a valid header right before it.
pub open spec fn is_hit(b: Seq<u8>, i: int) -> bool {
    b[i] == 0 && b[i + 1] == 0 && b[i + 2] == 0 && b[i + 3] == 1 && i >= HDR && header_at(
        b,
        i - HDR,
    ) is Some
}

/// The header before the first hit that lies in `i..to`.
pub open spec fn hit_in(b: Seq<u8>, i: int, to: int) -> Option<int>
    decreases to - i,
{
    if i + 4 > to || to > b.len() || i < 0 {
        None
    } else if is_hit(b, i) {
        Some(i - HDR)
    } else {
        hit_in(b, i + 1, to)
    }
}

/// Where the search starts: inside the records.
pub open spec fn search_start(b: Seq<u8>, from: int) -> int {
    if from < DATA_START {
        DATA_START as int
    } else if from > b.len() {
        b.len() as int
    } else {
        from
    }
}

/// The next header from `from` on, once round the ring.
pub open spec fn next_header(b: Seq<u8>, from: int) -> Option<int> {
    let start = search_start(b, from);
    match hit_in(b, start, b.len() as int) {
        Some(p) => Some(p),
        None => hit_in(b, DATA_START as int, start),
    }
}

pub fn scan_range(buf: &[u8], from: usize, to: usize) -> (r: Option<usize>)
    ensures
        match r {
            Some(p) => hit_in(buf@, from as int, to as int) == Some(p as int) && p + HDR + 4
                <= to <= buf@.len(),
            None => hit_in(buf@, from as int, to as int) is None,
        },
{
    if to < 4 || from > to - 4 || to > buf.len() {
        return None;
    }
    let last: usize = to - 4;
    let mut i: usize = from;
    loop
        invariant
            i <= last,
            last + 4 == to,
            to <= buf@.len(),
            hit_in(buf@, from as int, to as int) == hit_in(buf@, i as int, to as int),
        decreases last - i,
    {
        if buf[i] == 0 && buf[i + 1] == 0 && buf[i + 2] == 0 && buf[i + 3] == 1 && i >= HDR {
            if parse_header(buf, i - HDR).is_some() {
                return Some(i - HDR);
            }
        }
        assert(!is_hit(buf@, i as int));
        if i == last {
            assert(hit_in(buf@, i + 1, to as int) is None);
            return None;
        }
        i = i + 1;
    }
}

/// Scan forward from `from` for the next start code with a valid header before it; wraps once.
pub fn find_next_header(buf: &[u8], from: usize) -> (r: Option<usize>)
    requires
        buf@.len() >= DATA_START,
    ensures
        match r {
            Some(p) => next_header(buf@, from as int) == Some(p as int) && p <= buf@.len(),
            None => next_header(buf@, from as int) is None,
        },
{
    let start: usize = if from < DATA_START {
        DATA_START
    } else if from > buf.len() {
        buf.len()
    } else {
        from
    };
    match scan_range(buf, start, buf.len()) {
        Some(p) => Some(p),
        None => scan_range(buf, DATA_START, start),
    }
}

/// What is found is a valid header with a start code behind it.
pub proof fn law_search_finds_headers(b: Seq<u8>, from: int)
    ensures
        next_header(b, from) matches Some(p) ==> p >= 0 && header_at(b, p) is Some && b[p + 56] == 0
            && b[p + 57] == 0 && b[p + 58] == 0 && b[p + 59] == 1,
{
    let start = search_start(b, from);
    lemma_hit_in(b, start, b.len() as int);
    lemma_hit_in(b, DATA_START as int, start);
}

proof fn lemma_hit_in(b: Seq<u8>, i: int, to: int)
    ensures
        hit_in(b, i, to) matches Some(p) ==> i <= p + HDR && p + HDR + 4 <= to && is_hit(b, p + HDR)
            && forall|j: int| i <= j < p + HDR ==> !is_hit(b, j),
        hit_in(b, i, to) is None && 0 <= i && to <= b.len() ==> forall|j: int|
            i <= j && j + 4 <= to ==> !is_hit(b, j),
    decreases to - i,
{
    if i + 4 <= to && to <= b.len() && i >= 0 && !is_hit(b, i) {
        lemma_hit_in(b, i + 1, to);
    }
}

/// A hit anywhere among the records is found, wherever the search starts.
pub proof fn law_search_misses_nothing(b: Seq<u8>, from: int, k: int)
    requires
        b.len() >= DATA_START,
        DATA_START <= k,
        k + 4 <= b.len(),
        is_hit(b, k),
        !(k < search_start(b, from) < k + 4),
    ensures
        next_header(b, from) is Some,
{
    let start = search_start(b, from);
    lemma_hit_in(b, start, b.len() as int);
    lemma_hit_in(b, DATA_START as int, start);
}

/// Whether enough of the ring has been read since the last time to give it back: the new mark and
/// the range to give back.
pub open spec fn advice(advised_upto: nat, next_pos: nat, ring_len: nat) -> (
    nat,
    Option<(nat, nat)>,
) {
    if next_pos < advised_upto {
        (DATA_START as nat, Some((advised_upto, ring_len)))
    } else if next_pos - advised_upto >= ADVISE_CHUNK {
        (next_pos, Some((advised_upto, next_pos)))
    } else {
        (advised_upto, None)
    }
}

pub fn advise_plan(advised_upto: usize, next_pos: usize, ring_len: usize) -> (r: (
    usize,
    Option<(usize, usize)>,
))
    ensures
        r.0 == advice(advised_upto as nat, next_pos as nat, ring_len as nat).0,
        match r.1 {
            Some((a, b)) => advice(advised_upto as nat, next_pos as nat, ring_len as nat).1 == Some(
                (a as nat, b as nat),
            ),
            None => advice(advised_upto as nat, next_pos as nat, ring_len as nat).1 is None,
        },
{
    if next_pos >= advised_upto {
        if next_pos - advised_upto >= ADVISE_CHUNK {
            (next_pos, Some((advised_upto, next_pos)))
        } else {
            (advised_upto, None)
        }
    } else {
        (DATA_START, Some((advised_upto, ring_len)))
    }
}

/// What is read and not given back stays under one chunk.
pub proof fn law_unreturned_part_is_bounded(advised_upto: nat, next_pos: nat, ring_len: nat)
    requires
        next_pos >= DATA_START,
    ensures
        ({
            let (upto, range) = advice(advised_upto, next_pos, ring_len);
            next_pos >= advised_upto ==> next_pos - upto < ADVISE_CHUNK
        }),
{
}

/// The whole pages inside a range.
pub fn whole_pages(from: usize, to: usize) -> (r: Option<(usize, usize)>)
    ensures
        match r {
            Some((a, b)) => {
                &&& from <= a < b <= to
                &&& a % PAGE_SIZE == 0
                &&& b % PAGE_SIZE == 0
                &&& a - from < PAGE_SIZE
                &&& to - b < PAGE_SIZE
            },
            None => forall|p: int|
                #![trigger p * 4096]
                !(from <= p * 4096 && p * 4096 + 4096 <= to),
        },
{
    let last: usize = to / PAGE_SIZE;
    let first: usize = from / PAGE_SIZE + if from % PAGE_SIZE == 0 {
        0
    } else {
        1
    };
    if first < last {
        Some((first * PAGE_SIZE, last * PAGE_SIZE))
    } else {
        None
    }
}

/// Cursor and validation state of one walk through the ring.
pub struct Walker {
    pub next_pos: usize,
    pub prev_seq: Option<u32>,
    pub advised_upto: usize,
    /// Since when, in milliseconds, nothing new has come.
    pub stalled_since: Option<u64>,
}

/// Whether a sequence number follows the last one.
pub open spec fn follows(prev: Option<u32>, seq: u32) -> bool {
    match prev {
        None => true,
        Some(s) => seq == s.wrapping_add(1),
    }
}

/// The place behind the chain of records that starts at `pos`, and the last number in it.
pub open spec fn chain_end(b: Seq<u8>, pos: int, prev: Option<u32>) -> (int, Option<u32>)
    decreases b.len() - pos,
{
    match header_at(b, pos) {
        Some(h) => if follows(prev, h.seq) {
            chain_end(b, pos + HDR + h.length, Some(h.seq))
        } else {
            (pos, prev)
        },
        None => (pos, prev),
    }
}

/// Where a step looks: at the start where the cursor is too close to the end.
pub open spec fn cursor(b: Seq<u8>, next_pos: usize) -> usize {
    if next_pos + HDR > b.len() {
        DATA_START
    } else {
        next_pos
    }
}

impl Walker {
    pub fn new() -> (w: Walker)
        ensures
            w.next_pos == DATA_START,
            w.prev_seq is None,
            w.advised_upto == DATA_START,
            w.stalled_since is None,
    {
        Walker {
            next_pos: DATA_START,
            prev_seq: None,
            advised_upto: DATA_START,
            stalled_since: None,
        }
    }

    fn in_order(&self, seq: u32) -> (r: bool)
        ensures
            r == follows(self.prev_seq, seq),
    {
        match self.prev_seq {
            None => true,
            Some(s) => seq == s.wrapping_add(1),
        }
    }

    /// Goes past the chain of records that the ring starts with, to where the writer is.
    pub fn seed(&mut self, buf: &[u8])
        requires
            buf@.len() >= DATA_START,
        ensures
            ({
                let start = match next_header(buf@, DATA_START as int) {
                    Some(p) => p,
                    None => DATA_START as int,
                };
                (final(self).next_pos as int, final(self).prev_seq) == chain_end(buf@, start, None)
            }),
            final(self).advised_upto == DATA_START,
            final(self).stalled_since == old(self).stalled_since,
    {
        let mut pos: usize = match find_next_header(buf, DATA_START) {
            Some(p) => p,
            None => DATA_START,
        };
        let ghost start = pos as int;
        self.prev_seq = None;
        loop
            invariant_except_break
                pos <= buf@.len(),
                self.stalled_since == old(self).stalled_since,
                chain_end(buf@, start, None) == chain_end(buf@, pos as int, self.prev_seq),
            ensures
                self.stalled_since == old(self).stalled_since,
                chain_end(buf@, start, None) == (pos as int, self.prev_seq),
            decreases buf@.len() - pos,
        {
            match parse_header(buf, pos) {
                Some(h) if self.in_order(h.seq) => {
                    self.prev_seq = Some(h.seq);
                    pos = pos + HDR + h.length as usize;
                },
                _ => break,
            }
        }
        self.next_pos = pos;
        self.advised_upto = DATA_START;
    }

    /// Tries to take one more record. `None` means that there is nothing new, which is normal
    /// between frames; after [`STALL_RESYNC_AFTER`] of that the walker looks for a new place.
    pub fn step(&mut self, buf: &[u8], now_ms: u64) -> (r: Option<(Header, usize)>)
        requires
            buf@.len() >= DATA_START,
        ensures
            final(self).advised_upto == old(self).advised_upto,
            ({
                let at = cursor(buf@, old(self).next_pos);
                let h = header_at(buf@, at as int);
                if h is Some && follows(old(self).prev_seq, h->0.seq) {
                    &&& r == Some((h->0, (at + HDR) as usize))
                    &&& final(self).next_pos == at + HDR + h->0.length
                    &&& final(self).prev_seq == Some(h->0.seq)
                    &&& final(self).stalled_since is None
                } else {
                    let since = match old(self).stalled_since {
                        Some(t) => t,
                        None => now_ms,
                    };
                    &&& r is None
                    &&& if now_ms - since >= STALL_RESYNC_AFTER {
                        &&& final(self).stalled_since is None
                        &&& match next_header(buf@, at as int) {
                            Some(p) => final(self).next_pos == p && final(self).prev_seq is None,
                            None => final(self).next_pos == at && final(self).prev_seq == old(
                                self,
                            ).prev_seq,
                        }
                    } else {
                        &&& final(self).stalled_since == Some(since)
                        &&& final(self).next_pos == at
                        &&& final(self).prev_seq == old(self).prev_seq
                    }
                }
            }),
    {
        if buf.len() < HDR || self.next_pos > buf.len() - HDR {
            self.next_pos = DATA_START;
        }
        if let Some(h) = parse_header(buf, self.next_pos) {
            if self.in_order(h.seq) {
                let payload_off: usize = self.next_pos + HDR;
                self.prev_seq = Some(h.seq);
                self.next_pos = payload_off + h.length as usize;
                self.stalled_since = None;
                return Some((h, payload_off));
            }
        }
        let since: u64 = match self.stalled_since {
            Some(t) => t,
            None => now_ms,
        };
        if now_ms.saturating_sub(since) >= STALL_RESYNC_AFTER {
            if let Some(p) = find_next_header(buf, self.next_pos) {
                self.next_pos = p;
                self.prev_seq = None;
            }
            self.stalled_since = None;
        } else {
            self.stalled_since = Some(since);
        }
        None
    }

    /// The range to give back now, if any.
    pub fn maybe_advise(&mut self, ring_len: usize) -> (r: Option<(usize, usize)>)
        ensures
            final(self).next_pos == old(self).next_pos,
            final(self).prev_seq == old(self).prev_seq,
            final(self).stalled_since == old(self).stalled_since,
            ({
                let (upto, range) = advice(
                    old(self).advised_upto as nat,
                    old(self).next_pos as nat,
                    ring_len as nat,
                );
                &&& final(self).advised_upto == upto
                &&& match r {
                    Some((a, b)) => range == Some((a as nat, b as nat)),
                    None => range is None,
                }
            }),
    {
        let (upto, range) = advise_plan(self.advised_upto, self.next_pos, ring_len);
        self.advised_upto = upto;
        range
    }
}

/// One access unit: the payload of a record as it stands.
pub struct Frame {
    pub pts_us: u32,
    pub keyframe: bool,
    pub data: Vec<u8>,
}

pub struct FrameView {
    pub pts_us: u32,
    pub keyframe: bool,
    pub data: Seq<u8>,
}

impl View for Frame {
    type V = FrameView;

    open spec fn view(&self) -> FrameView {
        FrameView { pts_us: self.pts_us, keyframe: self.keyframe, data: self.data@ }
    }
}

impl Clone for Frame {
    fn clone(&self) -> (f: Frame)
        ensures
            f@ == self@,
    {
        Frame {
            pts_us: self.pts_us,
            keyframe: self.keyframe,
            data: slice_to_vec(self.data.as_slice()),
        }
    }
}

/// What of an optional frame counts.
pub open spec fn frame_view(f: Option<Frame>) -> Option<FrameView> {
    match f {
        Some(x) => Some(x@),
        None => None,
    }
}

/// The frame of channel `chan` whose header is `h` and whose bytes stand at `payload_off`.
pub open spec fn frame_in(b: Seq<u8>, h: Header, payload_off: int, chan: u8) -> Option<FrameView> {
    if h.chan == chan {
        Some(
            FrameView {
                pts_us: h.pts_us,
                keyframe: h.frame_type == FRAME_KEYFRAME,
                data: b.subrange(payload_off, payload_off + h.length),
            },
        )
    } else {
        None
    }
}

/// The frame that a record of channel `chan` holds; other channels' records hold none for it.
pub fn frame_of(buf: &[u8], h: &Header, payload_off: usize, chan: u8) -> (r: Option<Frame>)
    requires
        payload_off + h.length <= buf.len(),
    ensures
        frame_view(r) == frame_in(buf@, *h, payload_off as int, chan),
{
    if h.chan != chan {
        return None;
    }
    let data: Vec<u8> = slice_to_vec(
        slice_subrange(buf, payload_off, payload_off + h.length as usize),
    );
    Some(Frame { pts_us: h.pts_us, keyframe: h.frame_type == FRAME_KEYFRAME, data })
}

/// Where the poller leaves frames for a reader. The latest frame wins: a reader that is late sees
/// only that one.
pub struct VideoFeed {
    generation: u64,
    latest: Option<Frame>,
    latest_keyframe: Option<Frame>,
}

impl VideoFeed {
    pub closed spec fn count(&self) -> u64 {
        self.generation
    }

    pub closed spec fn last(&self) -> Option<FrameView> {
        frame_view(self.latest)
    }

    pub closed spec fn last_keyframe(&self) -> Option<FrameView> {
        frame_view(self.latest_keyframe)
    }

    pub fn new() -> (f: VideoFeed)
        ensures
            f.count() == 0,
            f.last() is None,
            f.last_keyframe() is None,
    {
        VideoFeed { generation: 0, latest: None, latest_keyframe: None }
    }

    pub fn publish(&mut self, frame: Frame)
        ensures
            final(self).count() == old(self).count().wrapping_add(1),
            final(self).last() == Some(frame@),
            final(self).last_keyframe() == (if frame.keyframe {
                Some(frame@)
            } else {
                old(self).last_keyframe()
            }),
    {
        if frame.keyframe {
            self.latest_keyframe = Some(frame.clone());
        }
        self.latest = Some(frame);
        self.generation = self.generation.wrapping_add(1);
    }

    /// The latest keyframe and the count at which it was read.
    pub fn latest_keyframe(&self) -> (r: (u64, Option<Frame>))
        ensures
            r.0 == self.count(),
            frame_view(r.1) == self.last_keyframe(),
    {
        let kf: Option<Frame> = match &self.latest_keyframe {
            Some(f) => Some(f.clone()),
            None => None,
        };
        (self.generation, kf)
    }

    /// The latest frame, where the count has moved past `last_seen`.
    pub fn wait_next(&self, last_seen: &mut u64) -> (r: Option<Frame>)
        ensures
            *final(last_seen) == self.count(),
            frame_view(r) == (if self.count() != *old(last_seen) {
                self.last()
            } else {
                None
            }),
    {
        if self.generation != *last_seen {
            *last_seen = self.generation;
            match &self.latest {
                Some(f) => Some(f.clone()),
                None => None,
            }
        } else {
            None
        }
    }
}

/// A record of the ring as the vendor writes it: a header of 56 bytes with the number at its start,
/// the length behind it, the time at 16, the kind of frame at 32 and the channel at 34.
pub open spec fn record_bytes(h: Header, payload: Seq<u8>) -> Seq<u8> {
    le32(h.seq as nat) + le32(h.length as nat) + Seq::new(8, |i: int| 0u8) + le32(h.pts_us as nat) + Seq::new(
        12,
        |i: int| 0u8,
    ) + seq![h.frame_type, 0u8, h.chan] + Seq::new(21, |i: int| 0u8) + payload
}

/// A record that was written is found where it stands, with all its fields.
#[verifier::rlimit(40)]
pub proof fn law_record_reads_back(before: Seq<u8>, h: Header, payload: Seq<u8>, behind: Seq<u8>)
    requires
        payload.len() == h.length,
        1 <= h.length <= 2_000_000,
        h.chan == 1 || h.chan == 4 || h.chan == 8 || h.chan == 16,
    ensures
        header_at(before + record_bytes(h, payload) + behind, before.len() as int) == Some(h),
        (before + record_bytes(h, payload) + behind).subrange(
            before.len() as int + 56,
            before.len() as int + 56 + h.length,
        ) == payload,
{
    let r = record_bytes(h, payload);
    let b = before + r + behind;
    let o = before.len() as int;
    assert(r.len() == 56 + payload.len());
    let s = le32(h.seq as nat);
    let l = le32(h.length as nat);
    let t = le32(h.pts_us as nat);
    lemma_le32(h.seq as nat);
    lemma_le32(h.length as nat);
    lemma_le32(h.pts_us as nat);
    assert(b[o] == s[0] && b[o + 1] == s[1] && b[o + 2] == s[2] && b[o + 3] == s[3]);
    assert(b[o + 4] == l[0] && b[o + 5] == l[1] && b[o + 6] == l[2] && b[o + 7] == l[3]);
    assert(b[o + 16] == t[0] && b[o + 17] == t[1] && b[o + 18] == t[2] && b[o + 19] == t[3]);
    assert(b[o + 32] == h.frame_type && b[o + 34] == h.chan);
    assert(b.subrange(o + 56, o + 56 + h.length) =~= payload);
}

/// The number that follows the last one does, and after the greatest it starts over.
pub proof fn law_numbers_follow(s: u32, t: u32)
    ensures
        follows(None, t),
        follows(Some(s), t) <==> t == (s + 1) % 0x1_0000_0000,
{
}

/// A header counts only on a channel of the camera or the microphone, with a length of one to two
/// million bytes that the ring holds.
pub proof fn law_other_headers_are_none(b: Seq<u8>, off: int)
    requires
        0 <= off,
    ensures
        off + 56 > b.len() ==> header_at(b, off) is None,
        off + 56 <= b.len() && (fields_at(b, off).length == 0 || fields_at(b, off).length > 2_000_000)
            ==> header_at(b, off) is None,
        header_at(b, off) matches Some(h) ==> h.chan == 1 || h.chan == 4 || h.chan == 8 || h.chan == 16,
        header_at(b, off) matches Some(h) ==> off + 56 + h.length <= b.len(),
{
}

/// A walker goes on where it stands, unless no header fits there any more: then it starts over behind
/// the table of readers.
pub proof fn law_walker_wraps(b: Seq<u8>, next_pos: usize)
    ensures
        next_pos + 56 <= b.len() ==> cursor(b, next_pos) == next_pos,
        next_pos + 56 > b.len() ==> cursor(b, next_pos) == 1024,
{
}

/// A chain of records leads over those whose numbers follow each other, and ends at the first that is
/// none or does not follow.
pub proof fn law_chain_ends(b: Seq<u8>, pos: int, prev: Option<u32>)
    requires
        0 <= pos,
    ensures
        ({
            let (end, last) = chain_end(b, pos, prev);
            &&& pos <= end
            &&& header_at(b, end) matches Some(h) ==> !follows(last, h.seq)
            &&& header_at(b, pos) matches Some(h) ==> follows(prev, h.seq) ==> end >= pos + 56 + h.length
        }),
    decreases b.len() - pos,
{
    if let Some(h) = header_at(b, pos) {
        if follows(prev, h.seq) {
            law_chain_ends(b, pos + HDR + h.length, Some(h.seq));
        }
    }
}

/// A frame holds the bytes that were written behind its header, all of them and no others, with the time
/// of the header; a record of another channel holds none.
pub proof fn law_frame_holds_the_payload(before: Seq<u8>, h: Header, payload: Seq<u8>, behind: Seq<u8>, chan: u8)
    requires
        h.length == payload.len(),
    ensures
        ({
            let f = frame_in(before + payload + behind, h, before.len() as int, chan);
            &&& f is Some <==> h.chan == chan
            &&& f is Some ==> f->0.data == payload && f->0.pts_us == h.pts_us && (f->0.keyframe
                <==> h.frame_type == FRAME_KEYFRAME)
        }),
{
    let k = before.len() as int;
    assert((before + payload + behind).subrange(k, k + payload.len()) =~= payload);
}

} // verus!
