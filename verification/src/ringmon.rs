//! A monitor of the frame ring: which records were written between two looks at its cursor.

use vstd::prelude::*;

use crate::bytes::{le32, le32_at, lemma_le32, read_le32};

verus! {

/// Where the records start.
pub const DATA_ORIGIN: usize = 0x3e8;

/// Positions count modulo this.
pub const WRAP_MOD: u32 = 0x0080_0000;

/// The length of a record's header.
pub const HDR: usize = 56;

/// How many records are followed at most.
pub const MAX_STEPS: usize = 4096;

/// The longest record.
pub const MAX_LENGTH: u32 = 2_000_000;

/// One record's header.
#[derive(Clone, Copy, PartialEq, Eq, Debug, Structural)]
pub struct Header {
    pub seq: u32,
    pub length: u32,
    pub chan_seq: u32,
    pub pts_us: u32,
    pub frame_type: u8,
    pub chan: u8,
}

pub open spec fn known_channel(chan: u8) -> bool {
    chan == 1 || chan == 2 || chan == 4 || chan == 8 || chan == 16
}

/// The fields at `off`.
pub open spec fn fields_at(b: Seq<u8>, off: int) -> Header {
    Header {
        seq: le32_at(b, off) as u32,
        length: le32_at(b, off + 4) as u32,
        chan_seq: le32_at(b, off + 8) as u32,
        pts_us: le32_at(b, off + 16) as u32,
        frame_type: b[off + 32],
        chan: b[off + 34],
    }
}

/// The header at `off`: it must have a sane length and a known channel, and the whole record must
/// lie inside the ring.
pub open spec fn header_at(b: Seq<u8>, off: int) -> Option<Header> {
    if off + HDR <= b.len() && 1 <= fields_at(b, off).length <= MAX_LENGTH && known_channel(
        fields_at(b, off).chan,
    ) && off + HDR + fields_at(b, off).length <= b.len() {
        Some(fields_at(b, off))
    } else {
        None
    }
}

pub fn parse_header(buf: &[u8], off: usize) -> (r: Option<Header>)
    ensures
        r == header_at(buf@, off as int),
{
    if buf.len() < HDR || off > buf.len() - HDR {
        return None;
    }
    let h: Header = Header {
        seq: read_le32(buf, off),
        length: read_le32(buf, off + 4),
        chan_seq: read_le32(buf, off + 8),
        pts_us: read_le32(buf, off + 16),
        frame_type: buf[off + 32],
        chan: buf[off + 34],
    };
    if h.length < 1 || h.length > MAX_LENGTH {
        return None;
    }
    if !(h.chan == 1 || h.chan == 2 || h.chan == 4 || h.chan == 8 || h.chan == 16) {
        return None;
    }
    if h.length as usize > buf.len() - HDR - off {
        return None;
    }
    Some(h)
}

/// Where the record behind one at `pos` starts.
pub open spec fn next_pos(pos: u32, length: u32) -> u32 {
    ((pos + HDR + length) % (WRAP_MOD as int)) as u32
}

/// The records from `pos` up to the cursor, at most `steps` of them; the walk ends at what is no
/// record.
pub open spec fn records_from(b: Seq<u8>, pos: u32, cursor: u32, steps: nat) -> Seq<(u32, Header)>
    decreases steps,
{
    if pos == cursor || steps == 0 {
        Seq::empty()
    } else {
        match header_at(b, DATA_ORIGIN + pos) {
            Some(h) => seq![(pos, h)] + records_from(
                b,
                next_pos(pos, h.length),
                cursor,
                (steps - 1) as nat,
            ),
            None => Seq::empty(),
        }
    }
}

/// The records that were written since the cursor stood at `from`: where each stands, and its
/// header.
pub fn scan(buf: &[u8], from: u32, cursor: u32) -> (out: Vec<(u32, Header)>)
    ensures
        out@ == records_from(buf@, from, cursor, MAX_STEPS as nat),
{
    let mut out: Vec<(u32, Header)> = Vec::new();
    let mut pos: u32 = from;
    let mut left: usize = MAX_STEPS;
    assert(out@ + records_from(buf@, pos, cursor, left as nat) =~= records_from(
        buf@,
        from,
        cursor,
        MAX_STEPS as nat,
    ));
    while pos != cursor && left > 0
        invariant
            out@ + records_from(buf@, pos, cursor, left as nat) == records_from(
                buf@,
                from,
                cursor,
                MAX_STEPS as nat,
            ),
        decreases left,
    {
        let found: Option<Header> = if buf.len() < DATA_ORIGIN || pos as usize > buf.len()
            - DATA_ORIGIN {
            None
        } else {
            parse_header(buf, DATA_ORIGIN + pos as usize)
        };
        let h: Header = match found {
            Some(h) => h,
            None => {
                assert(out@ + Seq::<(u32, Header)>::empty() =~= out@);
                return out;
            },
        };
        let ghost before = out@;
        out.push((pos, h));
        let ghost rest = records_from(buf@, next_pos(pos, h.length), cursor, (left - 1) as nat);
        assert(before + (seq![(pos, h)] + rest) =~= out@ + rest);
        pos = ((pos as u64 + HDR as u64 + h.length as u64) % (WRAP_MOD as u64)) as u32;
        left = left - 1;
    }
    assert(out@ + Seq::<(u32, Header)>::empty() =~= out@);
    out
}

/// A record of the ring as the vendor writes it: a header of 56 bytes with the number at its start,
/// the length behind it, the time at 16, the kind of frame at 32 and the channel at 34.
pub open spec fn record_bytes(h: Header, payload: Seq<u8>) -> Seq<u8> {
    le32(h.seq as nat) + le32(h.length as nat) + le32(h.chan_seq as nat) + Seq::new(4, |i: int| 0u8) + le32(h.pts_us as nat) + Seq::new(
        12,
        |i: int| 0u8,
    ) + seq![h.frame_type, 0u8, h.chan] + Seq::new(21, |i: int| 0u8) + payload
}

/// A record that was written is found where it stands, with all its fields.
#[verifier::rlimit(40)]
pub proof fn law_record_reads_back(before: Seq<u8>, h: Header, payload: Seq<u8>, behind: Seq<u8>)
    requires
        payload.len() == h.length,
        1 <= h.length <= 2_000_000,
        h.chan == 1 || h.chan == 2 || h.chan == 4 || h.chan == 8 || h.chan == 16,
    ensures
        header_at(before + record_bytes(h, payload) + behind, before.len() as int) == Some(h),
        (before + record_bytes(h, payload) + behind).subrange(
            before.len() as int + 56,
            before.len() as int + 56 + h.length,
        ) == payload,
{
    let r = record_bytes(h, payload);
    let b = before + r + behind;
    let o = before.len() as int;
    assert(r.len() == 56 + payload.len());
    let s = le32(h.seq as nat);
    let l = le32(h.length as nat);
    let t = le32(h.pts_us as nat);
    lemma_le32(h.seq as nat);
    lemma_le32(h.length as nat);
    lemma_le32(h.pts_us as nat);
    assert(b[o] == s[0] && b[o + 1] == s[1] && b[o + 2] == s[2] && b[o + 3] == s[3]);
    assert(b[o + 4] == l[0] && b[o + 5] == l[1] && b[o + 6] == l[2] && b[o + 7] == l[3]);
    assert(b[o + 16] == t[0] && b[o + 17] == t[1] && b[o + 18] == t[2] && b[o + 19] == t[3]);
    let c = le32(h.chan_seq as nat);
    lemma_le32(h.chan_seq as nat);
    assert(b[o + 8] == c[0] && b[o + 9] == c[1] && b[o + 10] == c[2] && b[o + 11] == c[3]);
    assert(b[o + 32] == h.frame_type && b[o + 34] == h.chan);
    assert(b.subrange(o + 56, o + 56 + h.length) =~= payload);
}

/// Records are taken one behind the other: each starts where the one before ends, counted round the
/// ring, and the first where the look starts.
pub proof fn law_records_follow_each_other(b: Seq<u8>, pos: u32, cursor: u32, steps: nat, i: int)
    requires
        0 <= i < records_from(b, pos, cursor, steps).len(),
    ensures
        ({
            let r = records_from(b, pos, cursor, steps);
            &&& r[0].0 == pos
            &&& r.len() <= steps
            &&& header_at(b, 0x3e8 + r[i].0) == Some(r[i].1)
            &&& r[i].0 != cursor
            &&& i + 1 < r.len() ==> r[i + 1].0 == (r[i].0 + 56 + r[i].1.length) % 0x80_0000
        }),
    decreases steps,
{
    let h = header_at(b, DATA_ORIGIN + pos)->0;
    let rest = records_from(b, next_pos(pos, h.length), cursor, (steps - 1) as nat);
    let r = records_from(b, pos, cursor, steps);
    assert(r == seq![(pos, h)] + rest);
    if i > 0 {
        law_records_follow_each_other(b, next_pos(pos, h.length), cursor, (steps - 1) as nat, i - 1);
        assert(r[i] == rest[i - 1]);
        if i + 1 < r.len() {
            assert(r[i + 1] == rest[i]);
        }
    } else if rest.len() > 0 {
        law_records_follow_each_other(b, next_pos(pos, h.length), cursor, (steps - 1) as nat, 0);
        assert(r[1] == rest[0]);
    }
    lemma_at_most(b, next_pos(pos, h.length), cursor, (steps - 1) as nat);
}

proof fn lemma_at_most(b: Seq<u8>, pos: u32, cursor: u32, steps: nat)
    ensures
        records_from(b, pos, cursor, steps).len() <= steps,
    decreases steps,
{
    if steps > 0 {
        if let Some(h) = header_at(b, DATA_ORIGIN + pos) {
            lemma_at_most(b, next_pos(pos, h.length), cursor, (steps - 1) as nat);
        }
    }
}

} // verus!
