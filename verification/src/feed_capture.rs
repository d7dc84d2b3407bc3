//! Dish snapshots round a feed: which feed a cycle belongs to, what is written, what is evicted.
//!
//! A request to feed leaves a note right before it is sent; the cycle that starts next claims it
//! if it is still fresh. A cycle without one gets an id of its own and, where the scheduler left a
//! note, the scheduler's amounts.

use vstd::prelude::*;
use vstd::string::*;

use crate::faces::dot_of;
use crate::http::{field_of, json_field};
use crate::json::{
    array_text, bool_str, bool_text, escaped_or_null, join, opt_json_escaped, opt_text,
    string_texts,
};
use crate::number::{dec, parse_u64, parse_u8, push_dec, uint_of};
use crate::order::{is_stable_order, stable_order};
use crate::text::{
    char_len, chars_of, ends, ends_with, escape_debug, escaped, rfind_str, same, skip, take,
};

pub mod laws;

verus! {

pub const FEEDS_DIR: &'static str = "/opt/kibble/feeds";

/// How many feeds are kept.
pub const MAX_FEEDS: usize = 20;

/// How long, in milliseconds, a note can be claimed.
pub const MANUAL_FEED_WINDOW: u64 = 15_000;

/// How long, in milliseconds, the scene is left to settle after a feed.
pub const SETTLE_AFTER_FEED: u64 = 3_000;

/// How long, in milliseconds, a feed may take before its cycle is dropped.
pub const MAX_CYCLE_WAIT: u64 = 30_000;

/// One feed on record.
#[derive(Debug, PartialEq, Eq)]
pub struct FeedRecord {
    /// What the names of the feed's files start with.
    pub stem: String,
    pub ts: u64,
    pub id: String,
    pub amount1: Option<u8>,
    pub amount2: Option<u8>,
    pub manual: bool,
    pub before: Option<String>,
    pub after: Option<String>,
}

pub struct FeedRecordView {
    pub stem: Seq<char>,
    pub ts: u64,
    pub id: Seq<char>,
    pub amount1: Option<u8>,
    pub amount2: Option<u8>,
    pub manual: bool,
    pub before: Option<Seq<char>>,
    pub after: Option<Seq<char>>,
}

impl View for FeedRecord {
    type V = FeedRecordView;

    open spec fn view(&self) -> FeedRecordView {
        FeedRecordView {
            stem: self.stem@,
            ts: self.ts,
            id: self.id@,
            amount1: self.amount1,
            amount2: self.amount2,
            manual: self.manual,
            before: opt_text(self.before),
            after: opt_text(self.after),
        }
    }
}

pub open spec fn amount_text(o: Option<u8>) -> Seq<char> {
    match o {
        Some(n) => dec(n as nat),
        None => "null"@,
    }
}

fn push_amount(s: &mut String, o: Option<u8>)
    ensures
        final(s)@ == old(s)@ + amount_text(o),
{
    match o {
        Some(n) => push_dec(s, n as u64),
        None => s.append("null"),
    }
}

/// What is on record of a feed, its pictures aside.
pub open spec fn meta_head(ts: u64, id: Seq<char>, a1: Option<u8>, a2: Option<u8>, manual: bool) -> Seq<
    char,
> {
    "{\"ts\":"@ + dec(ts as nat) + ",\"id\":\""@ + escaped(id) + "\",\"amount1\":"@ + amount_text(a1)
        + ",\"amount2\":"@ + amount_text(a2) + ",\"manual\":"@ + bool_text(manual)
}

/// The file that keeps what the names of the pictures do not say.
pub open spec fn meta_text(ts: u64, id: Seq<char>, a1: Option<u8>, a2: Option<u8>, manual: bool) -> Seq<
    char,
> {
    meta_head(ts, id, a1, a2, manual) + "}"@
}

/// A feed as it is reported.
pub open spec fn feed_text(r: FeedRecordView) -> Seq<char> {
    meta_head(r.ts, r.id, r.amount1, r.amount2, r.manual) + ",\"before\":"@ + escaped_or_null(
        r.before,
    ) + ",\"after\":"@ + escaped_or_null(r.after) + "}"@
}

fn head_string(ts: u64, id: &str, a1: Option<u8>, a2: Option<u8>, manual: bool) -> (s: String)
    ensures
        s@ == meta_head(ts, id@, a1, a2, manual),
{
    let mut s: String = "{\"ts\":".to_owned();
    push_dec(&mut s, ts);
    s.append(",\"id\":\"");
    s.append(escape_debug(id).as_str());
    s.append("\",\"amount1\":");
    push_amount(&mut s, a1);
    s.append(",\"amount2\":");
    push_amount(&mut s, a2);
    s.append(",\"manual\":");
    s.append(bool_str(manual));
    s
}

impl FeedRecord {
    pub fn to_json(&self) -> (s: String)
        ensures
            s@ == feed_text(self@),
    {
        let mut s: String = head_string(
            self.ts,
            self.id.as_str(),
            self.amount1,
            self.amount2,
            self.manual,
        );
        s.append(",\"before\":");
        s.append(opt_json_escaped(&self.before).as_str());
        s.append(",\"after\":");
        s.append(opt_json_escaped(&self.after).as_str());
        s.append("}");
        s
    }
}

/// A feed that was asked for and not yet seen to start.
pub struct ManualNote {
    pub id: String,
    pub amount1: u8,
    pub amount2: u8,
    /// In milliseconds.
    pub noted_at: u64,
}

/// Amounts that the scheduler is about to dispense.
#[derive(Clone, Copy)]
pub struct ScheduledNote {
    pub amount1: u8,
    pub amount2: u8,
    pub noted_at: u64,
}

/// The notes that wait to be claimed.
pub struct FeedCapture {
    pub pending: Option<ManualNote>,
    pub pending_scheduled: Option<ScheduledNote>,
    /// Tells apart two feeds in one second.
    pub seq: u64,
}

/// What a cycle knows when it starts.
pub struct CycleStart {
    pub id: String,
    pub amount1: Option<u8>,
    pub amount2: Option<u8>,
    pub manual: bool,
}

/// Whether a note made at `noted_at` can still be claimed.
pub open spec fn fresh(noted_at: u64, now: u64) -> bool {
    now - noted_at <= MANUAL_FEED_WINDOW
}

/// The id of a cycle that no request claims.
pub open spec fn spontaneous_id(now_unix: u64, seq: u64) -> Seq<char> {
    "scheduled-"@ + dec(now_unix as nat) + "-"@ + dec(seq as nat)
}

impl FeedCapture {
    pub fn new() -> (c: FeedCapture)
        ensures
            c.pending is None,
            c.pending_scheduled is None,
            c.seq == 0,
    {
        FeedCapture { pending: None, pending_scheduled: None, seq: 0 }
    }

    /// A feed was asked for.
    pub fn note_manual_feed(&mut self, id: String, amount1: u8, amount2: u8, now_ms: u64)
        ensures
            final(self).pending == Some(ManualNote { id, amount1, amount2, noted_at: now_ms }),
            final(self).pending_scheduled == old(self).pending_scheduled,
            final(self).seq == old(self).seq,
    {
        self.pending = Some(ManualNote { id, amount1, amount2, noted_at: now_ms });
    }

    /// Takes the note of a request, and gives it where it is fresh.
    pub fn take_fresh_manual_note(&mut self, now_ms: u64) -> (r: Option<(String, u8, u8)>)
        ensures
            final(self).pending is None,
            final(self).pending_scheduled == old(self).pending_scheduled,
            final(self).seq == old(self).seq,
            match old(self).pending {
                Some(n) => if fresh(n.noted_at, now_ms) {
                    r == Some((n.id, n.amount1, n.amount2))
                } else {
                    r is None
                },
                None => r is None,
            },
    {
        match self.pending.take() {
            Some(n) => if now_ms.saturating_sub(n.noted_at) <= MANUAL_FEED_WINDOW {
                Some((n.id, n.amount1, n.amount2))
            } else {
                None
            },
            None => None,
        }
    }

    /// The scheduler is about to feed.
    pub fn note_scheduled_feed(&mut self, amount1: u8, amount2: u8, now_ms: u64)
        ensures
            final(self).pending_scheduled == Some(
                ScheduledNote { amount1, amount2, noted_at: now_ms },
            ),
            final(self).pending == old(self).pending,
            final(self).seq == old(self).seq,
    {
        self.pending_scheduled = Some(ScheduledNote { amount1, amount2, noted_at: now_ms });
    }

    /// Takes the scheduler's note, and gives it where it is fresh.
    pub fn take_fresh_scheduled_amounts(&mut self, now_ms: u64) -> (r: Option<(u8, u8)>)
        ensures
            final(self).pending_scheduled is None,
            final(self).pending == old(self).pending,
            final(self).seq == old(self).seq,
            r == (match old(self).pending_scheduled {
                Some(n) => if fresh(n.noted_at, now_ms) {
                    Some((n.amount1, n.amount2))
                } else {
                    None
                },
                None => None,
            }),
    {
        match self.pending_scheduled.take() {
            Some(n) => if now_ms.saturating_sub(n.noted_at) <= MANUAL_FEED_WINDOW {
                Some((n.amount1, n.amount2))
            } else {
                None
            },
            None => None,
        }
    }

    /// A feed has started: says which one. A note is claimed once. Amounts that nobody noted are
    /// unknown, never guessed.
    pub fn start_cycle(&mut self, now_ms: u64, now_unix: u64) -> (c: CycleStart)
        ensures
            (c.amount1, c.amount2) == noted_amounts(
                old(self).pending,
                old(self).pending_scheduled,
                now_ms,
            ),
            final(self).pending is None,
            match old(self).pending {
                Some(n) if fresh(n.noted_at, now_ms) => {
                    &&& c.manual
                    &&& c.id@ == n.id@
                    &&& c.amount1 == Some(n.amount1)
                    &&& c.amount2 == Some(n.amount2)
                    &&& final(self).seq == old(self).seq
                    &&& final(self).pending_scheduled == old(self).pending_scheduled
                },
                _ => {
                    &&& !c.manual
                    &&& c.id@ == spontaneous_id(now_unix, old(self).seq)
                    &&& final(self).seq == old(self).seq.wrapping_add(1)
                    &&& final(self).pending_scheduled is None
                    &&& match old(self).pending_scheduled {
                        Some(n) if fresh(n.noted_at, now_ms) => c.amount1 == Some(n.amount1)
                            && c.amount2 == Some(n.amount2),
                        _ => c.amount1 is None && c.amount2 is None,
                    }
                },
            },
    {
        match self.take_fresh_manual_note(now_ms) {
            Some((id, a1, a2)) => CycleStart {
                id,
                amount1: Some(a1),
                amount2: Some(a2),
                manual: true,
            },
            None => {
                let seq: u64 = self.seq;
                self.seq = seq.wrapping_add(1);
                let mut id: String = "scheduled-".to_owned();
                push_dec(&mut id, now_unix);
                id.append("-");
                push_dec(&mut id, seq);
                let (amount1, amount2): (Option<u8>, Option<u8>) =
                    match self.take_fresh_scheduled_amounts(now_ms) {
                    Some((a1, a2)) => (Some(a1), Some(a2)),
                    None => (None, None),
                };
                CycleStart { id, amount1, amount2, manual: false }
            },
        }
    }
}

/// The portions of a feed that starts: those of the note that was asked for by hand, else those of
/// the one that the schedule made, where it is fresh.
pub open spec fn noted_amounts(
    manual: Option<ManualNote>,
    scheduled: Option<ScheduledNote>,
    now_ms: u64,
) -> (Option<u8>, Option<u8>) {
    match manual {
        Some(n) if fresh(n.noted_at, now_ms) => (Some(n.amount1), Some(n.amount2)),
        _ => match scheduled {
            Some(n) if fresh(n.noted_at, now_ms) => (Some(n.amount1), Some(n.amount2)),
            _ => (None, None),
        },
    }
}

/// Whether a file may be served: a plain name of one of the two pictures of a feed.
pub open spec fn safe_feed_file(name: Seq<char>) -> bool {
    crate::ai::safe_name(name) && (ends(name, "-before.h264"@) || ends(name, "-after.h264"@))
}

pub fn is_safe_feed_file_name(name: &str) -> (r: bool)
    ensures
        r == safe_feed_file(name@),
{
    crate::ai::is_safe_name(name) && (ends_with(name, "-before.h264") || ends_with(
        name,
        "-after.h264",
    ))
}

/// The path of a picture, where its name is that of one.
pub fn read_file(name: &str) -> (r: Result<String, &'static str>)
    ensures
        match r {
            Ok(p) => safe_feed_file(name@) && p@ == FEEDS_DIR@ + "/"@ + name@,
            Err(m) => !safe_feed_file(name@) && m@ == "invalid file name"@,
        },
{
    if !is_safe_feed_file_name(name) {
        return Err("invalid file name");
    }
    let mut p: String = FEEDS_DIR.to_owned();
    p.append("/");
    p.append(name);
    Ok(p)
}

/// An id as it goes into a file name: no path separators, and not empty.
pub open spec fn sanitized(id: Seq<char>) -> Seq<char> {
    if id.len() == 0 {
        "feed"@
    } else {
        id.map_values(
            |c: char|
                if c == '/' || c == '\\' {
                    '_'
                } else {
                    c
                },
        )
    }
}

pub fn sanitize_id_for_filename(id: &str) -> (s: String)
    ensures
        s@ == sanitized(id@),
{
    let cs: Vec<char> = chars_of(id);
    if cs.len() == 0 {
        return "feed".to_owned();
    }
    let mut s: String = String::new();
    let mut i: usize = 0;
    while i < cs.len()
        invariant
            i <= cs.len(),
            cs@ == id@,
            id@.len() > 0,
            s@ == sanitized(id@).subrange(0, i as int),
        decreases cs.len() - i,
    {
        let c: char = if cs[i] == '/' || cs[i] == '\\' {
            '_'
        } else {
            cs[i]
        };
        s.push(c);
        i = i + 1;
        assert(s@ =~= sanitized(id@).subrange(0, i as int));
    }
    assert(s@ =~= sanitized(id@));
    s
}

/// What the names of a feed's files start with.
pub open spec fn stem(ts: u64, id: Seq<char>) -> Seq<char> {
    dec(ts as nat) + "-"@ + sanitized(id)
}

fn stem_string(ts: u64, id: &str) -> (s: String)
    ensures
        s@ == stem(ts, id@),
{
    let mut s: String = String::new();
    push_dec(&mut s, ts);
    assert(s@ =~= dec(ts as nat));
    s.append("-");
    s.append(sanitize_id_for_filename(id).as_str());
    s
}

fn with_suffix(stem: &str, suffix: &str) -> (s: String)
    ensures
        s@ == stem@ + suffix@,
{
    let mut s: String = stem.to_owned();
    s.append(suffix);
    s
}

/// The name of a picture, where there is one.
pub open spec fn picture(stem: Seq<char>, suffix: Seq<char>, there: bool) -> Option<Seq<char>> {
    if there {
        Some(stem + suffix)
    } else {
        None
    }
}

fn picture_name(stem: &str, suffix: &str, there: bool) -> (r: Option<String>)
    ensures
        opt_text(r) == picture(stem@, suffix@, there),
{
    if there {
        Some(with_suffix(stem, suffix))
    } else {
        None
    }
}

/// What to write for a feed, and its record.
pub struct Saved {
    pub meta_name: String,
    pub meta: String,
    pub record: FeedRecord,
}

/// The files of a feed: a picture before and one after, whichever there are, and a file that keeps
/// the rest. The pictures' names are in the record.
pub fn save_pair(
    ts: u64,
    id: &str,
    amount1: Option<u8>,
    amount2: Option<u8>,
    manual: bool,
    before: bool,
    after: bool,
) -> (r: Saved)
    ensures
        r.meta_name@ == stem(ts, id@) + ".json"@,
        r.meta@ == meta_text(ts, id@, amount1, amount2, manual),
        r.record@ == (FeedRecordView {
            stem: stem(ts, id@),
            ts,
            id: id@,
            amount1,
            amount2,
            manual,
            before: picture(stem(ts, id@), "-before.h264"@, before),
            after: picture(stem(ts, id@), "-after.h264"@, after),
        }),
{
    let st: String = stem_string(ts, id);
    let mut meta: String = head_string(ts, id, amount1, amount2, manual);
    meta.append("}");
    Saved {
        meta_name: with_suffix(st.as_str(), ".json"),
        meta,
        record: FeedRecord {
            ts,
            id: id.to_owned(),
            amount1,
            amount2,
            manual,
            before: picture_name(st.as_str(), "-before.h264", before),
            after: picture_name(st.as_str(), "-after.h264", after),
            stem: st,
        },
    }
}

pub open spec fn amount_field(json: Seq<char>, key: Seq<char>) -> Option<u8> {
    match field_of(json, key) {
        Some(v) => match uint_of(v, 10, u8::MAX as nat) {
            Some(n) => Some(n as u8),
            None => None,
        },
        None => None,
    }
}

/// The record that a file describes; `st` is the name of the file without its ending.
pub open spec fn record_of(json: Seq<char>, st: Seq<char>, before: bool, after: bool) -> Option<
    FeedRecordView,
> {
    match (field_of(json, "ts"@), field_of(json, "id"@)) {
        (Some(t), Some(id)) => match uint_of(t, 10, u64::MAX as nat) {
            Some(ts) => Some(
                FeedRecordView {
                    stem: st,
                    ts: ts as u64,
                    id,
                    amount1: amount_field(json, "amount1"@),
                    amount2: amount_field(json, "amount2"@),
                    manual: match field_of(json, "manual"@) {
                        Some(v) => v != "false"@,
                        None => false,
                    },
                    before: picture(st, "-before.h264"@, before),
                    after: picture(st, "-after.h264"@, after),
                },
            ),
            None => None,
        },
        _ => None,
    }
}

fn read_amount(json: &str, key: &str) -> (r: Option<u8>)
    ensures
        r == amount_field(json@, key@),
{
    match json_field(json, key) {
        Some(v) => parse_u8(v),
        None => None,
    }
}

/// Reads a record back; `before` and `after` say which pictures are there.
pub fn parse_record(json: &str, st: &str, before: bool, after: bool) -> (r: Option<FeedRecord>)
    ensures
        match r {
            Some(x) => record_of(json@, st@, before, after) == Some(x@),
            None => record_of(json@, st@, before, after) is None,
        },
{
    let ts: u64 = match json_field(json, "ts") {
        Some(t) => match parse_u64(t) {
            Some(n) => n,
            None => return None,
        },
        None => return None,
    };
    let id: &str = match json_field(json, "id") {
        Some(v) => v,
        None => return None,
    };
    let manual: bool = match json_field(json, "manual") {
        Some(v) => !same(v, "false"),
        None => false,
    };
    Some(
        FeedRecord {
            stem: st.to_owned(),
            ts,
            id: id.to_owned(),
            amount1: read_amount(json, "amount1"),
            amount2: read_amount(json, "amount2"),
            manual,
            before: picture_name(st, "-before.h264", before),
            after: picture_name(st, "-after.h264", after),
        },
    )
}

/// What stands before the ending of a record's file.
pub open spec fn meta_stem_of(name: Seq<char>) -> Option<Seq<char>> {
    match dot_of(name) {
        Some(i) => if name.subrange(i + 1, name.len() as int) == "json"@ {
            Some(name.subrange(0, i))
        } else {
            None
        },
        None => None,
    }
}

/// What stands before the ending of a record's file; `None` for every other file.
pub fn meta_stem(name: &str) -> (r: Option<&str>)
    ensures
        match r {
            Some(s) => meta_stem_of(name@) == Some(s@),
            None => meta_stem_of(name@) is None,
        },
{
    proof {
        reveal_strlit(".");
    }
    let n: usize = char_len(name);
    match rfind_str(name, ".") {
        Some(i) if 0 < i && i < n => if same(skip(name, i + 1), "json") {
            Some(take(name, i))
        } else {
            None
        },
        _ => None,
    }
}

/// A record's file as it was found.
pub struct MetaFile {
    pub stem: String,
    pub text: String,
    pub before: bool,
    pub after: bool,
}

pub open spec fn record_views(v: Seq<FeedRecord>) -> Seq<FeedRecordView> {
    v.map_values(|r: FeedRecord| r@)
}

/// The records of the first `n` files; one that cannot be read is left out.
pub open spec fn records_upto(files: Seq<MetaFile>, n: int) -> Seq<FeedRecordView>
    decreases n,
{
    if n <= 0 {
        Seq::empty()
    } else {
        let f = files[n - 1];
        match record_of(f.text@, f.stem@, f.before, f.after) {
            Some(r) => records_upto(files, n - 1).push(r),
            None => records_upto(files, n - 1),
        }
    }
}

pub open spec fn times_of(v: Seq<FeedRecordView>) -> Seq<u64> {
    v.map_values(|r: FeedRecordView| r.ts)
}

/// Whether `out` are the records `v` by time, at equal times in their order.
pub open spec fn sorted_by_time(v: Seq<FeedRecordView>, out: Seq<FeedRecordView>) -> bool {
    exists|p: Seq<usize>|
        #![trigger is_stable_order(times_of(v), p)]
        is_stable_order(times_of(v), p) && out == Seq::new(v.len(), |i: int| v[p[i] as int])
}

impl Clone for FeedRecord {
    fn clone(&self) -> (r: FeedRecord)
        ensures
            r@ == self@,
    {
        FeedRecord {
            stem: self.stem.clone(),
            ts: self.ts,
            id: self.id.clone(),
            amount1: self.amount1,
            amount2: self.amount2,
            manual: self.manual,
            before: match &self.before {
                Some(s) => Some(s.clone()),
                None => None,
            },
            after: match &self.after {
                Some(s) => Some(s.clone()),
                None => None,
            },
        }
    }
}

fn sort_records(v: &Vec<FeedRecord>) -> (out: Vec<FeedRecord>)
    ensures
        sorted_by_time(record_views(v@), record_views(out@)),
        out@.len() == v@.len(),
{
    let ghost views = record_views(v@);
    let mut keys: Vec<u64> = Vec::new();
    let mut i: usize = 0;
    while i < v.len()
        invariant
            i <= v@.len(),
            views == record_views(v@),
            keys@ == times_of(views).subrange(0, i as int),
        decreases v@.len() - i,
    {
        keys.push(v[i].ts);
        i = i + 1;
        assert(keys@ =~= times_of(views).subrange(0, i as int));
    }
    assert(keys@ =~= times_of(views));
    let p: Vec<usize> = stable_order(&keys);
    let mut out: Vec<FeedRecord> = Vec::new();
    let mut k: usize = 0;
    while k < p.len()
        invariant
            k <= p@.len() == v@.len(),
            views == record_views(v@),
            is_stable_order(times_of(views), p@),
            out@.len() == k,
            forall|j: int| 0 <= j < k ==> (#[trigger] out@[j])@ == views[p@[j] as int],
        decreases p@.len() - k,
    {
        let at: usize = p[k];
        assert(0 <= at < v@.len());
        out.push(v[at].clone());
        k = k + 1;
    }
    assert(record_views(out@) =~= Seq::new(views.len(), |i: int| views[p@[i] as int]));
    assert(is_stable_order(times_of(views), p@));
    out
}

/// Every record that can be read, oldest first.
pub fn list_records(files: &Vec<MetaFile>) -> (out: Vec<FeedRecord>)
    ensures
        sorted_by_time(records_upto(files@, files@.len() as int), record_views(out@)),
{
    let mut v: Vec<FeedRecord> = Vec::new();
    let mut i: usize = 0;
    assert(record_views(v@) =~= Seq::<FeedRecordView>::empty());
    while i < files.len()
        invariant
            i <= files@.len(),
            record_views(v@) == records_upto(files@, i as int),
        decreases files@.len() - i,
    {
        let f: &MetaFile = &files[i];
        let ghost done = v@;
        if let Some(r) = parse_record(f.text.as_str(), f.stem.as_str(), f.before, f.after) {
            let ghost x = r@;
            v.push(r);
            assert(record_views(v@) =~= record_views(done).push(x));
        }
        i = i + 1;
    }
    sort_records(&v)
}

/// The report of all feeds.
pub open spec fn feeds_text(v: Seq<FeedRecordView>) -> Seq<char> {
    array_text(v.map_values(|r: FeedRecordView| feed_text(r)))
}

/// The body that lists the feeds.
pub fn list_json(records: &Vec<FeedRecord>) -> (s: String)
    ensures
        s@ == feeds_text(record_views(records@)),
{
    let ghost views = record_views(records@);
    let ghost f = |r: FeedRecordView| feed_text(r);
    let mut parts: Vec<String> = Vec::new();
    let mut i: usize = 0;
    while i < records.len()
        invariant
            i <= records@.len(),
            views == record_views(records@),
            f == (|r: FeedRecordView| feed_text(r)),
            string_texts(parts@) == views.subrange(0, i as int).map_values(f),
        decreases records@.len() - i,
    {
        let ghost done = parts@;
        let e: String = records[i].to_json();
        assert(e@ == f(views[i as int]));
        parts.push(e);
        i = i + 1;
        assert(string_texts(parts@) =~= views.subrange(0, i as int).map_values(f)) by {
            assert(string_texts(parts@) =~= string_texts(done).push(e@));
        }
    }
    assert(views.subrange(0, i as int) =~= views);
    let mut s: String = "[".to_owned();
    s.append(join(&parts, ",").as_str());
    s.append("]");
    s
}

/// The files of one feed.
pub open spec fn files_of(r: FeedRecordView) -> Seq<Seq<char>> {
    seq![
        r.stem + "-before.h264"@,
        r.stem + "-after.h264"@,
        r.stem + ".json"@,
    ]
}

/// The files of the first `n` feeds.
pub open spec fn files_upto(v: Seq<FeedRecordView>, n: int) -> Seq<Seq<char>>
    decreases n,
{
    if n <= 0 {
        Seq::empty()
    } else {
        files_upto(v, n - 1) + files_of(v[n - 1])
    }
}

/// The files to delete: those of the oldest feeds, as many as there are over `cap`, each under the
/// name it was found by. `records` are oldest first.
pub fn evict_oldest_if_over_cap(records: &Vec<FeedRecord>, cap: usize) -> (files: Vec<String>)
    ensures
        string_texts(files@) == files_upto(
            record_views(records@),
            if records@.len() > cap {
                records@.len() - cap
            } else {
                0
            },
        ),
{
    let mut files: Vec<String> = Vec::new();
    let ghost views = record_views(records@);
    let n: usize = if records.len() > cap {
        records.len() - cap
    } else {
        0
    };
    let mut i: usize = 0;
    assert(string_texts(files@) =~= Seq::<Seq<char>>::empty());
    while i < n
        invariant
            i <= n <= records@.len(),
            views == record_views(records@),
            string_texts(files@) == files_upto(views, i as int),
        decreases n - i,
    {
        let ghost done = files@;
        let r: &FeedRecord = &records[i];
        files.push(with_suffix(r.stem.as_str(), "-before.h264"));
        files.push(with_suffix(r.stem.as_str(), "-after.h264"));
        files.push(with_suffix(r.stem.as_str(), ".json"));
        assert(string_texts(files@) =~= string_texts(done) + files_of(views[i as int]));
        i = i + 1;
    }
    files
}

/// Where the watcher of the feeding flag stands.
#[derive(Clone, Copy, PartialEq, Eq, Debug, Structural)]
pub enum Watch {
    Idle,
    /// A feed has been running since.
    Feeding(u64),
    /// The feed is over since; the scene is settling.
    Settling(u64),
}

/// What a look at the flag calls for.
#[derive(Clone, Copy, PartialEq, Eq, Debug, Structural)]
pub enum CycleAction {
    Wait,
    /// A feed has started: take the first picture.
    Start,
    /// The feed is over.
    Cleared,
    /// The flag never cleared: drop this cycle.
    Drop,
    /// The scene has settled: take the second picture and save both.
    Finish,
}

/// The watcher after a look at the flag, and what that calls for.
pub open spec fn watched(w: Watch, flag: bool, now_ms: u64) -> (Watch, CycleAction) {
    match w {
        Watch::Idle => if flag {
            (Watch::Feeding(now_ms), CycleAction::Start)
        } else {
            (w, CycleAction::Wait)
        },
        Watch::Feeding(since) => if !flag {
            (Watch::Settling(now_ms), CycleAction::Cleared)
        } else if now_ms - since >= MAX_CYCLE_WAIT {
            (Watch::Idle, CycleAction::Drop)
        } else {
            (w, CycleAction::Wait)
        },
        Watch::Settling(since) => if now_ms - since >= SETTLE_AFTER_FEED {
            (Watch::Idle, CycleAction::Finish)
        } else {
            (w, CycleAction::Wait)
        },
    }
}

/// Looks at the feeding flag.
pub fn watch(w: Watch, flag: bool, now_ms: u64) -> (r: (Watch, CycleAction))
    ensures
        r == watched(w, flag, now_ms),
{
    match w {
        Watch::Idle => if flag {
            (Watch::Feeding(now_ms), CycleAction::Start)
        } else {
            (w, CycleAction::Wait)
        },
        Watch::Feeding(since) => if !flag {
            (Watch::Settling(now_ms), CycleAction::Cleared)
        } else if now_ms.saturating_sub(since) >= MAX_CYCLE_WAIT {
            (Watch::Idle, CycleAction::Drop)
        } else {
            (w, CycleAction::Wait)
        },
        Watch::Settling(since) => if now_ms.saturating_sub(since) >= SETTLE_AFTER_FEED {
            (Watch::Idle, CycleAction::Finish)
        } else {
            (w, CycleAction::Wait)
        },
    }
}

} // verus!
