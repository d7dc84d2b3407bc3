//! The feed of detections: what the vendor's vision pipeline leaves behind, numbered and capped.

use std::collections::VecDeque;

use vstd::prelude::*;
use vstd::string::*;

use crate::bytes::{le32_at, read_le32};
use crate::json::{array_text, escaped_or_null, join, opt_json_escaped, opt_text, string_texts};
use crate::number::{dec, lemma_dec_worth, lemma_uint_of_dec, parse_u64, push_dec, uint_of};
use crate::order::{is_stable_order, named_keys, stable_order};
use crate::text::{
    char_len, cut, ends, find_pat, is_digit, lemma_find_is, same, split_once, strip_suffix, Pat,
};

pub mod laws;

pub mod msg;

verus! {

/// The length of an event report.
pub const CTRL_EVENT_MSG_LEN: usize = 0xa8;

/// The type of a report that a pet was tracked.
pub const EVENT_TYPE_PET_TRACKING: u32 = 0x18;

/// Where the crops are kept.
pub const EVENTS_DIR: &'static str = "/opt/kibble/events";

pub const SAVE_FACE_JPG: &'static str = "/tmp/saveFace.jpg";

pub const FPRE_PET_JPEG: &'static str = "/tmp/fPre_pet.jpeg";

pub const FPRE_EAT_JPEG: &'static str = "/tmp/fPre_eat.jpeg";

/// How many detections the feed holds.
pub const MAX_EVENTS: usize = 50;

/// How many crops are kept.
pub const MAX_EVENT_FILES: usize = 200;

/// The part of an event report that is understood.
#[derive(Debug, Clone, Copy, PartialEq, Eq, Structural)]
pub struct CtrlEventMsgHeader {
    pub event_type: u32,
}

impl CtrlEventMsgHeader {
    /// Decodes the header of a report. `None` if it is too short.
    pub fn decode(payload: &[u8]) -> (r: Option<CtrlEventMsgHeader>)
        ensures
            match r {
                Some(h) => payload@.len() >= 4 && h.event_type == le32_at(payload@, 0),
                None => payload@.len() < 4,
            },
    {
        if payload.len() < 4 {
            return None;
        }
        Some(CtrlEventMsgHeader { event_type: read_le32(payload, 0) })
    }

    pub fn is_pet_tracking(&self) -> (r: bool)
        ensures
            r == (self.event_type == EVENT_TYPE_PET_TRACKING),
    {
        self.event_type == EVENT_TYPE_PET_TRACKING
    }
}

/// Whether a name is one plain path segment.
pub open spec fn safe_name(name: Seq<char>) -> bool {
    &&& name.len() > 0
    &&& forall|i: int| 0 <= i < name.len() ==> #[trigger] name[i] != '/' && name[i] != '\\'
    &&& name != "."@
    &&& name != ".."@
}

/// A name is safe if it has no path separators and is neither of the two directory names.
pub fn is_safe_name(name: &str) -> (r: bool)
    ensures
        r == safe_name(name@),
{
    let n: usize = char_len(name);
    let i: usize = find_pat(name, Pat::Either('/', '\\'));
    proof {
        crate::text::lemma_find_from_bounds(name@, Pat::Either('/', '\\'), 0);
        if i < n {
            assert(!safe_name(name@));
        } else {
            assert forall|j: int| 0 <= j < name@.len() implies #[trigger] name@[j] != '/'
                && name@[j] != '\\' by {
                assert(!Pat::Either('/', '\\').has(name@[j]));
            }
        }
    }
    n > 0 && i == n && !same(name, ".") && !same(name, "..")
}

/// Why a crop cannot be served.
#[derive(Debug)]
pub enum EventFileError {
    InvalidName,
    NotFound,
    Io(String),
}

impl EventFileError {
    pub open spec fn text(&self) -> Seq<char> {
        match self {
            EventFileError::InvalidName => "invalid file name"@,
            EventFileError::NotFound => "no such event file"@,
            EventFileError::Io(m) => m@,
        }
    }

    pub fn message(&self) -> (s: String)
        ensures
            s@ == self.text(),
    {
        match self {
            EventFileError::InvalidName => "invalid file name".to_owned(),
            EventFileError::NotFound => "no such event file".to_owned(),
            EventFileError::Io(m) => m.clone(),
        }
    }
}

/// The path of a crop, where its name is safe.
pub fn read_event(name: &str) -> (r: Result<String, EventFileError>)
    ensures
        match r {
            Ok(p) => safe_name(name@) && p@ == EVENTS_DIR@ + "/"@ + name@,
            Err(e) => !safe_name(name@) && e is InvalidName,
        },
{
    if !is_safe_name(name) {
        return Err(EventFileError::InvalidName);
    }
    let mut p: String = EVENTS_DIR.to_owned();
    p.append("/");
    p.append(name);
    Ok(p)
}

/// One detection. Numbers that are no integers are held as the text that stands for them.
pub struct Detection {
    pub seq: u64,
    pub ts: u64,
    pub class: &'static str,
    pub score: Option<String>,
    /// The vendor's id of the pet.
    pub pet_id: Option<u32>,
    pub b0x: Option<String>,
    /// The file of the crop.
    pub image: Option<String>,
    /// The cat that the classifier is sure of.
    pub cat: Option<String>,
    /// The vendor's score of the visit.
    pub total_score: Option<String>,
}

pub struct DetectionView {
    pub seq: u64,
    pub ts: u64,
    pub class: Seq<char>,
    pub score: Option<Seq<char>>,
    pub pet_id: Option<u32>,
    pub b0x: Option<Seq<char>>,
    pub image: Option<Seq<char>>,
    pub cat: Option<Seq<char>>,
    pub total_score: Option<Seq<char>>,
}

impl View for Detection {
    type V = DetectionView;

    open spec fn view(&self) -> DetectionView {
        DetectionView {
            seq: self.seq,
            ts: self.ts,
            class: self.class@,
            score: opt_text(self.score),
            pet_id: self.pet_id,
            b0x: opt_text(self.b0x),
            image: opt_text(self.image),
            cat: opt_text(self.cat),
            total_score: opt_text(self.total_score),
        }
    }
}

/// A text as it stands, or `null`.
pub open spec fn raw_or_null(o: Option<Seq<char>>) -> Seq<char> {
    match o {
        Some(s) => s,
        None => "null"@,
    }
}

pub open spec fn number_or_null(o: Option<u32>) -> Seq<char> {
    match o {
        Some(n) => dec(n as nat),
        None => "null"@,
    }
}

/// A detection as it is reported.
pub open spec fn detection_text(d: DetectionView) -> Seq<char> {
    "{\"seq\":"@ + dec(d.seq as nat) + ",\"ts\":"@ + dec(d.ts as nat) + ",\"class\":\""@ + d.class
        + "\",\"score\":"@ + raw_or_null(d.score) + ",\"box\":"@ + raw_or_null(d.b0x)
        + ",\"pet_id\":"@ + number_or_null(d.pet_id) + ",\"image\":"@ + escaped_or_null(d.image)
        + ",\"cat\":"@ + escaped_or_null(d.cat) + ",\"total_score\":"@ + raw_or_null(d.total_score)
        + "}"@
}

fn raw_string(o: &Option<String>) -> (s: String)
    ensures
        s@ == raw_or_null(opt_text(*o)),
{
    match o {
        Some(t) => t.clone(),
        None => "null".to_owned(),
    }
}

impl Detection {
    pub fn to_json(&self) -> (s: String)
        ensures
            s@ == detection_text(self@),
    {
        let mut s: String = "{\"seq\":".to_owned();
        push_dec(&mut s, self.seq);
        s.append(",\"ts\":");
        push_dec(&mut s, self.ts);
        s.append(",\"class\":\"");
        s.append(self.class);
        s.append("\",\"score\":");
        s.append(raw_string(&self.score).as_str());
        s.append(",\"box\":");
        s.append(raw_string(&self.b0x).as_str());
        s.append(",\"pet_id\":");
        match self.pet_id {
            Some(n) => push_dec(&mut s, n as u64),
            None => s.append("null"),
        }
        s.append(",\"image\":");
        s.append(opt_json_escaped(&self.image).as_str());
        s.append(",\"cat\":");
        s.append(opt_json_escaped(&self.cat).as_str());
        s.append(",\"total_score\":");
        s.append(raw_string(&self.total_score).as_str());
        s.append("}");
        s
    }
}

/// An identification that the vendor left in the shared config.
pub struct TrackEntry {
    pub pet_id: u32,
    pub start_time: u64,
    /// The number that the vendor gives, as text.
    pub value: String,
}

/// The vendor's block of identifications.
pub struct PetTrack {
    pub pet_id: u32,
    pub count: u32,
    pub area: u32,
    pub trackers: Vec<TrackEntry>,
}

/// The newest of the first `n` entries: the one with the greatest start time, the last of equals.
pub open spec fn newest_upto(v: Seq<TrackEntry>, n: int) -> Option<int>
    decreases n,
{
    if n <= 0 {
        None
    } else {
        match newest_upto(v, n - 1) {
            Some(k) => if v[n - 1].start_time >= v[k].start_time {
                Some(n - 1)
            } else {
                Some(k)
            },
            None => Some(n - 1),
        }
    }
}

impl PetTrack {
    /// The newest entry.
    pub fn latest(&self) -> (r: Option<&TrackEntry>)
        ensures
            match r {
                Some(e) => newest_upto(self.trackers@, self.trackers@.len() as int) matches Some(k)
                    && 0 <= k < self.trackers@.len() && *e == self.trackers@[k],
                None => self.trackers@.len() == 0,
            },
    {
        let n: usize = self.trackers.len();
        if n == 0 {
            return None;
        }
        let mut best: usize = 0;
        let mut i: usize = 1;
        proof {
            reveal_with_fuel(newest_upto, 2);
        }
        while i < n
            invariant
                1 <= i <= n == self.trackers@.len(),
                best < n,
                newest_upto(self.trackers@, i as int) == Some(best as int),
            decreases n - i,
        {
            if self.trackers[i].start_time >= self.trackers[best].start_time {
                best = i;
            }
            i = i + 1;
        }
        Some(&self.trackers[best])
    }
}

/// What tells one identification from another.
pub open spec fn key_of(t: PetTrack) -> Option<(u32, u64)> {
    match newest_upto(t.trackers@, t.trackers@.len() as int) {
        Some(k) => Some((t.trackers@[k].pet_id, t.trackers@[k].start_time)),
        None => None,
    }
}

pub fn track_key(t: &PetTrack) -> (r: Option<(u32, u64)>)
    ensures
        r == key_of(*t),
{
    match t.latest() {
        Some(e) => Some((e.pet_id, e.start_time)),
        None => None,
    }
}

/// Whether a block that was read holds a new identification, and the key to remember. A block that
/// could not be read changes nothing.
pub fn track_step(last: Option<(u32, u64)>, block: Option<&PetTrack>) -> (r: (
    Option<(u32, u64)>,
    bool,
))
    ensures
        match block {
            None => r == (last, false),
            Some(t) => r == (key_of(*t), key_of(*t) is Some && key_of(*t) != last),
        },
{
    match block {
        None => (last, false),
        Some(t) => {
            let key: Option<(u32, u64)> = track_key(t);
            let fresh: bool = match (key, last) {
                (None, _) => false,
                (Some(_), None) => true,
                (Some((a, b)), Some((c, d))) => a != c || b != d,
            };
            (key, fresh)
        },
    }
}

/// Whether a watched file is to be read: it exists and its modification time is another one.
pub fn should_read(last_seen: Option<u64>, mtime: Option<u64>) -> (r: bool)
    ensures
        r == (mtime is Some && mtime != last_seen),
{
    match (mtime, last_seen) {
        (None, _) => false,
        (Some(_), None) => true,
        (Some(a), Some(b)) => a != b,
    }
}

/// The name of a crop.
pub open spec fn event_name(ts: u64, class: Seq<char>) -> Seq<char> {
    dec(ts as nat) + "-"@ + class + ".jpg"@
}

pub fn event_file_name(ts: u64, class: &str) -> (s: String)
    ensures
        s@ == event_name(ts, class@),
{
    let mut s: String = String::new();
    push_dec(&mut s, ts);
    assert(s@ =~= dec(ts as nat));
    s.append("-");
    s.append(class);
    s.append(".jpg");
    s
}

/// What stands before the ending of a picture's name.
pub open spec fn stem_of(rest: Seq<char>) -> Option<Seq<char>> {
    if ends(rest, ".jpg"@) {
        Some(rest.subrange(0, rest.len() - 4))
    } else if ends(rest, ".jpeg"@) {
        Some(rest.subrange(0, rest.len() - 5))
    } else {
        None
    }
}

/// Time and class of a crop, by its name.
pub open spec fn crop_of(name: Seq<char>) -> Option<(u64, Seq<char>)> {
    match cut(name, Pat::Is('-')) {
        None => None,
        Some((t, rest)) => match (uint_of(t, 10, u64::MAX as nat), stem_of(rest)) {
            (Some(ts), Some(c)) => if c == "visit"@ || c == "eat"@ || c == "face"@ {
                Some((ts as u64, c))
            } else {
                None
            },
            _ => None,
        },
    }
}

fn read_stem(rest: &str) -> (r: Option<&str>)
    ensures
        match r {
            Some(s) => stem_of(rest@) == Some(s@),
            None => stem_of(rest@) is None,
        },
{
    proof {
        reveal_strlit(".jpg");
        reveal_strlit(".jpeg");
    }
    match strip_suffix(rest, ".jpg") {
        Some(s) => Some(s),
        None => strip_suffix(rest, ".jpeg"),
    }
}

pub fn parse_event_name(name: &str) -> (r: Option<(u64, &'static str)>)
    ensures
        match r {
            Some((ts, c)) => crop_of(name@) == Some((ts, c@)),
            None => crop_of(name@) is None,
        },
{
    let (t, rest): (&str, &str) = match split_once(name, Pat::Is('-')) {
        Some(p) => p,
        None => return None,
    };
    let ts: u64 = match parse_u64(t) {
        Some(n) => n,
        None => return None,
    };
    let stem: &str = match read_stem(rest) {
        Some(s) => s,
        None => return None,
    };
    if same(stem, "visit") {
        Some((ts, "visit"))
    } else if same(stem, "eat") {
        Some((ts, "eat"))
    } else if same(stem, "face") {
        Some((ts, "face"))
    } else {
        None
    }
}

/// A crop that was found: time, class and name.
pub struct Found {
    pub ts: u64,
    pub class: &'static str,
    pub name: String,
}

pub open spec fn found_views(v: Seq<Found>) -> Seq<(u64, Seq<char>, Seq<char>)> {
    v.map_values(|f: Found| (f.ts, f.class@, f.name@))
}

/// The crops among the first `n` names, in the order of the names.
pub open spec fn found_upto(names: Seq<Seq<char>>, n: int) -> Seq<(u64, Seq<char>, Seq<char>)>
    decreases n,
{
    if n <= 0 {
        Seq::empty()
    } else {
        match crop_of(names[n - 1]) {
            Some((ts, c)) => found_upto(names, n - 1).push((ts, c, names[n - 1])),
            None => found_upto(names, n - 1),
        }
    }
}

fn find_crops(names: &Vec<String>) -> (v: Vec<Found>)
    ensures
        found_views(v@) == found_upto(string_texts(names@), names@.len() as int),
{
    let ghost all = string_texts(names@);
    let mut v: Vec<Found> = Vec::new();
    let mut i: usize = 0;
    assert(found_views(v@) =~= Seq::<(u64, Seq<char>, Seq<char>)>::empty());
    while i < names.len()
        invariant
            i <= names@.len(),
            all == string_texts(names@),
            found_views(v@) == found_upto(all, i as int),
        decreases names@.len() - i,
    {
        assert(all[i as int] == names@[i as int]@);
        let ghost done = v@;
        if let Some((ts, class)) = parse_event_name(names[i].as_str()) {
            v.push(Found { ts, class, name: names[i].clone() });
            assert(found_views(v@) =~= found_views(done).push((ts, class@, all[i as int])));
        }
        i = i + 1;
    }
    v
}

/// The cat that was captured at `ts`: the first of `cats` with that time.
pub open spec fn cat_at(cats: Seq<(u64, Seq<char>)>, ts: u64) -> Option<Seq<char>>
    decreases cats.len(),
{
    if cats.len() == 0 {
        None
    } else if cats[0].0 == ts {
        Some(cats[0].1)
    } else {
        cat_at(cats.drop_first(), ts)
    }
}

/// The cat by which an event is named: that of the labelled crop of its second, for a face.
pub open spec fn cat_of_crop(f: (u64, Seq<char>, Seq<char>), cats: Seq<(u64, Seq<char>)>) -> Option<
    Seq<char>,
> {
    if f.1 == "face"@ {
        cat_at(cats, f.0)
    } else {
        None
    }
}

fn find_cat(cats: &Vec<(u64, String)>, ts: u64) -> (r: Option<String>)
    ensures
        opt_text(r) == cat_at(named_keys(cats@), ts),
{
    let ghost all = named_keys(cats@);
    let mut i: usize = 0;
    assert(all.subrange(0, all.len() as int) =~= all);
    while i < cats.len()
        invariant
            i <= cats@.len(),
            all == named_keys(cats@),
            cat_at(all, ts) == cat_at(all.subrange(i as int, all.len() as int), ts),
        decreases cats@.len() - i,
    {
        let ghost rest = all.subrange(i as int, all.len() as int);
        assert(rest[0] == (cats@[i as int].0, cats@[i as int].1@));
        if cats[i].0 == ts {
            return Some(cats[i].1.clone());
        }
        assert(rest.drop_first() =~= all.subrange(i + 1, all.len() as int));
        i = i + 1;
    }
    None
}

/// The detection that stands for a crop found on disk.
pub open spec fn from_crop(
    f: (u64, Seq<char>, Seq<char>),
    cats: Seq<(u64, Seq<char>)>,
    seq: u64,
) -> DetectionView {
    DetectionView {
        seq,
        ts: f.0,
        class: f.1,
        score: None,
        pet_id: None,
        b0x: None,
        image: Some(f.2),
        cat: cat_of_crop(f, cats),
        total_score: None,
    }
}

pub open spec fn times_of(v: Seq<(u64, Seq<char>, Seq<char>)>) -> Seq<u64> {
    v.map_values(|f: (u64, Seq<char>, Seq<char>)| f.0)
}

/// Whether `events` are the newest of the crops `found`, at most [`MAX_EVENTS`] of them, by time
/// and at equal times in the order they were found, numbered from `first` and named by `cats`.
pub open spec fn is_newest_of(
    found: Seq<(u64, Seq<char>, Seq<char>)>,
    cats: Seq<(u64, Seq<char>)>,
    events: Seq<DetectionView>,
    first: u64,
) -> bool {
    let n = if found.len() > MAX_EVENTS {
        MAX_EVENTS as int
    } else {
        found.len() as int
    };
    exists|p: Seq<usize>|
        #![trigger is_stable_order(times_of(found), p)]
        is_stable_order(times_of(found), p) && events == Seq::new(
            n as nat,
            |i: int| from_crop(found[p[found.len() - n + i] as int], cats, (first + i) as u64),
        )
}

/// The last [`MAX_EVENTS`] detections.
pub struct Feed {
    events: VecDeque<Detection>,
    next_seq: u64,
}

pub open spec fn detection_views(v: Seq<Detection>) -> Seq<DetectionView> {
    v.map_values(|d: Detection| d@)
}

impl View for Feed {
    type V = Seq<DetectionView>;

    closed spec fn view(&self) -> Seq<DetectionView> {
        detection_views(self.events@)
    }
}

impl Feed {
    /// The number of the next detection.
    pub closed spec fn next(&self) -> u64 {
        self.next_seq
    }

    /// The feed is never over its cap, and its numbers run without a gap up to the last one given.
    pub open spec fn wf(&self) -> bool {
        &&& self@.len() <= MAX_EVENTS
        &&& self@.len() < self.next()
        &&& forall|i: int|
            0 <= i < self@.len() ==> (#[trigger] self@[i]).seq == self.next() - self@.len() + i
    }

    pub fn new() -> (f: Feed)
        ensures
            f.wf(),
            f@ == Seq::<DetectionView>::empty(),
            f.next() == 1,
    {
        let f: Feed = Feed { events: VecDeque::new(), next_seq: 1 };
        assert(f@ =~= Seq::<DetectionView>::empty());
        f
    }

    /// The feed as the crops on disk let it be rebuilt. A face is named by the crop of the same
    /// second that has been labelled, where there is one; `cats` are the times and the cats of
    /// those.
    pub fn rehydrate_from_disk(names: &Vec<String>, cats: &Vec<(u64, String)>) -> (f: Feed)
        ensures
            f.wf(),
            is_newest_of(
                found_upto(string_texts(names@), names@.len() as int),
                named_keys(cats@),
                f@,
                1,
            ),
            f.next() == f@.len() + 1,
    {
        let found: Vec<Found> = find_crops(names);
        let ghost named = named_keys(cats@);
        let ghost views = found_views(found@);
        let mut keys: Vec<u64> = Vec::new();
        let mut i: usize = 0;
        while i < found.len()
            invariant
                i <= found@.len(),
                views == found_views(found@),
                keys@ == times_of(views).subrange(0, i as int),
            decreases found@.len() - i,
        {
            keys.push(found[i].ts);
            i = i + 1;
            assert(keys@ =~= times_of(views).subrange(0, i as int));
        }
        assert(keys@ =~= times_of(views));
        let p: Vec<usize> = stable_order(&keys);
        let n: usize = if found.len() > MAX_EVENTS {
            MAX_EVENTS
        } else {
            found.len()
        };
        let skip: usize = found.len() - n;
        let mut f: Feed = Feed::new();
        let ghost want = Seq::new(
            n as nat,
            |k: int| from_crop(views[p@[views.len() - n + k] as int], named, (1 + k) as u64),
        );
        let mut k: usize = 0;
        while k < n
            invariant
                k <= n <= MAX_EVENTS,
                n + skip == found@.len(),
                named == named_keys(cats@),
                views == found_views(found@),
                is_stable_order(times_of(views), p@),
                f.next() == k + 1,
                f@.len() == k,
                want == Seq::new(
                    n as nat,
                    |k: int| from_crop(views[p@[views.len() - n + k] as int], named, (1 + k) as u64),
                ),
                forall|j: int| 0 <= j < k ==> #[trigger] f@[j] == want[j],
            decreases n - k,
        {
            let at: usize = p[skip + k];
            assert(0 <= at < found@.len());
            let c: &Found = &found[at];
            let ghost done = f.events@;
            let cat: Option<String> = if same(c.class, "face") {
                find_cat(cats, c.ts)
            } else {
                None
            };
            let d: Detection = Detection {
                seq: f.next_seq,
                ts: c.ts,
                class: c.class,
                score: None,
                pet_id: None,
                b0x: None,
                image: Some(c.name.clone()),
                cat,
                total_score: None,
            };
            assert(d@ == want[k as int]);
            f.events.push_back(d);
            f.next_seq = f.next_seq + 1;
            assert(f@ =~= detection_views(done).push(want[k as int]));
            k = k + 1;
        }
        proof {
            assert(f@ =~= want);
            assert(is_stable_order(times_of(views), p@));
        }
        f
    }

    /// Adds a detection under the next number; the oldest leaves where the feed is full.
    pub fn push_detection(
        &mut self,
        ts: u64,
        class: &'static str,
        image: Option<String>,
        cat: Option<String>,
        pet_id: Option<u32>,
        total_score: Option<String>,
    )
        requires
            old(self).wf(),
            old(self).next() < u64::MAX,
        ensures
            final(self).wf(),
            final(self).next() == old(self).next() + 1,
            ({
                let d = DetectionView {
                    seq: old(self).next(),
                    ts,
                    class: class@,
                    score: None,
                    pet_id,
                    b0x: None,
                    image: opt_text(image),
                    cat: opt_text(cat),
                    total_score: opt_text(total_score),
                };
                let all = old(self)@.push(d);
                final(self)@ == (if all.len() > MAX_EVENTS {
                    all.subrange(1, all.len() as int)
                } else {
                    all
                })
            }),
    {
        let seq: u64 = self.next_seq;
        let ghost was = self.events@;
        let d: Detection = Detection {
            seq,
            ts,
            class,
            score: None,
            pet_id,
            b0x: None,
            image,
            cat,
            total_score,
        };
        let ghost view = d@;
        self.next_seq = seq + 1;
        self.events.push_back(d);
        let ghost all = detection_views(was).push(view);
        assert(self@ =~= all);
        if self.events.len() > MAX_EVENTS {
            let _ = self.events.pop_front();
            assert(self@ =~= all.subrange(1, all.len() as int));
        }
    }

    /// A crop was saved, or seen.
    pub fn push(&mut self, now: u64, class: &'static str, image: Option<String>, cat: Option<String>)
        requires
            old(self).wf(),
            old(self).next() < u64::MAX,
        ensures
            final(self).wf(),
            final(self).next() == old(self).next() + 1,
            final(self)@.last() == (DetectionView {
                seq: old(self).next(),
                ts: now,
                class: class@,
                score: None,
                pet_id: None,
                b0x: None,
                image: opt_text(image),
                cat: opt_text(cat),
                total_score: None,
            }),
            final(self)@.drop_last() == (if old(self)@.len() == MAX_EVENTS {
                old(self)@.subrange(1, old(self)@.len() as int)
            } else {
                old(self)@
            }),
    {
        self.push_detection(now, class, image, cat, None, None);
        assert(self@.drop_last() =~= (if old(self)@.len() == MAX_EVENTS {
            old(self)@.subrange(1, old(self)@.len() as int)
        } else {
            old(self)@
        }));
    }

    /// The vendor identified a pet: it is published under the vendor's own start time.
    pub fn push_track(&mut self, entry: &TrackEntry)
        requires
            old(self).wf(),
            old(self).next() < u64::MAX,
        ensures
            final(self).wf(),
            final(self).next() == old(self).next() + 1,
            final(self)@.last() == (DetectionView {
                seq: old(self).next(),
                ts: entry.start_time,
                class: "track"@,
                score: None,
                pet_id: Some(entry.pet_id),
                b0x: None,
                image: None,
                cat: None,
                total_score: Some(entry.value@),
            }),
            final(self)@.drop_last() == (if old(self)@.len() == MAX_EVENTS {
                old(self)@.subrange(1, old(self)@.len() as int)
            } else {
                old(self)@
            }),
    {
        self.push_detection(
            entry.start_time,
            "track",
            None,
            None,
            Some(entry.pet_id),
            Some(entry.value.clone()),
        );
        assert(self@.drop_last() =~= (if old(self)@.len() == MAX_EVENTS {
            old(self)@.subrange(1, old(self)@.len() as int)
        } else {
            old(self)@
        }));
    }

    pub fn len(&self) -> (n: usize)
        ensures
            n == self@.len(),
    {
        self.events.len()
    }

    /// A detection of the feed, oldest first.
    pub fn get(&self, i: usize) -> (d: &Detection)
        requires
            i < self@.len(),
        ensures
            d@ == self@[i as int],
    {
        &self.events[i]
    }

    /// Whether a detection past `since` is there.
    pub fn has_past(&self, since: u64) -> (r: bool)
        ensures
            r == (self@.len() > 0 && self@.last().seq > since),
    {
        let n: usize = self.events.len();
        n > 0 && self.events[n - 1].seq > since
    }

    /// The detections past `since`, oldest first.
    fn texts_past(&self, since: u64) -> (parts: Vec<String>)
        ensures
            string_texts(parts@) == past_upto(self@, since, self@.len() as int),
    {
        let mut parts: Vec<String> = Vec::new();
        let mut i: usize = 0;
        let n: usize = self.events.len();
        assert(string_texts(parts@) =~= Seq::<Seq<char>>::empty());
        while i < n
            invariant
                i <= n == self.events@.len(),
                string_texts(parts@) == past_upto(self@, since, i as int),
            decreases n - i,
        {
            let d: &Detection = &self.events[i];
            assert(d@ == self@[i as int]);
            let ghost done = parts@;
            if d.seq > since {
                let s: String = d.to_json();
                parts.push(s);
                assert(string_texts(parts@) =~= string_texts(done).push(s@));
            }
            i = i + 1;
        }
        parts
    }

    /// All detections, oldest first.
    pub fn snapshot_json(&self) -> (s: String)
        requires
            self.wf(),
        ensures
            s@ == events_text(self@),
    {
        proof {
            lemma_all_past_zero(*self, self@.len() as int);
            assert(self@.subrange(0, self@.len() as int) =~= self@);
        }
        self.wait_since(0)
    }

    /// The detections past `since`, oldest first.
    pub fn wait_since(&self, since: u64) -> (s: String)
        ensures
            s@ == past_text(self@, since),
    {
        let parts: Vec<String> = self.texts_past(since);
        let mut s: String = "[".to_owned();
        s.append(join(&parts, ",").as_str());
        s.append("]");
        s
    }

    /// The newest picture of the whole scene: time and file.
    pub fn latest_scene_image(&self) -> (r: Option<(u64, String)>)
        ensures
            match r {
                Some((ts, f)) => scene_upto(self@, self@.len() as int) == Some((ts, f@)),
                None => scene_upto(self@, self@.len() as int) is None,
            },
    {
        let mut i: usize = self.events.len();
        while i > 0
            invariant
                i <= self.events@.len(),
                scene_upto(self@, self@.len() as int) == scene_upto(self@, i as int),
            decreases i,
        {
            let d: &Detection = &self.events[i - 1];
            assert(d@ == self@[i - 1]);
            if same(d.class, "visit") || same(d.class, "eat") {
                if let Some(f) = &d.image {
                    return Some((d.ts, f.clone()));
                }
            }
            i = i - 1;
        }
        None
    }
}

/// The report of all events.
pub open spec fn events_text(v: Seq<DetectionView>) -> Seq<char> {
    array_text(v.map_values(|d: DetectionView| detection_text(d)))
}

/// The report of the events that a client has not seen.
pub open spec fn past_text(v: Seq<DetectionView>, since: u64) -> Seq<char> {
    array_text(past_upto(v, since, v.len() as int))
}

/// The texts of those of the first `n` detections that are past `since`.
pub open spec fn past_upto(v: Seq<DetectionView>, since: u64, n: int) -> Seq<Seq<char>>
    decreases n,
{
    if n <= 0 {
        Seq::empty()
    } else if v[n - 1].seq > since {
        past_upto(v, since, n - 1).push(detection_text(v[n - 1]))
    } else {
        past_upto(v, since, n - 1)
    }
}

/// The last of the first `n` detections that has a picture of the whole scene.
pub open spec fn scene_upto(v: Seq<DetectionView>, n: int) -> Option<(u64, Seq<char>)>
    decreases n,
{
    if n <= 0 {
        None
    } else {
        match v[n - 1].image {
            Some(f) => if v[n - 1].class == "visit"@ || v[n - 1].class == "eat"@ {
                Some((v[n - 1].ts, f))
            } else {
                scene_upto(v, n - 1)
            },
            None => scene_upto(v, n - 1),
        }
    }
}

proof fn lemma_all_past_zero(f: Feed, n: int)
    requires
        f.wf(),
        0 <= n <= f@.len(),
    ensures
        past_upto(f@, 0, n) == f@.subrange(0, n).map_values(|d: DetectionView| detection_text(d)),
    decreases n,
{
    let g = |d: DetectionView| detection_text(d);
    if n == 0 {
        assert(f@.subrange(0, 0).map_values(g) =~= Seq::<Seq<char>>::empty());
    } else {
        lemma_all_past_zero(f, n - 1);
        assert(f@[n - 1].seq == f.next() - f@.len() + n - 1);
        assert(f@.subrange(0, n).map_values(g) =~= f@.subrange(0, n - 1).map_values(g).push(
            detection_text(f@[n - 1]),
        ));
    }
}

/// The time by which a crop's age is told: the number its name starts with, else zero.
pub open spec fn age_key(name: Seq<char>) -> u64 {
    match cut(name, Pat::Is('-')) {
        Some((t, _)) => match uint_of(t, 10, u64::MAX as nat) {
            Some(n) => n as u64,
            None => 0,
        },
        None => 0,
    }
}

pub open spec fn age_keys(names: Seq<Seq<char>>) -> Seq<u64> {
    names.map_values(|n: Seq<char>| age_key(n))
}

/// Whether `victims` are the oldest of `names`, as many as there are over `cap`.
pub open spec fn are_oldest(names: Seq<Seq<char>>, victims: Seq<Seq<char>>, cap: int) -> bool {
    let n = if names.len() > cap {
        names.len() - cap
    } else {
        0
    };
    exists|p: Seq<usize>|
        #![trigger is_stable_order(age_keys(names), p)]
        is_stable_order(age_keys(names), p) && victims == Seq::new(
            n as nat,
            |i: int| names[p[i] as int],
        )
}

/// The crops to delete: the oldest, as many as there are over [`MAX_EVENT_FILES`].
pub fn prune_events_dir(names: &Vec<String>) -> (victims: Vec<String>)
    ensures
        are_oldest(string_texts(names@), string_texts(victims@), MAX_EVENT_FILES as int),
{
    let ghost all = string_texts(names@);
    let mut keys: Vec<u64> = Vec::new();
    let mut i: usize = 0;
    while i < names.len()
        invariant
            i <= names@.len(),
            all == string_texts(names@),
            keys@ == age_keys(all).subrange(0, i as int),
        decreases names@.len() - i,
    {
        assert(all[i as int] == names@[i as int]@);
        let key: u64 = match split_once(names[i].as_str(), Pat::Is('-')) {
            Some((t, _)) => match parse_u64(t) {
                Some(n) => n,
                None => 0,
            },
            None => 0,
        };
        keys.push(key);
        i = i + 1;
        assert(keys@ =~= age_keys(all).subrange(0, i as int));
    }
    assert(keys@ =~= age_keys(all));
    let p: Vec<usize> = stable_order(&keys);
    let n: usize = if names.len() > MAX_EVENT_FILES {
        names.len() - MAX_EVENT_FILES
    } else {
        0
    };
    let mut victims: Vec<String> = Vec::new();
    let ghost want = Seq::new(n as nat, |i: int| all[p@[i] as int]);
    let mut k: usize = 0;
    while k < n
        invariant
            k <= n <= names@.len(),
            all == string_texts(names@),
            is_stable_order(age_keys(all), p@),
            want == Seq::new(n as nat, |i: int| all[p@[i] as int]),
            victims@.len() == k,
            forall|j: int| 0 <= j < k ==> (#[trigger] victims@[j])@ == want[j],
        decreases n - k,
    {
        let at: usize = p[k];
        assert(0 <= at < names@.len());
        victims.push(names[at].clone());
        k = k + 1;
    }
    assert(string_texts(victims@) =~= want);
    assert(is_stable_order(age_keys(all), p@));
    victims
}

/// The name of a crop gives back its time and class.
pub proof fn law_crop_name_reads_back(ts: u64, class: Seq<char>)
    requires
        class == "visit"@ || class == "eat"@ || class == "face"@,
    ensures
        crop_of(event_name(ts, class)) == Some((ts, class)),
        age_key(event_name(ts, class)) == ts,
{
    reveal_strlit("-");
    reveal_strlit(".jpg");
    let n = dec(ts as nat);
    let s = event_name(ts, class);
    lemma_dec_worth(ts as nat);
    lemma_uint_of_dec(ts as nat, u64::MAX as nat);
    assert forall|j: int| 0 <= j < n.len() implies !Pat::Is('-').has(#[trigger] s[j]) by {
        assert(s[j] == n[j]);
        assert(is_digit(n[j]));
    }
    assert(s[n.len() as int] == '-');
    lemma_find_is(s, Pat::Is('-'), n.len() as int);
    assert(s.subrange(0, n.len() as int) =~= n);
    let rest = s.subrange(n.len() as int + 1, s.len() as int);
    assert(rest =~= class + ".jpg"@);
    assert(rest.subrange(rest.len() - 4, rest.len() as int) =~= ".jpg"@);
    assert(rest.subrange(0, rest.len() - 4) =~= class);
}

/// No crop that is kept is older than one that is deleted.
pub proof fn law_kept_crops_are_newer(names: Seq<Seq<char>>, p: Seq<usize>, i: int, j: int)
    requires
        is_stable_order(age_keys(names), p),
        0 <= i < j < p.len(),
    ensures
        age_key(names[p[i] as int]) <= age_key(names[p[j] as int]),
{
    assert(crate::order::earlier(age_keys(names), p[i] as int, p[j] as int));
}

} // verus!
