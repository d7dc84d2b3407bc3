//! The feed schedule: the cached entries, their persisted form, and the table that goes to the
//! device.
//!
//! A write replaces the whole table; there is no single-entry add or delete on the wire. An entry
//! that is disabled stays in the cache and is left out of the table. The cache also records, per
//! entry, the last day that was resolved, so that no occurrence is acted on twice.

use vstd::prelude::*;
use vstd::string::*;
use vstd::utf8::{encode_utf8, valid_utf8};

use crate::bus::{field_byte, MAX_PAYLOAD};
use crate::bytes::{bits32, le32, le32_at, read_le32, signed32};
use crate::http::{field_of, json_field, query_field, query_value};
use crate::json::{
    bool_str, bool_text, body_of, items, join, joined, json_array_body, json_object_body, pair_texts, pairs,
    split_object_pairs, split_top_level, string_texts,
};
use crate::localtime::{next_occurrence_utc, next_reading, Tz};
use crate::number::{
    dec, dec_int, dec_padded, digit_worth, int_of, parse_i64, parse_u64, push_dec, push_dec_int,
    push_dec_padded, push_dec_wide, uint_of,
};
use crate::order::{before, comes_before, lemma_before_total, lemma_before_transitive};
use crate::text::{
    char_len, chars_of, debug_text, debugged, escape_debug, escaped, from_utf8_lossy, is_digit,
    lossy, same, texts,
};

pub mod laws;

verus! {

/// The bus payload has room for this many entries behind the header.
pub const MAX_ENTRIES: usize = 24;

/// Byte length of one wire entry: an id of 16 bytes, two amounts, a time of four bytes.
pub const WIRE_ENTRY_LEN: usize = 22;

/// Default location of the persisted cache.
pub const CACHE_PATH: &'static str = "/opt/kibble/schedule.json";

/// A full table fits the bus payload, and one entry more would not.
pub proof fn law_full_table_fits_the_bus()
    ensures
        2 + MAX_ENTRIES * WIRE_ENTRY_LEN <= MAX_PAYLOAD,
        2 + (MAX_ENTRIES + 1) * WIRE_ENTRY_LEN > MAX_PAYLOAD,
{
}

/// The number that the two characters from `i` on denote as decimal digits.
pub open spec fn pair_at(s: Seq<char>, i: int) -> nat {
    (10 * digit_worth(s[i]) + digit_worth(s[i + 1])) as nat
}

/// Whether `s` is two digits, a colon and two digits.
pub open spec fn clock_shaped(s: Seq<char>) -> bool {
    &&& s.len() == 5
    &&& s[2] == ':'
    &&& is_digit(s[0]) && is_digit(s[1]) && is_digit(s[3]) && is_digit(s[4])
}

/// The minutes since midnight that a text in the form `HH:MM` gives: two digits up to 23, a colon
/// and two digits up to 59.
pub open spec fn time_of(s: Seq<char>) -> Option<u16> {
    if clock_shaped(s) && pair_at(s, 0) <= 23 && pair_at(s, 3) <= 59 {
        Some((60 * pair_at(s, 0) + pair_at(s, 3)) as u16)
    } else {
        None
    }
}

/// The form `HH:MM` of a number of minutes.
pub open spec fn time_text(minute: nat) -> Seq<char> {
    dec_padded(minute / 60, 2) + ":"@ + dec_padded(minute % 60, 2)
}

/// The value of a decimal digit.
fn digit_value(c: char) -> (r: Option<u16>)
    ensures
        match r {
            Some(v) => is_digit(c) && v == digit_worth(c) && v <= 9,
            None => !is_digit(c),
        },
{
    if c >= '0' && c <= '9' {
        Some((c as u32 - 48) as u16)
    } else {
        None
    }
}

/// Parses `HH:MM` (24-hour) into minutes since local midnight.
pub fn parse_time_of_day(s: &str) -> (r: Option<u16>)
    ensures
        r == time_of(s@),
{
    let c: Vec<char> = chars_of(s);
    if c.len() != 5 || c[2] != ':' {
        return None;
    }
    match (digit_value(c[0]), digit_value(c[1]), digit_value(c[3]), digit_value(c[4])) {
        (Some(h1), Some(h0), Some(m1), Some(m0)) => {
            let h: u16 = 10 * h1 + h0;
            let m: u16 = 10 * m1 + m0;
            if h <= 23 && m <= 59 {
                Some(60 * h + m)
            } else {
                None
            }
        },
        _ => None,
    }
}

/// The inverse of [`parse_time_of_day`].
pub fn format_time_of_day(minute_of_day: u16) -> (s: String)
    ensures
        s@ == time_text(minute_of_day as nat),
{
    let mut s: String = String::new();
    push_dec_padded(&mut s, minute_of_day as u64 / 60, 2);
    assert(s@ =~= dec_padded(minute_of_day as nat / 60, 2));
    s.append(":");
    push_dec_padded(&mut s, minute_of_day as u64 % 60, 2);
    s
}

/// The clock payload that goes out right before every table: the Unix time in four bytes.
pub fn rtc_payload(now_unix: u64) -> (b: [u8; 4])
    ensures
        b@ == le32(now_unix as nat % 0x1_0000_0000),
{
    let n: u32 = (now_unix % 0x1_0000_0000) as u32;
    let b: [u8; 4] = [
        (n % 256) as u8,
        (n / 256 % 256) as u8,
        (n / 65536 % 256) as u8,
        (n / 16777216) as u8,
    ];
    assert(b@ =~= le32(n as nat));
    b
}

/// One entry of the table.
pub struct WireEntry {
    pub id: String,
    pub amount_l: u8,
    pub amount_r: u8,
    pub time: i32,
}

/// The bytes of an entry: the id in a field of 16 bytes, the amounts, the time.
pub open spec fn wire_bytes(id: Seq<char>, amount_l: u8, amount_r: u8, time: i32) -> Seq<u8> {
    Seq::new(
        22,
        |i: int|
            if i < 16 {
                field_byte(encode_utf8(id), 16, i)
            } else if i == 16 {
                amount_l
            } else if i == 17 {
                amount_r
            } else {
                le32(bits32(time as int))[i - 18]
            },
    )
}

/// Where the text of a field ends: at its first zero byte at or after `i`.
pub open spec fn field_end(b: Seq<u8>, i: int) -> int
    decreases 16 - i,
{
    if i >= 16 || b[i] == 0 {
        i
    } else {
        field_end(b, i + 1)
    }
}

/// Whether `e` is what the bytes `b` of an entry say.
pub open spec fn decodes_to(b: Seq<u8>, e: WireEntry) -> bool {
    let text = b.subrange(0, field_end(b, 0));
    &&& e.id@ == lossy(text)
    &&& valid_utf8(text) ==> encode_utf8(e.id@) == text
    &&& e.amount_l == b[16]
    &&& e.amount_r == b[17]
    &&& e.time == signed32(le32_at(b, 18))
}

impl WireEntry {
    /// The bytes of the entry.
    pub open spec fn wire(&self) -> Seq<u8> {
        wire_bytes(self.id@, self.amount_l, self.amount_r, self.time)
    }

    pub fn encode(&self) -> (b: [u8; 22])
        ensures
            b@ == self.wire(),
    {
        let mut b: [u8; 22] = [0u8;22];
        let id: &[u8] = self.id.as_str().as_bytes();
        let n: usize = if id.len() < 15 {
            id.len()
        } else {
            15
        };
        let mut i: usize = 0;
        while i < n
            invariant
                i <= n <= 15,
                n <= id@.len(),
                b@.len() == 22,
                forall|j: int| 0 <= j < i ==> b@[j] == id@[j],
                forall|j: int| i <= j < 22 ==> b@[j] == 0,
            decreases n - i,
        {
            b[i] = id[i];
            i = i + 1;
        }
        b[16] = self.amount_l;
        b[17] = self.amount_r;
        let bits: u32 = if self.time < 0 {
            (self.time as i64 + 0x1_0000_0000) as u32
        } else {
            self.time as u32
        };
        b[18] = (bits % 256) as u8;
        b[19] = (bits / 256 % 256) as u8;
        b[20] = (bits / 65536 % 256) as u8;
        b[21] = (bits / 16777216) as u8;
        assert(bits == bits32(self.time as int));
        assert(b@ =~= self.wire());
        b
    }

    pub fn decode(b: &[u8; 22]) -> (e: WireEntry)
        ensures
            decodes_to(b@, e),
    {
        let bytes: &[u8] = b.as_slice();
        let mut end: usize = 0;
        while end < 16 && bytes[end] != 0
            invariant
                end <= 16,
                bytes@ == b@,
                b@.len() == 22,
                field_end(b@, 0) == field_end(b@, end as int),
            decreases 16 - end,
        {
            end = end + 1;
        }
        let bits: u32 = read_le32(bytes, 18);
        let time: i32 = if bits >= 0x8000_0000 {
            (bits as i64 - 0x1_0000_0000) as i32
        } else {
            bits as i32
        };
        WireEntry {
            id: from_utf8_lossy(vstd::slice::slice_subrange(bytes, 0, end)),
            amount_l: bytes[16],
            amount_r: bytes[17],
            time,
        }
    }
}

/// Why so many entries are refused.
pub open spec fn cap_text(attempted: nat) -> Seq<char> {
    "schedule would have "@ + dec(attempted) + " entries; the wire format allows at most "@ + dec(
        MAX_ENTRIES as nat,
    ) + " (a "@ + dec(MAX_PAYLOAD as nat)
        + "-byte bus payload clamp would otherwise silently truncate the table mid-entry)"@
}

pub fn cap_error(attempted: usize) -> (s: String)
    ensures
        s@ == cap_text(attempted as nat),
{
    cap_message(attempted as u128)
}

fn cap_message(attempted: u128) -> (s: String)
    ensures
        s@ == cap_text(attempted as nat),
{
    let mut s: String = "schedule would have ".to_owned();
    push_dec_wide(&mut s, attempted);
    s.append(" entries; the wire format allows at most ");
    push_dec(&mut s, MAX_ENTRIES as u64);
    s.append(" (a ");
    push_dec(&mut s, MAX_PAYLOAD as u64);
    s.append("-byte bus payload clamp would otherwise silently truncate the table mid-entry)");
    s
}

/// The bytes of the entries, one after the other.
pub open spec fn wire_all(entries: Seq<WireEntry>) -> Seq<u8>
    decreases entries.len(),
{
    if entries.len() == 0 {
        Seq::empty()
    } else {
        wire_all(entries.drop_last()) + entries.last().wire()
    }
}

/// The table: the number of entries, a reserved byte, the entries.
pub open spec fn table_of(entries: Seq<WireEntry>) -> Seq<u8> {
    seq![entries.len() as u8, 0u8] + wire_all(entries)
}

/// Encodes the header and every entry, in order. More than [`MAX_ENTRIES`] are refused.
pub fn encode_table(entries: &[WireEntry]) -> (r: Result<Vec<u8>, String>)
    ensures
        match r {
            Ok(b) => entries@.len() <= MAX_ENTRIES && b@ == table_of(entries@),
            Err(e) => entries@.len() > MAX_ENTRIES && e@ == cap_text(entries@.len()),
        },
{
    if entries.len() > MAX_ENTRIES {
        return Err(cap_error(entries.len()));
    }
    let mut buf: Vec<u8> = Vec::new();
    buf.push(entries.len() as u8);
    buf.push(0);
    let mut i: usize = 0;
    let ghost head = seq![entries@.len() as u8, 0u8];
    assert(buf@ =~= head + wire_all(entries@.subrange(0, 0)));
    while i < entries.len()
        invariant
            i <= entries@.len(),
            head == seq![entries@.len() as u8, 0u8],
            buf@ == head + wire_all(entries@.subrange(0, i as int)),
        decreases entries@.len() - i,
    {
        let b: [u8; 22] = entries[i].encode();
        crate::bytes::push_all(&mut buf, b.as_slice());
        proof {
            let next = entries@.subrange(0, i + 1);
            assert(next.drop_last() =~= entries@.subrange(0, i as int));
            assert(buf@ =~= head + wire_all(next));
        }
        i = i + 1;
    }
    assert(entries@.subrange(0, i as int) =~= entries@);
    Ok(buf)
}

/// A schedule entry as it is cached.
#[derive(Debug, PartialEq)]
pub struct Entry {
    pub id: String,
    /// Minutes since local midnight.
    pub minute_of_day: u16,
    pub amount_l: u8,
    pub amount_r: u8,
    /// A disabled entry stays in the cache and is left out of the table.
    pub enabled: bool,
}

pub struct EntryView {
    pub id: Seq<char>,
    pub minute_of_day: u16,
    pub amount_l: u8,
    pub amount_r: u8,
    pub enabled: bool,
}

impl View for Entry {
    type V = EntryView;

    open spec fn view(&self) -> EntryView {
        EntryView {
            id: self.id@,
            minute_of_day: self.minute_of_day,
            amount_l: self.amount_l,
            amount_r: self.amount_r,
            enabled: self.enabled,
        }
    }
}

pub open spec fn entry_views(v: Seq<Entry>) -> Seq<EntryView> {
    v.map_values(|e: Entry| e@)
}

/// The persisted form of an entry.
pub open spec fn entry_text(e: EntryView) -> Seq<char> {
    "{\"id\":\""@ + escaped(e.id) + "\",\"time\":\""@ + time_text(e.minute_of_day as nat)
        + "\",\"amount_l\":"@ + dec(e.amount_l as nat) + ",\"amount_r\":"@ + dec(e.amount_r as nat)
        + ",\"enabled\":"@ + bool_text(e.enabled) + "}"@
}

/// The portions that stand behind `key`: an integer from 0 to 50.
pub open spec fn amount_of(obj: Seq<char>, key: Seq<char>) -> Result<u8, Seq<char>> {
    match field_of(obj, key) {
        None => Err("entry missing \""@ + key + "\""@),
        Some(v) => match int_of(v, i64::MIN as int, i64::MAX as int) {
            None => Err("\""@ + key + "\" must be an integer 0..=50, got "@ + debugged(v)),
            Some(n) => if 0 <= n <= 50 {
                Ok(n as u8)
            } else {
                Err("\""@ + key + "\" must be 0..=50, got "@ + dec_int(n))
            },
        },
    }
}

/// The entry that a JSON object describes; `now` makes the id where it gives none.
pub open spec fn entry_of(obj: Seq<char>, now: u64) -> Result<EntryView, Seq<char>> {
    match field_of(obj, "time"@) {
        None => Err("entry missing \"time\""@),
        Some(time) => match time_of(time) {
            None => Err(
                "invalid \"time\" "@ + debugged(time) + ", expected \"HH:MM\" 00:00..=23:59"@,
            ),
            Some(minute_of_day) => match amount_of(obj, "amount_l"@) {
                Err(e) => Err(e),
                Ok(amount_l) => match amount_of(obj, "amount_r"@) {
                    Err(e) => Err(e),
                    Ok(amount_r) => Ok(
                        EntryView {
                            id: id_of(obj, now),
                            minute_of_day,
                            amount_l,
                            amount_r,
                            enabled: enabled_of(obj),
                        },
                    ),
                },
            },
        },
    }
}

/// An entry is enabled unless its object says `false`.
pub open spec fn enabled_of(obj: Seq<char>) -> bool {
    match field_of(obj, "enabled"@) {
        Some(v) => v != "false"@,
        None => true,
    }
}

pub open spec fn id_of(obj: Seq<char>, now: u64) -> Seq<char> {
    match field_of(obj, "id"@) {
        Some(v) => if v.len() > 0 {
            v
        } else {
            "sched-"@ + dec(now as nat)
        },
        None => "sched-"@ + dec(now as nat),
    }
}

/// The entries that the first `n` objects describe, or what is wrong with the first bad one.
pub open spec fn entries_upto(objs: Seq<Seq<char>>, n: int, now: u64) -> Result<
    Seq<EntryView>,
    Seq<char>,
>
    decreases n,
{
    if n <= 0 {
        Ok(Seq::empty())
    } else {
        match entries_upto(objs, n - 1, now) {
            Err(e) => Err(e),
            Ok(v) => match entry_of(objs[n - 1], now) {
                Err(e) => Err(e),
                Ok(x) => Ok(v.push(x)),
            },
        }
    }
}

/// The entries of a body `{"entries":[...]}`.
pub open spec fn entries_of(body: Seq<char>, now: u64) -> Result<Seq<EntryView>, Seq<char>> {
    match body_of(body, "entries"@, '[') {
        None => Err("missing \"entries\" array"@),
        Some(inner) => entries_upto(items(inner), items(inner).len() as int, now),
    }
}

/// Reads the portions that stand behind `key`.
pub fn parse_amount(obj: &str, key: &str) -> (r: Result<u8, String>)
    ensures
        match r {
            Ok(n) => amount_of(obj@, key@) == Ok::<u8, Seq<char>>(n),
            Err(e) => amount_of(obj@, key@) == Err::<u8, Seq<char>>(e@),
        },
{
    match json_field(obj, key) {
        None => {
            let mut e: String = "entry missing \"".to_owned();
            e.append(key);
            e.append("\"");
            Err(e)
        },
        Some(v) => match parse_i64(v) {
            None => {
                let mut e: String = "\"".to_owned();
                e.append(key);
                e.append("\" must be an integer 0..=50, got ");
                e.append(debug_text(v).as_str());
                Err(e)
            },
            Some(n) => if 0 <= n && n <= 50 {
                Ok(n as u8)
            } else {
                let mut e: String = "\"".to_owned();
                e.append(key);
                e.append("\" must be 0..=50, got ");
                push_dec_int(&mut e, n);
                Err(e)
            },
        },
    }
}

impl Clone for Entry {
    fn clone(&self) -> (e: Entry)
        ensures
            e@ == self@,
    {
        Entry {
            id: self.id.clone(),
            minute_of_day: self.minute_of_day,
            amount_l: self.amount_l,
            amount_r: self.amount_r,
            enabled: self.enabled,
        }
    }
}

impl Entry {
    pub fn to_json(&self) -> (s: String)
        ensures
            s@ == entry_text(self@),
    {
        let mut s: String = "{\"id\":\"".to_owned();
        s.append(escape_debug(self.id.as_str()).as_str());
        s.append("\",\"time\":\"");
        s.append(format_time_of_day(self.minute_of_day).as_str());
        s.append("\",\"amount_l\":");
        push_dec(&mut s, self.amount_l as u64);
        s.append(",\"amount_r\":");
        push_dec(&mut s, self.amount_r as u64);
        s.append(",\"enabled\":");
        s.append(bool_str(self.enabled));
        s.append("}");
        s
    }

    /// Parses one `{"id":..,"time":"HH:MM","amount_l":N,"amount_r":N,"enabled":bool}` object. A
    /// missing id is made from `now`, a missing `enabled` is `true`.
    pub fn parse_one(obj: &str, now: u64) -> (r: Result<Entry, String>)
        ensures
            match r {
                Ok(e) => entry_of(obj@, now) == Ok::<EntryView, Seq<char>>(e@),
                Err(e) => entry_of(obj@, now) == Err::<EntryView, Seq<char>>(e@),
            },
    {
        let time: &str = match json_field(obj, "time") {
            Some(t) => t,
            None => return Err("entry missing \"time\"".to_owned()),
        };
        let minute_of_day: u16 = match parse_time_of_day(time) {
            Some(m) => m,
            None => {
                let mut e: String = "invalid \"time\" ".to_owned();
                e.append(debug_text(time).as_str());
                e.append(", expected \"HH:MM\" 00:00..=23:59");
                return Err(e);
            },
        };
        let amount_l: u8 = match parse_amount(obj, "amount_l") {
            Ok(n) => n,
            Err(e) => return Err(e),
        };
        let amount_r: u8 = match parse_amount(obj, "amount_r") {
            Ok(n) => n,
            Err(e) => return Err(e),
        };
        let enabled: bool = match json_field(obj, "enabled") {
            Some(v) => !same(v, "false"),
            None => true,
        };
        let given: Option<&str> = json_field(obj, "id");
        let id: String = match given {
            Some(v) if char_len(v) > 0 => v.to_owned(),
            _ => {
                let mut s: String = "sched-".to_owned();
                push_dec(&mut s, now);
                s
            },
        };
        Ok(Entry { id, minute_of_day, amount_l, amount_r, enabled })
    }
}

/// Parses a top-level `{"entries":[...]}` body.
pub fn parse_entries(body: &str, now: u64) -> (r: Result<Vec<Entry>, String>)
    ensures
        match r {
            Ok(v) => entries_of(body@, now) == Ok::<Seq<EntryView>, Seq<char>>(entry_views(v@)),
            Err(e) => entries_of(body@, now) == Err::<Seq<EntryView>, Seq<char>>(e@),
        },
{
    let inner: &str = match json_array_body(body, "entries") {
        Some(v) => v,
        None => return Err("missing \"entries\" array".to_owned()),
    };
    let objs: Vec<&str> = split_top_level(inner);
    let ghost all = items(inner@);
    let mut out: Vec<Entry> = Vec::new();
    let mut i: usize = 0;
    assert(entry_views(out@) =~= Seq::<EntryView>::empty());
    assert(texts(objs@).len() == objs@.len());
    while i < objs.len()
        invariant
            i <= objs.len(),
            all == texts(objs@),
            entries_of(body@, now) == entries_upto(all, all.len() as int, now),
            entries_upto(all, i as int, now) == Ok::<Seq<EntryView>, Seq<char>>(entry_views(out@)),
        decreases objs.len() - i,
    {
        assert(all[i as int] == objs@[i as int]@);
        let ghost done = out@;
        match Entry::parse_one(objs[i], now) {
            Ok(e) => {
                out.push(e);
                assert(entry_views(out@) =~= entry_views(done).push(e@));
            },
            Err(e) => {
                proof {
                    lemma_first_error(all, i + 1, all.len() as int, now);
                }
                return Err(e);
            },
        }
        i = i + 1;
    }
    Ok(out)
}

/// The first bad object decides.
proof fn lemma_first_error(objs: Seq<Seq<char>>, k: int, n: int, now: u64)
    requires
        0 <= k <= n,
        entries_upto(objs, k, now) is Err,
    ensures
        entries_upto(objs, n, now) == entries_upto(objs, k, now),
    decreases n - k,
{
    if k < n {
        lemma_first_error(objs, k, n - 1, now);
    }
}

/// Parses the body of a request that adds one entry.
pub fn parse_entry(body: &str, now: u64) -> (r: Result<Entry, String>)
    ensures
        match r {
            Ok(e) => entry_of(body@, now) == Ok::<EntryView, Seq<char>>(e@),
            Err(e) => entry_of(body@, now) == Err::<EntryView, Seq<char>>(e@),
        },
{
    Entry::parse_one(body, now)
}

/// The id in a query string, where it is not empty.
pub open spec fn query_id(query: Seq<char>) -> Option<Seq<char>> {
    match query_value(query, "id"@) {
        Some(v) => if v.len() > 0 {
            Some(v)
        } else {
            None
        },
        None => None,
    }
}

/// Reads `id` off a query string.
pub fn entry_id_from_query(query: &str) -> (r: Option<&str>)
    ensures
        match r {
            Some(v) => query_id(query@) == Some(v@),
            None => query_id(query@) is None,
        },
{
    match query_field(query, "id") {
        Some(v) => if char_len(v) > 0 {
            Some(v)
        } else {
            None
        },
        None => None,
    }
}

/// What became of one entry's occurrence on one day.
#[derive(Debug, Clone, Copy, PartialEq, Eq, Structural)]
pub enum Outcome {
    Dispensed,
    Missed,
}

impl Outcome {
    pub open spec fn text(self) -> Seq<char> {
        match self {
            Outcome::Dispensed => "dispensed"@,
            Outcome::Missed => "missed"@,
        }
    }

    pub fn as_str(&self) -> (s: &'static str)
        ensures
            s@ == self.text(),
    {
        match self {
            Outcome::Dispensed => "dispensed",
            Outcome::Missed => "missed",
        }
    }

    pub fn parse(s: &str) -> (r: Option<Outcome>)
        ensures
            r == outcome_of(s@),
    {
        if same(s, "dispensed") {
            Some(Outcome::Dispensed)
        } else if same(s, "missed") {
            Some(Outcome::Missed)
        } else {
            None
        }
    }
}

pub open spec fn outcome_of(s: Seq<char>) -> Option<Outcome> {
    if s == "dispensed"@ {
        Some(Outcome::Dispensed)
    } else if s == "missed"@ {
        Some(Outcome::Missed)
    } else {
        None
    }
}

/// An outcome is read back from its text.
pub proof fn law_outcome_reads_back(o: Outcome)
    ensures
        outcome_of(o.text()) == Some(o),
{
    reveal_strlit("dispensed");
    reveal_strlit("missed");
    assert("dispensed"@.len() != "missed"@.len());
}

/// The last occurrence of an entry that was resolved.
#[derive(Debug, PartialEq, Eq)]
pub struct FiredRecord {
    /// The local date that it was due on.
    pub date: String,
    pub outcome: Outcome,
    /// When that was recorded.
    pub at_utc: u64,
}

pub struct FiredView {
    pub date: Seq<char>,
    pub outcome: Outcome,
    pub at_utc: u64,
}

impl View for FiredRecord {
    type V = FiredView;

    open spec fn view(&self) -> FiredView {
        FiredView { date: self.date@, outcome: self.outcome, at_utc: self.at_utc }
    }
}

impl Clone for FiredRecord {
    fn clone(&self) -> (r: FiredRecord)
        ensures
            r@ == self@,
    {
        FiredRecord { date: self.date.clone(), outcome: self.outcome, at_utc: self.at_utc }
    }
}

/// The last resolved occurrences by entry id, in the order of the ids.
#[derive(Debug, PartialEq)]
pub struct Fired {
    items: Vec<(String, FiredRecord)>,
}

impl View for Fired {
    type V = Seq<(Seq<char>, FiredView)>;

    closed spec fn view(&self) -> Seq<(Seq<char>, FiredView)> {
        self.items@.map_values(|p: (String, FiredRecord)| (p.0@, p.1@))
    }
}

/// Whether the ids stand in their order, none twice.
pub open spec fn ids_ordered(v: Seq<(Seq<char>, FiredView)>) -> bool {
    forall|i: int, j: int| 0 <= i < j < v.len() ==> before(#[trigger] v[i].0, #[trigger] v[j].0)
}

/// The record of each id.
pub open spec fn record_map(v: Seq<(Seq<char>, FiredView)>) -> Map<Seq<char>, FiredView> {
    Map::new(
        |id: Seq<char>| exists|i: int| 0 <= i < v.len() && #[trigger] v[i].0 == id,
        |id: Seq<char>| v[choose|i: int| 0 <= i < v.len() && #[trigger] v[i].0 == id].1,
    )
}

pub proof fn lemma_ids_distinct(v: Seq<(Seq<char>, FiredView)>, i: int, j: int)
    requires
        ids_ordered(v),
        0 <= i < v.len(),
        0 <= j < v.len(),
        v[i].0 == v[j].0,
    ensures
        i == j,
{
    lemma_before_total(v[i].0, v[j].0);
    if i < j {
        assert(before(v[i].0, v[j].0));
    } else if j < i {
        assert(before(v[j].0, v[i].0));
    }
}

/// The record at a place is the record of its id.
pub proof fn lemma_record_at(v: Seq<(Seq<char>, FiredView)>, i: int)
    requires
        ids_ordered(v),
        0 <= i < v.len(),
    ensures
        record_map(v).dom().contains(v[i].0),
        record_map(v)[v[i].0] == v[i].1,
{
    let k = choose|k: int| 0 <= k < v.len() && #[trigger] v[k].0 == v[i].0;
    lemma_ids_distinct(v, k, i);
}

impl Clone for Fired {
    fn clone(&self) -> (r: Fired)
        ensures
            r@ == self@,
    {
        let mut v: Vec<(String, FiredRecord)> = Vec::new();
        let mut i: usize = 0;
        while i < self.items.len()
            invariant
                i <= self.items@.len(),
                v@.len() == i,
                forall|j: int|
                    0 <= j < i ==> (#[trigger] v@[j]).0@ == self.items@[j].0@ && v@[j].1@
                        == self.items@[j].1@,
            decreases self.items@.len() - i,
        {
            v.push((self.items[i].0.clone(), self.items[i].1.clone()));
            i = i + 1;
        }
        let r: Fired = Fired { items: v };
        assert(r@ =~= self@);
        r
    }
}

impl Fired {
    /// Whether the ids stand in their order, none twice.
    pub open spec fn wf(&self) -> bool {
        ids_ordered(self@)
    }

    pub fn new() -> (r: Fired)
        ensures
            r.wf(),
            r@ == Seq::<(Seq<char>, FiredView)>::empty(),
            record_map(r@) == Map::<Seq<char>, FiredView>::empty(),
    {
        let r: Fired = Fired { items: Vec::new() };
        assert(r@ =~= Seq::<(Seq<char>, FiredView)>::empty());
        assert(record_map(r@) =~= Map::<Seq<char>, FiredView>::empty());
        r
    }

    pub fn len(&self) -> (n: usize)
        ensures
            n == self@.len(),
    {
        self.items.len()
    }

    /// The first place whose id is not before `id`.
    fn place(&self, id: &str) -> (at: usize)
        requires
            self.wf(),
        ensures
            at <= self@.len(),
            forall|i: int| 0 <= i < at ==> before(#[trigger] self@[i].0, id@),
            forall|i: int| at <= i < self@.len() ==> !before(#[trigger] self@[i].0, id@),
    {
        let mut at: usize = 0;
        while at < self.items.len() && comes_before(self.items[at].0.as_str(), id)
            invariant
                at <= self.items@.len(),
                self.wf(),
                forall|i: int| 0 <= i < at ==> before(#[trigger] self@[i].0, id@),
            decreases self.items@.len() - at,
        {
            assert(self@[at as int].0 == self.items@[at as int].0@);
            at = at + 1;
        }
        proof {
            assert forall|i: int| at <= i < self@.len() implies !before(
                #[trigger] self@[i].0,
                id@,
            ) by {
                assert(self@[at as int].0 == self.items@[at as int].0@);
                if i > at && before(self@[i].0, id@) {
                    assert(before(self@[at as int].0, self@[i].0));
                    lemma_before_transitive(self@[at as int].0, self@[i].0, id@);
                }
            }
        }
        at
    }

    /// The record of `id`.
    pub fn get(&self, id: &str) -> (r: Option<&FiredRecord>)
        requires
            self.wf(),
        ensures
            match r {
                Some(x) => record_map(self@).dom().contains(id@) && record_map(self@)[id@] == x@,
                None => !record_map(self@).dom().contains(id@),
            },
    {
        let at: usize = self.place(id);
        if at < self.items.len() && same(self.items[at].0.as_str(), id) {
            proof {
                assert(self@[at as int].0 == id@);
                lemma_record_at(self@, at as int);
            }
            return Some(&self.items[at].1);
        }
        proof {
            if record_map(self@).dom().contains(id@) {
                let k = choose|k: int| 0 <= k < self@.len() && #[trigger] self@[k].0 == id@;
                lemma_before_total(id@, id@);
                assert(at <= k);
                assert(self@[at as int].0 == self.items@[at as int].0@);
                if at < k {
                    assert(before(self@[at as int].0, self@[k].0));
                }
            }
        }
        None
    }

    /// Sets the record of `id`.
    pub fn insert(&mut self, id: String, record: FiredRecord)
        requires
            old(self).wf(),
        ensures
            final(self).wf(),
            record_map(final(self)@) == record_map(old(self)@).insert(id@, record@),
    {
        let at: usize = self.place(id.as_str());
        let ghost was = self@;
        let ghost key = id@;
        let ghost rec = record@;
        if at < self.items.len() && same(self.items[at].0.as_str(), id.as_str()) {
            assert(was[at as int].0 == key);
            self.items[at] = (id, record);
            proof {
                let now = self@;
                assert(now =~= was.update(at as int, (key, rec)));
                assert(record_map(now) =~= record_map(was).insert(key, rec)) by {
                    lemma_updated(was, now, at as int, key, rec);
                }
            }
        } else {
            proof {
                if at < was.len() {
                    assert(was[at as int].0 == self.items@[at as int].0@);
                }
            }
            self.items.insert(at, (id, record));
            proof {
                let now = self@;
                assert(now =~= was.insert(at as int, (key, rec)));
                lemma_inserted(was, now, at as int, key, rec);
            }
        }
    }

    /// The persisted form of the records.
    pub fn to_json(&self) -> (s: String)
        ensures
            s@ == fired_text(self@),
    {
        let mut parts: Vec<String> = Vec::new();
        let mut i: usize = 0;
        while i < self.items.len()
            invariant
                i <= self.items@.len(),
                string_texts(parts@) == self@.subrange(0, i as int).map_values(
                    |p: (Seq<char>, FiredView)| record_text(p.0, p.1),
                ),
            decreases self.items@.len() - i,
        {
            let ghost done = parts@;
            let record: &FiredRecord = &self.items[i].1;
            let mut s: String = "\"".to_owned();
            s.append(escape_debug(self.items[i].0.as_str()).as_str());
            s.append("\":{\"date\":\"");
            s.append(escape_debug(record.date.as_str()).as_str());
            s.append("\",\"outcome\":\"");
            s.append(record.outcome.as_str());
            s.append("\",\"at_utc\":");
            push_dec(&mut s, record.at_utc);
            s.append("}");
            assert(s@ == record_text(self@[i as int].0, self@[i as int].1));
            parts.push(s);
            i = i + 1;
            assert(string_texts(parts@) =~= self@.subrange(0, i as int).map_values(
                |p: (Seq<char>, FiredView)| record_text(p.0, p.1),
            )) by {
                assert(string_texts(parts@) =~= string_texts(done).push(s@));
            }
        }
        assert(self@.subrange(0, i as int) =~= self@);
        join(&parts, ",")
    }
}

proof fn lemma_updated(
    was: Seq<(Seq<char>, FiredView)>,
    now: Seq<(Seq<char>, FiredView)>,
    at: int,
    key: Seq<char>,
    rec: FiredView,
)
    requires
        ids_ordered(was),
        0 <= at < was.len(),
        was[at].0 == key,
        now == was.update(at, (key, rec)),
    ensures
        ids_ordered(now),
        record_map(now) == record_map(was).insert(key, rec),
{
    assert(ids_ordered(now)) by {
        assert forall|i: int, j: int| 0 <= i < j < now.len() implies before(
            #[trigger] now[i].0,
            #[trigger] now[j].0,
        ) by {
            assert(now[i].0 == was[i].0 && now[j].0 == was[j].0);
        }
    }
    let a = record_map(now);
    let b = record_map(was).insert(key, rec);
    assert forall|id: Seq<char>| #[trigger] a.dom().contains(id) <==> b.dom().contains(id) by {
        if a.dom().contains(id) {
            let k = choose|k: int| 0 <= k < now.len() && #[trigger] now[k].0 == id;
            assert(was[k].0 == id);
        }
        if b.dom().contains(id) && id != key {
            let k = choose|k: int| 0 <= k < was.len() && #[trigger] was[k].0 == id;
            assert(now[k].0 == id);
        }
        if id == key {
            assert(now[at].0 == id);
        }
    }
    assert forall|id: Seq<char>| #[trigger] a.dom().contains(id) implies a[id] == b[id] by {
        let k = choose|k: int| 0 <= k < now.len() && #[trigger] now[k].0 == id;
        lemma_record_at(now, k);
        assert(was[k].0 == id);
        lemma_record_at(was, k);
        if id == key {
            lemma_ids_distinct(was, k, at);
        }
    }
    assert(a =~= b);
}

pub proof fn lemma_inserted(
    was: Seq<(Seq<char>, FiredView)>,
    now: Seq<(Seq<char>, FiredView)>,
    at: int,
    key: Seq<char>,
    rec: FiredView,
)
    requires
        ids_ordered(was),
        0 <= at <= was.len(),
        now == was.insert(at, (key, rec)),
        forall|i: int| 0 <= i < at ==> before(#[trigger] was[i].0, key),
        forall|i: int| at <= i < was.len() ==> !before(#[trigger] was[i].0, key),
        at < was.len() ==> was[at].0 != key,
    ensures
        ids_ordered(now),
        record_map(now) == record_map(was).insert(key, rec),
{
    assert forall|i: int| at <= i < was.len() implies before(key, #[trigger] was[i].0) by {
        lemma_before_total(key, was[at].0);
        if i > at {
            assert(before(was[at].0, was[i].0));
            lemma_before_transitive(key, was[at].0, was[i].0);
        }
    }
    assert(ids_ordered(now)) by {
        assert forall|i: int, j: int| 0 <= i < j < now.len() implies before(
            #[trigger] now[i].0,
            #[trigger] now[j].0,
        ) by {
            let a = if i < at {
                i
            } else {
                i - 1
            };
            let b = if j < at {
                j
            } else {
                j - 1
            };
            if i == at {
                assert(now[j] == was[b]);
            } else if j == at {
                assert(now[i] == was[i]);
            } else {
                assert(now[i] == was[a] && now[j] == was[b]);
                assert(before(was[a].0, was[b].0));
            }
        }
    }
    let a = record_map(now);
    let b = record_map(was).insert(key, rec);
    assert(now[at] == (key, rec));
    assert forall|id: Seq<char>| #[trigger] a.dom().contains(id) <==> b.dom().contains(id) by {
        if a.dom().contains(id) && id != key {
            let k = choose|k: int| 0 <= k < now.len() && #[trigger] now[k].0 == id;
            let m = if k < at {
                k
            } else {
                k - 1
            };
            assert(was[m] == now[k]);
        }
        if b.dom().contains(id) && id != key {
            let k = choose|k: int| 0 <= k < was.len() && #[trigger] was[k].0 == id;
            let m = if k < at {
                k
            } else {
                k + 1
            };
            assert(now[m] == was[k]);
        }
        if id == key {
            assert(now[at].0 == id);
        }
    }
    assert forall|id: Seq<char>| #[trigger] a.dom().contains(id) implies a[id] == b[id] by {
        let k = choose|k: int| 0 <= k < now.len() && #[trigger] now[k].0 == id;
        lemma_record_at(now, k);
        if k != at {
            let m = if k < at {
                k
            } else {
                k - 1
            };
            assert(was[m] == now[k]);
            lemma_record_at(was, m);
            if id == key {
                lemma_ids_distinct(now, k, at);
            }
        }
    }
    assert(a =~= b);
}

/// The persisted form of one record.
pub open spec fn record_text(id: Seq<char>, r: FiredView) -> Seq<char> {
    "\""@ + escaped(id) + "\":{\"date\":\""@ + escaped(r.date) + "\",\"outcome\":\""@
        + r.outcome.text() + "\",\"at_utc\":"@ + dec(r.at_utc as nat) + "}"@
}

pub open spec fn fired_text(v: Seq<(Seq<char>, FiredView)>) -> Seq<char> {
    joined(v.map_values(|p: (Seq<char>, FiredView)| record_text(p.0, p.1)), ","@)
}

/// The record that the raw value of a pair describes.
pub open spec fn record_of(value: Seq<char>) -> Option<FiredView> {
    match (field_of(value, "date"@), field_of(value, "outcome"@), field_of(value, "at_utc"@)) {
        (Some(date), Some(o), Some(at)) => match (
            outcome_of(o),
            uint_of(at, 10, u64::MAX as nat),
        ) {
            (Some(outcome), Some(at_utc)) => Some(
                FiredView { date, outcome, at_utc: at_utc as u64 },
            ),
            _ => None,
        },
        _ => None,
    }
}

/// The records that the first `n` pairs describe; a later pair of the same id wins.
pub open spec fn records_upto(ps: Seq<(Seq<char>, Seq<char>)>, n: int) -> Map<Seq<char>, FiredView>
    decreases n,
{
    if n <= 0 {
        Map::empty()
    } else {
        match record_of(ps[n - 1].1) {
            Some(r) => records_upto(ps, n - 1).insert(ps[n - 1].0, r),
            None => records_upto(ps, n - 1),
        }
    }
}

/// Parses the inside of a `"fired"` object. A pair that does not parse is left out.
pub fn parse_fired_map(inner: &str) -> (r: Fired)
    ensures
        r.wf(),
        record_map(r@) == records_upto(pairs(inner@), pairs(inner@).len() as int),
{
    let ps: Vec<(&str, &str)> = split_object_pairs(inner);
    let ghost all = pairs(inner@);
    let mut r: Fired = Fired::new();
    let mut i: usize = 0;
    assert(pair_texts(ps@).len() == ps@.len());
    while i < ps.len()
        invariant
            i <= ps.len(),
            all == pair_texts(ps@),
            r.wf(),
            record_map(r@) == records_upto(all, i as int),
        decreases ps.len() - i,
    {
        let (id, value) = ps[i];
        assert(all[i as int] == (id@, value@));
        match (json_field(value, "date"), json_field(value, "outcome"), json_field(value, "at_utc")) {
            (Some(date), Some(o), Some(at)) => {
                match (Outcome::parse(o), parse_u64(at)) {
                    (Some(outcome), Some(at_utc)) => {
                        r.insert(id.to_owned(), FiredRecord { date: date.to_owned(), outcome, at_utc });
                    },
                    _ => {},
                }
            },
            _ => {},
        }
        i = i + 1;
    }
    r
}

/// Everything that is persisted.
#[derive(Debug, PartialEq)]
pub struct Cache {
    pub entries: Vec<Entry>,
    pub last_modified: u64,
    pub fired: Fired,
}

pub struct CacheView {
    pub entries: Seq<EntryView>,
    pub last_modified: u64,
    pub fired: Seq<(Seq<char>, FiredView)>,
}

impl View for Cache {
    type V = CacheView;

    open spec fn view(&self) -> CacheView {
        CacheView {
            entries: entry_views(self.entries@),
            last_modified: self.last_modified,
            fired: self.fired@,
        }
    }
}

/// The persisted form of the entries.
pub open spec fn entries_text(v: Seq<EntryView>) -> Seq<char> {
    joined(v.map_values(|e: EntryView| entry_text(e)), ","@)
}

/// The persisted form of the cache.
pub open spec fn cache_text(c: CacheView) -> Seq<char> {
    "{\"entries\":["@ + entries_text(c.entries) + "],\"last_modified\":"@ + dec(
        c.last_modified as nat,
    ) + ",\"fired\":{"@ + fired_text(c.fired) + "}}"@
}

/// What `last_modified` a persisted cache has, 0 where it gives none.
pub open spec fn modified_of(s: Seq<char>) -> u64 {
    match field_of(s, "last_modified"@) {
        Some(v) => match uint_of(v, 10, u64::MAX as nat) {
            Some(n) => n as u64,
            None => 0,
        },
        None => 0,
    }
}

/// The records of a persisted cache, none where it has no such field.
pub open spec fn records_of(s: Seq<char>) -> Map<Seq<char>, FiredView> {
    match body_of(s, "fired"@, '{') {
        Some(inner) => records_upto(pairs(inner), pairs(inner).len() as int),
        None => Map::empty(),
    }
}

pub fn entries_copy(v: &Vec<Entry>) -> (out: Vec<Entry>)
    ensures
        entry_views(out@) == entry_views(v@),
{
    let mut out: Vec<Entry> = Vec::new();
    let mut i: usize = 0;
    while i < v.len()
        invariant
            i <= v.len(),
            out@.len() == i,
            forall|j: int| 0 <= j < i ==> (#[trigger] out@[j])@ == v@[j]@,
        decreases v.len() - i,
    {
        out.push(v[i].clone());
        i = i + 1;
    }
    assert(entry_views(out@) =~= entry_views(v@));
    out
}

impl Clone for Cache {
    fn clone(&self) -> (c: Cache)
        ensures
            c@ == self@,
    {
        Cache {
            entries: entries_copy(&self.entries),
            last_modified: self.last_modified,
            fired: self.fired.clone(),
        }
    }
}

impl Cache {
    pub open spec fn wf(&self) -> bool {
        self.fired.wf()
    }

    pub fn empty() -> (c: Cache)
        ensures
            c.wf(),
            c@ == (CacheView { entries: Seq::empty(), last_modified: 0, fired: Seq::empty() }),
    {
        let c: Cache = Cache { entries: Vec::new(), last_modified: 0, fired: Fired::new() };
        assert(entry_views(c.entries@) =~= Seq::<EntryView>::empty());
        c
    }

    pub fn to_json(&self) -> (s: String)
        ensures
            s@ == cache_text(self@),
    {
        let mut parts: Vec<String> = Vec::new();
        let mut i: usize = 0;
        let ghost views = entry_views(self.entries@);
        while i < self.entries.len()
            invariant
                i <= self.entries@.len(),
                views == entry_views(self.entries@),
                string_texts(parts@) == views.subrange(0, i as int).map_values(
                    |e: EntryView| entry_text(e),
                ),
            decreases self.entries@.len() - i,
        {
            let ghost done = parts@;
            let s: String = self.entries[i].to_json();
            assert(s@ == entry_text(views[i as int]));
            parts.push(s);
            i = i + 1;
            assert(string_texts(parts@) =~= views.subrange(0, i as int).map_values(
                |e: EntryView| entry_text(e),
            )) by {
                assert(string_texts(parts@) =~= string_texts(done).push(s@));
            }
        }
        assert(views.subrange(0, i as int) =~= views);
        let mut s: String = "{\"entries\":[".to_owned();
        s.append(join(&parts, ",").as_str());
        s.append("],\"last_modified\":");
        push_dec(&mut s, self.last_modified);
        s.append(",\"fired\":{");
        s.append(self.fired.to_json().as_str());
        s.append("}}");
        s
    }

    /// Reads a persisted cache. `None` where its entries do not parse.
    pub fn parse(s: &str, now: u64) -> (r: Option<Cache>)
        ensures
            match r {
                Some(c) => {
                    &&& entries_of(s@, now) == Ok::<Seq<EntryView>, Seq<char>>(c@.entries)
                    &&& c.last_modified == modified_of(s@)
                    &&& c.wf()
                    &&& record_map(c@.fired) == records_of(s@)
                },
                None => entries_of(s@, now) is Err,
            },
    {
        let entries: Vec<Entry> = match parse_entries(s, now) {
            Ok(v) => v,
            Err(_) => return None,
        };
        let last_modified: u64 = match json_field(s, "last_modified") {
            Some(v) => match parse_u64(v) {
                Some(n) => n,
                None => 0,
            },
            None => 0,
        };
        let fired: Fired = match json_object_body(s, "fired") {
            Some(inner) => parse_fired_map(inner),
            None => Fired::new(),
        };
        Some(Cache { entries, last_modified, fired })
    }
}

/// Why a mutation was refused: `Invalid` is the caller's fault, `Internal` is not.
pub enum Error {
    Invalid(String),
    Internal(String),
}

/// The schedule.
pub struct Schedule {
    pub cache: Cache,
}

/// Whether one of the entries has this id.
pub open spec fn has_id(v: Seq<EntryView>, id: Seq<char>) -> bool {
    exists|i: int| 0 <= i < v.len() && (#[trigger] v[i]).id == id
}

/// The entries but those with this id.
pub open spec fn without_id(v: Seq<EntryView>, id: Seq<char>) -> Seq<EntryView>
    decreases v.len(),
{
    if v.len() == 0 {
        Seq::empty()
    } else if v.last().id == id {
        without_id(v.drop_last(), id)
    } else {
        without_id(v.drop_last(), id).push(v.last())
    }
}

/// The entries with `enabled` set where the id is this one.
pub open spec fn with_enabled(v: Seq<EntryView>, id: Seq<char>, enabled: bool) -> Seq<EntryView> {
    v.map_values(
        |e: EntryView|
            if e.id == id {
                EntryView { enabled, ..e }
            } else {
                e
            },
    )
}

/// The entries that are enabled.
pub open spec fn enabled_only(v: Seq<EntryView>) -> Seq<EntryView>
    decreases v.len(),
{
    if v.len() == 0 {
        Seq::empty()
    } else if v.last().enabled {
        enabled_only(v.drop_last()).push(v.last())
    } else {
        enabled_only(v.drop_last())
    }
}

/// The bytes of the entries in the table, one after the other. Their time is always zero.
pub open spec fn bytes_of_entries(v: Seq<EntryView>) -> Seq<u8>
    decreases v.len(),
{
    if v.len() == 0 {
        Seq::empty()
    } else {
        bytes_of_entries(v.drop_last()) + wire_bytes(
            v.last().id,
            v.last().amount_l,
            v.last().amount_r,
            0,
        )
    }
}

/// The table of the enabled ones among `entries`, as it goes to the device.
pub open spec fn sent_table(entries: Seq<EntryView>) -> Seq<u8> {
    seq![enabled_only(entries).len() as u8, 0u8] + bytes_of_entries(enabled_only(entries))
}

/// Whether a claim of an occurrence on `date` is the first for that day or a later one.
pub open spec fn claimable(
    records: Map<Seq<char>, FiredView>,
    id: Seq<char>,
    date: Seq<char>,
) -> bool {
    records.dom().contains(id) ==> before(records[id].date, date)
}

/// The status of one entry: when it fires next, and what became of it last.
pub open spec fn entry_status_text(
    e: EntryView,
    fired: Option<FiredView>,
    tz: Tz,
    now_utc: int,
) -> Seq<char> {
    "{\"id\":\""@ + escaped(e.id) + "\",\"time\":\""@ + time_text(e.minute_of_day as nat)
        + "\",\"amount_l\":"@ + dec(e.amount_l as nat) + ",\"amount_r\":"@ + dec(e.amount_r as nat)
        + ",\"enabled\":"@ + bool_text(e.enabled) + ",\"next_fire_utc\":"@ + (if e.enabled {
        dec_int(next_reading(tz, e.minute_of_day as int, now_utc))
    } else {
        "null"@
    }) + ",\"last_fired_date\":"@ + (match fired {
        Some(r) => "\""@ + escaped(r.date) + "\""@,
        None => "null"@,
    }) + ",\"last_fired_outcome\":"@ + (match fired {
        Some(r) => "\""@ + r.outcome.text() + "\""@,
        None => "null"@,
    }) + "}"@
}

pub open spec fn record_for(records: Map<Seq<char>, FiredView>, id: Seq<char>) -> Option<FiredView> {
    if records.dom().contains(id) {
        Some(records[id])
    } else {
        None
    }
}

/// The body that reports the schedule.
pub open spec fn snapshot_text(c: CacheView, tz: Tz, now_utc: int, scheduler_enabled: bool) -> Seq<
    char,
> {
    "{\"entries\":["@ + joined(
        c.entries.map_values(
            |e: EntryView| entry_status_text(e, record_for(record_map(c.fired), e.id), tz, now_utc),
        ),
        ","@,
    ) + "],\"count\":"@ + dec(c.entries.len()) + ",\"last_modified\":"@ + dec(
        c.last_modified as nat,
    ) + ",\"scheduler_enabled\":"@ + bool_text(scheduler_enabled)
        + ",\"source\":\"agent_cache\",\"note\":\"the MCU has no schedule read-back (STUDY-schedule.md \\u00a74); entries are kibbled's own record, and (STUDY-schedule-encoding.md \\u00a711) kibbled itself -- not the MCU -- is what actually fires each one at its local time\"}"@
}

fn entry_status_json(e: &Entry, fired: Option<&FiredRecord>, tz: &Tz, now_utc: i64) -> (s: String)
    requires
        tz.counts_next(now_utc as int, e.minute_of_day as int),
    ensures
        s@ == entry_status_text(
            e@,
            match fired {
                Some(r) => Some(r@),
                None => None,
            },
            *tz,
            now_utc as int,
        ),
{
    let mut s: String = "{\"id\":\"".to_owned();
    s.append(escape_debug(e.id.as_str()).as_str());
    s.append("\",\"time\":\"");
    s.append(format_time_of_day(e.minute_of_day).as_str());
    s.append("\",\"amount_l\":");
    push_dec(&mut s, e.amount_l as u64);
    s.append(",\"amount_r\":");
    push_dec(&mut s, e.amount_r as u64);
    s.append(",\"enabled\":");
    s.append(bool_str(e.enabled));
    s.append(",\"next_fire_utc\":");
    if e.enabled {
        push_dec_int(&mut s, next_occurrence_utc(tz, e.minute_of_day, now_utc));
    } else {
        s.append("null");
    }
    s.append(",\"last_fired_date\":");
    let date: String = match fired {
        Some(r) => {
            let mut q: String = "\"".to_owned();
            q.append(escape_debug(r.date.as_str()).as_str());
            q.append("\"");
            q
        },
        None => "null".to_owned(),
    };
    s.append(date.as_str());
    s.append(",\"last_fired_outcome\":");
    let outcome: String = match fired {
        Some(r) => {
            let mut q: String = "\"".to_owned();
            q.append(r.outcome.as_str());
            q.append("\"");
            q
        },
        None => "null".to_owned(),
    };
    s.append(outcome.as_str());
    s.append("}");
    s
}

impl Clone for Schedule {
    fn clone(&self) -> (s: Schedule)
        ensures
            s.cache@ == self.cache@,
    {
        Schedule { cache: self.cache.clone() }
    }
}

impl Schedule {
    pub open spec fn wf(&self) -> bool {
        self.cache.wf()
    }

    /// The record of each entry that was resolved.
    pub open spec fn records(&self) -> Map<Seq<char>, FiredView> {
        record_map(self.cache@.fired)
    }

    /// The schedule that was persisted as `text`, or an empty one where nothing was.
    pub fn load(text: Option<&str>, now: u64) -> (r: Result<Schedule, Error>)
        ensures
            match (text, r) {
                (None, Ok(s)) => s.wf() && s.cache@ == (CacheView {
                    entries: Seq::empty(),
                    last_modified: 0,
                    fired: Seq::empty(),
                }),
                (Some(t), Ok(s)) => {
                    &&& s.wf()
                    &&& entries_of(t@, now) == Ok::<Seq<EntryView>, Seq<char>>(s.cache@.entries)
                    &&& s.cache.last_modified == modified_of(t@)
                    &&& s.records() == records_of(t@)
                },
                (Some(t), Err(Error::Internal(m))) => entries_of(t@, now) is Err && m@
                    == "corrupt schedule cache"@,
                _ => false,
            },
    {
        match text {
            None => Ok(Schedule { cache: Cache::empty() }),
            Some(t) => match Cache::parse(t, now) {
                Some(cache) => Ok(Schedule { cache }),
                None => Err(Error::Internal("corrupt schedule cache".to_owned())),
            },
        }
    }

    /// The body that reports the schedule.
    pub fn snapshot_json(&self, tz: &Tz, now_utc: i64, scheduler_enabled: bool) -> (s: String)
        requires
            self.wf(),
            tz.counts_next(now_utc as int, u16::MAX as int),
        ensures
            s@ == snapshot_text(self.cache@, *tz, now_utc as int, scheduler_enabled),
    {
        let mut parts: Vec<String> = Vec::new();
        let ghost views = self.cache@.entries;
        let ghost f = |e: EntryView|
            entry_status_text(
                e,
                record_for(record_map(self.cache@.fired), e.id),
                *tz,
                now_utc as int,
            );
        let mut i: usize = 0;
        while i < self.cache.entries.len()
            invariant
                i <= self.cache.entries@.len(),
                self.wf(),
                tz.counts_next(now_utc as int, u16::MAX as int),
                views == self.cache@.entries,
                f == (|e: EntryView|
                    entry_status_text(
                        e,
                        record_for(record_map(self.cache@.fired), e.id),
                        *tz,
                        now_utc as int,
                    )),
                string_texts(parts@) == views.subrange(0, i as int).map_values(f),
            decreases self.cache.entries@.len() - i,
        {
            let ghost done = parts@;
            let e: &Entry = &self.cache.entries[i];
            let s: String = entry_status_json(
                e,
                self.cache.fired.get(e.id.as_str()),
                tz,
                now_utc,
            );
            assert(s@ == f(views[i as int]));
            parts.push(s);
            i = i + 1;
            assert(string_texts(parts@) =~= views.subrange(0, i as int).map_values(f)) by {
                assert(string_texts(parts@) =~= string_texts(done).push(s@));
            }
        }
        assert(views.subrange(0, i as int) =~= views);
        let mut s: String = "{\"entries\":[".to_owned();
        s.append(join(&parts, ",").as_str());
        s.append("],\"count\":");
        push_dec(&mut s, self.cache.entries.len() as u64);
        s.append(",\"last_modified\":");
        push_dec(&mut s, self.cache.last_modified);
        s.append(",\"scheduler_enabled\":");
        s.append(bool_str(scheduler_enabled));
        s.append(",\"source\":\"agent_cache\",\"note\":\"the MCU has no schedule read-back (STUDY-schedule.md \\u00a74); entries are kibbled's own record, and (STUDY-schedule-encoding.md \\u00a711) kibbled itself -- not the MCU -- is what actually fires each one at its local time\"}");
        s
    }

    /// Every entry.
    pub fn entries_snapshot(&self) -> (v: Vec<Entry>)
        ensures
            entry_views(v@) == self.cache@.entries,
    {
        entries_copy(&self.cache.entries)
    }

    /// The last occurrence of an entry that was resolved.
    pub fn fired_record(&self, entry_id: &str) -> (r: Option<FiredRecord>)
        requires
            self.wf(),
        ensures
            match r {
                Some(x) => self.records().dom().contains(entry_id@) && self.records()[entry_id@]
                    == x@,
                None => !self.records().dom().contains(entry_id@),
            },
    {
        match self.cache.fired.get(entry_id) {
            Some(x) => Some(x.clone()),
            None => None,
        }
    }

    /// Claims an entry's occurrence on `date`. Succeeds, and records the outcome, only where
    /// neither that day nor a later one was resolved before.
    pub fn claim_fire(&mut self, entry_id: &str, date: &str, outcome: Outcome, at_utc: u64) -> (r:
        bool)
        requires
            old(self).wf(),
        ensures
            final(self).wf(),
            r == claimable(old(self).records(), entry_id@, date@),
            final(self).records() == (if r {
                old(self).records().insert(
                    entry_id@,
                    FiredView { date: date@, outcome, at_utc },
                )
            } else {
                old(self).records()
            }),
            !r ==> final(self).cache@ == old(self).cache@,
            final(self).cache@.entries == old(self).cache@.entries,
            final(self).cache.last_modified == old(self).cache.last_modified,
    {
        if let Some(r) = self.cache.fired.get(entry_id) {
            if !comes_before(r.date.as_str(), date) {
                return false;
            }
        }
        self.cache.fired.insert(
            entry_id.to_owned(),
            FiredRecord { date: date.to_owned(), outcome, at_utc },
        );
        true
    }

    /// Replaces the whole table.
    pub fn replace(&mut self, entries: Vec<Entry>, now: u64) -> (r: Result<(), Error>)
        requires
            old(self).wf(),
        ensures
            final(self).wf(),
            final(self).cache@.fired == old(self).cache@.fired,
            match r {
                Ok(()) => entries@.len() <= MAX_ENTRIES && final(self).cache@.entries
                    == entry_views(entries@) && final(self).cache.last_modified == now,
                Err(Error::Invalid(m)) => entries@.len() > MAX_ENTRIES && m@ == cap_text(
                    entries@.len(),
                ) && final(self).cache@ == old(self).cache@,
                _ => false,
            },
    {
        if entries.len() > MAX_ENTRIES {
            return Err(Error::Invalid(cap_error(entries.len())));
        }
        self.cache.entries = entries;
        self.cache.last_modified = now;
        Ok(())
    }

    /// Whether one of the entries has this id.
    pub fn knows(&self, id: &str) -> (r: bool)
        ensures
            r == has_id(self.cache@.entries, id@),
    {
        let mut i: usize = 0;
        let ghost views = self.cache@.entries;
        while i < self.cache.entries.len()
            invariant
                i <= self.cache.entries@.len(),
                views == self.cache@.entries,
                forall|j: int| 0 <= j < i ==> (#[trigger] views[j]).id != id@,
            decreases self.cache.entries@.len() - i,
        {
            assert(views[i as int].id == self.cache.entries@[i as int].id@);
            if same(self.cache.entries[i].id.as_str(), id) {
                return true;
            }
            i = i + 1;
        }
        false
    }

    /// Adds one entry.
    pub fn add(&mut self, entry: Entry, now: u64) -> (r: Result<(), Error>)
        requires
            old(self).wf(),
        ensures
            final(self).wf(),
            final(self).cache@.fired == old(self).cache@.fired,
            ({
                let v = old(self).cache@.entries;
                match r {
                    Ok(()) => !has_id(v, entry@.id) && v.len() < MAX_ENTRIES
                        && final(self).cache@.entries == v.push(entry@)
                        && final(self).cache.last_modified == now,
                    Err(Error::Invalid(m)) => final(self).cache@ == old(self).cache@ && if has_id(
                        v,
                        entry@.id,
                    ) {
                        m@ == "entry id "@ + debugged(entry@.id) + " already exists"@
                    } else {
                        v.len() >= MAX_ENTRIES && m@ == cap_text(v.len() + 1)
                    },
                    _ => false,
                }
            }),
    {
        if self.knows(entry.id.as_str()) {
            let mut m: String = "entry id ".to_owned();
            m.append(debug_text(entry.id.as_str()).as_str());
            m.append(" already exists");
            return Err(Error::Invalid(m));
        }
        if self.cache.entries.len() >= MAX_ENTRIES {
            let attempted: u128 = self.cache.entries.len() as u128 + 1;
            return Err(Error::Invalid(cap_message(attempted)));
        }
        let ghost e = entry@;
        let ghost was = self.cache.entries@;
        self.cache.entries.push(entry);
        assert(entry_views(self.cache.entries@) =~= entry_views(was).push(e));
        self.cache.last_modified = now;
        Ok(())
    }

    /// Removes the entries with this id.
    pub fn remove(&mut self, id: &str, now: u64) -> (r: Result<(), Error>)
        requires
            old(self).wf(),
        ensures
            final(self).wf(),
            final(self).cache@.fired == old(self).cache@.fired,
            ({
                let v = old(self).cache@.entries;
                match r {
                    Ok(()) => has_id(v, id@) && final(self).cache@.entries == without_id(v, id@)
                        && final(self).cache.last_modified == now,
                    Err(Error::Invalid(m)) => !has_id(v, id@) && final(self).cache@
                        == old(self).cache@ && m@ == "no schedule entry with id "@ + debugged(id@),
                    _ => false,
                }
            }),
    {
        if !self.knows(id) {
            return Err(Error::Invalid(no_such_entry(id)));
        }
        let mut kept: Vec<Entry> = Vec::new();
        let mut i: usize = 0;
        let ghost views = self.cache@.entries;
        assert(entry_views(kept@) =~= without_id(views.subrange(0, 0), id@));
        while i < self.cache.entries.len()
            invariant
                i <= self.cache.entries@.len(),
                self.cache@ == old(self).cache@,
                self.wf(),
                views == self.cache@.entries,
                entry_views(kept@) == without_id(views.subrange(0, i as int), id@),
            decreases self.cache.entries@.len() - i,
        {
            let ghost done = kept@;
            let ghost next = views.subrange(0, i + 1);
            assert(next.drop_last() =~= views.subrange(0, i as int));
            assert(next.last() == self.cache.entries@[i as int]@);
            if !same(self.cache.entries[i].id.as_str(), id) {
                let e: Entry = self.cache.entries[i].clone();
                kept.push(e);
                assert(entry_views(kept@) =~= entry_views(done).push(e@));
            }
            i = i + 1;
        }
        assert(views.subrange(0, i as int) =~= views);
        self.cache.entries = kept;
        self.cache.last_modified = now;
        Ok(())
    }

    /// Enables or disables the entries with this id.
    pub fn set_enabled(&mut self, id: &str, enabled: bool, now: u64) -> (r: Result<(), Error>)
        requires
            old(self).wf(),
        ensures
            final(self).wf(),
            final(self).cache@.fired == old(self).cache@.fired,
            ({
                let v = old(self).cache@.entries;
                match r {
                    Ok(()) => has_id(v, id@) && final(self).cache@.entries == with_enabled(
                        v,
                        id@,
                        enabled,
                    ) && final(self).cache.last_modified == now,
                    Err(Error::Invalid(m)) => !has_id(v, id@) && final(self).cache@
                        == old(self).cache@ && m@ == "no schedule entry with id "@ + debugged(id@),
                    _ => false,
                }
            }),
    {
        if !self.knows(id) {
            return Err(Error::Invalid(no_such_entry(id)));
        }
        let mut changed: Vec<Entry> = Vec::new();
        let mut i: usize = 0;
        let ghost views = self.cache@.entries;
        while i < self.cache.entries.len()
            invariant
                i <= self.cache.entries@.len(),
                self.cache@ == old(self).cache@,
                self.wf(),
                views == self.cache@.entries,
                changed@.len() == i,
                forall|j: int|
                    0 <= j < i ==> (#[trigger] changed@[j])@ == with_enabled(views, id@, enabled)[j],
            decreases self.cache.entries@.len() - i,
        {
            let mut e: Entry = self.cache.entries[i].clone();
            assert(e@ == views[i as int]);
            if same(e.id.as_str(), id) {
                e.enabled = enabled;
            }
            changed.push(e);
            i = i + 1;
        }
        assert(entry_views(changed@) =~= with_enabled(views, id@, enabled));
        self.cache.entries = changed;
        self.cache.last_modified = now;
        Ok(())
    }

    /// The table of the enabled entries, as it goes to the device.
    pub fn table(&self) -> (r: Result<Vec<u8>, Error>)
        ensures
            ({
                let v = enabled_only(self.cache@.entries);
                match r {
                    Ok(b) => v.len() <= MAX_ENTRIES && b@ == sent_table(self.cache@.entries),
                    Err(Error::Invalid(m)) => v.len() > MAX_ENTRIES && m@ == cap_text(v.len()),
                    _ => false,
                }
            }),
    {
        let mut wire: Vec<WireEntry> = Vec::new();
        let mut i: usize = 0;
        let ghost views = self.cache@.entries;
        assert(enabled_only(views.subrange(0, 0)).len() == 0);
        while i < self.cache.entries.len()
            invariant
                i <= self.cache.entries@.len(),
                views == self.cache@.entries,
                wire@.len() == enabled_only(views.subrange(0, i as int)).len(),
                wire_all(wire@) == bytes_of_entries(enabled_only(views.subrange(0, i as int))),
            decreases self.cache.entries@.len() - i,
        {
            let ghost next = views.subrange(0, i + 1);
            let ghost done = wire@;
            assert(next.drop_last() =~= views.subrange(0, i as int));
            let e: &Entry = &self.cache.entries[i];
            assert(next.last() == e@);
            if e.enabled {
                wire.push(
                    WireEntry {
                        id: e.id.clone(),
                        amount_l: e.amount_l,
                        amount_r: e.amount_r,
                        time: 0,
                    },
                );
                assert(wire@.drop_last() =~= done);
                let ghost on = enabled_only(next);
                assert(on.drop_last() =~= enabled_only(views.subrange(0, i as int)));
            }
            i = i + 1;
        }
        assert(views.subrange(0, i as int) =~= views);
        match encode_table(wire.as_slice()) {
            Ok(b) => Ok(b),
            Err(m) => Err(Error::Invalid(m)),
        }
    }
}

fn no_such_entry(id: &str) -> (s: String)
    ensures
        s@ == "no schedule entry with id "@ + debugged(id@),
{
    let mut s: String = "no schedule entry with id ".to_owned();
    s.append(debug_text(id).as_str());
    s
}

} // verus!
