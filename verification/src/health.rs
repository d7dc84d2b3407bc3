//! Process-restart visibility: how often the agent started, and how it last exited.

use vstd::prelude::*;
use vstd::string::*;

use crate::number::{dec, int_of, lemma_dec_worth, lemma_uint_of_dec, parse_i32, parse_u64, push_dec, uint_of};
use crate::text::{
    char_len, contains, find, find_pat, find_str, has_text, is_digit, lemma_find_is,
    lemma_match_from_bounds, lines, match_from, occurs_at, skip, split_lines, take, texts, Pat,
};

verus! {

pub const PATH: &'static str = "/tmp/kibble-health.json";

pub const RESTARTS_LOG: &'static str = "/tmp/kibbled-restarts.log";

#[derive(Debug, Clone, Copy)]
pub struct Health {
    pub start_count: u64,
    pub last_start_unix: u64,
}

/// What stands behind the first `key`, up to the first character in `p`.
pub open spec fn behind(s: Seq<char>, key: Seq<char>, p: Pat) -> Option<Seq<char>> {
    match match_from(s, key, 0) {
        Some(i) => {
            let rest = s.subrange(i + key.len(), s.len() as int);
            Some(rest.subrange(0, find(rest, p)))
        },
        None => None,
    }
}

fn read_behind<'a>(s: &'a str, key: &str, p: Pat) -> (r: Option<&'a str>)
    ensures
        match r {
            Some(v) => behind(s@, key@, p) == Some(v@),
            None => behind(s@, key@, p) is None,
        },
{
    let n: usize = char_len(key);
    let m: usize = char_len(s);
    match find_str(s, key) {
        Some(i) => {
            assert(i + n <= m);
            let rest: &str = skip(s, i + n);
            Some(take(rest, find_pat(rest, p)))
        },
        None => None,
    }
}

/// The count in a persisted record.
pub open spec fn count_of(s: Seq<char>) -> Option<nat> {
    match behind(s, "\"start_count\":"@, Pat::NotDigit) {
        Some(v) => uint_of(v, 10, u64::MAX as nat),
        None => None,
    }
}

/// Reads the count, wherever in the record it stands.
pub fn parse_count(s: &str) -> (r: Option<u64>)
    ensures
        match r {
            Some(n) => count_of(s@) == Some(n as nat),
            None => count_of(s@) is None,
        },
{
    match read_behind(s, "\"start_count\":", Pat::NotDigit) {
        Some(v) => parse_u64(v),
        None => None,
    }
}

/// The persisted record.
pub open spec fn health_text(h: Health) -> Seq<char> {
    "{\"start_count\":"@ + dec(h.start_count as nat) + ",\"last_start_unix\":"@ + dec(
        h.last_start_unix as nat,
    ) + "}"@
}

pub fn to_json(h: &Health) -> (s: String)
    ensures
        s@ == health_text(*h),
{
    let mut s: String = "{\"start_count\":".to_owned();
    push_dec(&mut s, h.start_count);
    s.append(",\"last_start_unix\":");
    push_dec(&mut s, h.last_start_unix);
    s.append("}");
    s
}

/// The count of starts that a record holds, which is zero where it is missing or does not parse.
pub open spec fn starts_before(previous: Option<Seq<char>>) -> u64 {
    match previous {
        Some(t) => match count_of(t) {
            Some(n) => n as u64,
            None => 0,
        },
        None => 0,
    }
}

/// The count of a start at `now`: one more than the record of the start before, which counts as
/// zero where it is missing or does not parse.
pub fn record_start(previous: Option<&str>, now: u64) -> (h: Health)
    ensures
        h.last_start_unix == now,
        h.start_count == (match previous {
            Some(t) => starts_before(Some(t@)),
            None => starts_before(None),
        }).wrapping_add(1),
{
    let before: u64 = match previous {
        Some(t) => match parse_count(t) {
            Some(n) => n,
            None => 0,
        },
        None => 0,
    };
    Health { start_count: before.wrapping_add(1), last_start_unix: now }
}

/// The last line before `n` that records an exit.
pub open spec fn exit_line(ls: Seq<Seq<char>>, n: int) -> Option<Seq<char>>
    decreases n,
{
    if n <= 0 {
        None
    } else if has_text(ls[n - 1], "=== exit"@) {
        Some(ls[n - 1])
    } else {
        exit_line(ls, n - 1)
    }
}

/// The exit code in the last line that records one.
pub open spec fn exit_code_of(log: Seq<char>) -> Option<int> {
    match exit_line(lines(log), lines(log).len() as int) {
        Some(l) => match behind(l, "rc="@, Pat::NotSigned) {
            Some(v) => int_of(v, i32::MIN as int, i32::MAX as int),
            None => None,
        },
        None => None,
    }
}

/// The exit code of the most recent exit that the boot script's log records, if any.
pub fn last_exit_code(log: &str) -> (r: Option<i32>)
    ensures
        match r {
            Some(n) => exit_code_of(log@) == Some(n as int),
            None => exit_code_of(log@) is None,
        },
{
    let ls: Vec<&str> = split_lines(log);
    let ghost all = lines(log@);
    let mut i: usize = ls.len();
    assert(texts(ls@).len() == ls@.len());
    while i > 0
        invariant
            i <= ls.len(),
            all == texts(ls@),
            all == lines(log@),
            exit_line(all, all.len() as int) == exit_line(all, i as int),
        decreases i,
    {
        let line: &str = ls[i - 1];
        assert(all[i - 1] == line@);
        if contains(line, "=== exit") {
            return match read_behind(line, "rc=", Pat::NotSigned) {
                Some(v) => parse_i32(v),
                None => None,
            };
        }
        i = i - 1;
    }
    None
}

/// The count is read back from the record that was written.
pub proof fn law_count_reads_back(h: Health)
    ensures
        count_of(health_text(h)) == Some(h.start_count as nat),
{
    reveal_strlit("{\"start_count\":");
    reveal_strlit("\"start_count\":");
    reveal_strlit(",\"last_start_unix\":");
    let key = "\"start_count\":"@;
    let n = dec(h.start_count as nat);
    let s = health_text(h);
    lemma_dec_worth(h.start_count as nat);
    assert(s[0] == '{');
    assert(s.subrange(1, 1 + key.len() as int) =~= key);
    assert(occurs_at(s, key, 1));
    assert(!occurs_at(s, key, 0)) by {
        if occurs_at(s, key, 0) {
            assert(s.subrange(0, key.len() as int)[0] == key[0]);
        }
    }
    lemma_match_from_bounds(s, key, 0);
    assert(match_from(s, key, 0) == Some(1int));
    let rest = s.subrange(1 + key.len() as int, s.len() as int);
    assert(rest =~= n + (",\"last_start_unix\":"@ + dec(h.last_start_unix as nat) + "}"@));
    assert forall|j: int| 0 <= j < n.len() implies !Pat::NotDigit.has(#[trigger] rest[j]) by {
        assert(rest[j] == n[j]);
        assert(is_digit(n[j]));
    }
    assert(rest[n.len() as int] == ',');
    lemma_find_is(rest, Pat::NotDigit, n.len() as int);
    assert(rest.subrange(0, n.len() as int) =~= n);
    lemma_uint_of_dec(h.start_count as nat, u64::MAX as nat);
}

/// The exit code is the number behind `rc=` in the last line that tells of an exit.
pub proof fn law_exit_code(ls: Seq<Seq<char>>, n: int, k: int)
    requires
        0 <= k < n <= ls.len(),
        has_text(ls[k], "=== exit"@),
        forall|j: int| k < j < n ==> !has_text(#[trigger] ls[j], "=== exit"@),
    ensures
        exit_line(ls, n) == Some(ls[k]),
    decreases n,
{
    if n - 1 > k {
        law_exit_code(ls, n - 1, k);
    }
}

/// The number behind a word is all that stands there up to the first other character.
pub proof fn law_number_behind(ahead: Seq<char>, key: Seq<char>, n: nat, rest: Seq<char>)
    requires
        key.len() > 0,
        forall|j: int| 0 <= j < ahead.len() ==> !occurs_at(ahead + key + dec(n) + rest, key, j),
        rest.len() > 0 ==> !is_digit(rest[0]),
    ensures
        behind(ahead + key + dec(n) + rest, key, Pat::NotDigit) == Some(dec(n)),
{
    let s = ahead + key + dec(n) + rest;
    let k = ahead.len() as int;
    lemma_dec_worth(n);
    assert(s.subrange(k, k + key.len()) =~= key);
    assert(occurs_at(s, key, k));
    lemma_match_from_bounds(s, key, 0);
    assert(match_from(s, key, 0) == Some(k));
    let tail = s.subrange(k + key.len(), s.len() as int);
    assert(tail =~= dec(n) + rest);
    assert forall|j: int| 0 <= j < dec(n).len() implies !Pat::NotDigit.has(#[trigger] tail[j]) by {
        assert(tail[j] == dec(n)[j]);
        assert(is_digit(dec(n)[j]));
    }
    lemma_find_is(tail, Pat::NotDigit, dec(n).len() as int);
    assert(tail.subrange(0, dec(n).len() as int) =~= dec(n));
}

/// The starts that a record counts are those that were written, and without a record there were none.
pub proof fn law_starts_before(h: Health)
    ensures
        starts_before(Some(health_text(h))) == h.start_count,
        starts_before(None) == 0,
{
    law_count_reads_back(h);
}

} // verus!
