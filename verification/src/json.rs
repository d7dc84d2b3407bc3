//! The little JSON that the agent reads and writes: finding a bracketed body, splitting it at its
//! top level, joining items.

use vstd::prelude::*;
use vstd::string::*;

use crate::http::{after_colon, after_key};
use crate::text::{
    char_len, chars_of, cut, escape_debug, escaped, match_from, skip, split_once, take, texts, trim, trimmed,
    trimmed_start, Pat,
};

pub mod fields;

pub mod lemmas;

verus! {

pub open spec fn bool_text(b: bool) -> Seq<char> {
    if b {
        "true"@
    } else {
        "false"@
    }
}

pub fn bool_str(b: bool) -> (s: &'static str)
    ensures
        s@ == bool_text(b),
{
    if b {
        "true"
    } else {
        "false"
    }
}

/// The text of an optional string.
pub open spec fn opt_text(o: Option<String>) -> Option<Seq<char>> {
    match o {
        Some(s) => Some(s@),
        None => None,
    }
}

/// A text in quotes with its special characters escaped, or `null`.
pub open spec fn escaped_or_null(o: Option<Seq<char>>) -> Seq<char> {
    match o {
        Some(s) => "\""@ + escaped(s) + "\""@,
        None => "null"@,
    }
}

/// A text in quotes with its special characters escaped, or `null`.
pub fn opt_json_escaped(v: &Option<String>) -> (s: String)
    ensures
        s@ == escaped_or_null(opt_text(*v)),
{
    match v {
        Some(t) => {
            let mut s: String = "\"".to_owned();
            s.append(escape_debug(t.as_str()).as_str());
            s.append("\"");
            s
        },
        None => "null".to_owned(),
    }
}

/// Where a scan stands: how deep in brackets, whether in a string, whether behind a backslash.
pub struct Scan {
    pub depth: int,
    pub in_str: bool,
    pub escape: bool,
}

pub open spec fn opens(c: char) -> bool {
    c == '[' || c == '{'
}

pub open spec fn closes(c: char) -> bool {
    c == ']' || c == '}'
}

impl Scan {
    /// Whether brackets and commas count here.
    pub open spec fn plain(self) -> bool {
        !self.in_str && !self.escape
    }

    /// Where the scan stands behind `c`.
    pub open spec fn step(self, c: char) -> Scan {
        if self.escape {
            Scan { escape: false, ..self }
        } else if c == '\\' && self.in_str {
            Scan { escape: true, ..self }
        } else if c == '"' {
            Scan { in_str: !self.in_str, ..self }
        } else if self.in_str {
            self
        } else if opens(c) {
            Scan { depth: self.depth + 1, ..self }
        } else if closes(c) {
            Scan { depth: self.depth - 1, ..self }
        } else {
            self
        }
    }
}

/// The position at or after `i` of the bracket that closes the last open one.
pub open spec fn closing_from(s: Seq<char>, st: Scan, i: int) -> Option<int>
    decreases s.len() - i,
{
    if i < 0 || i >= s.len() {
        None
    } else if st.plain() && closes(s[i]) && st.depth == 1 {
        Some(i)
    } else {
        closing_from(s, st.step(s[i]), i + 1)
    }
}

/// What stands between the bracket at the start of `s` and the one that closes it.
pub open spec fn bracketed(s: Seq<char>, open: char) -> Option<Seq<char>> {
    if s.len() > 0 && s[0] == open {
        let inner = s.subrange(1, s.len() as int);
        match closing_from(inner, (Scan { depth: 1, in_str: false, escape: false }), 0) {
            Some(i) => Some(inner.subrange(0, i)),
            None => None,
        }
    } else {
        None
    }
}

/// What stands behind the colon at the start of `s`, white space aside.
pub open spec fn behind_colon(s: Seq<char>) -> Option<Seq<char>> {
    let t = trimmed_start(s, Pat::Space);
    if t.len() > 0 && t[0] == ':' {
        Some(trimmed_start(t.subrange(1, t.len() as int), Pat::Space))
    } else {
        None
    }
}

/// The body of the array or object that stands behind `"key":`.
pub open spec fn body_of(body: Seq<char>, key: Seq<char>, open: char) -> Option<Seq<char>> {
    let quoted = "\""@ + key + "\""@;
    match match_from(body, quoted, 0) {
        Some(i) => match behind_colon(body.subrange(i + quoted.len(), body.len() as int)) {
            Some(v) => bracketed(v, open),
            None => None,
        },
        None => None,
    }
}

/// A piece without the white space round it, where anything is left.
pub open spec fn piece(s: Seq<char>) -> Seq<Seq<char>> {
    let t = trimmed(s, Pat::Space);
    if t.len() > 0 {
        seq![t]
    } else {
        Seq::empty()
    }
}

/// The pieces between the commas outside brackets and strings; `start` is where the piece at hand
/// starts, `i` how far the scan has come.
pub open spec fn items_from(s: Seq<char>, start: int, i: int, st: Scan) -> Seq<Seq<char>>
    decreases s.len() - i,
{
    if i < 0 || i >= s.len() {
        piece(s.subrange(start, s.len() as int))
    } else if st.plain() && s[i] == ',' && st.depth == 0 {
        piece(s.subrange(start, i)) + items_from(s, i + 1, i + 1, st)
    } else {
        items_from(s, start, i + 1, st.step(s[i]))
    }
}

/// The items of the body of an array or object.
pub open spec fn items(s: Seq<char>) -> Seq<Seq<char>> {
    items_from(s, 0, 0, (Scan { depth: 0, in_str: false, escape: false }))
}

/// Key and raw value of one item of an object.
pub open spec fn pair_of(item: Seq<char>) -> Option<(Seq<char>, Seq<char>)> {
    if item.len() > 0 && item[0] == '"' {
        match cut(item.subrange(1, item.len() as int), Pat::Is('"')) {
            Some((key, rest)) => {
                let t = trimmed_start(rest, Pat::Space);
                if t.len() > 0 && t[0] == ':' {
                    Some((key, trimmed(t.subrange(1, t.len() as int), Pat::Space)))
                } else {
                    None
                }
            },
            None => None,
        }
    } else {
        None
    }
}

/// The pairs among the first `n` items.
pub open spec fn pairs_upto(its: Seq<Seq<char>>, n: int) -> Seq<(Seq<char>, Seq<char>)>
    decreases n,
{
    if n <= 0 {
        Seq::empty()
    } else {
        match pair_of(its[n - 1]) {
            Some(p) => pairs_upto(its, n - 1).push(p),
            None => pairs_upto(its, n - 1),
        }
    }
}

/// The pairs of the body of an object; an item that is no pair is left out.
pub open spec fn pairs(s: Seq<char>) -> Seq<(Seq<char>, Seq<char>)> {
    pairs_upto(items(s), items(s).len() as int)
}

/// The texts behind pairs of slices.
pub open spec fn pair_texts(v: Seq<(&str, &str)>) -> Seq<(Seq<char>, Seq<char>)> {
    v.map_values(|p: (&str, &str)| (p.0@, p.1@))
}

/// The parts with `sep` between them.
pub open spec fn joined(parts: Seq<Seq<char>>, sep: Seq<char>) -> Seq<char>
    decreases parts.len(),
{
    if parts.len() == 0 {
        Seq::empty()
    } else if parts.len() == 1 {
        parts[0]
    } else {
        joined(parts.drop_last(), sep) + sep + parts.last()
    }
}

/// An array of these items.
pub open spec fn array_text(parts: Seq<Seq<char>>) -> Seq<char> {
    "["@ + joined(parts, ","@) + "]"@
}

/// Finds `"key":` followed by `open` and returns the text up to the matching close. Brackets and
/// quotes inside strings do not count.
pub fn balanced_body<'a>(body: &'a str, key: &str, open: char) -> (r: Option<&'a str>)
    ensures
        match r {
            Some(v) => body_of(body@, key@, open) == Some(v@),
            None => body_of(body@, key@, open) is None,
        },
{
    let rest: &str = match after_key(body, key) {
        Some(v) => v,
        None => return None,
    };
    let value: &str = match after_colon(rest) {
        Some(v) => v,
        None => return None,
    };
    let n: usize = char_len(value);
    if n == 0 || value.get_char(0) != open {
        return None;
    }
    let inner: &str = skip(value, 1);
    let cs: Vec<char> = chars_of(inner);
    let mut depth: usize = 1;
    let mut in_str: bool = false;
    let mut escape: bool = false;
    let ghost first = (Scan { depth: 1, in_str: false, escape: false });
    let mut i: usize = 0;
    while i < cs.len()
        invariant
            i <= cs.len() < n,
            cs@ == inner@,
            1 <= depth <= i + 1,
            first == (Scan { depth: 1, in_str: false, escape: false }),
            body_of(body@, key@, open) == (match closing_from(inner@, first, 0) {
                Some(k) => Some(inner@.subrange(0, k)),
                None => None,
            }),
            closing_from(inner@, first, 0) == closing_from(
                inner@,
                (Scan { depth: depth as int, in_str, escape }),
                i as int,
            ),
        decreases cs.len() - i,
    {
        let c: char = cs[i];
        if escape {
            escape = false;
        } else if c == '\\' && in_str {
            escape = true;
        } else if c == '"' {
            in_str = !in_str;
        } else if !in_str && (c == '[' || c == '{') {
            depth = depth + 1;
        } else if !in_str && (c == ']' || c == '}') {
            if depth == 1 {
                return Some(take(inner, i));
            }
            depth = depth - 1;
        }
        i = i + 1;
    }
    None
}

/// Finds `"key": [ ... ]` and returns the text between the brackets.
pub fn json_array_body<'a>(body: &'a str, key: &str) -> (r: Option<&'a str>)
    ensures
        match r {
            Some(v) => body_of(body@, key@, '[') == Some(v@),
            None => body_of(body@, key@, '[') is None,
        },
{
    balanced_body(body, key, '[')
}

/// Finds `"key": { ... }` and returns the text between the braces.
pub fn json_object_body<'a>(body: &'a str, key: &str) -> (r: Option<&'a str>)
    ensures
        match r {
            Some(v) => body_of(body@, key@, '{') == Some(v@),
            None => body_of(body@, key@, '{') is None,
        },
{
    balanced_body(body, key, '{')
}

/// Appends `s` without the white space round it, where anything is left.
fn push_piece<'a>(out: &mut Vec<&'a str>, s: &'a str)
    ensures
        texts(final(out)@) == texts(old(out)@) + piece(s@),
{
    let t: &str = trim(s, Pat::Space);
    if char_len(t) > 0 {
        out.push(t);
        assert(texts(out@) =~= texts(old(out)@) + seq![t@]);
    } else {
        assert(texts(out@) =~= texts(old(out)@) + Seq::<Seq<char>>::empty());
    }
}

/// Splits the inside of an array or object into its items: brackets and strings are kept whole,
/// empty items dropped.
pub fn split_top_level(inner: &str) -> (out: Vec<&str>)
    ensures
        texts(out@) == items(inner@),
{
    let cs: Vec<char> = chars_of(inner);
    let mut out: Vec<&str> = Vec::new();
    let mut depth: i128 = 0;
    let mut in_str: bool = false;
    let mut escape: bool = false;
    let mut start: usize = 0;
    let mut i: usize = 0;
    assert(texts(out@) =~= Seq::<Seq<char>>::empty());
    assert(items(inner@) =~= Seq::<Seq<char>>::empty() + items(inner@));
    while i < cs.len()
        invariant
            start <= i <= cs.len(),
            cs@ == inner@,
            -(i as int) <= depth <= i,
            items(inner@) == texts(out@) + items_from(
                inner@,
                start as int,
                i as int,
                (Scan { depth: depth as int, in_str, escape }),
            ),
        decreases cs.len() - i,
    {
        let c: char = cs[i];
        if escape {
            escape = false;
        } else if c == '\\' && in_str {
            escape = true;
        } else if c == '"' {
            in_str = !in_str;
        } else if !in_str && (c == '[' || c == '{') {
            depth = depth + 1;
        } else if !in_str && (c == ']' || c == '}') {
            depth = depth - 1;
        } else if !in_str && c == ',' && depth == 0 {
            let ghost done = texts(out@);
            push_piece(&mut out, inner.substring_char(start, i));
            let ghost rest = items_from(
                inner@,
                i + 1,
                i + 1,
                (Scan { depth: depth as int, in_str, escape }),
            );
            assert(done + (piece(inner@.subrange(start as int, i as int)) + rest) =~= texts(out@)
                + rest);
            start = i + 1;
        }
        i = i + 1;
    }
    push_piece(&mut out, skip(inner, start));
    out
}

/// Splits the inside of an object into `(key, raw value)` pairs. An item that is no pair is left
/// out.
pub fn split_object_pairs(inner: &str) -> (out: Vec<(&str, &str)>)
    ensures
        pair_texts(out@) == pairs(inner@),
{
    let its: Vec<&str> = split_top_level(inner);
    let ghost all = items(inner@);
    let mut out: Vec<(&str, &str)> = Vec::new();
    let mut i: usize = 0;
    assert(pair_texts(out@) =~= Seq::<(Seq<char>, Seq<char>)>::empty());
    while i < its.len()
        invariant
            i <= its.len(),
            all == items(inner@),
            texts(its@) == all,
            pair_texts(out@) == pairs_upto(all, i as int),
        decreases its.len() - i,
    {
        let item: &str = its[i];
        assert(all[i as int] == item@);
        let ghost done = out@;
        if char_len(item) > 0 && item.get_char(0) == '"' {
            if let Some((key, rest)) = split_once(skip(item, 1), Pat::Is('"')) {
                let t: &str = crate::text::trim_start(rest, Pat::Space);
                if char_len(t) > 0 && t.get_char(0) == ':' {
                    let value: &str = trim(skip(t, 1), Pat::Space);
                    out.push((key, value));
                    assert(pair_texts(out@) =~= pair_texts(done).push((key@, value@)));
                }
            }
        }
        i = i + 1;
    }
    assert(texts(its@).len() == its@.len());
    out
}

/// The texts behind owned strings.
pub open spec fn string_texts(v: Seq<String>) -> Seq<Seq<char>> {
    v.map_values(|s: String| s@)
}

/// The parts with `sep` between them.
pub fn join(parts: &Vec<String>, sep: &str) -> (out: String)
    ensures
        out@ == joined(string_texts(parts@), sep@),
{
    let mut out: String = String::new();
    let mut i: usize = 0;
    let ghost all = string_texts(parts@);
    assert(all.subrange(0, 0) =~= Seq::<Seq<char>>::empty());
    while i < parts.len()
        invariant
            i <= parts.len(),
            all == string_texts(parts@),
            out@ == joined(all.subrange(0, i as int), sep@),
        decreases parts.len() - i,
    {
        let ghost next = all.subrange(0, i + 1);
        let ghost was = out@;
        assert(next.drop_last() =~= all.subrange(0, i as int));
        assert(next.last() == parts@[i as int]@);
        if i > 0 {
            out.append(sep);
        }
        out.append(parts[i].as_str());
        assert(out@ =~= joined(next, sep@));
        i = i + 1;
    }
    assert(all.subrange(0, i as int) =~= all);
    out
}

} // verus!
