//! What reading finds in text that was written: fields behind their keys, bracketed bodies, items.

use vstd::prelude::*;
use vstd::string::*;

use crate::http::{field_of, value_behind};
use crate::json::{
    array_text, body_of, bracketed, closes, closing_from, items, items_from, joined, opens, pair_of, pairs, pairs_upto, piece, Scan,
};
use crate::text::{
    find, lemma_find_from_bounds, lemma_find_is, lemma_match_from_bounds, lemma_trimmed_id, match_from, occurs_at, span_back,
    span_from, trimmed, trimmed_end, trimmed_start, is_space, Pat,
};

verus! {

/// `s` in quotation marks.
pub open spec fn in_quotes(s: Seq<char>) -> Seq<char> {
    "\""@ + s + "\""@
}

/// Whether `c` does not occur in `s`.
pub open spec fn lacks(s: Seq<char>, c: char) -> bool {
    forall|i: int| 0 <= i < s.len() ==> #[trigger] s[i] != c
}

/// Whether `key` stands nowhere in `s` in quotation marks.
pub open spec fn clear_of(s: Seq<char>, key: Seq<char>) -> bool {
    forall|j: int| !#[trigger] occurs_at(s, in_quotes(key), j)
}

/// Whether `s` ends with a character that no quoted key holds.
pub open spec fn ends_apart(s: Seq<char>, key: Seq<char>) -> bool {
    s.len() > 0 && s.last() != '"' && lacks(key, s.last())
}

/// Whether `s` starts with a character that no quoted key holds.
pub open spec fn starts_apart(s: Seq<char>, key: Seq<char>) -> bool {
    s.len() > 0 && s[0] != '"' && lacks(key, s[0])
}

proof fn lemma_quotes(s: Seq<char>)
    ensures
        in_quotes(s).len() == s.len() + 2,
        in_quotes(s)[0] == '"',
        in_quotes(s).last() == '"',
        forall|i: int| 0 <= i < s.len() ==> in_quotes(s)[i + 1] == #[trigger] s[i],
        forall|i: int| 1 <= i <= s.len() ==> #[trigger] in_quotes(s)[i] == s[i - 1],
{
    reveal_strlit("\"");
}

/// Nothing is found across a boundary that no quoted key spans.
pub proof fn lemma_clear_concat(s: Seq<char>, t: Seq<char>, key: Seq<char>)
    requires
        clear_of(s, key),
        clear_of(t, key),
        ends_apart(s, key) || starts_apart(t, key) || s.len() == 0 || t.len() == 0,
    ensures
        clear_of(s + t, key),
{
    let pat = in_quotes(key);
    lemma_quotes(key);
    assert forall|j: int| !#[trigger] occurs_at(s + t, pat, j) by {
        if occurs_at(s + t, pat, j) {
            let w = (s + t).subrange(j, j + pat.len());
            if j + pat.len() <= s.len() {
                assert(s.subrange(j, j + pat.len()) =~= w);
                assert(occurs_at(s, pat, j));
            } else if j >= s.len() {
                assert(t.subrange(j - s.len(), j - s.len() + pat.len()) =~= w);
                assert(occurs_at(t, pat, j - s.len()));
            } else {
                assert(w[s.len() - 1 - j] == s.last());
                assert(w[s.len() - j] == t[0]);
                let a = s.len() - 1 - j;
                if ends_apart(s, key) {
                    assert(pat[a] == s.last());
                    assert(0 < a <= key.len());
                    assert(key[a - 1] == s.last());
                } else {
                    assert(pat[a + 1] == t[0]);
                    assert(0 < a + 1 <= key.len());
                    assert(key[a] == t[0]);
                }
            }
        }
    }
}

/// Text without quotation marks holds no quoted key.
pub proof fn lemma_clear_unquoted(s: Seq<char>, key: Seq<char>)
    requires
        lacks(s, '"'),
    ensures
        clear_of(s, key),
{
    let pat = in_quotes(key);
    lemma_quotes(key);
    assert forall|j: int| !#[trigger] occurs_at(s, pat, j) by {
        if occurs_at(s, pat, j) {
            assert(s.subrange(j, j + pat.len())[0] == s[j]);
        }
    }
}

/// One quoted text holds no other quoted key.
pub proof fn lemma_clear_quoted(w: Seq<char>, key: Seq<char>)
    requires
        lacks(w, '"'),
        lacks(key, '"'),
        w != key,
    ensures
        clear_of(in_quotes(w), key),
{
    let pat = in_quotes(key);
    let s = in_quotes(w);
    lemma_quotes(key);
    lemma_quotes(w);
    assert forall|j: int| !#[trigger] occurs_at(s, pat, j) by {
        if occurs_at(s, pat, j) {
            let v = s.subrange(j, j + pat.len());
            assert(v[0] == s[j]);
            assert(v[pat.len() - 1] == s[j + pat.len() - 1]);
            if j > 0 {
                assert(s[j] == w[j - 1]);
            } else if pat.len() < s.len() {
                assert(s[pat.len() - 1] == w[pat.len() - 2]);
            } else {
                assert forall|i: int| 0 <= i < key.len() implies key[i] == w[i] by {
                    assert(pat[i + 1] == key[i]);
                    assert(v[i + 1] == s[i + 1]);
                    assert(s[i + 1] == w[i]);
                }
                assert(key =~= w);
            }
        }
    }
}

/// A key is found where it stands, if nothing before it is taken for it.
pub proof fn lemma_key_found(s: Seq<char>, key: Seq<char>, rest: Seq<char>)
    requires
        clear_of(s, key),
        ends_apart(s, key),
    ensures
        match_from(s + in_quotes(key) + rest, in_quotes(key), 0) == Some(s.len() as int),
        (s + in_quotes(key) + rest).subrange(
            (s.len() + in_quotes(key).len()) as int,
            (s + in_quotes(key) + rest).len() as int,
        ) == rest,
{
    let pat = in_quotes(key);
    let all = s + pat + rest;
    lemma_quotes(key);
    lemma_match_from_bounds(all, pat, 0);
    assert(all.subrange(s.len() as int, (s.len() + pat.len()) as int) =~= pat);
    assert(occurs_at(all, pat, s.len() as int));
    let k = match_from(all, pat, 0)->0;
    if k < s.len() {
        let w = all.subrange(k, k + pat.len());
        if k + pat.len() <= s.len() {
            assert(s.subrange(k, k + pat.len()) =~= w);
            assert(occurs_at(s, pat, k));
        } else {
            let a = s.len() - 1 - k;
            assert(w[a] == s.last());
            assert(pat[a] == s.last());
            assert(0 < a <= key.len());
            assert(key[a - 1] == s.last());
        }
    }
    assert(all.subrange((s.len() + pat.len()) as int, all.len() as int) =~= rest);
}

/// A bare value ends at the comma or brace behind it.
pub proof fn lemma_bare_value(v: Seq<char>, rest: Seq<char>)
    requires
        v.len() > 0,
        lacks(v, ','),
        lacks(v, '}'),
        lacks(v, '"'),
        !is_space(v[0]),
        !is_space(v.last()),
        rest.len() > 0,
        rest[0] == ',' || rest[0] == '}',
    ensures
        value_behind(":"@ + v + rest) == Some(v),
{
    reveal_strlit(":");
    let s = ":"@ + v + rest;
    lemma_colon_value(v, rest);
    lemma_trimmed_id(v, Pat::Space);
    lemma_trimmed_id(v, Pat::Is('"'));
}

/// What is left of the value before quotes are taken off.
proof fn lemma_colon_value(v: Seq<char>, rest: Seq<char>)
    requires
        v.len() > 0,
        lacks(v, ','),
        lacks(v, '}'),
        !is_space(v[0]),
        rest.len() > 0,
        rest[0] == ',' || rest[0] == '}',
    ensures
        value_behind(":"@ + v + rest) == Some(trimmed(trimmed(v, Pat::Space), Pat::Is('"'))),
{
    reveal_strlit(":");
    let s = ":"@ + v + rest;
    assert(s[0] == ':');
    assert(span_from(s, Pat::Space, 0) == 0);
    assert(trimmed_start(s, Pat::Space) =~= s);
    let u = s.subrange(1, s.len() as int);
    assert(u =~= v + rest);
    assert(span_from(u, Pat::Space, 0) == 0);
    assert(trimmed_start(u, Pat::Space) =~= u);
    lemma_find_is(u, Pat::Either(',', '}'), v.len() as int);
    assert(u.subrange(0, v.len() as int) =~= v);
}

/// A quoted value is found without its quotes.
pub proof fn lemma_quoted_value(w: Seq<char>, rest: Seq<char>)
    requires
        lacks(w, ','),
        lacks(w, '}'),
        lacks(w, '"'),
        rest.len() > 0,
        rest[0] == ',' || rest[0] == '}',
    ensures
        value_behind(":"@ + in_quotes(w) + rest) == Some(w),
{
    reveal_strlit(":");
    lemma_quotes(w);
    let v = in_quotes(w);
    assert(lacks(v, ',')) by {
        assert forall|i: int| 0 <= i < v.len() implies #[trigger] v[i] != ',' by {
            if 1 <= i <= w.len() {
                assert(v[i] == w[i - 1]);
            }
        }
    }
    assert(lacks(v, '}')) by {
        assert forall|i: int| 0 <= i < v.len() implies #[trigger] v[i] != '}' by {
            if 1 <= i <= w.len() {
                assert(v[i] == w[i - 1]);
            }
        }
    }
    lemma_colon_value(v, rest);
    lemma_trimmed_id(v, Pat::Space);
    lemma_unquote(w);
}

/// Taking the quotes off a quoted text gives the text.
pub proof fn lemma_unquote(w: Seq<char>)
    requires
        lacks(w, '"'),
    ensures
        trimmed(in_quotes(w), Pat::Is('"')) == w,
{
    lemma_quotes(w);
    let p = Pat::Is('"');
    let v = in_quotes(w);
    if w.len() == 0 {
        reveal_with_fuel(span_from, 4);
        assert(span_from(v, p, 0) == 2);
        assert(trimmed_start(v, p) =~= Seq::<char>::empty());
        assert(trimmed(v, p) =~= w);
    } else {
        reveal_with_fuel(span_from, 3);
        assert(v[1] == w[0]);
        assert(span_from(v, p, 0) == 1);
        let u = trimmed_start(v, p);
        assert(u =~= w.push('"'));
        reveal_with_fuel(crate::text::span_back, 3);
        assert(u[u.len() - 2] == w.last());
        assert(crate::text::span_back(u, p, u.len() as int) == w.len());
        assert(trimmed(v, p) =~= w);
    }
}

/// A field whose bare value was written is read back.
pub proof fn lemma_bare_field(s: Seq<char>, key: Seq<char>, v: Seq<char>, rest: Seq<char>)
    requires
        clear_of(s, key),
        ends_apart(s, key),
        v.len() > 0,
        lacks(v, ','),
        lacks(v, '}'),
        lacks(v, '"'),
        !is_space(v[0]),
        !is_space(v.last()),
        rest.len() > 0,
        rest[0] == ',' || rest[0] == '}',
    ensures
        field_of(s + in_quotes(key) + (":"@ + v + rest), key) == Some(v),
{
    lemma_key_found(s, key, ":"@ + v + rest);
    lemma_bare_value(v, rest);
}

/// A field whose quoted value was written is read back.
pub proof fn lemma_quoted_field(s: Seq<char>, key: Seq<char>, w: Seq<char>, rest: Seq<char>)
    requires
        clear_of(s, key),
        ends_apart(s, key),
        lacks(w, ','),
        lacks(w, '}'),
        lacks(w, '"'),
        rest.len() > 0,
        rest[0] == ',' || rest[0] == '}',
    ensures
        field_of(s + in_quotes(key) + (":"@ + in_quotes(w) + rest), key) == Some(w),
{
    lemma_key_found(s, key, ":"@ + in_quotes(w) + rest);
    lemma_quoted_value(w, rest);
}

/// Where a scan stands behind all of `s`.
pub open spec fn scan(st: Scan, s: Seq<char>) -> Scan
    decreases s.len(),
{
    if s.len() == 0 {
        st
    } else {
        scan(st, s.drop_last()).step(s.last())
    }
}

/// Outside strings at some depth.
pub open spec fn at_depth(d: int) -> Scan {
    Scan { depth: d, in_str: false, escape: false }
}

pub proof fn lemma_scan_concat(st: Scan, s: Seq<char>, t: Seq<char>)
    ensures
        scan(st, s + t) == scan(scan(st, s), t),
    decreases t.len(),
{
    if t.len() == 0 {
        assert(s + t =~= s);
    } else {
        assert((s + t).drop_last() =~= s + t.drop_last());
        lemma_scan_concat(st, s, t.drop_last());
    }
}

/// Whether a scan of `s` ends where it starts and never leaves the brackets it starts in.
#[verifier::opaque]
pub open spec fn level(s: Seq<char>) -> bool {
    forall|d: int, i: int|
        0 <= i <= s.len() ==> (#[trigger] scan(at_depth(d), s.subrange(0, i))).depth >= d && (i
            == s.len() ==> scan(at_depth(d), s.subrange(0, i)) == at_depth(d))
}

proof fn lemma_level_use(s: Seq<char>, d: int, i: int)
    requires
        level(s),
        0 <= i <= s.len(),
    ensures
        scan(at_depth(d), s.subrange(0, i)).depth >= d,
        scan(at_depth(d), s) == at_depth(d),
{
    reveal(level);
    assert(s.subrange(0, s.len() as int) =~= s);
    assert(scan(at_depth(d), s.subrange(0, s.len() as int)) == at_depth(d));
    assert(scan(at_depth(d), s.subrange(0, i)).depth >= d);
}

pub proof fn lemma_level_concat(s: Seq<char>, t: Seq<char>)
    requires
        level(s),
        level(t),
    ensures
        level(s + t),
{
    reveal(level);
    let u = s + t;
    assert forall|d: int, i: int| 0 <= i <= u.len() implies (#[trigger] scan(
        at_depth(d),
        u.subrange(0, i),
    )).depth >= d && (i == u.len() ==> scan(at_depth(d), u.subrange(0, i)) == at_depth(d)) by {
        lemma_level_use(s, d, 0);
        if i <= s.len() {
            assert(u.subrange(0, i) =~= s.subrange(0, i));
            lemma_level_use(s, d, i);
            if i == u.len() {
                assert(s.subrange(0, i) =~= s);
            }
        } else {
            assert(u.subrange(0, i) =~= s + t.subrange(0, i - s.len()));
            lemma_scan_concat(at_depth(d), s, t.subrange(0, i - s.len()));
            lemma_level_use(t, d, i - s.len());
            if i == u.len() {
                assert(t.subrange(0, i - s.len()) =~= t);
            }
        }
        if t.len() == 0 && i == s.len() {
            assert(u =~= s);
        }
    }
}

/// Text without quotes and brackets moves no scan.
pub proof fn lemma_level_plain(s: Seq<char>)
    requires
        forall|i: int|
            0 <= i < s.len() ==> #[trigger] s[i] != '"' && !opens(s[i]) && !closes(s[i]),
    ensures
        level(s),
{
    reveal(level);
    assert forall|d: int, i: int| 0 <= i <= s.len() implies (#[trigger] scan(
        at_depth(d),
        s.subrange(0, i),
    )).depth >= d && (i == s.len() ==> scan(at_depth(d), s.subrange(0, i)) == at_depth(d)) by {
        lemma_plain_scan(s, d, i);
    }
}

proof fn lemma_plain_scan(s: Seq<char>, d: int, i: int)
    requires
        forall|j: int|
            0 <= j < s.len() ==> #[trigger] s[j] != '"' && !opens(s[j]) && !closes(s[j]),
        0 <= i <= s.len(),
    ensures
        scan(at_depth(d), s.subrange(0, i)) == at_depth(d),
    decreases i,
{
    if i > 0 {
        lemma_plain_scan(s, d, i - 1);
        assert(s.subrange(0, i).drop_last() =~= s.subrange(0, i - 1));
        assert(s.subrange(0, i).last() == s[i - 1]);
    }
}

/// Inside a string at some depth.
pub open spec fn inside(d: int) -> Scan {
    Scan { depth: d, in_str: true, escape: false }
}

/// Whether `w` stays inside the quotation marks that it is put in: each one in it is escaped, and
/// the last backslash is no escape of what follows.
pub open spec fn sealed(w: Seq<char>) -> bool {
    &&& forall|i: int| 0 <= i <= w.len() ==> (#[trigger] scan(inside(0), w.subrange(0, i))).in_str
    &&& !scan(inside(0), w).escape
}

/// Text without quotes and backslashes stays inside its quotation marks.
pub proof fn lemma_sealed_plain(w: Seq<char>)
    requires
        lacks(w, '"'),
        lacks(w, '\\'),
    ensures
        sealed(w),
{
    assert forall|i: int| 0 <= i <= w.len() implies (#[trigger] scan(
        inside(0),
        w.subrange(0, i),
    )).in_str by {
        lemma_plain_inside(w, i);
    }
    lemma_plain_inside(w, w.len() as int);
    assert(w.subrange(0, w.len() as int) =~= w);
}

proof fn lemma_plain_inside(w: Seq<char>, i: int)
    requires
        lacks(w, '"'),
        lacks(w, '\\'),
        0 <= i <= w.len(),
    ensures
        scan(inside(0), w.subrange(0, i)) == inside(0),
    decreases i,
{
    if i > 0 {
        lemma_plain_inside(w, i - 1);
        assert(w.subrange(0, i).drop_last() =~= w.subrange(0, i - 1));
        assert(w.subrange(0, i).last() == w[i - 1]);
    }
}

/// A scan of a quoted text stands where one of the text from inside a string does.
proof fn lemma_string_scan(w: Seq<char>, d: int, i: int)
    requires
        sealed(w),
        0 <= i <= w.len(),
    ensures
        scan(at_depth(d), in_quotes(w).subrange(0, i + 1)) == (Scan {
            depth: d,
            in_str: true,
            escape: scan(inside(0), w.subrange(0, i)).escape,
        }),
    decreases i,
{
    let v = in_quotes(w);
    lemma_quotes(w);
    if i == 0 {
        assert(v.subrange(0, 1) =~= seq!['"']);
        assert(v.subrange(0, 1).drop_last() =~= Seq::<char>::empty());
        assert(scan(at_depth(d), v.subrange(0, 1).drop_last()) == at_depth(d));
        assert(w.subrange(0, 0) =~= Seq::<char>::empty());
    } else {
        lemma_string_scan(w, d, i - 1);
        assert(v.subrange(0, i + 1).drop_last() =~= v.subrange(0, i));
        assert(v.subrange(0, i + 1).last() == w[i - 1]);
        assert(w.subrange(0, i).drop_last() =~= w.subrange(0, i - 1));
        assert(w.subrange(0, i).last() == w[i - 1]);
        assert(scan(inside(0), w.subrange(0, i - 1)).in_str);
        assert(scan(inside(0), w.subrange(0, i)).in_str);
    }
}

/// A quoted text that stays inside its quotation marks moves no scan.
pub proof fn lemma_level_sealed(w: Seq<char>)
    requires
        sealed(w),
    ensures
        level(in_quotes(w)),
{
    reveal(level);
    let v = in_quotes(w);
    lemma_quotes(w);
    assert forall|d: int, i: int| 0 <= i <= v.len() implies (#[trigger] scan(
        at_depth(d),
        v.subrange(0, i),
    )).depth >= d && (i == v.len() ==> scan(at_depth(d), v.subrange(0, i)) == at_depth(d)) by {
        if i == 0 {
            assert(v.subrange(0, 0) =~= Seq::<char>::empty());
        } else if i <= w.len() + 1 {
            lemma_string_scan(w, d, i - 1);
        } else {
            lemma_string_scan(w, d, w.len() as int);
            assert(w.subrange(0, w.len() as int) =~= w);
            assert(v.subrange(0, i).drop_last() =~= v.subrange(0, i - 1));
            assert(v.subrange(0, i).last() == '"');
        }
    }
}

/// A quoted text without quotes or backslashes in it moves no scan.
pub proof fn lemma_level_quoted(w: Seq<char>)
    requires
        lacks(w, '"'),
        lacks(w, '\\'),
    ensures
        level(in_quotes(w)),
{
    lemma_sealed_plain(w);
    lemma_level_sealed(w);
}

/// Brackets round level text make level text.
pub proof fn lemma_level_bracketed(s: Seq<char>, open: char, close: char)
    requires
        level(s),
        opens(open),
        closes(close),
    ensures
        level(seq![open] + s + seq![close]),
{
    reveal(level);
    let u = seq![open] + s + seq![close];
    assert forall|d: int, i: int| 0 <= i <= u.len() implies (#[trigger] scan(
        at_depth(d),
        u.subrange(0, i),
    )).depth >= d && (i == u.len() ==> scan(at_depth(d), u.subrange(0, i)) == at_depth(d)) by {
        if i == 0 {
            assert(u.subrange(0, 0) =~= Seq::<char>::empty());
        } else {
            lemma_one(d, open);
            lemma_level_use(s, d + 1, 0);
            if i <= s.len() + 1 {
                assert(u.subrange(0, i) =~= seq![open] + s.subrange(0, i - 1));
                lemma_scan_concat(at_depth(d), seq![open], s.subrange(0, i - 1));
                lemma_level_use(s, d + 1, i - 1);
            } else {
                assert(u.subrange(0, i).drop_last() =~= seq![open] + s);
                assert(u.subrange(0, i).last() == close);
                lemma_scan_concat(at_depth(d), seq![open], s);
            }
        }
    }
}

proof fn lemma_one(d: int, open: char)
    requires
        opens(open),
    ensures
        scan(at_depth(d), seq![open]) == at_depth(d + 1),
{
    assert(seq![open].drop_last() =~= Seq::<char>::empty());
    assert(scan(at_depth(d), seq![open].drop_last()) == at_depth(d));
}

proof fn lemma_closing_steps(s: Seq<char>, t: Seq<char>, i: int)
    requires
        level(s),
        0 <= i <= s.len(),
    ensures
        closing_from(s + t, scan(at_depth(1), s.subrange(0, i)), i) == closing_from(
            s + t,
            at_depth(1),
            s.len() as int,
        ),
    decreases s.len() - i,
{
    let u = s + t;
    if i == s.len() {
        assert(s.subrange(0, i) =~= s);
        lemma_level_use(s, 1, i);
    } else {
        let st = scan(at_depth(1), s.subrange(0, i));
        let next = s.subrange(0, i + 1);
        assert(next.drop_last() =~= s.subrange(0, i));
        assert(next.last() == s[i]);
        assert(scan(at_depth(1), next) == st.step(s[i]));
        lemma_level_use(s, 1, i + 1);
        lemma_closing_steps(s, t, i + 1);
        assert(u[i] == s[i]);
    }
}

/// Behind an opening bracket, level text ends at the bracket that closes it.
pub proof fn lemma_bracket_closes(s: Seq<char>, open: char, close: char, rest: Seq<char>)
    requires
        level(s),
        closes(close),
    ensures
        bracketed(seq![open] + s + seq![close] + rest, open) == Some(s),
{
    let all = seq![open] + s + seq![close] + rest;
    let t = seq![close] + rest;
    let inner = all.subrange(1, all.len() as int);
    assert(inner =~= s + t);
    lemma_closing_steps(s, t, 0);
    assert(s.subrange(0, 0) =~= Seq::<char>::empty());
    assert(closing_from(s + t, at_depth(1), s.len() as int) == Some(s.len() as int));
    assert(inner.subrange(0, s.len() as int) =~= s);
}

/// A bracketed body that was written behind its key is read back.
pub proof fn lemma_body_field(
    s: Seq<char>,
    key: Seq<char>,
    inner: Seq<char>,
    open: char,
    close: char,
    rest: Seq<char>,
)
    requires
        clear_of(s, key),
        ends_apart(s, key),
        level(inner),
        opens(open),
        closes(close),
    ensures
        body_of(
            s + in_quotes(key) + (":"@ + (seq![open] + inner + seq![close] + rest)),
            key,
            open,
        ) == Some(inner),
{
    reveal_strlit(":");
    let v = seq![open] + inner + seq![close] + rest;
    let tail = ":"@ + v;
    lemma_key_found(s, key, tail);
    assert(tail[0] == ':');
    assert(span_from(tail, Pat::Space, 0) == 0);
    assert(trimmed_start(tail, Pat::Space) =~= tail);
    assert(tail.subrange(1, tail.len() as int) =~= v);
    assert(v[0] == open);
    assert(!is_space(open));
    assert(span_from(v, Pat::Space, 0) == 0);
    assert(trimmed_start(v, Pat::Space) =~= v);
    lemma_bracket_closes(inner, open, close, rest);
}

/// Whether a scan of `s` from outside all brackets meets no comma there.
#[verifier::opaque]
pub open spec fn one_item(s: Seq<char>) -> bool {
    forall|i: int|
        0 <= i < s.len() && #[trigger] s[i] == ',' ==> {
            let st = scan(at_depth(0), s.subrange(0, i));
            !(st.plain() && st.depth == 0)
        }
}

/// Two texts without a comma at top level make one such text, if the first ends at top level.
pub proof fn lemma_one_item_concat(s: Seq<char>, t: Seq<char>)
    requires
        one_item(s),
        level(s),
        one_item(t),
    ensures
        one_item(s + t),
{
    reveal(one_item);
    let u = s + t;
    lemma_level_use(s, 0, 0);
    assert forall|i: int| 0 <= i < u.len() && #[trigger] u[i] == ',' implies ({
        let st = scan(at_depth(0), u.subrange(0, i));
        !(st.plain() && st.depth == 0)
    }) by {
        if i < s.len() {
            assert(u.subrange(0, i) =~= s.subrange(0, i));
            assert(s[i] == ',');
        } else {
            assert(u.subrange(0, i) =~= s + t.subrange(0, i - s.len()));
            lemma_scan_concat(at_depth(0), s, t.subrange(0, i - s.len()));
            assert(t[i - s.len()] == ',');
        }
    }
}

/// Text without commas is one item.
pub proof fn lemma_one_item_plain(s: Seq<char>)
    requires
        lacks(s, ','),
    ensures
        one_item(s),
{
    reveal(one_item);
}

/// A quoted text is one item.
pub proof fn lemma_one_item_sealed(w: Seq<char>)
    requires
        sealed(w),
    ensures
        one_item(in_quotes(w)),
{
    reveal(one_item);
    let v = in_quotes(w);
    lemma_quotes(w);
    assert forall|i: int| 0 <= i < v.len() && #[trigger] v[i] == ',' implies ({
        let st = scan(at_depth(0), v.subrange(0, i));
        !(st.plain() && st.depth == 0)
    }) by {
        assert(1 <= i <= w.len());
        lemma_string_scan(w, 0, i - 1);
    }
}

/// A bracketed text is one item.
pub proof fn lemma_one_item_bracketed(s: Seq<char>, open: char, close: char)
    requires
        level(s),
        opens(open),
        closes(close),
    ensures
        one_item(seq![open] + s + seq![close]),
{
    reveal(one_item);
    let u = seq![open] + s + seq![close];
    assert forall|i: int| 0 <= i < u.len() && #[trigger] u[i] == ',' implies ({
        let st = scan(at_depth(0), u.subrange(0, i));
        !(st.plain() && st.depth == 0)
    }) by {
        assert(1 <= i <= s.len());
        assert(u.subrange(0, i) =~= seq![open] + s.subrange(0, i - 1));
        lemma_one(0, open);
        lemma_scan_concat(at_depth(0), seq![open], s.subrange(0, i - 1));
        lemma_level_use(s, 1, i - 1);
    }
}

/// Whether `s` is an item as it was written: not empty, no white space round it, and no comma in it
/// at top level.
pub open spec fn is_item(s: Seq<char>) -> bool {
    s.len() > 0 && !is_space(s[0]) && !is_space(s.last()) && level(s) && one_item(s)
}

proof fn lemma_item_steps(a: Seq<char>, s: Seq<char>, t: Seq<char>, i: int)
    requires
        is_item(s),
        0 <= i <= s.len(),
    ensures
        items_from(a + s + t, a.len() as int, a.len() + i, scan(at_depth(0), s.subrange(0, i)))
            == items_from(a + s + t, a.len() as int, (a.len() + s.len()) as int, at_depth(0)),
    decreases s.len() - i,
{
    reveal(one_item);
    if i == s.len() {
        assert(s.subrange(0, i) =~= s);
        lemma_level_use(s, 0, i);
    } else {
        let st = scan(at_depth(0), s.subrange(0, i));
        let next = s.subrange(0, i + 1);
        assert(next.drop_last() =~= s.subrange(0, i));
        assert(next.last() == s[i]);
        assert(scan(at_depth(0), next) == st.step(s[i]));
        lemma_item_steps(a, s, t, i + 1);
        assert((a + s + t)[a.len() + i] == s[i]);
    }
}

/// An item is its own piece.
proof fn lemma_item_piece(s: Seq<char>)
    requires
        is_item(s),
    ensures
        piece(s) == seq![s],
{
    lemma_trimmed_id(s, Pat::Space);
}

/// The last item is what is left.
proof fn lemma_last_item(a: Seq<char>, s: Seq<char>)
    requires
        is_item(s),
    ensures
        items_from(a + s, a.len() as int, a.len() as int, at_depth(0)) == seq![s],
{
    let e = Seq::<char>::empty();
    assert(a + s + e =~= a + s);
    lemma_item_steps(a, s, e, 0);
    assert(s.subrange(0, 0) =~= e);
    assert((a + s).subrange(a.len() as int, (a + s).len() as int) =~= s);
    lemma_item_piece(s);
}

/// An item ends at the comma behind it.
proof fn lemma_next_item(a: Seq<char>, s: Seq<char>, rest: Seq<char>)
    requires
        is_item(s),
    ensures
        ({
            let all = a + s + (seq![','] + rest);
            let at = (a.len() + s.len() + 1) as int;
            items_from(all, a.len() as int, a.len() as int, at_depth(0)) == seq![s] + items_from(
                all,
                at,
                at,
                at_depth(0),
            )
        }),
{
    let t = seq![','] + rest;
    let all = a + s + t;
    lemma_item_steps(a, s, t, 0);
    assert(s.subrange(0, 0) =~= Seq::<char>::empty());
    assert(all[(a.len() + s.len()) as int] == ',');
    assert(all.subrange(a.len() as int, (a.len() + s.len()) as int) =~= s);
    lemma_item_piece(s);
}

/// The text before item `k`.
spec fn before_item(parts: Seq<Seq<char>>, k: int) -> Seq<char> {
    if k <= 0 {
        Seq::empty()
    } else {
        joined(parts.subrange(0, k), ","@) + ","@
    }
}

proof fn lemma_before_item(parts: Seq<Seq<char>>, k: int)
    requires
        0 <= k < parts.len(),
    ensures
        joined(parts.subrange(0, k + 1), ","@) == before_item(parts, k) + parts[k],
{
    let upto = parts.subrange(0, k + 1);
    assert(upto.drop_last() =~= parts.subrange(0, k));
    assert(upto.last() == parts[k]);
    if k == 0 {
        assert(Seq::<char>::empty() + parts[0] =~= parts[0]);
    }
}

/// From item `k` on, the items that were joined are found one by one.
proof fn lemma_items_from_joined(parts: Seq<Seq<char>>, k: int)
    requires
        0 <= k < parts.len(),
        forall|i: int| 0 <= i < parts.len() ==> is_item(#[trigger] parts[i]),
    ensures
        items_from(
            joined(parts, ","@),
            before_item(parts, k).len() as int,
            before_item(parts, k).len() as int,
            at_depth(0),
        ) == parts.subrange(k, parts.len() as int),
    decreases parts.len() - k,
{
    let all = joined(parts, ","@);
    let a = before_item(parts, k);
    let s = parts[k];
    lemma_before_item(parts, k);
    if k + 1 == parts.len() {
        assert(parts.subrange(0, k + 1) =~= parts);
        lemma_last_item(a, s);
        assert(parts.subrange(k, parts.len() as int) =~= seq![s]);
    } else {
        let rest = lemma_joined_prefix(parts, k + 1);
        reveal_strlit(",");
        assert(","@ =~= seq![',']);
        lemma_next_item(a, s, rest);
        lemma_items_from_joined(parts, k + 1);
        assert(before_item(parts, k + 1).len() == a.len() + s.len() + 1);
        assert(seq![s] + parts.subrange(k + 1, parts.len() as int) =~= parts.subrange(
            k,
            parts.len() as int,
        ));
    }
}

/// What is joined starts with its first parts joined.
proof fn lemma_joined_prefix(parts: Seq<Seq<char>>, k: int) -> (rest: Seq<char>)
    requires
        0 < k < parts.len(),
    ensures
        joined(parts, ","@) == joined(parts.subrange(0, k), ","@) + (","@ + rest),
    decreases parts.len(),
{
    let short = parts.drop_last();
    if k == parts.len() - 1 {
        assert(short =~= parts.subrange(0, k));
        assert(joined(parts, ","@) =~= joined(parts.subrange(0, k), ","@) + (","@ + parts.last()));
        parts.last()
    } else {
        let r = lemma_joined_prefix(short, k);
        assert(short.subrange(0, k) =~= parts.subrange(0, k));
        let rest = r + ","@ + parts.last();
        assert(joined(parts, ","@) =~= joined(parts.subrange(0, k), ","@) + (","@ + rest));
        rest
    }
}

/// Items that were joined by commas are split again.
pub proof fn lemma_items_joined(parts: Seq<Seq<char>>)
    requires
        forall|i: int| 0 <= i < parts.len() ==> is_item(#[trigger] parts[i]),
    ensures
        items(joined(parts, ","@)) == parts,
{
    if parts.len() == 0 {
        let e = Seq::<char>::empty();
        assert(e.subrange(0, 0) =~= e);
        assert(trimmed(e, Pat::Space) =~= e) by {
            lemma_trimmed_id(e, Pat::Space);
        }
        assert(items(e) =~= parts);
    } else {
        lemma_items_from_joined(parts, 0);
        assert(parts.subrange(0, parts.len() as int) =~= parts);
    }
}

/// What is level item by item is level joined.
pub proof fn lemma_level_joined(parts: Seq<Seq<char>>)
    requires
        forall|i: int| 0 <= i < parts.len() ==> level(#[trigger] parts[i]),
    ensures
        level(joined(parts, ","@)),
    decreases parts.len(),
{
    reveal_strlit(",");
    if parts.len() == 0 {
        lemma_level_plain(Seq::empty());
    } else if parts.len() > 1 {
        let short = parts.drop_last();
        assert forall|i: int| 0 <= i < short.len() implies level(#[trigger] short[i]) by {
            assert(short[i] == parts[i]);
        }
        lemma_level_joined(short);
        lemma_level_plain(","@);
        lemma_level_concat(joined(short, ","@), ","@);
        lemma_level_concat(joined(short, ","@) + ","@, parts.last());
    }
}

/// What is clear of a key item by item is clear joined.
pub proof fn lemma_clear_joined(parts: Seq<Seq<char>>, key: Seq<char>)
    requires
        forall|i: int| 0 <= i < parts.len() ==> clear_of(#[trigger] parts[i], key),
        lacks(key, ','),
    ensures
        clear_of(joined(parts, ","@), key),
    decreases parts.len(),
{
    reveal_strlit(",");
    if parts.len() == 0 {
        lemma_clear_unquoted(Seq::empty(), key);
    } else if parts.len() > 1 {
        let short = parts.drop_last();
        assert forall|i: int| 0 <= i < short.len() implies clear_of(#[trigger] short[i], key) by {
            assert(short[i] == parts[i]);
        }
        lemma_clear_joined(short, key);
        lemma_clear_unquoted(","@, key);
        lemma_clear_concat(joined(short, ","@), ","@, key);
        lemma_clear_concat(joined(short, ","@) + ","@, parts.last(), key);
    }
}

/// A pair that was written is read back.
pub proof fn lemma_item_pair(id: Seq<char>, v: Seq<char>)
    requires
        lacks(id, '"'),
        v.len() > 0,
        !is_space(v[0]),
        !is_space(v.last()),
    ensures
        pair_of(in_quotes(id) + (":"@ + v)) == Some((id, v)),
{
    reveal_strlit(":");
    lemma_quotes(id);
    let item = in_quotes(id) + (":"@ + v);
    let t = item.subrange(1, item.len() as int);
    assert forall|i: int| 0 <= i < id.len() implies #[trigger] t[i] == id[i] by {
        assert(t[i] == in_quotes(id)[i + 1]);
    }
    assert(t[id.len() as int] == '"');
    lemma_find_is(t, Pat::Is('"'), id.len() as int);
    assert(t.subrange(0, id.len() as int) =~= id);
    let rest = t.subrange(id.len() as int + 1, t.len() as int);
    assert(rest =~= ":"@ + v);
    assert(span_from(rest, Pat::Space, 0) == 0);
    assert(trimmed_start(rest, Pat::Space) =~= rest);
    assert(rest.subrange(1, rest.len() as int) =~= v);
    lemma_trimmed_id(v, Pat::Space);
}

/// A key and its raw value, as they are written.
pub open spec fn member(key: Seq<char>, v: Seq<char>) -> Seq<char> {
    in_quotes(key) + (":"@ + v)
}

pub open spec fn members(ms: Seq<(Seq<char>, Seq<char>)>) -> Seq<Seq<char>> {
    ms.map_values(|m: (Seq<char>, Seq<char>)| member(m.0, m.1))
}

/// An object with these members.
pub open spec fn object(ms: Seq<(Seq<char>, Seq<char>)>) -> Seq<char> {
    "{"@ + joined(members(ms), ","@) + "}"@
}

/// Whether `key` is one that can be told from the text round it.
pub open spec fn is_key(key: Seq<char>) -> bool {
    lacks(key, '"') && lacks(key, '{') && lacks(key, '[') && lacks(key, ',') && lacks(key, ':')
        && lacks(key, '}') && lacks(key, ']') && lacks(key, '\\')
}

/// What stands before and behind the value of member `k`.
#[verifier::rlimit(40)]
proof fn lemma_object_split(ms: Seq<(Seq<char>, Seq<char>)>, k: int) -> (r: (Seq<char>, Seq<char>))
    requires
        0 <= k < ms.len(),
        forall|j: int| 0 <= j < k ==> clear_of(#[trigger] members(ms)[j], ms[k].0),
        is_key(ms[k].0),
    ensures
        object(ms) == r.0 + in_quotes(ms[k].0) + (":"@ + ms[k].1 + r.1),
        clear_of(r.0, ms[k].0),
        ends_apart(r.0, ms[k].0),
        r.1.len() > 0,
        r.1[0] == ',' || r.1[0] == '}',
{
    reveal_strlit("{");
    reveal_strlit("}");
    reveal_strlit(",");
    let key = ms[k].0;
    let parts = members(ms);
    let a = before_item(parts, k);
    let start = "{"@ + a;
    lemma_before_item(parts, k);
    lemma_clear_unquoted("{"@, key);
    if k > 0 {
        let first = parts.subrange(0, k);
        assert forall|i: int| 0 <= i < first.len() implies clear_of(#[trigger] first[i], key) by {
            assert(first[i] == parts[i]);
        }
        lemma_clear_joined(first, key);
        lemma_clear_unquoted(","@, key);
        lemma_clear_concat(joined(first, ","@), ","@, key);
    } else {
        lemma_clear_unquoted(a, key);
    }
    lemma_clear_concat("{"@, a, key);
    if k + 1 == ms.len() {
        assert(parts.subrange(0, k + 1) =~= parts);
        assert(object(ms) =~= start + in_quotes(key) + (":"@ + ms[k].1 + "}"@));
        (start, "}"@)
    } else {
        let more = lemma_joined_prefix(parts, k + 1);
        let rest = ","@ + more + "}"@;
        assert(object(ms) =~= start + in_quotes(key) + (":"@ + ms[k].1 + rest));
        (start, rest)
    }
}

/// A member with a bare value is read back.
pub proof fn lemma_object_bare(ms: Seq<(Seq<char>, Seq<char>)>, k: int)
    requires
        0 <= k < ms.len(),
        forall|j: int| 0 <= j < k ==> clear_of(#[trigger] members(ms)[j], ms[k].0),
        is_key(ms[k].0),
        ms[k].1.len() > 0,
        lacks(ms[k].1, ','),
        lacks(ms[k].1, '}'),
        lacks(ms[k].1, '"'),
        !is_space(ms[k].1[0]),
        !is_space(ms[k].1.last()),
    ensures
        field_of(object(ms), ms[k].0) == Some(ms[k].1),
{
    let r = lemma_object_split(ms, k);
    lemma_bare_field(r.0, ms[k].0, ms[k].1, r.1);
}

/// A member with a quoted value is read back without the quotes.
pub proof fn lemma_object_quoted(ms: Seq<(Seq<char>, Seq<char>)>, k: int, w: Seq<char>)
    requires
        0 <= k < ms.len(),
        forall|j: int| 0 <= j < k ==> clear_of(#[trigger] members(ms)[j], ms[k].0),
        is_key(ms[k].0),
        ms[k].1 == in_quotes(w),
        lacks(w, ','),
        lacks(w, '}'),
        lacks(w, '"'),
    ensures
        field_of(object(ms), ms[k].0) == Some(w),
{
    let r = lemma_object_split(ms, k);
    lemma_quoted_field(r.0, ms[k].0, w, r.1);
}

/// A member with a bracketed value is read back without the brackets.
pub proof fn lemma_object_body(
    ms: Seq<(Seq<char>, Seq<char>)>,
    k: int,
    inner: Seq<char>,
    open: char,
    close: char,
)
    requires
        0 <= k < ms.len(),
        forall|j: int| 0 <= j < k ==> clear_of(#[trigger] members(ms)[j], ms[k].0),
        is_key(ms[k].0),
        ms[k].1 == seq![open] + inner + seq![close],
        level(inner),
        opens(open),
        closes(close),
    ensures
        body_of(object(ms), ms[k].0, open) == Some(inner),
{
    let r = lemma_object_split(ms, k);
    lemma_body_field(r.0, ms[k].0, inner, open, close, r.1);
    assert(":"@ + ms[k].1 + r.1 =~= ":"@ + (seq![open] + inner + seq![close] + r.1));
}

/// A member holds no quoted key but its own and those in its value.
pub proof fn lemma_member_clear(name: Seq<char>, v: Seq<char>, key: Seq<char>)
    requires
        is_key(name),
        is_key(key),
        name != key,
        clear_of(v, key),
    ensures
        clear_of(member(name, v), key),
{
    reveal_strlit(":");
    lemma_clear_quoted(name, key);
    lemma_clear_unquoted(":"@, key);
    lemma_clear_concat(":"@, v, key);
    lemma_clear_concat(in_quotes(name), ":"@ + v, key);
}

/// An object holds the quoted keys that its members hold.
pub proof fn lemma_object_clear(ms: Seq<(Seq<char>, Seq<char>)>, key: Seq<char>)
    requires
        forall|j: int| 0 <= j < ms.len() ==> clear_of(#[trigger] members(ms)[j], key),
        is_key(key),
    ensures
        clear_of(object(ms), key),
{
    reveal_strlit("{");
    reveal_strlit("}");
    lemma_clear_joined(members(ms), key);
    lemma_clear_unquoted("{"@, key);
    lemma_clear_unquoted("}"@, key);
    lemma_clear_concat("{"@, joined(members(ms), ","@), key);
    lemma_clear_concat("{"@ + joined(members(ms), ","@), "}"@, key);
}

/// A member is level where its value is.
pub proof fn lemma_member_level(name: Seq<char>, v: Seq<char>)
    requires
        is_key(name),
        level(v),
    ensures
        level(member(name, v)),
{
    reveal_strlit(":");
    lemma_level_quoted(name);
    lemma_level_plain(":"@);
    lemma_level_concat(":"@, v);
    lemma_level_concat(in_quotes(name), ":"@ + v);
}

/// An object whose members are level is an item.
pub proof fn lemma_object_item(ms: Seq<(Seq<char>, Seq<char>)>)
    requires
        forall|j: int| 0 <= j < ms.len() ==> level(#[trigger] members(ms)[j]),
    ensures
        is_item(object(ms)),
        object(ms)[0] == '{',
        object(ms).last() == '}',
{
    reveal_strlit("{");
    reveal_strlit("}");
    let inner = joined(members(ms), ","@);
    lemma_level_joined(members(ms));
    assert(object(ms) =~= seq!['{'] + inner + seq!['}']);
    lemma_level_bracketed(inner, '{', '}');
    lemma_one_item_bracketed(inner, '{', '}');
}

/// The members so far and one more, behind the opening brace.
pub proof fn lemma_next_member(open: Seq<char>, parts: Seq<Seq<char>>, m: Seq<char>)
    requires
        parts.len() > 0,
    ensures
        open + joined(parts.push(m), ","@) == open + joined(parts, ","@) + ","@ + m,
{
    assert(parts.push(m).drop_last() =~= parts);
    let j = joined(parts, ","@);
    assert(open + (j + ","@ + m) =~= open + j + ","@ + m);
}

/// A quoted id with an object behind its colon is an item.
pub proof fn lemma_pair_item(id: Seq<char>, v: Seq<char>)
    requires
        sealed(id),
        is_item(v),
    ensures
        is_item(member(id, v)),
{
    reveal_strlit(":");
    lemma_quotes(id);
    lemma_level_sealed(id);
    lemma_level_plain(":"@);
    lemma_level_concat(":"@, v);
    lemma_level_concat(in_quotes(id), ":"@ + v);
    lemma_one_item_sealed(id);
    lemma_one_item_plain(":"@);
    lemma_one_item_concat(":"@, v);
    lemma_one_item_concat(in_quotes(id), ":"@ + v);
    assert(member(id, v)[0] == '"');
    assert(member(id, v).last() == v.last());
}

/// The key that is read from a pair is not `key` where another one was written, since it is all that
/// was written or ends with the backslash before a quotation mark.
pub proof fn lemma_other_key(w: Seq<char>, v: Seq<char>, key: Seq<char>)
    requires
        sealed(w),
        w != key,
        lacks(key, '\\'),
    ensures
        pair_of(member(w, v)) matches Some(p) ==> p.0 != key,
{
    reveal_strlit(":");
    lemma_quotes(w);
    let item = member(w, v);
    let t = item.subrange(1, item.len() as int);
    assert forall|i: int| 0 <= i < w.len() implies #[trigger] t[i] == w[i] by {
        assert(t[i] == in_quotes(w)[i + 1]);
    }
    assert(t[w.len() as int] == '"');
    let f = find(t, Pat::Is('"'));
    lemma_find_from_bounds(t, Pat::Is('"'), 0);
    if f >= w.len() {
        assert(t.subrange(0, w.len() as int) =~= w);
        if f > w.len() {
            assert(!Pat::Is('"').has(t[w.len() as int]));
        }
    } else {
        assert(w[f] == '"');
        assert(w.subrange(0, f + 1).drop_last() =~= w.subrange(0, f));
        assert(w.subrange(0, f + 1).last() == w[f]);
        assert(scan(inside(0), w.subrange(0, f)).in_str);
        assert(scan(inside(0), w.subrange(0, f + 1)).in_str);
        assert(scan(inside(0), w.subrange(0, f)).escape);
        assert(f > 0) by {
            assert(w.subrange(0, 0) =~= Seq::<char>::empty());
        }
        assert(w.subrange(0, f).last() == '\\');
        assert(t.subrange(0, f)[f - 1] == w[f - 1]);
        if t.subrange(0, f) == key {
            assert(key[f - 1] == '\\');
        }
    }
}

/// A value with a blank before it and white space behind it is found without them.
pub proof fn lemma_spaced_value(v: Seq<char>, sp: Seq<char>, rest: Seq<char>)
    requires
        v.len() > 0,
        lacks(v, ','),
        lacks(v, '}'),
        !is_space(v[0]),
        !is_space(v.last()),
        forall|i: int| 0 <= i < sp.len() ==> is_space(#[trigger] sp[i]),
        rest.len() > 0,
        rest[0] == ',' || rest[0] == '}',
    ensures
        value_behind(": "@ + v + (sp + rest)) == Some(trimmed(v, Pat::Is('"'))),
{
    reveal_strlit(": ");
    let s = ": "@ + v + (sp + rest);
    assert(s[0] == ':');
    assert(span_from(s, Pat::Space, 0) == 0);
    assert(trimmed_start(s, Pat::Space) =~= s);
    let u = s.subrange(1, s.len() as int);
    assert(u[0] == ' ' && u[1] == v[0]);
    reveal_with_fuel(span_from, 3);
    assert(span_from(u, Pat::Space, 0) == 1);
    let t = trimmed_start(u, Pat::Space);
    assert(t =~= v + (sp + rest));
    let w = v + sp;
    let p = Pat::Either(',', '}');
    assert forall|j: int| 0 <= j < w.len() implies !p.has(#[trigger] t[j]) by {
        if j >= v.len() {
            assert(t[j] == sp[j - v.len()]);
        }
    }
    lemma_find_is(t, p, w.len() as int);
    assert(t.subrange(0, w.len() as int) =~= w);
    assert(span_from(w, Pat::Space, 0) == 0);
    assert(trimmed_start(w, Pat::Space) =~= w);
    lemma_span_over(v, sp, sp.len() as int);
    assert(trimmed_end(w, Pat::Space) =~= v);
}

/// White space behind a text is taken off.
proof fn lemma_span_over(v: Seq<char>, sp: Seq<char>, i: int)
    requires
        v.len() > 0,
        !is_space(v.last()),
        forall|j: int| 0 <= j < sp.len() ==> is_space(#[trigger] sp[j]),
        0 <= i <= sp.len(),
    ensures
        span_back(v + sp, Pat::Space, v.len() + i) == v.len(),
    decreases i,
{
    if i > 0 {
        assert((v + sp)[v.len() + i - 1] == sp[i - 1]);
        lemma_span_over(v, sp, i - 1);
    } else {
        assert((v + sp)[v.len() - 1] == v.last());
    }
}

/// The items of an array that was written are read back, one by one and in their order.
pub proof fn law_array_reads_back(parts: Seq<Seq<char>>)
    requires
        forall|i: int| 0 <= i < parts.len() ==> is_item(#[trigger] parts[i]),
    ensures
        array_text(parts).len() >= 2,
        array_text(parts)[0] == '[',
        array_text(parts).last() == ']',
        items(array_text(parts).subrange(1, array_text(parts).len() - 1)) == parts,
{
    reveal_strlit("[");
    reveal_strlit("]");
    let t = array_text(parts);
    assert(t.subrange(1, t.len() - 1) =~= joined(parts, ","@));
    lemma_items_joined(parts);
}

/// The pairs of an object that was written are read back, in their order.
pub proof fn law_pairs_read_back(ms: Seq<(Seq<char>, Seq<char>)>)
    requires
        forall|i: int|
            0 <= i < ms.len() ==> lacks((#[trigger] ms[i]).0, '"') && lacks(ms[i].0, '\\') && is_item(
                ms[i].1,
            ),
    ensures
        pairs(joined(members(ms), ","@)) == ms,
{
    let parts = members(ms);
    assert forall|i: int| 0 <= i < parts.len() implies is_item(#[trigger] parts[i]) by {
        assert(lacks(ms[i].0, '"'));
        lemma_sealed_plain(ms[i].0);
        lemma_pair_item(ms[i].0, ms[i].1);
    }
    lemma_items_joined(parts);
    lemma_pairs_upto(ms, ms.len() as int);
    assert(ms.subrange(0, ms.len() as int) =~= ms);
}

proof fn lemma_pairs_upto(ms: Seq<(Seq<char>, Seq<char>)>, n: int)
    requires
        0 <= n <= ms.len(),
        forall|i: int|
            0 <= i < ms.len() ==> lacks((#[trigger] ms[i]).0, '"') && lacks(ms[i].0, '\\') && is_item(
                ms[i].1,
            ),
    ensures
        pairs_upto(members(ms), n) == ms.subrange(0, n),
    decreases n,
{
    if n > 0 {
        lemma_pairs_upto(ms, n - 1);
        assert(lacks(ms[n - 1].0, '"'));
        lemma_item_pair(ms[n - 1].0, ms[n - 1].1);
        assert(members(ms)[n - 1] == member(ms[n - 1].0, ms[n - 1].1));
        assert(ms.subrange(0, n) =~= ms.subrange(0, n - 1).push(ms[n - 1]));
    } else {
        assert(ms.subrange(0, 0) =~= Seq::<(Seq<char>, Seq<char>)>::empty());
    }
}

} // verus!
