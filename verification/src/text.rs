//! Text as sequences of characters: searching, trimming and splitting.
//!
//! A `&str` is read as the sequence of its characters, and every position counts characters.

use vstd::prelude::*;
use vstd::string::*;
use vstd::utf8::{encode_utf8, valid_utf8};

verus! {

/// `String::push` appends one character.
pub assume_specification[ String::push ](s: &mut String, c: char)
    ensures
        final(s)@ == old(s)@.push(c),
;

/// What `str::escape_debug` makes of a text.
pub uninterp spec fn debug_escaped(s: Seq<char>) -> Seq<char>;

/// `str::escape_debug`, collected into a `String`. The contract claims only that the result
/// depends on nothing but the text; which characters are escaped, and how, is left unsaid.
#[verifier::external_body]
fn std_escape_debug(s: &str) -> (r: String)
    ensures
        r@ == debug_escaped(s@),
{
    s.escape_debug().to_string()
}

/// A printable character of ASCII but for the quotation marks and the backslash. Such a character
/// needs no escape.
pub open spec fn is_plain_char(c: char) -> bool {
    ' ' <= c <= '~' && c != '\'' && c != '"' && c != '\\'
}

/// Whether a text holds nothing but plain characters.
pub open spec fn is_plain(s: Seq<char>) -> bool {
    forall|i: int| 0 <= i < s.len() ==> is_plain_char(#[trigger] s[i])
}

/// What stands for a text between quotes: a plain one stands for itself, any other is escaped.
#[verifier::opaque]
pub open spec fn escaped(s: Seq<char>) -> Seq<char> {
    if is_plain(s) {
        s
    } else {
        debug_escaped(s)
    }
}

/// A plain text is written as it stands.
pub proof fn law_plain_text_is_written_as_it_stands(s: Seq<char>)
    requires
        is_plain(s),
    ensures
        escaped(s) == s,
{
    reveal(escaped);
}

fn plain(s: &str) -> (r: bool)
    ensures
        r == is_plain(s@),
{
    let cs: Vec<char> = chars_of(s);
    let mut i: usize = 0;
    while i < cs.len()
        invariant
            i <= cs.len(),
            cs@ == s@,
            forall|j: int| 0 <= j < i ==> is_plain_char(#[trigger] s@[j]),
        decreases cs.len() - i,
    {
        let c: char = cs[i];
        let fits: bool = ' ' <= c && c <= '~' && c != '\'' && c != '"' && c != '\\';
        if !fits {
            assert(!is_plain_char(s@[i as int]));
            return false;
        }
        i = i + 1;
    }
    true
}

/// The form of a text between quotes.
pub fn escape_debug(s: &str) -> (r: String)
    ensures
        r@ == escaped(s@),
{
    reveal(escaped);
    if plain(s) {
        s.to_owned()
    } else {
        std_escape_debug(s)
    }
}

/// What the `Debug` form of a text is.
pub uninterp spec fn debugged(s: Seq<char>) -> Seq<char>;

/// `Debug` of `str`, as `format!` writes it. The contract claims only that the result depends on
/// nothing but the text; the quoting and escaping is left unsaid.
#[verifier::external_body]
pub(crate) fn debug_text(s: &str) -> (r: String)
    ensures
        r@ == debugged(s@),
{
    format!("{s:?}")
}

/// What `String::from_utf8_lossy` reads from bytes.
pub uninterp spec fn lossy(bytes: Seq<u8>) -> Seq<char>;

/// `String::from_utf8_lossy`, as an owned `String`. The contract claims that the result depends on
/// nothing but the bytes, and that valid UTF-8 is decoded as it stands; where the replacement
/// character goes in other input is left unsaid.
#[verifier::external_body]
pub(crate) fn from_utf8_lossy(bytes: &[u8]) -> (r: String)
    ensures
        r@ == lossy(bytes@),
        valid_utf8(bytes@) ==> encode_utf8(r@) == bytes@,
{
    String::from_utf8_lossy(bytes).into_owned()
}

/// `str::from_utf8`, as an owned `String`: it succeeds on valid UTF-8 and on nothing else, and
/// decodes it as it stands.
#[verifier::external_body]
pub(crate) fn from_utf8(bytes: &[u8]) -> (r: Option<String>)
    ensures
        r is Some <==> valid_utf8(bytes@),
        r matches Some(s) ==> encode_utf8(s@) == bytes@,
{
    std::str::from_utf8(bytes).ok().map(str::to_owned)
}

/// A set of characters to look for.
#[derive(Clone, Copy)]
pub enum Pat {
    /// Unicode white space.
    Space,
    /// One character.
    Is(char),
    /// One of two characters.
    Either(char, char),
    /// Anything but an ASCII digit.
    NotDigit,
    /// Anything but an ASCII digit or a minus sign.
    NotSigned,
}

pub open spec fn is_digit(c: char) -> bool {
    '0' <= c <= '9'
}

/// The characters with Unicode's `White_Space` property.
pub open spec fn is_space(c: char) -> bool {
    ||| '\u{9}' <= c <= '\u{d}'
    ||| c == ' '
    ||| c == '\u{85}'
    ||| c == '\u{a0}'
    ||| c == '\u{1680}'
    ||| '\u{2000}' <= c <= '\u{200a}'
    ||| c == '\u{2028}'
    ||| c == '\u{2029}'
    ||| c == '\u{202f}'
    ||| c == '\u{205f}'
    ||| c == '\u{3000}'
}

impl Pat {
    pub open spec fn has(self, c: char) -> bool {
        match self {
            Pat::Space => is_space(c),
            Pat::Is(d) => c == d,
            Pat::Either(d, e) => c == d || c == e,
            Pat::NotDigit => !is_digit(c),
            Pat::NotSigned => !is_digit(c) && c != '-',
        }
    }

    pub fn matches(&self, c: char) -> (r: bool)
        ensures
            r == self.has(c),
    {
        match *self {
            Pat::Space => {
                ('\u{9}' <= c && c <= '\u{d}') || c == ' ' || c == '\u{85}' || c == '\u{a0}'
                    || c == '\u{1680}' || ('\u{2000}' <= c && c <= '\u{200a}') || c == '\u{2028}'
                    || c == '\u{2029}' || c == '\u{202f}' || c == '\u{205f}' || c == '\u{3000}'
            },
            Pat::Is(d) => c == d,
            Pat::Either(d, e) => c == d || c == e,
            Pat::NotDigit => !('0' <= c && c <= '9'),
            Pat::NotSigned => !('0' <= c && c <= '9') && c != '-',
        }
    }
}

/// The first position at or after `i` whose character is in `p`, or the length if there is none.
pub open spec fn find_from(s: Seq<char>, p: Pat, i: int) -> int
    decreases s.len() - i,
{
    if i >= s.len() || p.has(s[i]) {
        i
    } else {
        find_from(s, p, i + 1)
    }
}

/// The first position whose character is in `p`, or the length if there is none.
pub open spec fn find(s: Seq<char>, p: Pat) -> int {
    find_from(s, p, 0)
}

/// The end of the run of characters in `p` that starts at `i`.
pub open spec fn span_from(s: Seq<char>, p: Pat, i: int) -> int
    decreases s.len() - i,
{
    if i >= s.len() || !p.has(s[i]) {
        i
    } else {
        span_from(s, p, i + 1)
    }
}

/// The start of the run of characters in `p` that ends before `i`.
pub open spec fn span_back(s: Seq<char>, p: Pat, i: int) -> int
    decreases i,
{
    if i <= 0 || !p.has(s[i - 1]) {
        i
    } else {
        span_back(s, p, i - 1)
    }
}

/// `s` without the characters in `p` that it starts with.
pub open spec fn trimmed_start(s: Seq<char>, p: Pat) -> Seq<char> {
    s.subrange(span_from(s, p, 0), s.len() as int)
}

/// `s` without the characters in `p` that it ends with.
pub open spec fn trimmed_end(s: Seq<char>, p: Pat) -> Seq<char> {
    s.subrange(0, span_back(s, p, s.len() as int))
}

/// `s` without the characters in `p` at either end.
pub open spec fn trimmed(s: Seq<char>, p: Pat) -> Seq<char> {
    trimmed_end(trimmed_start(s, p), p)
}

pub open spec fn starts(s: Seq<char>, prefix: Seq<char>) -> bool {
    prefix.len() <= s.len() && s.subrange(0, prefix.len() as int) == prefix
}

pub open spec fn ends(s: Seq<char>, suffix: Seq<char>) -> bool {
    suffix.len() <= s.len() && s.subrange(s.len() - suffix.len(), s.len() as int) == suffix
}

/// Whether `pat` stands in `s` at position `i`.
pub open spec fn occurs_at(s: Seq<char>, pat: Seq<char>, i: int) -> bool {
    0 <= i && i + pat.len() <= s.len() && s.subrange(i, i + pat.len()) == pat
}

/// The first position at or after `i` where `pat` stands.
pub open spec fn match_from(s: Seq<char>, pat: Seq<char>, i: int) -> Option<int>
    decreases s.len() + 1 - i,
{
    if i < 0 || i + pat.len() > s.len() {
        None
    } else if occurs_at(s, pat, i) {
        Some(i)
    } else {
        match_from(s, pat, i + 1)
    }
}

/// Whether `pat` stands anywhere in `s`.
pub open spec fn has_text(s: Seq<char>, pat: Seq<char>) -> bool {
    match_from(s, pat, 0) is Some
}

/// The last position at or before `i` where `pat` stands.
pub open spec fn match_back(s: Seq<char>, pat: Seq<char>, i: int) -> Option<int>
    decreases i + 1,
{
    if i < 0 {
        None
    } else if occurs_at(s, pat, i) {
        Some(i)
    } else {
        match_back(s, pat, i - 1)
    }
}

/// What stands before and after the first character in `p`.
pub open spec fn cut(s: Seq<char>, p: Pat) -> Option<(Seq<char>, Seq<char>)> {
    let i = find(s, p);
    if i < s.len() {
        Some((s.subrange(0, i), s.subrange(i + 1, s.len() as int)))
    } else {
        None
    }
}

/// The pieces of `s` between the characters in `p`.
pub open spec fn pieces(s: Seq<char>, p: Pat) -> Seq<Seq<char>>
    decreases s.len(),
{
    let i = find(s, p);
    if 0 <= i < s.len() {
        seq![s.subrange(0, i)] + pieces(s.subrange(i + 1, s.len() as int), p)
    } else {
        seq![s]
    }
}

/// The pieces of `s` between the places where `sep` stands.
pub open spec fn pieces_by(s: Seq<char>, sep: Seq<char>) -> Seq<Seq<char>>
    decreases s.len(),
{
    match match_from(s, sep, 0) {
        Some(i) => if 0 <= i && sep.len() > 0 && i + sep.len() <= s.len() {
            seq![s.subrange(0, i)] + pieces_by(s.subrange(i + sep.len(), s.len() as int), sep)
        } else {
            seq![s]
        },
        None => seq![s],
    }
}

/// The longest runs of characters that are no white space.
pub open spec fn words(s: Seq<char>) -> Seq<Seq<char>>
    decreases s.len(),
{
    let t = trimmed_start(s, Pat::Space);
    let i = find(t, Pat::Space);
    if 0 < i <= t.len() <= s.len() {
        seq![t.subrange(0, i)] + words(t.subrange(i, t.len() as int))
    } else {
        Seq::empty()
    }
}

/// One line without the carriage return before its line feed.
pub open spec fn line_body(s: Seq<char>) -> Seq<char> {
    if s.len() > 0 && s.last() == '\r' {
        s.drop_last()
    } else {
        s
    }
}

/// The lines of `s`: each ends with a line feed, the last one may end without.
pub open spec fn lines(s: Seq<char>) -> Seq<Seq<char>>
    decreases s.len(),
{
    let i = find(s, Pat::Is('\n'));
    if s.len() == 0 {
        Seq::empty()
    } else if 0 <= i < s.len() {
        seq![line_body(s.subrange(0, i))] + lines(s.subrange(i + 1, s.len() as int))
    } else {
        seq![s]
    }
}

/// The sequences of characters behind the slices.
pub open spec fn texts(v: Seq<&str>) -> Seq<Seq<char>> {
    v.map_values(|s: &str| s@)
}

pub open spec fn ascii_lower(c: char) -> char {
    if 'A' <= c <= 'Z' {
        ((c as u8 + 32) as u8) as char
    } else {
        c
    }
}

/// Whether two texts are equal but for the case of ASCII letters.
pub open spec fn same_ignoring_case(a: Seq<char>, b: Seq<char>) -> bool {
    a.map_values(|c: char| ascii_lower(c)) == b.map_values(|c: char| ascii_lower(c))
}

pub proof fn lemma_find_from_bounds(s: Seq<char>, p: Pat, i: int)
    requires
        0 <= i <= s.len(),
    ensures
        i <= find_from(s, p, i) <= s.len(),
        find_from(s, p, i) < s.len() ==> p.has(s[find_from(s, p, i)]),
        forall|j: int| i <= j < find_from(s, p, i) ==> !p.has(#[trigger] s[j]),
    decreases s.len() - i,
{
    if i < s.len() && !p.has(s[i]) {
        lemma_find_from_bounds(s, p, i + 1);
    }
}

/// The position where the search stops is the only one with a match and none before it.
pub proof fn lemma_find_is(s: Seq<char>, p: Pat, k: int)
    requires
        0 <= k <= s.len(),
        k < s.len() ==> p.has(s[k]),
        forall|j: int| 0 <= j < k ==> !p.has(#[trigger] s[j]),
    ensures
        find(s, p) == k,
{
    lemma_find_from_bounds(s, p, 0);
    let f = find(s, p);
    if f < k {
        assert(!p.has(s[f]));
    } else if k < f {
        assert(!p.has(s[k]));
    }
}

pub proof fn lemma_span_from_bounds(s: Seq<char>, p: Pat, i: int)
    requires
        0 <= i <= s.len(),
    ensures
        i <= span_from(s, p, i) <= s.len(),
        span_from(s, p, i) < s.len() ==> !p.has(s[span_from(s, p, i)]),
        forall|j: int| i <= j < span_from(s, p, i) ==> p.has(#[trigger] s[j]),
    decreases s.len() - i,
{
    if i < s.len() && p.has(s[i]) {
        lemma_span_from_bounds(s, p, i + 1);
    }
}

/// Text that neither starts nor ends with a character in `p` is its own trimmed form.
pub proof fn lemma_trimmed_id(s: Seq<char>, p: Pat)
    requires
        s.len() > 0 ==> !p.has(s[0]) && !p.has(s.last()),
    ensures
        trimmed_start(s, p) == s,
        trimmed_end(s, p) == s,
        trimmed(s, p) == s,
{
    assert(trimmed_start(s, p) =~= s);
    assert(trimmed_end(s, p) =~= s);
}

pub proof fn lemma_match_from_bounds(s: Seq<char>, pat: Seq<char>, i: int)
    requires
        0 <= i,
    ensures
        match_from(s, pat, i) matches Some(k) ==> i <= k && occurs_at(s, pat, k) && k + pat.len()
            <= s.len() && forall|j: int| i <= j < k ==> !occurs_at(s, pat, j),
        match_from(s, pat, i) is None ==> forall|j: int| i <= j ==> !occurs_at(s, pat, j),
    decreases s.len() + 1 - i,
{
    if i + pat.len() <= s.len() && !occurs_at(s, pat, i) {
        lemma_match_from_bounds(s, pat, i + 1);
    }
}

pub proof fn lemma_match_back_bounds(s: Seq<char>, pat: Seq<char>, i: int)
    ensures
        match_back(s, pat, i) matches Some(k) ==> 0 <= k <= i && occurs_at(s, pat, k),
    decreases i + 1,
{
    if i >= 0 && !occurs_at(s, pat, i) {
        lemma_match_back_bounds(s, pat, i - 1);
    }
}

/// The characters of `s`, in order.
pub fn chars_of(s: &str) -> (out: Vec<char>)
    ensures
        out@ == s@,
{
    let mut out: Vec<char> = Vec::new();
    for c in it: s.chars()
        invariant
            out@ == it.seq().take(it.index()),
            it.seq() == s@,
    {
        out.push(c);
    }
    out
}

/// The number of characters in `s`.
pub fn char_len(s: &str) -> (n: usize)
    ensures
        n == s@.len(),
{
    s.unicode_len()
}

pub fn same(a: &str, b: &str) -> (r: bool)
    ensures
        r == (a@ == b@),
{
    let x: Vec<char> = chars_of(a);
    let y: Vec<char> = chars_of(b);
    if x.len() != y.len() {
        return false;
    }
    let mut i: usize = 0;
    while i < x.len()
        invariant
            i <= x.len() == y.len(),
            x@ == a@,
            y@ == b@,
            forall|j: int| 0 <= j < i ==> x@[j] == y@[j],
        decreases x.len() - i,
    {
        if x[i] != y[i] {
            return false;
        }
        i = i + 1;
    }
    assert(x@ =~= y@);
    true
}

/// `s` from character `i` on.
pub fn skip(s: &str, i: usize) -> (r: &str)
    requires
        i <= s@.len(),
    ensures
        r@ == s@.subrange(i as int, s@.len() as int),
{
    let n: usize = char_len(s);
    s.substring_char(i, n)
}

/// The first `i` characters of `s`.
pub fn take(s: &str, i: usize) -> (r: &str)
    requires
        i <= s@.len(),
    ensures
        r@ == s@.subrange(0, i as int),
{
    s.substring_char(0, i)
}

/// The first position whose character is in `p`, or the length of `s` if there is none.
pub fn find_pat(s: &str, p: Pat) -> (i: usize)
    ensures
        i == find(s@, p),
        i <= s@.len(),
        i < s@.len() ==> p.has(s@[i as int]),
{
    let cs: Vec<char> = chars_of(s);
    let mut i: usize = 0;
    while i < cs.len() && !p.matches(cs[i])
        invariant
            i <= cs.len(),
            cs@ == s@,
            find(s@, p) == find_from(s@, p, i as int),
        decreases cs.len() - i,
    {
        i = i + 1;
    }
    i
}

pub fn trim_start(s: &str, p: Pat) -> (r: &str)
    ensures
        r@ == trimmed_start(s@, p),
{
    let cs: Vec<char> = chars_of(s);
    let mut i: usize = 0;
    while i < cs.len() && p.matches(cs[i])
        invariant
            i <= cs.len(),
            cs@ == s@,
            span_from(s@, p, 0) == span_from(s@, p, i as int),
        decreases cs.len() - i,
    {
        i = i + 1;
    }
    skip(s, i)
}

pub fn trim_end(s: &str, p: Pat) -> (r: &str)
    ensures
        r@ == trimmed_end(s@, p),
{
    let cs: Vec<char> = chars_of(s);
    let mut i: usize = cs.len();
    while i > 0 && p.matches(cs[i - 1])
        invariant
            i <= cs.len(),
            cs@ == s@,
            span_back(s@, p, s@.len() as int) == span_back(s@, p, i as int),
        decreases i,
    {
        i = i - 1;
    }
    take(s, i)
}

pub fn trim(s: &str, p: Pat) -> (r: &str)
    ensures
        r@ == trimmed(s@, p),
{
    trim_end(trim_start(s, p), p)
}

fn matches_at(s: &Vec<char>, pat: &Vec<char>, i: usize) -> (r: bool)
    requires
        i + pat.len() <= s.len(),
    ensures
        r == occurs_at(s@, pat@, i as int),
{
    let mut k: usize = 0;
    while k < pat.len()
        invariant
            k <= pat.len(),
            i + pat.len() <= s.len(),
            forall|j: int| 0 <= j < k ==> s@[i + j] == pat@[j],
        decreases pat.len() - k,
    {
        if s[i + k] != pat[k] {
            assert(s@.subrange(i as int, i + pat@.len())[k as int] != pat@[k as int]);
            return false;
        }
        k = k + 1;
    }
    assert(s@.subrange(i as int, i + pat@.len()) =~= pat@);
    true
}

/// The first position where `pat` stands in `s`.
pub fn find_str(s: &str, pat: &str) -> (r: Option<usize>)
    ensures
        match r {
            Some(i) => match_from(s@, pat@, 0) == Some(i as int) && i + pat@.len() <= s@.len(),
            None => match_from(s@, pat@, 0) is None,
        },
{
    let cs: Vec<char> = chars_of(s);
    let ps: Vec<char> = chars_of(pat);
    if ps.len() > cs.len() {
        return None;
    }
    let last: usize = cs.len() - ps.len();
    let mut i: usize = 0;
    while i <= last
        invariant
            cs@ == s@,
            ps@ == pat@,
            last + ps.len() == cs.len(),
            i <= last + 1,
            match_from(s@, pat@, 0) == match_from(s@, pat@, i as int),
        decreases last + 1 - i,
    {
        if matches_at(&cs, &ps, i) {
            return Some(i);
        }
        if i == last {
            assert(match_from(s@, pat@, i + 1) is None);
            return None;
        }
        i = i + 1;
    }
    None
}

pub fn contains(s: &str, pat: &str) -> (r: bool)
    ensures
        r == has_text(s@, pat@),
{
    find_str(s, pat).is_some()
}

/// The last position where `pat` stands in `s`.
pub fn rfind_str(s: &str, pat: &str) -> (r: Option<usize>)
    ensures
        match r {
            Some(i) => match_back(s@, pat@, s@.len() as int) == Some(i as int) && i + pat@.len()
                <= s@.len(),
            None => match_back(s@, pat@, s@.len() as int) is None,
        },
{
    let cs: Vec<char> = chars_of(s);
    let ps: Vec<char> = chars_of(pat);
    let mut i: usize = cs.len();
    loop
        invariant
            cs@ == s@,
            ps@ == pat@,
            i <= cs.len(),
            match_back(s@, pat@, s@.len() as int) == match_back(s@, pat@, i as int),
        decreases i,
    {
        if ps.len() <= cs.len() - i && matches_at(&cs, &ps, i) {
            return Some(i);
        }
        assert(!occurs_at(s@, pat@, i as int));
        if i == 0 {
            assert(match_back(s@, pat@, -1) is None);
            return None;
        }
        i = i - 1;
    }
}

pub fn starts_with(s: &str, prefix: &str) -> (r: bool)
    ensures
        r == starts(s@, prefix@),
{
    let n: usize = char_len(prefix);
    n <= char_len(s) && same(take(s, n), prefix)
}

pub fn ends_with(s: &str, suffix: &str) -> (r: bool)
    ensures
        r == ends(s@, suffix@),
{
    let n: usize = char_len(suffix);
    let m: usize = char_len(s);
    n <= m && same(skip(s, m - n), suffix)
}

/// `s` without `prefix`, where it starts with it.
pub fn strip_prefix<'a>(s: &'a str, prefix: &str) -> (r: Option<&'a str>)
    ensures
        match r {
            Some(t) => starts(s@, prefix@) && t@ == s@.subrange(
                prefix@.len() as int,
                s@.len() as int,
            ),
            None => !starts(s@, prefix@),
        },
{
    if starts_with(s, prefix) {
        Some(skip(s, char_len(prefix)))
    } else {
        None
    }
}

/// `s` without `suffix`, where it ends with it.
pub fn strip_suffix<'a>(s: &'a str, suffix: &str) -> (r: Option<&'a str>)
    ensures
        match r {
            Some(t) => ends(s@, suffix@) && t@ == s@.subrange(0, s@.len() - suffix@.len()),
            None => !ends(s@, suffix@),
        },
{
    if ends_with(s, suffix) {
        Some(take(s, char_len(s) - char_len(suffix)))
    } else {
        None
    }
}

/// What stands before and after the first character in `p`.
pub fn split_once(s: &str, p: Pat) -> (r: Option<(&str, &str)>)
    ensures
        match r {
            Some((a, b)) => cut(s@, p) == Some((a@, b@)),
            None => cut(s@, p) is None,
        },
{
    let i: usize = find_pat(s, p);
    if i < char_len(s) {
        Some((take(s, i), skip(s, i + 1)))
    } else {
        None
    }
}

pub fn split(s: &str, p: Pat) -> (out: Vec<&str>)
    ensures
        texts(out@) == pieces(s@, p),
{
    let mut out: Vec<&str> = Vec::new();
    let mut rest: &str = s;
    loop
        invariant
            pieces(s@, p) == texts(out@) + pieces(rest@, p),
        decreases rest@.len(),
    {
        let i: usize = find_pat(rest, p);
        let ghost before = out@;
        if i >= char_len(rest) {
            out.push(rest);
            assert(texts(out@) =~= texts(before) + seq![rest@]);
            return out;
        }
        let head: &str = take(rest, i);
        out.push(head);
        let ghost next = rest@.subrange(i + 1, rest@.len() as int);
        assert(texts(before) + pieces(rest@, p) =~= texts(out@) + pieces(next, p)) by {
            assert(texts(out@) =~= texts(before) + seq![head@]);
        }
        rest = skip(rest, i + 1);
    }
}

pub fn split_str<'a>(s: &'a str, sep: &str) -> (out: Vec<&'a str>)
    requires
        sep@.len() > 0,
    ensures
        texts(out@) == pieces_by(s@, sep@),
{
    let mut out: Vec<&str> = Vec::new();
    let mut rest: &str = s;
    let n: usize = char_len(sep);
    loop
        invariant
            n == sep@.len() > 0,
            pieces_by(s@, sep@) == texts(out@) + pieces_by(rest@, sep@),
        decreases rest@.len(),
    {
        let ghost before = out@;
        let m: usize = char_len(rest);
        match find_str(rest, sep) {
            None => {
                out.push(rest);
                assert(texts(out@) =~= texts(before) + seq![rest@]);
                return out;
            },
            Some(i) => {
                let head: &str = take(rest, i);
                out.push(head);
                let ghost next = rest@.subrange(i + n, rest@.len() as int);
                assert(texts(before) + pieces_by(rest@, sep@) =~= texts(out@) + pieces_by(
                    next,
                    sep@,
                )) by {
                    assert(texts(out@) =~= texts(before) + seq![head@]);
                    lemma_match_from_bounds(rest@, sep@, 0);
                }
                assert(i + n <= m);
                rest = skip(rest, i + n);
            },
        }
    }
}

pub fn split_whitespace(s: &str) -> (out: Vec<&str>)
    ensures
        texts(out@) == words(s@),
{
    let mut out: Vec<&str> = Vec::new();
    let mut rest: &str = s;
    loop
        invariant
            words(s@) == texts(out@) + words(rest@),
        decreases rest@.len(),
    {
        let t: &str = trim_start(rest, Pat::Space);
        let i: usize = find_pat(t, Pat::Space);
        let ghost before = out@;
        proof {
            lemma_span_from_bounds(rest@, Pat::Space, 0);
        }
        if i == 0 {
            assert(texts(out@) =~= texts(out@) + Seq::<Seq<char>>::empty());
            return out;
        }
        let head: &str = take(t, i);
        out.push(head);
        let ghost next = t@.subrange(i as int, t@.len() as int);
        assert(texts(before) + words(rest@) =~= texts(out@) + words(next)) by {
            assert(texts(out@) =~= texts(before) + seq![head@]);
        }
        rest = skip(t, i);
    }
}

pub fn split_lines(s: &str) -> (out: Vec<&str>)
    ensures
        texts(out@) == lines(s@),
{
    let mut out: Vec<&str> = Vec::new();
    let mut rest: &str = s;
    loop
        invariant
            lines(s@) == texts(out@) + lines(rest@),
        decreases rest@.len(),
    {
        let n: usize = char_len(rest);
        let ghost before = out@;
        if n == 0 {
            assert(texts(out@) =~= texts(out@) + Seq::<Seq<char>>::empty());
            return out;
        }
        let i: usize = find_pat(rest, Pat::Is('\n'));
        if i >= n {
            out.push(rest);
            assert(texts(out@) =~= texts(before) + seq![rest@]);
            return out;
        }
        let full: &str = take(rest, i);
        let body: &str = if i > 0 && full.get_char(i - 1) == '\r' {
            take(full, i - 1)
        } else {
            full
        };
        assert(body@ =~= line_body(full@));
        out.push(body);
        let ghost next = rest@.subrange(i + 1, rest@.len() as int);
        assert(texts(before) + lines(rest@) =~= texts(out@) + lines(next)) by {
            assert(texts(out@) =~= texts(before) + seq![body@]);
        }
        rest = skip(rest, i + 1);
    }
}

fn lower(c: char) -> (r: char)
    ensures
        r == ascii_lower(c),
{
    if 'A' <= c && c <= 'Z' {
        (c as u8 + 32) as char
    } else {
        c
    }
}

pub fn eq_ignore_ascii_case(a: &str, b: &str) -> (r: bool)
    ensures
        r == same_ignoring_case(a@, b@),
{
    let x: Vec<char> = chars_of(a);
    let y: Vec<char> = chars_of(b);
    let ghost lx = a@.map_values(|c: char| ascii_lower(c));
    let ghost ly = b@.map_values(|c: char| ascii_lower(c));
    if x.len() != y.len() {
        assert(lx.len() != ly.len());
        return false;
    }
    let mut i: usize = 0;
    while i < x.len()
        invariant
            i <= x.len() == y.len(),
            x@ == a@,
            y@ == b@,
            lx == a@.map_values(|c: char| ascii_lower(c)),
            ly == b@.map_values(|c: char| ascii_lower(c)),
            forall|j: int| 0 <= j < i ==> lx[j] == ly[j],
        decreases x.len() - i,
    {
        if lower(x[i]) != lower(y[i]) {
            assert(lx[i as int] != ly[i as int]);
            return false;
        }
        i = i + 1;
    }
    assert(lx =~= ly);
    true
}

/// What is trimmed off a text is characters of the set alone, and none is left at either end.
pub proof fn law_trimmed(s: Seq<char>, p: Pat) -> (a: int)
    ensures
        0 <= a <= a + trimmed(s, p).len() <= s.len(),
        trimmed(s, p) == s.subrange(a, a + trimmed(s, p).len()),
        forall|i: int| 0 <= i < a ==> p.has(#[trigger] s[i]),
        forall|i: int| a + trimmed(s, p).len() <= i < s.len() ==> p.has(#[trigger] s[i]),
        trimmed(s, p).len() > 0 ==> !p.has(trimmed(s, p)[0]) && !p.has(trimmed(s, p).last()),
{
    lemma_span_from_bounds(s, p, 0);
    let a = span_from(s, p, 0);
    let t = trimmed_start(s, p);
    lemma_span_back_bounds(t, p, t.len() as int);
    let e = span_back(t, p, t.len() as int);
    assert(trimmed(s, p) =~= s.subrange(a, a + e));
    assert forall|i: int| a + e <= i < s.len() implies p.has(#[trigger] s[i]) by {
        assert(p.has(t[i - a]));
    }
    if e > 0 {
        assert(t[e - 1] == s[a + e - 1]);
        assert(!p.has(t[e - 1]));
    }
    a
}

proof fn lemma_span_back_bounds(s: Seq<char>, p: Pat, i: int)
    requires
        0 <= i <= s.len(),
    ensures
        0 <= span_back(s, p, i) <= i,
        span_back(s, p, i) > 0 ==> !p.has(s[span_back(s, p, i) - 1]),
        forall|j: int| span_back(s, p, i) <= j < i ==> p.has(#[trigger] s[j]),
    decreases i,
{
    if i > 0 && p.has(s[i - 1]) {
        lemma_span_back_bounds(s, p, i - 1);
    }
}

/// A text is cut at the first character of the set.
pub proof fn law_cut(a: Seq<char>, c: char, b: Seq<char>, p: Pat)
    requires
        p.has(c),
        forall|i: int| 0 <= i < a.len() ==> !p.has(#[trigger] a[i]),
    ensures
        cut(a + seq![c] + b, p) == Some((a, b)),
        cut(a, p) is None,
{
    let s = a + seq![c] + b;
    assert forall|j: int| 0 <= j < a.len() implies !p.has(#[trigger] s[j]) by {
        assert(s[j] == a[j]);
    }
    lemma_find_is(s, p, a.len() as int);
    lemma_find_is(a, p, a.len() as int);
    assert(s.subrange(0, a.len() as int) =~= a);
    assert(s.subrange(a.len() as int + 1, s.len() as int) =~= b);
}

/// The pieces of a text are what stands before the first separator, and the pieces of the rest.
pub proof fn law_pieces(a: Seq<char>, c: char, b: Seq<char>, p: Pat)
    requires
        p.has(c),
        forall|i: int| 0 <= i < a.len() ==> !p.has(#[trigger] a[i]),
    ensures
        pieces(a + seq![c] + b, p) == seq![a] + pieces(b, p),
        pieces(a, p) == seq![a],
{
    let s = a + seq![c] + b;
    assert forall|j: int| 0 <= j < a.len() implies !p.has(#[trigger] s[j]) by {
        assert(s[j] == a[j]);
    }
    lemma_find_is(s, p, a.len() as int);
    lemma_find_is(a, p, a.len() as int);
    assert(s.subrange(0, a.len() as int) =~= a);
    assert(s.subrange(a.len() as int + 1, s.len() as int) =~= b);
}

/// The words of a text are its first one, up to the first white space, and the words of the rest.
pub proof fn law_words(w: Seq<char>, c: char, rest: Seq<char>)
    requires
        w.len() > 0,
        is_space(c),
        forall|i: int| 0 <= i < w.len() ==> !is_space(#[trigger] w[i]),
    ensures
        words(w + seq![c] + rest) == seq![w] + words(rest),
        words(seq![c] + rest) == words(rest),
        words(w) == seq![w],
{
    let s = w + seq![c] + rest;
    let p = Pat::Space;
    assert forall|j: int| 0 <= j < w.len() implies !p.has(#[trigger] s[j]) by {
        assert(s[j] == w[j]);
    }
    assert(!p.has(s[0]));
    assert(trimmed_start(s, p) =~= s);
    lemma_find_is(s, p, w.len() as int);
    assert(s.subrange(0, w.len() as int) =~= w);
    let t = s.subrange(w.len() as int, s.len() as int);
    assert(t =~= seq![c] + rest);
    lemma_words_skip(c, rest);
    assert(!p.has(w[0]));
    assert(trimmed_start(w, p) =~= w);
    lemma_find_is(w, p, w.len() as int);
    assert(w.subrange(0, w.len() as int) =~= w);
    assert(w.subrange(w.len() as int, w.len() as int) =~= Seq::<char>::empty());
    assert(words(Seq::<char>::empty()) =~= Seq::<Seq<char>>::empty());
    assert(words(w) =~= seq![w]);
}

proof fn lemma_words_skip(c: char, rest: Seq<char>)
    requires
        is_space(c),
    ensures
        words(seq![c] + rest) == words(rest),
{
    let s = seq![c] + rest;
    let p = Pat::Space;
    lemma_span_shift(s, rest);
    lemma_span_from_bounds(rest, p, 0);
    let k = span_from(rest, p, 0);
    assert(s.subrange(k + 1, s.len() as int) =~= rest.subrange(k, rest.len() as int));
    assert(trimmed_start(s, p) == trimmed_start(rest, p));
}

proof fn lemma_span_shift(s: Seq<char>, rest: Seq<char>)
    requires
        s.len() == rest.len() + 1,
        is_space(s[0]),
        forall|i: int| 0 <= i < rest.len() ==> s[i + 1] == #[trigger] rest[i],
    ensures
        span_from(s, Pat::Space, 0) == span_from(rest, Pat::Space, 0) + 1,
{
    lemma_span_from_bounds(s, Pat::Space, 1);
    lemma_span_from_bounds(rest, Pat::Space, 0);
    let a = span_from(s, Pat::Space, 1);
    let b = span_from(rest, Pat::Space, 0);
    if a - 1 < b {
        assert(Pat::Space.has(rest[a - 1]));
        assert(s[a] == rest[a - 1]);
    } else if b < a - 1 {
        assert(Pat::Space.has(s[b + 1]));
        assert(s[b + 1] == rest[b]);
    }
}

/// The lines of a text are its first one, without a carriage return at its end, and those of the
/// rest.
pub proof fn law_lines(l: Seq<char>, rest: Seq<char>)
    requires
        forall|i: int| 0 <= i < l.len() ==> #[trigger] l[i] != '\n',
    ensures
        lines(l + seq!['\n'] + rest) == seq![line_body(l)] + lines(rest),
        l.len() > 0 ==> lines(l) == seq![l],
        lines(Seq::<char>::empty()) == Seq::<Seq<char>>::empty(),
        line_body(l.push('\r')) == l,
{
    let s = l + seq!['\n'] + rest;
    let p = Pat::Is('\n');
    assert forall|j: int| 0 <= j < l.len() implies !p.has(#[trigger] s[j]) by {
        assert(s[j] == l[j]);
    }
    lemma_find_is(s, p, l.len() as int);
    lemma_find_is(l, p, l.len() as int);
    assert(s.subrange(0, l.len() as int) =~= l);
    assert(s.subrange(l.len() as int + 1, s.len() as int) =~= rest);
    assert(l.push('\r').drop_last() =~= l);
}

/// Texts are the same but for case exactly where each letter of one is that of the other, in either
/// case, and every other character is the same.
pub proof fn law_case(a: Seq<char>, b: Seq<char>, i: int)
    requires
        same_ignoring_case(a, b),
        0 <= i < a.len(),
    ensures
        a.len() == b.len(),
        a[i] == b[i] || (('a' <= a[i] <= 'z' || 'A' <= a[i] <= 'Z') && (a[i] as u32 == b[i] as u32 + 32
            || b[i] as u32 == a[i] as u32 + 32)),
{
    let f = |c: char| ascii_lower(c);
    assert(a.map_values(f).len() == b.map_values(f).len());
    assert(a.map_values(f)[i] == b.map_values(f)[i]);
    assert(ascii_lower(a[i]) == ascii_lower(b[i]));
}

/// The lines of a message are its first one, up to the line break, and those of the rest.
pub proof fn law_message_lines(a: Seq<char>, b: Seq<char>)
    requires
        forall|i: int| 0 <= i < a.len() ==> #[trigger] a[i] != '\r',
    ensures
        pieces_by(a + "\r\n"@ + b, "\r\n"@) == seq![a] + pieces_by(b, "\r\n"@),
        pieces_by(a, "\r\n"@) == seq![a],
{
    reveal_strlit("\r\n");
    let sep = "\r\n"@;
    let s = a + sep + b;
    let k = a.len() as int;
    assert(s.subrange(k, k + 2) =~= sep);
    assert(occurs_at(s, sep, k));
    assert forall|j: int| 0 <= j < k implies !#[trigger] occurs_at(s, sep, j) by {
        if occurs_at(s, sep, j) {
            assert(s.subrange(j, j + 2)[0] == s[j]);
            assert(s[j] == a[j]);
        }
    }
    lemma_match_from_bounds(s, sep, 0);
    assert(match_from(s, sep, 0) == Some(k));
    assert(s.subrange(0, k) =~= a);
    assert(s.subrange(k + 2, s.len() as int) =~= b);
    assert forall|j: int| 0 <= j implies !#[trigger] occurs_at(a, sep, j) by {
        if occurs_at(a, sep, j) {
            assert(a.subrange(j, j + 2)[0] == a[j]);
        }
    }
    lemma_match_from_bounds(a, sep, 0);
}

} // verus!
