//! Objects as lists of named values: what is read from one that was written so.

use vstd::prelude::*;
use vstd::string::*;

use crate::http::field_of;
use crate::json::{bool_text, joined};
use crate::json::lemmas::{
    clear_of, in_quotes, is_key, lacks, lemma_clear_quoted, lemma_clear_unquoted,
    lemma_member_clear, lemma_next_member, lemma_object_bare, lemma_object_quoted, member, members,
    object,
};
use crate::number::{dec, lemma_dec_worth};
use crate::text::{is_digit, is_space};

verus! {

/// The value of a field.
pub enum Value {
    /// A number or a word, as it stands.
    Bare(Seq<char>),
    /// A text, in quotation marks.
    Text(Seq<char>),
    /// Anything else, as it stands.
    Raw(Seq<char>),
}

/// Whether `v` is read as it stands where it is written without quotation marks.
pub open spec fn is_bare(v: Seq<char>) -> bool {
    &&& v.len() > 0
    &&& lacks(v, ',') && lacks(v, '}') && lacks(v, '"')
    &&& !is_space(v[0]) && !is_space(v.last())
}

/// Whether `w` is read as it stands where it is written in quotation marks.
pub open spec fn is_quotable(w: Seq<char>) -> bool {
    lacks(w, ',') && lacks(w, '}') && lacks(w, '"')
}

impl Value {
    pub open spec fn written(self) -> Seq<char> {
        match self {
            Value::Bare(v) => v,
            Value::Text(w) => in_quotes(w),
            Value::Raw(v) => v,
        }
    }

    /// What stands in the value, without quotation marks.
    pub open spec fn read(self) -> Seq<char> {
        match self {
            Value::Bare(v) => v,
            Value::Text(w) => w,
            Value::Raw(v) => v,
        }
    }

    pub open spec fn is_read_back(self) -> bool {
        match self {
            Value::Bare(v) => is_bare(v),
            Value::Text(w) => is_quotable(w),
            Value::Raw(_) => false,
        }
    }

    /// Whether nothing in the value is taken for `key`.
    pub open spec fn apart_from(self, key: Seq<char>) -> bool {
        match self {
            Value::Bare(v) => lacks(v, '"'),
            Value::Text(w) => lacks(w, '"') && w != key,
            Value::Raw(v) => clear_of(v, key),
        }
    }
}

/// A text in quotation marks, or `null`.
pub open spec fn text_or_null(o: Option<Seq<char>>) -> Value {
    match o {
        Some(w) => Value::Text(w),
        None => Value::Bare("null"@),
    }
}

/// A number or a word as it stands, or `null`.
pub open spec fn bare_or_null(o: Option<Seq<char>>) -> Value {
    match o {
        Some(v) => Value::Bare(v),
        None => Value::Bare("null"@),
    }
}

/// `null` is read as it stands.
pub proof fn lemma_null_bare()
    ensures
        is_bare("null"@),
{
    reveal_strlit("null");
}

/// A numeral is read as it stands.
pub proof fn lemma_numeral_bare(n: nat)
    ensures
        is_bare(dec(n)),
{
    lemma_dec_worth(n);
    assert(is_digit(dec(n)[0]));
    assert(is_digit(dec(n)[dec(n).len() - 1]));
    assert forall|i: int|
        0 <= i < dec(n).len() implies #[trigger] dec(n)[i] != ',' && dec(n)[i] != '}' && dec(n)[i]
        != '"' by {
        assert(is_digit(dec(n)[i]));
    }
}

/// So is a truth value.
pub proof fn lemma_truth_bare(b: bool)
    ensures
        is_bare(bool_text(b)),
{
    reveal_strlit("true");
    reveal_strlit("false");
}

/// The members of an object with these fields.
pub open spec fn written(fs: Seq<(Seq<char>, Value)>) -> Seq<(Seq<char>, Seq<char>)> {
    fs.map_values(|f: (Seq<char>, Value)| (f.0, f.1.written()))
}

/// Whether nothing in the first `n` fields is taken for `key`.
pub open spec fn apart(fs: Seq<(Seq<char>, Value)>, key: Seq<char>, n: int) -> bool
    decreases n,
{
    n <= 0 || (apart(fs, key, n - 1) && fs[n - 1].0 != key && fs[n - 1].1.apart_from(key))
}

/// Whether the names of the first `n` fields can be told from all that stands before them.
pub open spec fn tellable(fs: Seq<(Seq<char>, Value)>, n: int) -> bool
    decreases n,
{
    n <= 0 || (tellable(fs, n - 1) && is_key(fs[n - 1].0) && apart(fs, fs[n - 1].0, n - 1))
}

proof fn lemma_tellable(fs: Seq<(Seq<char>, Value)>, n: int, k: int)
    requires
        tellable(fs, n),
        0 <= k < n <= fs.len(),
    ensures
        is_key(fs[k].0),
        apart(fs, fs[k].0, k),
    decreases n,
{
    if k < n - 1 {
        lemma_tellable(fs, n - 1, k);
    }
}

proof fn lemma_apart(fs: Seq<(Seq<char>, Value)>, key: Seq<char>, n: int, j: int)
    requires
        apart(fs, key, n),
        0 <= j < n <= fs.len(),
    ensures
        fs[j].0 != key,
        fs[j].1.apart_from(key),
    decreases n,
{
    if j < n - 1 {
        lemma_apart(fs, key, n - 1, j);
    }
}

/// A field is read back from the object that it was written in.
pub proof fn lemma_field(fs: Seq<(Seq<char>, Value)>, k: int)
    requires
        tellable(fs, fs.len() as int),
        0 <= k < fs.len(),
        fs[k].1.is_read_back(),
    ensures
        field_of(object(written(fs)), fs[k].0) == Some(fs[k].1.read()),
{
    let ms = written(fs);
    let key = fs[k].0;
    lemma_tellable(fs, fs.len() as int, k);
    assert(ms[k] == (key, fs[k].1.written()));
    assert forall|j: int| 0 <= j < k implies clear_of(#[trigger] members(ms)[j], key) by {
        lemma_tellable(fs, fs.len() as int, j);
        lemma_apart(fs, key, k, j);
        let v = fs[j].1.written();
        assert(members(ms)[j] == member(fs[j].0, v));
        match fs[j].1 {
            Value::Bare(_) => {
                lemma_clear_unquoted(v, key);
            },
            Value::Text(w) => {
                lemma_clear_quoted(w, key);
            },
            Value::Raw(_) => {},
        }
        lemma_member_clear(fs[j].0, v, key);
    }
    match fs[k].1 {
        Value::Bare(_) => {
            lemma_object_bare(ms, k);
        },
        Value::Text(w) => {
            lemma_object_quoted(ms, k, w);
        },
        Value::Raw(_) => {},
    }
}

/// The object up to its first `n` fields.
#[verifier::opaque]
pub open spec fn so_far(fs: Seq<(Seq<char>, Value)>, n: int) -> Seq<char> {
    "{"@ + joined(members(written(fs)).subrange(0, n), ","@)
}

/// The first field, behind the brace.
pub proof fn lemma_first(fs: Seq<(Seq<char>, Value)>, lit: Seq<char>)
    requires
        fs.len() > 0,
        lit == "{"@ + in_quotes(fs[0].0) + ":"@,
    ensures
        lit + fs[0].1.written() == so_far(fs, 1),
{
    reveal(so_far);
    let ms = members(written(fs));
    assert(ms.subrange(0, 1) =~= seq![ms[0]]);
    assert(ms[0] == member(fs[0].0, fs[0].1.written()));
    assert(lit + fs[0].1.written() =~= "{"@ + ms[0]);
}

/// One field more, behind a comma.
pub proof fn lemma_more(fs: Seq<(Seq<char>, Value)>, n: int, lit: Seq<char>)
    requires
        1 <= n < fs.len(),
        lit == ","@ + in_quotes(fs[n].0) + ":"@,
    ensures
        so_far(fs, n) + lit + fs[n].1.written() == so_far(fs, n + 1),
{
    reveal(so_far);
    let ms = members(written(fs));
    let s = so_far(fs, n);
    assert(ms.subrange(0, n + 1) =~= ms.subrange(0, n).push(ms[n]));
    assert(ms[n] == member(fs[n].0, fs[n].1.written()));
    lemma_next_member("{"@, ms.subrange(0, n), ms[n]);
    assert(s + lit + fs[n].1.written() =~= s + ","@ + ms[n]);
}

/// All fields and the closing brace make the object.
pub proof fn lemma_whole(fs: Seq<(Seq<char>, Value)>)
    ensures
        so_far(fs, fs.len() as int) + "}"@ == object(written(fs)),
{
    reveal(so_far);
    let ms = members(written(fs));
    assert(ms.subrange(0, fs.len() as int) =~= ms);
}

/// The quotation marks round a text, one at the end of what stands before it and one at the start
/// of what follows.
pub proof fn lemma_quoted_between(
    s: Seq<char>,
    ahead: Seq<char>,
    bare_ahead: Seq<char>,
    w: Seq<char>,
    behind: Seq<char>,
    bare_behind: Seq<char>,
)
    requires
        ahead == bare_ahead + "\""@,
        behind == "\""@ + bare_behind,
    ensures
        s + ahead + w + behind == s + bare_ahead + in_quotes(w) + bare_behind,
{
    assert(s + ahead + w + behind =~= s + bare_ahead + in_quotes(w) + bare_behind);
}

/// The same, where nothing stands before.
pub proof fn lemma_quoted_first(
    ahead: Seq<char>,
    bare_ahead: Seq<char>,
    w: Seq<char>,
    behind: Seq<char>,
    bare_behind: Seq<char>,
)
    requires
        ahead == bare_ahead + "\""@,
        behind == "\""@ + bare_behind,
    ensures
        ahead + w + behind == bare_ahead + in_quotes(w) + bare_behind,
{
    assert(ahead + w + behind =~= bare_ahead + in_quotes(w) + bare_behind);
}

/// A field with a fixed value, written in one piece with what follows.
pub proof fn lemma_in_one_piece(s: Seq<char>, ahead: Seq<char>, v: Seq<char>, behind: Seq<char>)
    ensures
        s + (ahead + v + behind) == s + ahead + v + behind,
{
    assert(s + (ahead + v + behind) =~= s + ahead + v + behind);
}

} // verus!
