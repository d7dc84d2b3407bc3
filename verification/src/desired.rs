//! The settings that the agent was asked to set, as a flat record that it keeps itself.

use vstd::prelude::*;
use vstd::string::*;

use crate::json::lemmas::{in_quotes, lacks, lemma_unquote};
use crate::json::joined;
use crate::number::{dec, lemma_dec_worth, lemma_uint_of_dec, parse_u32, push_dec, uint_of};
use crate::text::{
    char_len, cut, ends, is_digit, is_space, lemma_find_is, lemma_trimmed_id, pieces, same,
    span_back, span_from, split, split_once, starts, strip_prefix, strip_suffix, texts, trim,
    trimmed, trimmed_start, Pat,
};

verus! {

pub const PATH: &'static str = "/opt/kibble/settings.json";

/// Keys and values of the record.
pub open spec fn setting_views(v: Seq<(String, u32)>) -> Seq<(Seq<char>, u32)> {
    v.map_values(|p: (String, u32)| (p.0@, p.1))
}

/// What stands between the braces round a text, where they are there.
pub open spec fn unbraced(text: Seq<char>) -> Seq<char> {
    let t = trimmed(text, Pat::Space);
    let u = if starts(t, "{"@) {
        t.subrange(1, t.len() as int)
    } else {
        t
    };
    if ends(u, "}"@) {
        u.subrange(0, u.len() - 1)
    } else {
        u
    }
}

/// The setting that a piece of the record gives.
pub open spec fn setting_in(piece: Seq<char>) -> Option<(Seq<char>, u32)> {
    match cut(trimmed(piece, Pat::Space), Pat::Is(':')) {
        None => None,
        Some((k, v)) => {
            let key = trimmed(trimmed(k, Pat::Space), Pat::Is('"'));
            match uint_of(trimmed(v, Pat::Space), 10, u32::MAX as nat) {
                Some(n) => if key.len() > 0 {
                    Some((key, n as u32))
                } else {
                    None
                },
                None => None,
            }
        },
    }
}

/// The settings that the first `n` pieces give.
pub open spec fn settings_upto(ps: Seq<Seq<char>>, n: int) -> Seq<(Seq<char>, u32)>
    decreases n,
{
    if n <= 0 {
        Seq::empty()
    } else {
        match setting_in(ps[n - 1]) {
            Some(e) => settings_upto(ps, n - 1).push(e),
            None => settings_upto(ps, n - 1),
        }
    }
}

/// The settings of a record.
pub open spec fn settings_of(text: Seq<char>) -> Seq<(Seq<char>, u32)> {
    let ps = pieces(unbraced(text), Pat::Is(','));
    settings_upto(ps, ps.len() as int)
}

fn parse_setting(piece: &str) -> (r: Option<(String, u32)>)
    ensures
        match r {
            Some((k, v)) => setting_in(piece@) == Some((k@, v)),
            None => setting_in(piece@) is None,
        },
{
    match split_once(trim(piece, Pat::Space), Pat::Is(':')) {
        None => None,
        Some((k, v)) => {
            let key: &str = trim(trim(k, Pat::Space), Pat::Is('"'));
            match parse_u32(trim(v, Pat::Space)) {
                Some(n) => if char_len(key) > 0 {
                    Some((key.to_owned(), n))
                } else {
                    None
                },
                None => None,
            }
        },
    }
}

/// Reads a record. Deliberately tolerant: a malformed entry is skipped, the others are kept.
pub fn parse(text: &str) -> (out: Vec<(String, u32)>)
    ensures
        setting_views(out@) == settings_of(text@),
{
    proof {
        reveal_strlit("{");
        reveal_strlit("}");
    }
    let t: &str = trim(text, Pat::Space);
    let t: &str = match strip_prefix(t, "{") {
        Some(u) => u,
        None => t,
    };
    let t: &str = match strip_suffix(t, "}") {
        Some(u) => u,
        None => t,
    };
    let ps: Vec<&str> = split(t, Pat::Is(','));
    let ghost all = pieces(unbraced(text@), Pat::Is(','));
    let mut out: Vec<(String, u32)> = Vec::new();
    let mut i: usize = 0;
    assert(texts(ps@).len() == ps@.len());
    assert(setting_views(out@) =~= Seq::<(Seq<char>, u32)>::empty());
    while i < ps.len()
        invariant
            i <= ps.len(),
            all == texts(ps@),
            setting_views(out@) == settings_upto(all, i as int),
        decreases ps.len() - i,
    {
        assert(all[i as int] == ps@[i as int]@);
        let ghost done = out@;
        if let Some((k, v)) = parse_setting(ps[i]) {
            let ghost e = (k@, v);
            out.push((k, v));
            assert(setting_views(out@) =~= setting_views(done).push(e));
        }
        i = i + 1;
    }
    out
}

/// The record that was persisted, empty where there is none.
pub fn load(text: Option<&str>) -> (out: Vec<(String, u32)>)
    ensures
        setting_views(out@) == (match text {
            Some(t) => settings_of(t@),
            None => Seq::empty(),
        }),
{
    match text {
        Some(t) => parse(t),
        None => {
            let out: Vec<(String, u32)> = Vec::new();
            assert(setting_views(out@) =~= Seq::<(Seq<char>, u32)>::empty());
            out
        },
    }
}

/// Where a key stands first at or after `i`, or the length where it stands nowhere.
pub open spec fn place_from(v: Seq<(Seq<char>, u32)>, key: Seq<char>, i: int) -> int
    decreases v.len() - i,
{
    if i < 0 || i >= v.len() || v[i].0 == key {
        i
    } else {
        place_from(v, key, i + 1)
    }
}

/// The record with `key` set to `value`.
pub open spec fn with_setting(v: Seq<(Seq<char>, u32)>, key: Seq<char>, value: u32) -> Seq<
    (Seq<char>, u32),
> {
    let i = place_from(v, key, 0);
    if 0 <= i < v.len() {
        v.update(i, (key, value))
    } else {
        v.push((key, value))
    }
}

/// The value of the first setting with this key.
pub open spec fn value_of(v: Seq<(Seq<char>, u32)>, key: Seq<char>) -> Option<u32> {
    let i = place_from(v, key, 0);
    if 0 <= i < v.len() {
        Some(v[i].1)
    } else {
        None
    }
}

/// Sets `key` to `value`, in place of its first entry where it has one.
pub fn upsert(entries: &mut Vec<(String, u32)>, key: &str, value: u32)
    ensures
        setting_views(final(entries)@) == with_setting(setting_views(old(entries)@), key@, value),
{
    let ghost views = setting_views(entries@);
    let mut i: usize = 0;
    while i < entries.len()
        invariant
            i <= entries@.len(),
            *entries == *old(entries),
            views == setting_views(entries@),
            place_from(views, key@, 0) == place_from(views, key@, i as int),
        decreases entries@.len() - i,
    {
        assert(views[i as int].0 == entries@[i as int].0@);
        if same(entries[i].0.as_str(), key) {
            entries[i] = (key.to_owned(), value);
            assert(setting_views(entries@) =~= views.update(i as int, (key@, value)));
            return;
        }
        i = i + 1;
    }
    entries.push((key.to_owned(), value));
    assert(setting_views(entries@) =~= views.push((key@, value)));
}

/// One setting as it is written.
pub open spec fn setting_text(e: (Seq<char>, u32)) -> Seq<char> {
    "  \""@ + e.0 + "\": "@ + dec(e.1 as nat)
}

/// The persisted form of the record.
pub open spec fn record_text(v: Seq<(Seq<char>, u32)>) -> Seq<char> {
    "{\n"@ + joined(v.map_values(|e: (Seq<char>, u32)| setting_text(e)), ",\n"@) + "\n}\n"@
}

pub fn to_json(entries: &Vec<(String, u32)>) -> (s: String)
    ensures
        s@ == record_text(setting_views(entries@)),
{
    let ghost views = setting_views(entries@);
    let ghost parts = views.map_values(|e: (Seq<char>, u32)| setting_text(e));
    let mut list: String = String::new();
    let mut i: usize = 0;
    assert(parts.subrange(0, 0) =~= Seq::<Seq<char>>::empty());
    while i < entries.len()
        invariant
            i <= entries@.len(),
            views == setting_views(entries@),
            parts == views.map_values(|e: (Seq<char>, u32)| setting_text(e)),
            list@ == joined(parts.subrange(0, i as int), ",\n"@),
        decreases entries@.len() - i,
    {
        let ghost next = parts.subrange(0, i + 1);
        let ghost was = list@;
        assert(next.drop_last() =~= parts.subrange(0, i as int));
        let mut e: String = "  \"".to_owned();
        e.append(entries[i].0.as_str());
        e.append("\": ");
        push_dec(&mut e, entries[i].1 as u64);
        assert(e@ == next.last());
        if i > 0 {
            list.append(",\n");
        }
        list.append(e.as_str());
        assert(list@ =~= joined(next, ",\n"@));
        i = i + 1;
    }
    assert(parts.subrange(0, i as int) =~= parts);
    let mut s: String = "{\n".to_owned();
    s.append(list.as_str());
    s.append("\n}\n");
    s
}

/// A setting that was set has its value, and no other setting changes.
pub proof fn law_set_then_read(
    v: Seq<(Seq<char>, u32)>,
    key: Seq<char>,
    value: u32,
    other: Seq<char>,
)
    ensures
        value_of(with_setting(v, key, value), key) == Some(value),
        other != key ==> value_of(with_setting(v, key, value), other) == value_of(v, other),
{
    let w = with_setting(v, key, value);
    lemma_place(v, key, 0);
    lemma_place(w, key, 0);
    lemma_place(v, other, 0);
    lemma_place(w, other, 0);
    let i = place_from(v, key, 0);
    let p = place_from(w, key, 0);
    if i < v.len() {
        assert(w[i].0 == key);
        if p < i {
            assert(v[p].0 == key);
        }
    } else {
        assert(w[v.len() as int].0 == key);
        if p < v.len() {
            assert(v[p].0 == w[p].0);
        }
    }
    if other != key {
        let a = place_from(v, other, 0);
        let b = place_from(w, other, 0);
        if a < v.len() {
            assert(w[a].0 == other);
        }
        if b < w.len() {
            assert(w[b].0 == other);
            if b < v.len() {
                assert(v[b].0 == other);
            }
        }
    }
}

proof fn lemma_place(v: Seq<(Seq<char>, u32)>, key: Seq<char>, i: int)
    requires
        0 <= i <= v.len(),
    ensures
        i <= place_from(v, key, i) <= v.len(),
        place_from(v, key, i) < v.len() ==> v[place_from(v, key, i)].0 == key,
        forall|j: int| i <= j < place_from(v, key, i) ==> (#[trigger] v[j]).0 != key,
    decreases v.len() - i,
{
    if i < v.len() && v[i].0 != key {
        lemma_place(v, key, i + 1);
    }
}

/// A key that is read as it is written.
pub open spec fn plain_key(key: Seq<char>) -> bool {
    key.len() > 0 && lacks(key, '"') && lacks(key, ',') && lacks(key, ':')
}

/// A setting without the blanks before it.
spec fn bare_setting(e: (Seq<char>, u32)) -> Seq<char> {
    in_quotes(e.0) + (seq![':', ' '] + dec(e.1 as nat))
}

/// A setting as it stands between commas.
spec fn chunk(e: (Seq<char>, u32), sp: Seq<char>) -> Seq<char> {
    seq!['\n'] + setting_text(e) + sp
}

proof fn lemma_chunk(e: (Seq<char>, u32), sp: Seq<char>)
    ensures
        chunk(e, sp) == seq!['\n', ' ', ' '] + bare_setting(e) + sp,
        bare_setting(e).len() == e.0.len() + 4 + dec(e.1 as nat).len(),
        bare_setting(e)[0] == '"',
        bare_setting(e).last() == dec(e.1 as nat).last(),
        !is_space(bare_setting(e).last()),
{
    reveal_strlit("  \"");
    reveal_strlit("\": ");
    reveal_strlit("\"");
    lemma_dec_worth(e.1 as nat);
    assert(is_digit(dec(e.1 as nat).last()));
    assert(chunk(e, sp) =~= seq!['\n', ' ', ' '] + bare_setting(e) + sp);
}

/// Trimming a chunk leaves the setting.
proof fn lemma_chunk_trimmed(e: (Seq<char>, u32), sp: Seq<char>)
    requires
        sp == Seq::<char>::empty() || sp == seq!['\n'],
    ensures
        trimmed(chunk(e, sp), Pat::Space) == bare_setting(e),
{
    lemma_chunk(e, sp);
    let s = chunk(e, sp);
    let c = bare_setting(e);
    reveal_with_fuel(span_from, 5);
    assert(s[0] == '\n' && s[1] == ' ' && s[2] == ' ' && s[3] == '"');
    assert(span_from(s, Pat::Space, 0) == 3);
    let t = trimmed_start(s, Pat::Space);
    assert(t =~= c + sp);
    reveal_with_fuel(span_back, 3);
    if sp.len() == 1 {
        assert(t.last() == '\n');
        assert(t[t.len() - 2] == c.last());
        assert(span_back(t, Pat::Space, t.len() as int) == c.len());
    } else {
        assert(t.last() == c.last());
        assert(span_back(t, Pat::Space, t.len() as int) == c.len());
    }
    assert(trimmed(s, Pat::Space) =~= c);
}

/// The first colon ends the key.
proof fn lemma_core_cut(e: (Seq<char>, u32))
    requires
        plain_key(e.0),
    ensures
        cut(bare_setting(e), Pat::Is(':')) == Some((in_quotes(e.0), seq![' '] + dec(e.1 as nat))),
{
    reveal_strlit("\"");
    let q = in_quotes(e.0);
    let c = bare_setting(e);
    assert forall|j: int| 0 <= j < q.len() implies !Pat::Is(':').has(#[trigger] c[j]) by {
        if 1 <= j <= e.0.len() {
            assert(c[j] == e.0[j - 1]);
        }
    }
    assert(c[q.len() as int] == ':');
    lemma_find_is(c, Pat::Is(':'), q.len() as int);
    assert(c.subrange(0, q.len() as int) =~= q);
    assert(c.subrange(q.len() as int + 1, c.len() as int) =~= seq![' '] + dec(e.1 as nat));
}

/// A written setting is read back.
proof fn lemma_setting_reads_back(e: (Seq<char>, u32), sp: Seq<char>)
    requires
        plain_key(e.0),
        sp == Seq::<char>::empty() || sp == seq!['\n'],
    ensures
        setting_in(chunk(e, sp)) == Some(e),
{
    let n = dec(e.1 as nat);
    let q = in_quotes(e.0);
    reveal_strlit("\"");
    lemma_chunk_trimmed(e, sp);
    lemma_core_cut(e);
    lemma_dec_worth(e.1 as nat);
    assert(is_digit(n[0]) && is_digit(n.last()));
    lemma_trimmed_id(q, Pat::Space);
    lemma_unquote(e.0);
    let v = seq![' '] + n;
    assert(v[0] == ' ' && v[1] == n[0]);
    reveal_with_fuel(span_from, 3);
    assert(span_from(v, Pat::Space, 0) == 1);
    assert(trimmed_start(v, Pat::Space) =~= n);
    lemma_trimmed_id(n, Pat::Space);
    lemma_uint_of_dec(e.1 as nat, u32::MAX as nat);
}

/// A written setting holds no comma.
proof fn lemma_chunk_lacks_comma(e: (Seq<char>, u32), sp: Seq<char>)
    requires
        plain_key(e.0),
        sp == Seq::<char>::empty() || sp == seq!['\n'],
    ensures
        lacks(chunk(e, sp), ','),
{
    reveal_strlit("\"");
    lemma_chunk(e, sp);
    let s = chunk(e, sp);
    let n = dec(e.1 as nat);
    lemma_dec_worth(e.1 as nat);
    let k = e.0.len();
    assert forall|i: int| 0 <= i < s.len() implies #[trigger] s[i] != ',' by {
        if 4 <= i < 4 + k {
            assert(s[i] == e.0[i - 4]);
        } else if 7 + k <= i < 7 + k + n.len() {
            assert(s[i] == n[i - 7 - k]);
            assert(is_digit(n[i - 7 - k]));
        }
    }
}

/// The settings as they stand between commas: a line feed before each, one behind the last.
spec fn chunks(v: Seq<(Seq<char>, u32)>) -> Seq<Seq<char>> {
    Seq::new(
        v.len(),
        |i: int|
            chunk(
                v[i],
                if i == v.len() - 1 {
                    seq!['\n']
                } else {
                    Seq::<char>::empty()
                },
            ),
    )
}

/// Chunks without commas, joined by commas, are split again.
proof fn lemma_pieces_joined(cs: Seq<Seq<char>>)
    requires
        cs.len() > 0,
        forall|i: int| 0 <= i < cs.len() ==> lacks(#[trigger] cs[i], ','),
    ensures
        pieces(joined(cs, seq![',']), Pat::Is(',')) == cs,
    decreases cs.len(),
{
    let p = Pat::Is(',');
    let s = joined(cs, seq![',']);
    if cs.len() == 1 {
        lemma_find_is(s, p, s.len() as int);
        assert(pieces(s, p) =~= cs);
    } else {
        let rest = cs.subrange(1, cs.len() as int);
        lemma_joined_first(cs);
        assert forall|i: int| 0 <= i < rest.len() implies lacks(#[trigger] rest[i], ',') by {
            assert(rest[i] == cs[i + 1]);
        }
        lemma_pieces_joined(rest);
        let n = cs[0].len() as int;
        assert forall|j: int| 0 <= j < n implies !p.has(#[trigger] s[j]) by {
            assert(s[j] == cs[0][j]);
        }
        assert(s[n] == ',');
        lemma_find_is(s, p, n);
        assert(s.subrange(0, n) =~= cs[0]);
        assert(s.subrange(n + 1, s.len() as int) =~= joined(rest, seq![',']));
        assert(seq![cs[0]] + rest =~= cs);
    }
}

/// What is joined starts with its first part.
proof fn lemma_joined_first(cs: Seq<Seq<char>>)
    requires
        cs.len() > 1,
    ensures
        joined(cs, seq![',']) == cs[0] + (seq![','] + joined(
            cs.subrange(1, cs.len() as int),
            seq![','],
        )),
    decreases cs.len(),
{
    let rest = cs.subrange(1, cs.len() as int);
    let short = cs.drop_last();
    if cs.len() == 2 {
        assert(short =~= seq![cs[0]]);
        assert(rest =~= seq![cs[1]]);
        assert(joined(short, seq![',']) == cs[0]);
        assert(joined(rest, seq![',']) == cs[1]);
        assert(cs.last() == cs[1]);
        assert(joined(cs, seq![',']) =~= cs[0] + (seq![','] + joined(rest, seq![','])));
    } else {
        lemma_joined_first(short);
        assert(short.subrange(1, short.len() as int) =~= rest.drop_last());
        assert(short[0] == cs[0]);
        assert(rest.last() == cs.last());
        let j = joined(rest.drop_last(), seq![',']);
        assert(joined(rest, seq![',']) == j + seq![','] + cs.last());
        assert(joined(cs, seq![',']) == (cs[0] + (seq![','] + j)) + seq![','] + cs.last());
        assert(joined(cs, seq![',']) =~= cs[0] + (seq![','] + joined(rest, seq![','])));
    }
}

/// The settings joined with their line feeds are the chunks joined.
proof fn lemma_chunks_joined(v: Seq<(Seq<char>, u32)>, n: int)
    requires
        0 < n <= v.len(),
    ensures
        ({
            let parts = v.map_values(|e: (Seq<char>, u32)| setting_text(e));
            joined(chunks(v).subrange(0, n), seq![',']) == seq!['\n'] + joined(
                parts.subrange(0, n),
                ",\n"@,
            ) + (if n == v.len() {
                seq!['\n']
            } else {
                Seq::<char>::empty()
            })
        }),
    decreases n,
{
    reveal_strlit(",\n");
    let parts = v.map_values(|e: (Seq<char>, u32)| setting_text(e));
    let a = chunks(v).subrange(0, n);
    let b = parts.subrange(0, n);
    assert(a.last() == chunks(v)[n - 1]);
    assert(b.last() == parts[n - 1]);
    if n == 1 {
        assert(joined(a, seq![',']) =~= seq!['\n'] + joined(b, ",\n"@) + (if n == v.len() {
            seq!['\n']
        } else {
            Seq::<char>::empty()
        }));
    } else {
        lemma_chunks_joined(v, n - 1);
        assert(a.drop_last() =~= chunks(v).subrange(0, n - 1));
        assert(b.drop_last() =~= parts.subrange(0, n - 1));
        assert(joined(a, seq![',']) =~= seq!['\n'] + joined(b, ",\n"@) + (if n == v.len() {
            seq!['\n']
        } else {
            Seq::<char>::empty()
        }));
    }
}

/// Between its braces a record is the chunks joined.
#[verifier::rlimit(40)]
proof fn lemma_unbraced(v: Seq<(Seq<char>, u32)>)
    requires
        v.len() > 0,
    ensures
        unbraced(record_text(v)) == joined(chunks(v), seq![',']),
{
    reveal_strlit("{\n");
    reveal_strlit("\n}\n");
    reveal_strlit("{");
    reveal_strlit("}");
    let parts = v.map_values(|e: (Seq<char>, u32)| setting_text(e));
    let j = joined(parts, ",\n"@);
    let text = record_text(v);
    let inner = seq!['\n'] + j + seq!['\n'];
    lemma_chunks_joined(v, v.len() as int);
    assert(chunks(v).subrange(0, v.len() as int) =~= chunks(v));
    assert(parts.subrange(0, v.len() as int) =~= parts);
    assert(joined(chunks(v), seq![',']) == inner);
    let core = seq!['{'] + inner + seq!['}'];
    assert(text =~= core + seq!['\n']);
    assert(text[0] == '{');
    assert(span_from(text, Pat::Space, 0) == 0);
    assert(trimmed_start(text, Pat::Space) =~= text);
    reveal_with_fuel(span_back, 3);
    assert(text.last() == '\n' && text[text.len() - 2] == '}');
    assert(span_back(text, Pat::Space, text.len() as int) == core.len());
    assert(trimmed(text, Pat::Space) =~= core);
    assert(core.subrange(0, 1) =~= "{"@);
    let u = core.subrange(1, core.len() as int);
    assert(u =~= inner + seq!['}']);
    assert(u.subrange(u.len() - 1, u.len() as int) =~= "}"@);
    assert(u.subrange(0, u.len() - 1) =~= inner);
}

proof fn lemma_settings_upto(v: Seq<(Seq<char>, u32)>, n: int)
    requires
        0 <= n <= v.len(),
        forall|i: int| 0 <= i < v.len() ==> plain_key((#[trigger] v[i]).0),
    ensures
        settings_upto(chunks(v), n) == v.subrange(0, n),
    decreases n,
{
    if n == 0 {
        assert(v.subrange(0, 0) =~= Seq::<(Seq<char>, u32)>::empty());
    } else {
        lemma_settings_upto(v, n - 1);
        lemma_setting_reads_back(
            v[n - 1],
            if n == v.len() {
                seq!['\n']
            } else {
                Seq::empty()
            },
        );
        assert(v.subrange(0, n) =~= v.subrange(0, n - 1).push(v[n - 1]));
    }
}

/// A record is read back as it was written, where its keys are plain.
pub proof fn law_record_reads_back(v: Seq<(Seq<char>, u32)>)
    requires
        forall|i: int| 0 <= i < v.len() ==> plain_key((#[trigger] v[i]).0),
    ensures
        settings_of(record_text(v)) == v,
{
    if v.len() == 0 {
        lemma_empty_record(v);
    } else {
        lemma_unbraced(v);
        let cs = chunks(v);
        assert forall|i: int| 0 <= i < cs.len() implies lacks(#[trigger] cs[i], ',') by {
            lemma_chunk_lacks_comma(
                v[i],
                if i == v.len() - 1 {
                    seq!['\n']
                } else {
                    Seq::empty()
                },
            );
        }
        lemma_pieces_joined(cs);
        lemma_settings_upto(v, v.len() as int);
        assert(v.subrange(0, v.len() as int) =~= v);
    }
}

proof fn lemma_empty_record(v: Seq<(Seq<char>, u32)>)
    requires
        v.len() == 0,
    ensures
        settings_of(record_text(v)) == v,
{
    reveal_strlit("{\n");
    reveal_strlit("\n}\n");
    reveal_strlit("{");
    reveal_strlit("}");
    let parts = v.map_values(|e: (Seq<char>, u32)| setting_text(e));
    assert(joined(parts, ",\n"@) =~= Seq::<char>::empty());
    let text = record_text(v);
    assert(text =~= seq!['{', '\n', '\n', '}', '\n']);
    let core = seq!['{', '\n', '\n', '}'];
    assert(span_from(text, Pat::Space, 0) == 0);
    assert(trimmed_start(text, Pat::Space) =~= text);
    reveal_with_fuel(span_back, 3);
    assert(span_back(text, Pat::Space, 5) == 4);
    assert(trimmed(text, Pat::Space) =~= core);
    assert(core.subrange(0, 1) =~= "{"@);
    let u = core.subrange(1, 4);
    assert(u =~= seq!['\n', '\n', '}']);
    assert(u.subrange(2, 3) =~= "}"@);
    let inner = seq!['\n', '\n'];
    assert(u.subrange(0, 2) =~= inner);
    assert(unbraced(text) == inner);
    lemma_find_is(inner, Pat::Is(','), 2);
    let ps = pieces(inner, Pat::Is(','));
    assert(ps =~= seq![inner]);
    reveal_with_fuel(span_from, 4);
    assert(span_from(inner, Pat::Space, 0) == 2);
    assert(trimmed_start(inner, Pat::Space) =~= Seq::<char>::empty());
    assert(trimmed(inner, Pat::Space) =~= Seq::<char>::empty());
    lemma_find_is(Seq::<char>::empty(), Pat::Is(':'), 0);
    assert(setting_in(inner) is None);
    reveal_with_fuel(settings_upto, 2);
    assert(settings_upto(ps, 1) =~= Seq::<(Seq<char>, u32)>::empty());
    assert(v =~= Seq::<(Seq<char>, u32)>::empty());
}

} // verus!
