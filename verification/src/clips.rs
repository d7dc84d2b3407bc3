//! Stored audio clips: which names are accepted, and how the store is listed.

use vstd::prelude::*;
use vstd::string::*;

use crate::json::{array_text, join, string_texts};
use crate::number::{dec, push_dec};
use crate::order::{before, comes_before, lemma_before_total, lemma_before_transitive};
use crate::text::{chars_of, ends, escape_debug, escaped, same, strip_suffix};

verus! {

pub const CLIPS_DIR: &'static str = "/opt/kibble/clips";

pub const MAX_NAME_LEN: usize = 64;

/// One stored clip.
pub struct ClipInfo {
    pub name: String,
    pub bytes: u64,
}

/// The characters of a clip's name.
pub open spec fn name_char(c: char) -> bool {
    ('a' <= c <= 'z') || ('A' <= c <= 'Z') || ('0' <= c <= '9') || c == '-' || c == '_' || c == '.'
}

/// A name of one plain path segment.
pub open spec fn is_valid_name(name: Seq<char>) -> bool {
    &&& 0 < name.len() <= MAX_NAME_LEN
    &&& name != "."@
    &&& name != ".."@
    &&& forall|i: int| 0 <= i < name.len() ==> name_char(#[trigger] name[i])
}

/// Rejects anything that is no single plain path segment.
pub fn valid_name(name: &str) -> (r: bool)
    ensures
        r == is_valid_name(name@),
{
    let cs: Vec<char> = chars_of(name);
    if cs.len() == 0 || cs.len() > MAX_NAME_LEN || same(name, ".") || same(name, "..") {
        return false;
    }
    let mut i: usize = 0;
    while i < cs.len()
        invariant
            i <= cs.len(),
            cs@ == name@,
            forall|j: int| 0 <= j < i ==> name_char(#[trigger] cs@[j]),
        decreases cs.len() - i,
    {
        let c: char = cs[i];
        if !(('a' <= c && c <= 'z') || ('A' <= c && c <= 'Z') || ('0' <= c && c <= '9') || c == '-'
            || c == '_' || c == '.') {
            return false;
        }
        i = i + 1;
    }
    true
}

/// The path of a clip.
pub open spec fn clip_path(name: Seq<char>) -> Seq<char> {
    CLIPS_DIR@ + "/"@ + name + ".aac"@
}

pub fn path_for(name: &str) -> (s: String)
    ensures
        s@ == clip_path(name@),
{
    let mut s: String = CLIPS_DIR.to_owned();
    s.append("/");
    s.append(name);
    s.append(".aac");
    s
}

/// The file of a valid name is one segment right below the directory: the name holds no separator.
pub proof fn law_clips_stay_in_their_directory(name: Seq<char>)
    requires
        is_valid_name(name),
    ensures
        forall|i: int| 0 <= i < name.len() ==> #[trigger] name[i] != '/' && name[i] != '\\',
{
    assert forall|i: int| 0 <= i < name.len() implies #[trigger] name[i] != '/' && name[i]
        != '\\' by {
        assert(name_char(name[i]));
    }
}

pub open spec fn clip_views(v: Seq<ClipInfo>) -> Seq<(Seq<char>, u64)> {
    v.map_values(|c: ClipInfo| (c.name@, c.bytes))
}

pub open spec fn file_views(v: Seq<(String, u64)>) -> Seq<(Seq<char>, u64)> {
    v.map_values(|f: (String, u64)| (f.0@, f.1))
}

/// The clip that a file is.
pub open spec fn clip_of(file: (Seq<char>, u64)) -> Option<(Seq<char>, u64)> {
    if ends(file.0, ".aac"@) {
        Some((file.0.subrange(0, file.0.len() - 4), file.1))
    } else {
        None
    }
}

/// The clips sorted by name; a clip goes behind those with the same name.
pub open spec fn clip_insert(v: Seq<(Seq<char>, u64)>, c: (Seq<char>, u64)) -> Seq<(Seq<char>, u64)>
    decreases v.len(),
{
    if v.len() > 0 && before(c.0, v.last().0) {
        clip_insert(v.drop_last(), c).push(v.last())
    } else {
        v.push(c)
    }
}

/// The clips among the first `n` files, sorted by name.
pub open spec fn clips_upto(files: Seq<(Seq<char>, u64)>, n: int) -> Seq<(Seq<char>, u64)>
    decreases n,
{
    if n <= 0 {
        Seq::empty()
    } else {
        match clip_of(files[n - 1]) {
            Some(c) => clip_insert(clips_upto(files, n - 1), c),
            None => clips_upto(files, n - 1),
        }
    }
}

/// Whether no clip comes before the one ahead of it.
pub open spec fn names_sorted(v: Seq<(Seq<char>, u64)>) -> bool {
    forall|i: int, j: int| 0 <= i < j < v.len() ==> !before((#[trigger] v[j]).0, (#[trigger] v[i]).0)
}

proof fn lemma_insert(v: Seq<(Seq<char>, u64)>, c: (Seq<char>, u64))
    requires
        names_sorted(v),
    ensures
        names_sorted(clip_insert(v, c)),
        clip_insert(v, c).to_multiset() == v.to_multiset().insert(c),
        forall|x: Seq<char>|
            (forall|i: int| 0 <= i < v.len() ==> !before(x, (#[trigger] v[i]).0)) && !before(
                x,
                c.0,
            ) ==> (forall|i: int|
                0 <= i < clip_insert(v, c).len() ==> !before(x, (#[trigger] clip_insert(v, c)[i]).0)),
    decreases v.len(),
{
    broadcast use vstd::seq_lib::group_to_multiset_ensures;

    if v.len() > 0 && before(c.0, v.last().0) {
        let w = v.drop_last();
        let l = v.last();
        assert(names_sorted(w)) by {
            assert forall|i: int, j: int| 0 <= i < j < w.len() implies !before(
                (#[trigger] w[j]).0,
                (#[trigger] w[i]).0,
            ) by {
                assert(w[i] == v[i] && w[j] == v[j]);
            }
        }
        lemma_insert(w, c);
        let r = clip_insert(w, c);
        lemma_before_total(c.0, l.0);
        assert(forall|i: int| 0 <= i < w.len() ==> !before(l.0, (#[trigger] w[i]).0)) by {
            assert forall|i: int| 0 <= i < w.len() implies !before(l.0, (#[trigger] w[i]).0) by {
                assert(w[i] == v[i]);
                assert(!before(v[v.len() - 1].0, v[i].0));
            }
        }
        let out = r.push(l);
        assert(names_sorted(out)) by {
            assert forall|i: int, j: int| 0 <= i < j < out.len() implies !before(
                (#[trigger] out[j]).0,
                (#[trigger] out[i]).0,
            ) by {
                if j < r.len() {
                    assert(out[i] == r[i] && out[j] == r[j]);
                } else {
                    assert(out[i] == r[i]);
                }
            }
        }
        assert(v =~= w.push(l));
        assert(out.to_multiset() =~= v.to_multiset().insert(c));
        assert forall|x: Seq<char>|
            (forall|i: int| 0 <= i < v.len() ==> !before(x, (#[trigger] v[i]).0)) && !before(
                x,
                c.0,
            ) implies (forall|i: int| 0 <= i < out.len() ==> !before(x, (#[trigger] out[i]).0)) by {
            assert forall|i: int| 0 <= i < w.len() implies !before(x, (#[trigger] w[i]).0) by {
                assert(w[i] == v[i]);
            }
            assert forall|i: int| 0 <= i < out.len() implies !before(x, (#[trigger] out[i]).0) by {
                if i < r.len() {
                    assert(out[i] == r[i]);
                } else {
                    assert(out[i] == v[v.len() - 1]);
                }
            }
        }
    } else {
        let out = v.push(c);
        assert(names_sorted(out)) by {
            assert forall|i: int, j: int| 0 <= i < j < out.len() implies !before(
                (#[trigger] out[j]).0,
                (#[trigger] out[i]).0,
            ) by {
                if j == v.len() {
                    if before(c.0, v[i].0) {
                        lemma_before_total(v.last().0, v[i].0);
                        lemma_before_total(v[i].0, v.last().0);
                        if i < v.len() - 1 {
                            assert(!before(v[v.len() - 1].0, v[i].0));
                            if before(v[i].0, v.last().0) {
                                lemma_before_transitive(c.0, v[i].0, v.last().0);
                            }
                        }
                    }
                } else {
                    assert(out[i] == v[i] && out[j] == v[j]);
                }
            }
        }
        assert forall|x: Seq<char>|
            (forall|i: int| 0 <= i < v.len() ==> !before(x, (#[trigger] v[i]).0)) && !before(
                x,
                c.0,
            ) implies (forall|i: int| 0 <= i < out.len() ==> !before(x, (#[trigger] out[i]).0)) by {
            assert forall|i: int| 0 <= i < out.len() implies !before(x, (#[trigger] out[i]).0) by {
                if i < v.len() {
                    assert(out[i] == v[i]);
                }
            }
        }
    }
}

/// The listing is sorted by name, whatever order the files come in.
pub proof fn law_listing_is_sorted(files: Seq<(Seq<char>, u64)>, n: int)
    ensures
        names_sorted(clips_upto(files, n)),
    decreases n,
{
    if n > 0 {
        law_listing_is_sorted(files, n - 1);
        if let Some(c) = clip_of(files[n - 1]) {
            lemma_insert(clips_upto(files, n - 1), c);
        }
    }
}

/// Every stored clip, sorted by name. `files` are the names and sizes of the files in the
/// directory.
pub fn list(files: &Vec<(String, u64)>) -> (out: Vec<ClipInfo>)
    ensures
        clip_views(out@) == clips_upto(file_views(files@), files@.len() as int),
{
    let ghost all = file_views(files@);
    let mut out: Vec<ClipInfo> = Vec::new();
    let mut i: usize = 0;
    assert(clip_views(out@) =~= Seq::<(Seq<char>, u64)>::empty());
    while i < files.len()
        invariant
            i <= files@.len(),
            all == file_views(files@),
            clip_views(out@) == clips_upto(all, i as int),
        decreases files@.len() - i,
    {
        proof {
            reveal_strlit(".aac");
            assert(all[i as int] == (files@[i as int].0@, files@[i as int].1));
        }
        if let Some(name) = strip_suffix(files[i].0.as_str(), ".aac") {
            let ghost c = (name@, files@[i as int].1);
            insert_clip(&mut out, ClipInfo { name: name.to_owned(), bytes: files[i].1 });
        }
        i = i + 1;
    }
    out
}

fn insert_clip(v: &mut Vec<ClipInfo>, c: ClipInfo)
    ensures
        clip_views(final(v)@) == clip_insert(clip_views(old(v)@), (c.name@, c.bytes)),
{
    let ghost views = clip_views(v@);
    let ghost x = (c.name@, c.bytes);
    let mut at: usize = v.len();
    assert(views.subrange(0, views.len() as int) =~= views);
    assert(views.subrange(views.len() as int, views.len() as int) =~= Seq::<(Seq<char>, u64)>::empty());
    assert(clip_insert(views, x) =~= clip_insert(views.subrange(0, at as int), x)
        + views.subrange(at as int, views.len() as int));
    while at > 0 && comes_before(c.name.as_str(), v[at - 1].name.as_str())
        invariant
            at <= v@.len(),
            *v == *old(v),
            views == clip_views(v@),
            x == (c.name@, c.bytes),
            clip_insert(views, x) == clip_insert(views.subrange(0, at as int), x) + views.subrange(
                at as int,
                views.len() as int,
            ),
        decreases at,
    {
        proof {
            let w = views.subrange(0, at as int);
            assert(views[at - 1].0 == v@[at - 1].name@);
            assert(w.last() == views[at - 1]);
            assert(w.drop_last() =~= views.subrange(0, at - 1));
            assert(clip_insert(w, x) == clip_insert(views.subrange(0, at - 1), x).push(
                views[at - 1],
            ));
            assert(clip_insert(views.subrange(0, at - 1), x).push(views[at - 1]) + views.subrange(
                at as int,
                views.len() as int,
            ) =~= clip_insert(views.subrange(0, at - 1), x) + views.subrange(
                at - 1,
                views.len() as int,
            ));
        }
        at = at - 1;
    }
    proof {
        let w = views.subrange(0, at as int);
        if at > 0 {
            assert(views[at - 1].0 == v@[at - 1].name@);
            assert(w.last() == views[at - 1]);
        }
        assert(clip_insert(w, x) == w.push(x));
    }
    v.insert(at, c);
    assert(clip_views(v@) =~= views.subrange(0, at as int).push(x) + views.subrange(
        at as int,
        views.len() as int,
    ));
}

/// One clip in the listing.
pub open spec fn clip_text(c: (Seq<char>, u64)) -> Seq<char> {
    "{\"name\":\""@ + escaped(c.0) + "\",\"bytes\":"@ + dec(c.1 as nat) + "}"@
}

/// The report of all clips.
pub open spec fn clips_text(v: Seq<(Seq<char>, u64)>) -> Seq<char> {
    array_text(v.map_values(|c: (Seq<char>, u64)| clip_text(c)))
}

/// The body that lists the clips.
pub fn clips_json(v: &Vec<ClipInfo>) -> (s: String)
    ensures
        s@ == clips_text(clip_views(v@)),
{
    let ghost views = clip_views(v@);
    let ghost f = |c: (Seq<char>, u64)| clip_text(c);
    let mut parts: Vec<String> = Vec::new();
    let mut i: usize = 0;
    while i < v.len()
        invariant
            i <= v@.len(),
            views == clip_views(v@),
            f == (|c: (Seq<char>, u64)| clip_text(c)),
            string_texts(parts@) == views.subrange(0, i as int).map_values(f),
        decreases v@.len() - i,
    {
        let ghost done = parts@;
        let mut e: String = "{\"name\":\"".to_owned();
        e.append(escape_debug(v[i].name.as_str()).as_str());
        e.append("\",\"bytes\":");
        push_dec(&mut e, v[i].bytes);
        e.append("}");
        assert(e@ == f(views[i as int]));
        parts.push(e);
        i = i + 1;
        assert(string_texts(parts@) =~= views.subrange(0, i as int).map_values(f)) by {
            assert(string_texts(parts@) =~= string_texts(done).push(e@));
        }
    }
    assert(views.subrange(0, i as int) =~= views);
    let mut s: String = "[".to_owned();
    s.append(join(&parts, ",").as_str());
    s.append("]");
    s
}

/// A clip is found under the name that it was stored by.
pub proof fn law_clip_is_found(name: Seq<char>, bytes: u64)
    ensures
        clip_of((name + ".aac"@, bytes)) == Some((name, bytes)),
        clip_path(name) == CLIPS_DIR@ + "/"@ + (name + ".aac"@),
{
    reveal_strlit(".aac");
    let f = name + ".aac"@;
    assert(f.subrange(f.len() - 4, f.len() as int) =~= ".aac"@);
    assert(f.subrange(0, f.len() - 4) =~= name);
    assert(clip_path(name) =~= CLIPS_DIR@ + "/"@ + (name + ".aac"@));
}

/// The listing holds every clip of the directory, as often as it is there, and nothing else.
pub proof fn law_listing_is_complete(files: Seq<(Seq<char>, u64)>, n: int)
    requires
        0 <= n <= files.len(),
    ensures
        clips_upto(files, n).to_multiset() == files.subrange(0, n).filter(
            |f: (Seq<char>, u64)| clip_of(f) is Some,
        ).map_values(|f: (Seq<char>, u64)| clip_of(f)->0).to_multiset(),
    decreases n,
{
    reveal(Seq::filter);
    broadcast use vstd::seq_lib::group_to_multiset_ensures;
    let p = |f: (Seq<char>, u64)| clip_of(f) is Some;
    let g = |f: (Seq<char>, u64)| clip_of(f)->0;
    let s = files.subrange(0, n);
    if n > 0 {
        law_listing_is_complete(files, n - 1);
        assert(s.drop_last() =~= files.subrange(0, n - 1));
        assert(s.last() == files[n - 1]);
        let done = s.drop_last().filter(p);
        assert(done.push(files[n - 1]).map_values(g) =~= done.map_values(g).push(g(files[n - 1])));
        if let Some(c) = clip_of(files[n - 1]) {
            lemma_clip_inserted(clips_upto(files, n - 1), c);
        }
    } else {
        assert(s.filter(p).map_values(g) =~= clips_upto(files, 0));
    }
}

proof fn lemma_clip_inserted(v: Seq<(Seq<char>, u64)>, c: (Seq<char>, u64))
    ensures
        clip_insert(v, c).to_multiset() == v.to_multiset().insert(c),
    decreases v.len(),
{
    broadcast use vstd::seq_lib::group_to_multiset_ensures;
    if v.len() > 0 && before(c.0, v.last().0) {
        lemma_clip_inserted(v.drop_last(), c);
        assert(v.drop_last().push(v.last()) =~= v);
        assert(v.to_multiset() =~= v.drop_last().to_multiset().insert(v.last()));
        assert(clip_insert(v, c).to_multiset() =~= v.to_multiset().insert(c));
    }
}

/// A name of a clip is one to sixty-four letters, digits, dashes, underscores and dots, and never a
/// name of a directory.
pub proof fn law_clip_names(name: Seq<char>, i: int)
    requires
        is_valid_name(name),
        0 <= i < name.len(),
    ensures
        1 <= name.len() <= 64,
        name[i] != '/' && name[i] != '\\' && name[i] != ' ' && name[i] != '"',
        (name[i] as u32) < 128,
{
    assert(name_char(name[i]));
}

} // verus!
