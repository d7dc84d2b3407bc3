//! Laws of the crops' names and of what labelling does.

use vstd::prelude::*;
use vstd::string::*;

use crate::ai::safe_name;
use crate::bytes::{le32, le32_at, lemma_le32};
use crate::faces::store::{
    emb_path, excess, guess_path, jpgs_upto, label_steps, refusal, removal, removals, retag_steps,
    retags_upto, targets, times, unknown_since, unlabel_steps, upload_name, upload_refusal,
    FileOpView, Sidecars,
};
use crate::faces::{
    cat_dir, cats_by_ts_upto, crop_name, crops_upto, embedding_bytes, enrolled_upto, guess_of,
    guess_text, holds_a_cat, in_dir, is_crop, label_of, labelled_upto, newest_upto, of_cat_upto, opt_guess,
    pending_of, pending_upto, pet_label, sample_time, samples_upto, seen_upto, upload_verdict,
    with_ending, CatDir, DirFile, FACES_ROOT, GuessView, LabelledView, Listed, PENDING_DIR,
    PENDING_NAME, PendingCropView, UPLOAD_PREFIX,
};
use crate::json::joined;
use crate::json::lemmas::{
    in_quotes, lacks, lemma_clear_quoted, lemma_member_clear, lemma_next_member, lemma_object_bare,
    lemma_object_quoted, member, members, object,
};
use crate::number::{dec, is_float, lemma_dec_worth, lemma_float_bare, lemma_uint_of_dec};
use crate::order::is_stable_order;
use crate::text::{
    ends, escaped, is_digit, is_plain, is_plain_char, law_plain_text_is_written_as_it_stands,
    lemma_find_is, match_back, occurs_at, starts, Pat,
};

verus! {

/// The name of a crop gives back its time and its pet.
pub proof fn law_crop_name_reads_back(ts: u64, pet_id: Option<u32>)
    ensures
        pending_of(crop_name(ts, pet_id)) == Some((ts, pet_id)),
{
    reveal_strlit("-");
    reveal_strlit(".jpg");
    let t = dec(ts as nat);
    let label = pet_label(pet_id);
    let name = crop_name(ts, pet_id);
    let stem = t + "-"@ + label;
    assert(name == stem + ".jpg"@);
    assert(name.subrange(name.len() - 4, name.len() as int) =~= ".jpg"@);
    assert(name.subrange(0, name.len() - 4) =~= stem);
    lemma_dec_worth(ts as nat);
    assert forall|j: int| 0 <= j < t.len() implies !Pat::Is('-').has(#[trigger] stem[j]) by {
        assert(stem[j] == t[j]);
        assert(is_digit(t[j]));
    }
    assert(stem[t.len() as int] == '-');
    lemma_find_is(stem, Pat::Is('-'), t.len() as int);
    assert(stem.subrange(0, t.len() as int) =~= t);
    assert(stem.subrange(t.len() as int + 1, stem.len() as int) =~= label);
    match pet_id {
        Some(id) => {
            reveal_strlit("unknown");
            lemma_dec_worth(id as nat);
            assert(is_digit(label[0]));
            assert(label[0] != "unknown"@[0]);
        },
        None => {},
    }
}

/// The name of an uploaded photo gives back the second it was taken in.
pub proof fn law_upload_name_reads_back(now_ms: u64)
    ensures
        sample_time(upload_name(now_ms as u128)) == Some((now_ms / 1000) as u64),
{
    reveal_strlit("upload-");
    reveal_strlit(".jpg");
    let n = dec(now_ms as nat);
    let name = upload_name(now_ms as u128);
    lemma_uint_of_dec(now_ms as nat, u64::MAX as nat);
    assert(name.subrange(0, 7) =~= "upload-"@);
    let rest = name.subrange(7, name.len() as int);
    assert(rest =~= n + ".jpg"@);
    assert(rest.subrange(rest.len() - 4, rest.len() as int) =~= ".jpg"@);
    assert(name.subrange(7, name.len() - 4) =~= n);
}

/// A saved embedding is read back as it was.
pub proof fn law_embedding_reads_back(feat: Seq<u32>, i: int)
    requires
        0 <= i < feat.len(),
    ensures
        embedding_bytes(feat).len() == feat.len() * 4,
        le32_at(embedding_bytes(feat), i * 4) == feat[i],
    decreases feat.len(),
{
    let init = feat.drop_last();
    let last = feat.last();
    lemma_embedding_len(feat);
    lemma_embedding_len(init);
    let b = embedding_bytes(init);
    let all = embedding_bytes(feat);
    lemma_le32(last as nat);
    if i < init.len() {
        law_embedding_reads_back(init, i);
        assert(all[i * 4] == b[i * 4] && all[i * 4 + 1] == b[i * 4 + 1] && all[i * 4 + 2] == b[i * 4
            + 2] && all[i * 4 + 3] == b[i * 4 + 3]);
    } else {
        let l = le32(last as nat);
        assert(all[i * 4] == l[0] && all[i * 4 + 1] == l[1] && all[i * 4 + 2] == l[2] && all[i * 4
            + 3] == l[3]);
    }
}

pub proof fn lemma_embedding_len(feat: Seq<u32>)
    ensures
        embedding_bytes(feat).len() == feat.len() * 4,
    decreases feat.len(),
{
    if feat.len() > 0 {
        lemma_embedding_len(feat.drop_last());
    }
}

/// Of the crops of a directory, none that is removed is newer than one that is kept.
pub proof fn law_eviction_keeps_the_newest(
    v: Seq<(u64, Seq<char>)>,
    p: Seq<usize>,
    n: int,
    gone: int,
    kept: int,
)
    requires
        is_stable_order(times(v), p),
        0 <= gone < n <= kept < v.len(),
    ensures
        v[p[gone] as int].0 <= v[p[kept] as int].0,
{
    assert(crate::order::earlier(times(v), p[gone] as int, p[kept] as int));
}

/// A crop never gets the name of a file that is there, and no two crops get the same one.
pub proof fn law_retags_never_overwrite(
    names: Seq<Seq<char>>,
    pet_id: u32,
    start_time: u64,
    n: int,
)
    requires
        0 <= n <= names.len(),
    ensures
        targets(retags_upto(names, pet_id, start_time, n)).no_duplicates(),
        forall|i: int|
            0 <= i < retags_upto(names, pet_id, start_time, n).len() ==> !names.contains(
                #[trigger] targets(retags_upto(names, pet_id, start_time, n))[i],
            ),
    decreases n,
{
    if n > 0 {
        law_retags_never_overwrite(names, pet_id, start_time, n - 1);
        let done = retags_upto(names, pet_id, start_time, n - 1);
        let now = retags_upto(names, pet_id, start_time, n);
        if now.len() > done.len() {
            let to = now.last().1;
            assert(targets(now) =~= targets(done).push(to));
            assert(!targets(done).contains(to));
        }
    }
}

/// The files by path, after one step. A path that is renamed away is gone.
pub open spec fn after_step(files: Map<Seq<char>, Seq<u8>>, op: FileOpView) -> Map<
    Seq<char>,
    Seq<u8>,
> {
    match op {
        FileOpView::MakeDir(_) => files,
        FileOpView::Rename(a, b) | FileOpView::TryRename(a, b) => if files.contains_key(a) {
            files.remove(a).insert(b, files[a])
        } else {
            files
        },
        FileOpView::Remove(a) | FileOpView::TryRemove(a) => files.remove(a),
    }
}

/// The files after a list of steps.
pub open spec fn after_steps(files: Map<Seq<char>, Seq<u8>>, ops: Seq<FileOpView>) -> Map<
    Seq<char>,
    Seq<u8>,
>
    decreases ops.len(),
{
    if ops.len() == 0 {
        files
    } else {
        after_step(after_steps(files, ops.drop_last()), ops.last())
    }
}

/// The files that stand beside a crop.
pub open spec fn beside(files: Map<Seq<char>, Seq<u8>>, dir: Seq<char>, name: Seq<char>) -> Sidecars {
    Sidecars {
        embedding: files.contains_key(emb_path(dir, name)),
        guess: files.contains_key(guess_path(dir, name)),
    }
}

proof fn lemma_pushed(files: Map<Seq<char>, Seq<u8>>, ops: Seq<FileOpView>, op: FileOpView)
    ensures
        after_steps(files, ops.push(op)) == after_step(after_steps(files, ops), op),
{
    assert(ops.push(op).drop_last() =~= ops);
}

proof fn lemma_ending_lacks_slash(name: Seq<char>, ending: Seq<char>)
    requires
        lacks(name, '/'),
        lacks(ending, '/'),
    ensures
        lacks(with_ending(name, ending), '/'),
{
    reveal_strlit(".");
    crate::text::lemma_match_back_bounds(name, "."@, name.len() as int);
}

/// A path gives back its directory and its name.
proof fn lemma_path_parts(a: Seq<char>, x: Seq<char>, b: Seq<char>, y: Seq<char>)
    requires
        lacks(x, '/'),
        lacks(y, '/'),
        in_dir(a, x) == in_dir(b, y),
    ensures
        a == b,
        x == y,
{
    reveal_strlit("/");
    let p = in_dir(a, x);
    assert(p.len() == a.len() + 1 + x.len());
    assert(p.len() == b.len() + 1 + y.len());
    assert(p[a.len() as int] == '/');
    assert(p[b.len() as int] == '/');
    if a.len() < b.len() {
        assert(p[b.len() as int] == x[b.len() - a.len() - 1]);
    }
    if b.len() < a.len() {
        assert(in_dir(b, y)[a.len() as int] == y[a.len() - b.len() - 1]);
    }
    assert(a =~= p.subrange(0, a.len() as int));
    assert(b =~= p.subrange(0, b.len() as int));
    assert(x =~= p.subrange(a.len() as int + 1, p.len() as int));
    assert(y =~= p.subrange(b.len() as int + 1, p.len() as int));
}

/// The files of a crop that waits are not those of a cat's crop of the same name, and those of one
/// directory are the same only where their names are.
proof fn lemma_paths_differ(name: Seq<char>, cat: Seq<char>)
    requires
        safe_name(name),
        cat != PENDING_NAME@,
    ensures
        ({
            let p = PENDING_DIR@;
            let c = cat_dir(cat);
            let (e, g) = (with_ending(name, "emb"@), with_ending(name, "guess"@));
            let (pn, pe, pg) = (in_dir(p, name), emb_path(p, name), guess_path(p, name));
            let (cn, ce, cg) = (in_dir(c, name), emb_path(c, name), guess_path(c, name));
            &&& pn != cn && pn != ce && pn != cg
            &&& pe != cn && pe != ce && pe != cg
            &&& pg != cn && pg != ce && pg != cg
            &&& e != g && pe != pg && ce != cg
            &&& name != e ==> pn != pe && cn != ce
            &&& name != g ==> pn != pg && cn != cg
        }),
{
    let p = PENDING_DIR@;
    let c = cat_dir(cat);
    let e = with_ending(name, "emb"@);
    let g = with_ending(name, "guess"@);
    reveal_strlit("emb");
    reveal_strlit("guess");
    assert(e.last() == 'b' && g.last() == 's');
    lemma_dirs(cat);
    lemma_ending_lacks_slash(name, "emb"@);
    lemma_ending_lacks_slash(name, "guess"@);
    let names = seq![name, e, g];
    assert forall|i: int, j: int| 0 <= i < 3 && 0 <= j < 3 implies #[trigger] in_dir(p, names[i])
        != #[trigger] in_dir(c, names[j]) by {
        if in_dir(p, names[i]) == in_dir(c, names[j]) {
            lemma_path_parts(p, names[i], c, names[j]);
        }
    }
    assert forall|d: Seq<char>, i: int, j: int|
        0 <= i < 3 && 0 <= j < 3 && names[i] != names[j] implies #[trigger] in_dir(d, names[i])
        != #[trigger] in_dir(d, names[j]) by {
        if in_dir(d, names[i]) == in_dir(d, names[j]) {
            lemma_path_parts(d, names[i], d, names[j]);
        }
    }
    assert(names[0] == name && names[1] == e && names[2] == g);
}

proof fn lemma_dirs(cat: Seq<char>)
    requires
        cat != PENDING_NAME@,
    ensures
        cat_dir(cat) != PENDING_DIR@,
{
    reveal_strlit("/opt/kibble/faces");
    reveal_strlit("/opt/kibble/faces/pending");
    reveal_strlit("pending");
    reveal_strlit("/");
    if cat_dir(cat) == PENDING_DIR@ {
        let k = FACES_ROOT@.len() + 1;
        assert(cat =~= cat_dir(cat).subrange(k as int, cat_dir(cat).len() as int));
        assert(PENDING_NAME@ =~= PENDING_DIR@.subrange(k as int, PENDING_DIR@.len() as int));
    }
}

/// The files after a label: the crop and what stood beside it have moved.
proof fn lemma_after_label(files: Map<Seq<char>, Seq<u8>>, name: Seq<char>, cat: Seq<char>)
    requires
        safe_name(name),
        cat != PENDING_NAME@,
        files.contains_key(in_dir(PENDING_DIR@, name)),
        !files.contains_key(in_dir(cat_dir(cat), name)),
        !files.contains_key(emb_path(cat_dir(cat), name)),
        !files.contains_key(guess_path(cat_dir(cat), name)),
    ensures
        ({
            let m = after_steps(files, label_steps(name, cat, beside(files, PENDING_DIR@, name)));
            let p = PENDING_DIR@;
            let c = cat_dir(cat);
            &&& m.contains_key(in_dir(c, name)) && m[in_dir(c, name)] == files[in_dir(p, name)]
            &&& !m.contains_key(in_dir(p, name))
            &&& !m.contains_key(emb_path(p, name))
            &&& !m.contains_key(guess_path(p, name))
            &&& m.contains_key(emb_path(c, name)) == files.contains_key(emb_path(p, name))
            &&& files.contains_key(emb_path(p, name)) ==> m[emb_path(c, name)] == files[emb_path(
                p,
                name,
            )]
            &&& forall|k: Seq<char>|
                k != in_dir(p, name) && k != emb_path(p, name) && k != guess_path(p, name) && k
                    != in_dir(c, name) && k != emb_path(c, name) && k != guess_path(c, name) ==> (
                #[trigger] m.contains_key(k) == files.contains_key(k) && (m.contains_key(k)
                    ==> m[k] == files[k]))
        }),
{
    let p = PENDING_DIR@;
    let c = cat_dir(cat);
    let b = beside(files, p, name);
    lemma_paths_differ(name, cat);
    let none = Seq::<FileOpView>::empty();
    let one = none.push(FileOpView::MakeDir(c));
    let base = seq![
        FileOpView::MakeDir(c),
        FileOpView::Rename(in_dir(p, name), in_dir(c, name)),
    ];
    assert(base =~= one.push(FileOpView::Rename(in_dir(p, name), in_dir(c, name))));
    assert(after_steps(files, none) == files);
    lemma_pushed(files, none, FileOpView::MakeDir(c));
    lemma_pushed(files, one, FileOpView::Rename(in_dir(p, name), in_dir(c, name)));
    let e = FileOpView::TryRename(emb_path(p, name), emb_path(c, name));
    lemma_pushed(files, base, e);
    let with_emb = if b.embedding {
        base.push(e)
    } else {
        base
    };
    let g = FileOpView::TryRename(guess_path(p, name), guess_path(c, name));
    lemma_pushed(files, with_emb, g);
}

/// Unlabelling undoes a label: crop and embedding are back where they were and nothing else has
/// changed, except that the guess is gone. A file whose own name is that of its guess has none
/// beside it, and is back where it was with all the others.
pub proof fn law_unlabel_undoes_label(files: Map<Seq<char>, Seq<u8>>, name: Seq<char>, cat: Seq<char>)
    requires
        refusal(name, cat) is None,
        cat != PENDING_NAME@,
        files.contains_key(in_dir(PENDING_DIR@, name)),
        !files.contains_key(in_dir(cat_dir(cat), name)),
        !files.contains_key(emb_path(cat_dir(cat), name)),
        !files.contains_key(guess_path(cat_dir(cat), name)),
    ensures
        ({
            let labelled = after_steps(
                files,
                label_steps(name, cat, beside(files, PENDING_DIR@, name)),
            );
            after_steps(
                labelled,
                unlabel_steps(cat, name, beside(labelled, cat_dir(cat), name).embedding),
            ) == (if name == with_ending(name, "guess"@) {
                files
            } else {
                files.remove(guess_path(PENDING_DIR@, name))
            })
        }),
{
    let p = PENDING_DIR@;
    let c = cat_dir(cat);
    let m = after_steps(files, label_steps(name, cat, beside(files, p, name)));
    let b = beside(m, c, name).embedding;
    lemma_after_label(files, name, cat);
    lemma_paths_differ(name, cat);
    let none = Seq::<FileOpView>::empty();
    let one = none.push(FileOpView::MakeDir(p));
    let r = FileOpView::Rename(in_dir(c, name), in_dir(p, name));
    let base = seq![FileOpView::MakeDir(p), r];
    assert(base =~= one.push(r));
    assert(after_steps(m, none) == m);
    lemma_pushed(m, none, FileOpView::MakeDir(p));
    lemma_pushed(m, one, r);
    let e = FileOpView::TryRename(emb_path(c, name), emb_path(p, name));
    lemma_pushed(m, base, e);
    let with_emb = if b {
        base.push(e)
    } else {
        base
    };
    let g = FileOpView::TryRemove(guess_path(c, name));
    lemma_pushed(m, with_emb, g);
    let end = after_steps(m, unlabel_steps(cat, name, b));
    let want = if name == with_ending(name, "guess"@) {
        files
    } else {
        files.remove(guess_path(p, name))
    };
    assert(unlabel_steps(cat, name, b) == with_emb.push(g));
    assert forall|k: Seq<char>| end.contains_key(k) == want.contains_key(k) && (end.contains_key(k)
        ==> end[k] == want[k]) by {
        let plain = k != in_dir(p, name) && k != emb_path(p, name) && k != guess_path(p, name) && k
            != in_dir(c, name) && k != emb_path(c, name) && k != guess_path(c, name);
        if plain {
            assert(m.contains_key(k) == files.contains_key(k));
        }
    }
    assert(end =~= want);
}

/// A cat that is written and read as it stands, and a score that is a number.
pub open spec fn plain_guess(g: GuessView) -> bool {
    &&& escaped(g.cat) == g.cat && g.cat != "score"@
    &&& lacks(g.cat, '"') && lacks(g.cat, ',') && lacks(g.cat, '}')
    &&& is_float(g.score)
}

/// The name of a cat in plain characters, but for a comma or a closing brace, is written and read
/// as it stands.
pub proof fn law_plain_guess(g: GuessView)
    requires
        is_plain(g.cat),
        lacks(g.cat, ','),
        lacks(g.cat, '}'),
        g.cat != "score"@,
        is_float(g.score),
    ensures
        plain_guess(g),
{
    law_plain_text_is_written_as_it_stands(g.cat);
    assert forall|i: int| 0 <= i < g.cat.len() implies #[trigger] g.cat[i] != '"' by {
        assert(is_plain_char(g.cat[i]));
    }
}

proof fn lemma_guess_object(g: GuessView)
    requires
        escaped(g.cat) == g.cat,
    ensures
        guess_text(g) == object(seq![("cat"@, in_quotes(g.cat)), ("score"@, g.score)]),
{
    reveal_strlit("{\"cat\":\"");
    reveal_strlit("\",\"score\":");
    reveal_strlit("cat");
    reveal_strlit("score");
    reveal_strlit("{");
    reveal_strlit("}");
    reveal_strlit(",");
    reveal_strlit(":");
    reveal_strlit("\"");
    let m0 = member("cat"@, in_quotes(g.cat));
    let m1 = member("score"@, g.score);
    assert(members(seq![("cat"@, in_quotes(g.cat)), ("score"@, g.score)]) =~= seq![m0, m1]);
    assert(joined(seq![m0], ","@) == m0);
    lemma_next_member("{"@, seq![m0], m1);
    assert(seq![m0].push(m1) =~= seq![m0, m1]);
    assert("{\"cat\":\""@ + g.cat + "\",\"score\":"@ + g.score =~= "{"@ + m0 + ","@ + m1);
}

/// A guess is read back from the file that was written for it.
pub proof fn law_guess_reads_back(g: GuessView)
    requires
        plain_guess(g),
    ensures
        guess_of(guess_text(g)) == Some(g),
{
    let ms = seq![("cat"@, in_quotes(g.cat)), ("score"@, g.score)];
    lemma_guess_object(g);
    lemma_float_bare(g.score);
    reveal_strlit("cat");
    reveal_strlit("score");
    assert("cat"@.len() == 3 && "score"@.len() == 5);
    lemma_clear_quoted(g.cat, "score"@);
    lemma_member_clear("cat"@, in_quotes(g.cat), "score"@);
    lemma_object_quoted(ms, 0, g.cat);
    lemma_object_bare(ms, 1);
}

/// The crops that wait are the files with the ending of one, each with its time.
pub proof fn law_crops_waiting(v: Seq<DirFile>, n: int)
    requires
        0 <= n <= v.len(),
    ensures
        crops_upto(v, n) == v.subrange(0, n).filter(|x: DirFile| ends(x.name@, ".jpg"@)).map_values(
            |x: DirFile| (x.mtime, x.name@),
        ),
    decreases n,
{
    reveal(Seq::filter);
    let p = |x: DirFile| ends(x.name@, ".jpg"@);
    let f = |x: DirFile| (x.mtime, x.name@);
    let s = v.subrange(0, n);
    if n > 0 {
        law_crops_waiting(v, n - 1);
        assert(s.drop_last() =~= v.subrange(0, n - 1));
        assert(s.last() == v[n - 1]);
        let done = s.drop_last().filter(p);
        assert(done.push(v[n - 1]).map_values(f) =~= done.map_values(f).push(f(v[n - 1])));
    } else {
        assert(s.filter(p).map_values(f) =~= crops_upto(v, 0));
    }
}

/// The crops that count against the cap are the files that are crops.
pub proof fn law_crops_counted(v: Seq<DirFile>, n: int)
    requires
        0 <= n <= v.len(),
    ensures
        jpgs_upto(v, n) == v.subrange(0, n).filter(|x: DirFile| is_crop(x.name@)).map_values(
            |x: DirFile| (x.mtime, x.name@),
        ),
    decreases n,
{
    reveal(Seq::filter);
    let p = |x: DirFile| is_crop(x.name@);
    let f = |x: DirFile| (x.mtime, x.name@);
    let s = v.subrange(0, n);
    if n > 0 {
        law_crops_counted(v, n - 1);
        assert(s.drop_last() =~= v.subrange(0, n - 1));
        assert(s.last() == v[n - 1]);
        let done = s.drop_last().filter(p);
        assert(done.push(v[n - 1]).map_values(f) =~= done.map_values(f).push(f(v[n - 1])));
    } else {
        assert(s.filter(p).map_values(f) =~= jpgs_upto(v, 0));
    }
}

/// A cat's crops are the crops in its directory, each under the cat's name and its own path.
pub proof fn law_crops_of_a_cat(v: Seq<DirFile>, cat: Seq<char>, n: int)
    requires
        0 <= n <= v.len(),
    ensures
        of_cat_upto(cat, v, n) == v.subrange(0, n).filter(|x: DirFile| is_crop(x.name@)).map_values(
            |x: DirFile| (LabelledView { cat, name: x.name@, jpg_path: in_dir(cat_dir(cat), x.name@), mtime: x.mtime }),
        ),
    decreases n,
{
    reveal(Seq::filter);
    let p = |x: DirFile| is_crop(x.name@);
    let f = |x: DirFile| (LabelledView { cat, name: x.name@, jpg_path: in_dir(cat_dir(cat), x.name@), mtime: x.mtime });
    let s = v.subrange(0, n);
    if n > 0 {
        law_crops_of_a_cat(v, cat, n - 1);
        assert(s.drop_last() =~= v.subrange(0, n - 1));
        assert(s.last() == v[n - 1]);
        let done = s.drop_last().filter(p);
        assert(done.push(v[n - 1]).map_values(f) =~= done.map_values(f).push(f(v[n - 1])));
    } else {
        assert(s.filter(p).map_values(f) =~= of_cat_upto(cat, v, 0));
    }
}

/// A sighting is a labelled crop that was captured, not one that was uploaded, at its time.
pub proof fn law_sightings(v: Seq<LabelledView>, n: int)
    requires
        0 <= n <= v.len(),
    ensures
        cats_by_ts_upto(v, n) == v.subrange(0, n).filter(|x: LabelledView| pending_of(x.name) is Some && !starts(x.name, UPLOAD_PREFIX@)).map_values(
            |x: LabelledView| ((pending_of(x.name)->0).0, x.cat),
        ),
    decreases n,
{
    reveal(Seq::filter);
    let p = |x: LabelledView| pending_of(x.name) is Some && !starts(x.name, UPLOAD_PREFIX@);
    let f = |x: LabelledView| ((pending_of(x.name)->0).0, x.cat);
    let s = v.subrange(0, n);
    if n > 0 {
        law_sightings(v, n - 1);
        assert(s.drop_last() =~= v.subrange(0, n - 1));
        assert(s.last() == v[n - 1]);
        let done = s.drop_last().filter(p);
        assert(done.push(v[n - 1]).map_values(f) =~= done.map_values(f).push(f(v[n - 1])));
    } else {
        assert(s.filter(p).map_values(f) =~= cats_by_ts_upto(v, 0));
    }
}

/// The enrolled cats are the directories that hold a cat.
pub proof fn law_enrolled_cats(v: Seq<Seq<char>>, n: int)
    requires
        0 <= n <= v.len(),
    ensures
        enrolled_upto(v, n) == v.subrange(0, n).filter(|x: Seq<char>| safe_name(x) && holds_a_cat(x)).map_values(
            |x: Seq<char>| (0u64, x),
        ),
    decreases n,
{
    reveal(Seq::filter);
    let p = |x: Seq<char>| safe_name(x) && holds_a_cat(x);
    let f = |x: Seq<char>| (0u64, x);
    let s = v.subrange(0, n);
    if n > 0 {
        law_enrolled_cats(v, n - 1);
        assert(s.drop_last() =~= v.subrange(0, n - 1));
        assert(s.last() == v[n - 1]);
        let done = s.drop_last().filter(p);
        assert(done.push(v[n - 1]).map_values(f) =~= done.map_values(f).push(f(v[n - 1])));
    } else {
        assert(s.filter(p).map_values(f) =~= enrolled_upto(v, 0));
    }
}

/// The samples of a cat are the files whose names give a time.
pub proof fn law_samples_listed(v: Seq<Seq<char>>, n: int)
    requires
        0 <= n <= v.len(),
    ensures
        samples_upto(v, n) == v.subrange(0, n).filter(|x: Seq<char>| sample_time(x) is Some).map_values(
            |x: Seq<char>| (sample_time(x)->0, x),
        ),
    decreases n,
{
    reveal(Seq::filter);
    let p = |x: Seq<char>| sample_time(x) is Some;
    let f = |x: Seq<char>| (sample_time(x)->0, x);
    let s = v.subrange(0, n);
    if n > 0 {
        law_samples_listed(v, n - 1);
        assert(s.drop_last() =~= v.subrange(0, n - 1));
        assert(s.last() == v[n - 1]);
        let done = s.drop_last().filter(p);
        assert(done.push(v[n - 1]).map_values(f) =~= done.map_values(f).push(f(v[n - 1])));
    } else {
        assert(s.filter(p).map_values(f) =~= samples_upto(v, 0));
    }
}

/// Each crop that waits is listed with the time and the pet in its name, and with its guess.
pub proof fn law_pending_listed(v: Seq<Listed>, n: int)
    requires
        0 <= n <= v.len(),
    ensures
        pending_upto(v, n) == v.subrange(0, n).filter(|x: Listed| pending_of(x.name@) is Some).map_values(
            |x: Listed| (PendingCropView { name: x.name@, ts: (pending_of(x.name@)->0).0, vendor_pet_id: (pending_of(x.name@)->0).1, guess: opt_guess(x.guess) }),
        ),
    decreases n,
{
    reveal(Seq::filter);
    let p = |x: Listed| pending_of(x.name@) is Some;
    let f = |x: Listed| (PendingCropView { name: x.name@, ts: (pending_of(x.name@)->0).0, vendor_pet_id: (pending_of(x.name@)->0).1, guess: opt_guess(x.guess) });
    let s = v.subrange(0, n);
    if n > 0 {
        law_pending_listed(v, n - 1);
        assert(s.drop_last() =~= v.subrange(0, n - 1));
        assert(s.last() == v[n - 1]);
        let done = s.drop_last().filter(p);
        assert(done.push(v[n - 1]).map_values(f) =~= done.map_values(f).push(f(v[n - 1])));
    } else {
        assert(s.filter(p).map_values(f) =~= pending_upto(v, 0));
    }
}

/// Whether a crop shows that a cat was at the feeder.
pub open spec fn is_sighting_of(c: LabelledView, cat: Seq<char>) -> bool {
    c.cat == cat && !starts(c.name, UPLOAD_PREFIX@)
}

/// A cat was last seen at the second of its latest sighting, and never where it has none.
pub proof fn law_last_seen(v: Seq<LabelledView>, cat: Seq<char>, n: int, j: int) -> (k: int)
    requires
        0 <= n <= v.len(),
        0 <= j < n,
    ensures
        match seen_upto(v, cat, n) {
            Some(t) => 0 <= k < n && is_sighting_of(v[k], cat) && t * 1_000_000_000 <= v[k].mtime < (t
                + 1) * 1_000_000_000 && (is_sighting_of(v[j], cat) ==> v[j].mtime < (t + 1)
                * 1_000_000_000),
            None => !is_sighting_of(v[j], cat),
        },
    decreases n,
{
    if n == 1 {
        0
    } else {
        let k = law_last_seen(
            v,
            cat,
            n - 1,
            if j < n - 1 {
                j
            } else {
                0
            },
        );
        if is_sighting_of(v[n - 1], cat) && seen_upto(v, cat, n - 1) != seen_upto(v, cat, n) {
            n - 1
        } else {
            k
        }
    }
}

/// The newest crop is one that none is newer than; of several at one time it is the last.
pub proof fn law_newest_crop(v: Seq<LabelledView>, n: int, j: int)
    requires
        0 <= j < n <= v.len(),
    ensures
        newest_upto(v, n) matches Some(k) && 0 <= k < n && v[j].mtime <= v[k].mtime && (j > k
            ==> v[j].mtime < v[k].mtime),
    decreases n,
{
    reveal_with_fuel(newest_upto, 3);
    if n - 1 > 0 {
        if j < n - 1 {
            law_newest_crop(v, n - 1, j);
        } else {
            law_newest_crop(v, n - 1, 0);
        }
    }
}

/// Labelled crops are taken from the directories of cats alone.
pub proof fn law_labelled_crops_have_a_cat(dirs: Seq<CatDir>, n: int, i: int) -> (k: int)
    requires
        0 <= n <= dirs.len(),
        0 <= i < labelled_upto(dirs, n).len(),
    ensures
        0 <= k < n,
        labelled_upto(dirs, n)[i].cat == dirs[k].name@,
        dirs[k].name@ != "pending"@ && dirs[k].name@ != "other"@ && dirs[k].name@ != "not_a_cat"@,
    decreases n,
{
    let done = labelled_upto(dirs, n - 1);
    if i < done.len() {
        law_labelled_crops_have_a_cat(dirs, n - 1, i)
    } else {
        let d = dirs[n - 1];
        lemma_of_cat(d.name@, d.files@, d.files@.len() as int, i - done.len());
        n - 1
    }
}

proof fn lemma_of_cat(cat: Seq<char>, files: Seq<DirFile>, n: int, i: int)
    requires
        0 <= n <= files.len(),
        0 <= i < of_cat_upto(cat, files, n).len(),
    ensures
        of_cat_upto(cat, files, n)[i].cat == cat,
    decreases n,
{
    if n > 0 && i < of_cat_upto(cat, files, n - 1).len() {
        lemma_of_cat(cat, files, n - 1, i);
    }
}

/// A photo is taken in exactly where it starts as a JPEG does and is not over half a mebibyte.
pub proof fn law_photos_taken_in(bytes: Seq<u8>)
    ensures
        upload_verdict(bytes) is Ok <==> 3 <= bytes.len() <= 524_288 && bytes.subrange(0, 3) == seq![
            0xffu8,
            0xd8u8,
            0xffu8,
        ],
{
    if bytes.len() >= 3 {
        let h = bytes.subrange(0, 3);
        assert(h[0] == bytes[0] && h[1] == bytes[1] && h[2] == bytes[2]);
        assert(h == seq![0xffu8, 0xd8u8, 0xffu8] <==> h =~= seq![0xffu8, 0xd8u8, 0xffu8]);
    }
}

/// A crop gets the vendor's pet only within five minutes of the identification, either way, and keeps
/// its time.
pub proof fn law_retags_are_near(
    names: Seq<Seq<char>>,
    pet_id: u32,
    start_time: u64,
    n: int,
    i: int,
) -> (ts: u64)
    requires
        0 <= n <= names.len(),
        0 <= i < retags_upto(names, pet_id, start_time, n).len(),
    ensures
        ({
            let (from, to) = retags_upto(names, pet_id, start_time, n)[i];
            &&& names.contains(from)
            &&& unknown_since(from) == Some(ts)
            &&& -300 <= ts - start_time <= 300
            &&& pending_of(to) == Some((ts, Some(pet_id)))
        }),
    decreases n,
{
    let done = retags_upto(names, pet_id, start_time, n - 1);
    if i < done.len() {
        law_retags_are_near(names, pet_id, start_time, n - 1, i)
    } else {
        let ts = unknown_since(names[n - 1])->0;
        law_crop_name_reads_back(ts, Some(pet_id));
        ts
    }
}

/// A crop that waits under its time alone is known by that time.
pub proof fn law_unknown_crops_have_a_time(ts: u64)
    ensures
        unknown_since(crop_name(ts, None)) == Some(ts),
{
    reveal_strlit("-unknown.jpg");
    reveal_strlit("-");
    reveal_strlit("unknown");
    reveal_strlit(".jpg");
    let t = dec(ts as nat);
    let name = crop_name(ts, None);
    lemma_uint_of_dec(ts as nat, u64::MAX as nat);
    assert(name.len() == t.len() + 12);
    assert(name.subrange(name.len() - 12, name.len() as int) =~= "-unknown.jpg"@);
    assert(name.subrange(0, name.len() - 12) =~= t);
}

/// A file that stands beside another has its name up to the last dot, and its own ending.
pub proof fn law_ending_is_replaced(stem: Seq<char>, old_ending: Seq<char>, ending: Seq<char>)
    requires
        stem.len() > 0,
        lacks(old_ending, '.'),
    ensures
        with_ending(stem + "."@ + old_ending, ending) == stem + "."@ + ending,
        is_crop(stem + "."@ + old_ending) <==> old_ending == "jpg"@,
{
    reveal_strlit(".");
    let s = stem + "."@ + old_ending;
    let k = stem.len() as int;
    assert(s.subrange(k, k + 1) =~= "."@);
    assert forall|j: int| k < j <= s.len() implies !#[trigger] occurs_at(s, "."@, j) by {
        if occurs_at(s, "."@, j) {
            assert(s.subrange(j, j + 1)[0] == s[j]);
            assert(s[j] == old_ending[j - k - 1]);
        }
    }
    lemma_last_dot(s, s.len() as int, k);
    assert(s.subrange(0, k) =~= stem);
    assert(s.subrange(k + 1, s.len() as int) =~= old_ending);
}

proof fn lemma_last_dot(s: Seq<char>, i: int, k: int)
    requires
        0 <= k <= i,
        occurs_at(s, "."@, k),
        forall|j: int| k < j <= i ==> !#[trigger] occurs_at(s, "."@, j),
    ensures
        match_back(s, "."@, i) == Some(k),
    decreases i - k,
{
    if i > k {
        assert(!occurs_at(s, "."@, i));
        lemma_last_dot(s, i - 1, k);
    }
}

/// Deleting a crop removes it and what stands beside it, and nothing else.
pub proof fn law_deleting_removes_all(files: Map<Seq<char>, Seq<u8>>, dir: Seq<char>, name: Seq<char>)
    ensures
        after_steps(files, removal(dir, name)) == files.remove(in_dir(dir, name)).remove(
            in_dir(dir, with_ending(name, "emb"@)),
        ).remove(in_dir(dir, with_ending(name, "guess"@))),
{
    let none = Seq::<FileOpView>::empty();
    let a = FileOpView::Remove(in_dir(dir, name));
    let b = FileOpView::TryRemove(emb_path(dir, name));
    let c = FileOpView::TryRemove(guess_path(dir, name));
    assert(after_steps(files, none) == files);
    lemma_pushed(files, none, a);
    lemma_pushed(files, none.push(a), b);
    lemma_pushed(files, none.push(a).push(b), c);
    assert(removal(dir, name) =~= none.push(a).push(b).push(c));
}

/// A crop that gets its pet keeps its bytes, and so do the files beside it, each under the new name.
pub proof fn law_retagging_moves_all(
    files: Map<Seq<char>, Seq<u8>>,
    dir: Seq<char>,
    from: Seq<char>,
    to: Seq<char>,
)
    requires
        files.contains_key(in_dir(dir, from)),
        files.contains_key(emb_path(dir, from)),
        files.contains_key(guess_path(dir, from)),
        seq![
            in_dir(dir, from),
            emb_path(dir, from),
            guess_path(dir, from),
            in_dir(dir, to),
            emb_path(dir, to),
            guess_path(dir, to),
        ].no_duplicates(),
    ensures
        ({
            let m = after_steps(files, retag_steps(dir, from, to));
            &&& m.contains_key(in_dir(dir, to)) && m[in_dir(dir, to)] == files[in_dir(dir, from)]
            &&& m.contains_key(emb_path(dir, to)) && m[emb_path(dir, to)] == files[emb_path(dir, from)]
            &&& m.contains_key(guess_path(dir, to)) && m[guess_path(dir, to)] == files[guess_path(
                dir,
                from,
            )]
            &&& !m.contains_key(in_dir(dir, from)) && !m.contains_key(emb_path(dir, from))
                && !m.contains_key(guess_path(dir, from))
        }),
{
    let s = seq![
        in_dir(dir, from),
        emb_path(dir, from),
        guess_path(dir, from),
        in_dir(dir, to),
        emb_path(dir, to),
        guess_path(dir, to),
    ];
    assert(s[0] != s[1] && s[0] != s[2] && s[0] != s[3] && s[0] != s[4] && s[0] != s[5]);
    assert(s[1] != s[2] && s[1] != s[3] && s[1] != s[4] && s[1] != s[5]);
    assert(s[2] != s[3] && s[2] != s[4] && s[2] != s[5]);
    assert(s[3] != s[4] && s[3] != s[5] && s[4] != s[5]);
    let none = Seq::<FileOpView>::empty();
    let a = FileOpView::Rename(in_dir(dir, from), in_dir(dir, to));
    let b = FileOpView::TryRename(emb_path(dir, from), emb_path(dir, to));
    let c = FileOpView::TryRename(guess_path(dir, from), guess_path(dir, to));
    assert(after_steps(files, none) == files);
    lemma_pushed(files, none, a);
    lemma_pushed(files, none.push(a), b);
    lemma_pushed(files, none.push(a).push(b), c);
    assert(retag_steps(dir, from, to) =~= none.push(a).push(b).push(c));
}

/// Eviction goes through as many crops as there are over the cap.
pub proof fn law_excess(n: nat, cap: usize)
    ensures
        excess(n, cap) >= 0,
        n <= cap ==> excess(n, cap) == 0,
        n > cap ==> n - excess(n, cap) == cap,
{
}

/// Eviction removes the crops that come first in the order of their times, three files each.
pub proof fn law_eviction_steps(
    dir: Seq<char>,
    v: Seq<(u64, Seq<char>)>,
    p: Seq<usize>,
    n: int,
    i: int,
)
    requires
        0 <= i < n <= p.len(),
    ensures
        removals(dir, v, p, n).len() == 3 * n,
        removals(dir, v, p, n)[3 * i] == FileOpView::Remove(in_dir(dir, v[p[i] as int].1)),
        removals(dir, v, p, n)[3 * i + 1] == FileOpView::TryRemove(
            in_dir(dir, with_ending(v[p[i] as int].1, "emb"@)),
        ),
        removals(dir, v, p, n)[3 * i + 2] == FileOpView::TryRemove(
            in_dir(dir, with_ending(v[p[i] as int].1, "guess"@)),
        ),
    decreases n,
{
    lemma_removals_len(dir, v, p, n - 1);
    if i < n - 1 {
        law_eviction_steps(dir, v, p, n - 1, i);
    }
}

proof fn lemma_removals_len(dir: Seq<char>, v: Seq<(u64, Seq<char>)>, p: Seq<usize>, n: int)
    requires
        0 <= n <= p.len(),
    ensures
        removals(dir, v, p, n).len() == 3 * n,
    decreases n,
{
    if n > 0 {
        lemma_removals_len(dir, v, p, n - 1);
    }
}

/// A photo is taken in only for a cat that is enrolled, under a name that is safe.
pub proof fn law_photos_need_a_cat(bytes: Seq<u8>, cat: Seq<char>, there: bool)
    ensures
        upload_refusal(bytes, cat, there) is None ==> there && safe_name(cat) && cat != "other"@ && cat
            != "not_a_cat"@ && cat != "pending"@ && upload_verdict(bytes) is Ok,
        !there ==> upload_refusal(bytes, cat, there) is Some,
{
}

/// The label in a crop's name gives back the number of the cat, or that it is unknown.
pub proof fn law_labels_read_back(n: u32)
    ensures
        label_of(dec(n as nat)) == Some(Some(n)),
        label_of("unknown"@) == Some(None::<u32>),
        label_of(pet_label(Some(n))) == Some(Some(n)),
        label_of(pet_label(None)) == Some(None::<u32>),
{
    lemma_dec_worth(n as nat);
    reveal_strlit("unknown");
    assert(is_digit(dec(n as nat)[0]));
    assert("unknown"@[0] == 'u');
}

} // verus!
