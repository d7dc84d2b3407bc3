//! What labelling, unlabelling and deleting do to the files.

use vstd::prelude::*;
use vstd::string::*;

use crate::ai::{is_safe_name, safe_name};
use crate::faces::{
    cat_dir, crop_name, embedding_path_for, guess_path_for, has_jpg_extension, in_dir, is_crop,
    is_reserved_bucket, path_in, reserved, save_pending, upload_verdict, validate_upload,
    with_ending, DirFile, FaceError, FaceErrorView, FACES_ROOT, PENDING_DIR, PENDING_NAME,
    TRACK_ASSOCIATION_WINDOW_SECS, UPLOAD_PREFIX,
};
use crate::json::string_texts;
use crate::number::{dec, parse_u64, push_dec_wide, uint_of};
use crate::order::{is_stable_order, stable_order};
use crate::text::{ends, same, strip_suffix};

verus! {

/// One step on the files. A step whose name starts with `Try` may fail in silence.
#[derive(Debug, PartialEq, Eq)]
pub enum FileOp {
    MakeDir(String),
    Rename(String, String),
    TryRename(String, String),
    Remove(String),
    TryRemove(String),
}

pub enum FileOpView {
    MakeDir(Seq<char>),
    Rename(Seq<char>, Seq<char>),
    TryRename(Seq<char>, Seq<char>),
    Remove(Seq<char>),
    TryRemove(Seq<char>),
}

impl View for FileOp {
    type V = FileOpView;

    open spec fn view(&self) -> FileOpView {
        match self {
            FileOp::MakeDir(d) => FileOpView::MakeDir(d@),
            FileOp::Rename(a, b) => FileOpView::Rename(a@, b@),
            FileOp::TryRename(a, b) => FileOpView::TryRename(a@, b@),
            FileOp::Remove(a) => FileOpView::Remove(a@),
            FileOp::TryRemove(a) => FileOpView::TryRemove(a@),
        }
    }
}

pub open spec fn op_views(v: Seq<FileOp>) -> Seq<FileOpView> {
    v.map_values(|o: FileOp| o@)
}

/// Which files stand beside a crop.
#[derive(Debug, Clone, Copy, PartialEq, Eq, Structural)]
pub struct Sidecars {
    pub embedding: bool,
    pub guess: bool,
}

/// The embedding's file of a crop in a directory.
pub open spec fn emb_path(dir: Seq<char>, name: Seq<char>) -> Seq<char> {
    in_dir(dir, with_ending(name, "emb"@))
}

/// The guess's file of a crop in a directory.
pub open spec fn guess_path(dir: Seq<char>, name: Seq<char>) -> Seq<char> {
    in_dir(dir, with_ending(name, "guess"@))
}

/// The refusal of a request that names a crop and a cat: the crop's name is looked at first.
pub open spec fn refusal(name: Seq<char>, cat: Seq<char>) -> Option<FaceErrorView> {
    if !safe_name(name) {
        Some(FaceErrorView::InvalidName)
    } else if !safe_name(cat) {
        Some(FaceErrorView::InvalidCat(cat))
    } else {
        None
    }
}

/// Whether a crop and a cat are named as they can be.
pub fn check_names(name: &str, cat: &str) -> (r: Result<(), FaceError>)
    ensures
        match r {
            Ok(_) => refusal(name@, cat@) is None,
            Err(e) => refusal(name@, cat@) == Some(e@),
        },
{
    if !is_safe_name(name) {
        return Err(FaceError::InvalidName);
    }
    if !is_safe_name(cat) {
        return Err(FaceError::InvalidCat(cat.to_owned()));
    }
    Ok(())
}

/// The steps that label a crop.
pub open spec fn label_steps(name: Seq<char>, cat: Seq<char>, beside: Sidecars) -> Seq<FileOpView> {
    let from = PENDING_DIR@;
    let to = cat_dir(cat);
    let base = seq![
        FileOpView::MakeDir(to),
        FileOpView::Rename(in_dir(from, name), in_dir(to, name)),
    ];
    let with_emb = if beside.embedding {
        base.push(FileOpView::TryRename(emb_path(from, name), emb_path(to, name)))
    } else {
        base
    };
    if beside.guess {
        with_emb.push(FileOpView::TryRename(guess_path(from, name), guess_path(to, name)))
    } else {
        with_emb
    }
}

/// Names a crop: it moves to the directory of the cat with what stands beside it. `found` is `None`
/// where no such crop waits.
pub fn label(name: &str, cat: &str, found: Option<Sidecars>) -> (r: Result<Vec<FileOp>, FaceError>)
    ensures
        match r {
            Ok(ops) => refusal(name@, cat@) is None && (found matches Some(b) && op_views(ops@)
                == label_steps(name@, cat@, b)),
            Err(e) => match refusal(name@, cat@) {
                Some(x) => e@ == x,
                None => found is None && e@ == FaceErrorView::NotFound,
            },
        },
{
    check_names(name, cat)?;
    let beside: Sidecars = match found {
        Some(b) => b,
        None => return Err(FaceError::NotFound),
    };
    let to: String = path_in(FACES_ROOT, cat);
    let mut ops: Vec<FileOp> = Vec::new();
    ops.push(FileOp::MakeDir(to.clone()));
    ops.push(FileOp::Rename(path_in(PENDING_DIR, name), path_in(to.as_str(), name)));
    if beside.embedding {
        ops.push(
            FileOp::TryRename(
                embedding_path_for(PENDING_DIR, name),
                embedding_path_for(to.as_str(), name),
            ),
        );
    }
    if beside.guess {
        ops.push(
            FileOp::TryRename(
                guess_path_for(PENDING_DIR, name),
                guess_path_for(to.as_str(), name),
            ),
        );
    }
    assert(op_views(ops@) =~= label_steps(name@, cat@, beside));
    Ok(ops)
}

/// The steps that take a label back.
pub open spec fn unlabel_steps(cat: Seq<char>, name: Seq<char>, embedding: bool) -> Seq<FileOpView> {
    let from = cat_dir(cat);
    let to = PENDING_DIR@;
    let base = seq![
        FileOpView::MakeDir(to),
        FileOpView::Rename(in_dir(from, name), in_dir(to, name)),
    ];
    let with_emb = if embedding {
        base.push(FileOpView::TryRename(emb_path(from, name), emb_path(to, name)))
    } else {
        base
    };
    with_emb.push(FileOpView::TryRemove(guess_path(from, name)))
}

/// Takes a label back: the crop waits again, with its embedding; the guess is dropped. `found` says
/// whether an embedding stands beside the crop, and is `None` where the cat has no such crop.
pub fn unlabel(cat: &str, name: &str, found: Option<bool>) -> (r: Result<Vec<FileOp>, FaceError>)
    ensures
        match r {
            Ok(ops) => refusal(name@, cat@) is None && (found matches Some(b) && op_views(ops@)
                == unlabel_steps(cat@, name@, b)),
            Err(e) => match refusal(name@, cat@) {
                Some(x) => e@ == x,
                None => found is None && e@ == FaceErrorView::NotFound,
            },
        },
{
    check_names(name, cat)?;
    let embedding: bool = match found {
        Some(b) => b,
        None => return Err(FaceError::NotFound),
    };
    let from: String = path_in(FACES_ROOT, cat);
    let mut ops: Vec<FileOp> = Vec::new();
    ops.push(FileOp::MakeDir(PENDING_DIR.to_owned()));
    ops.push(FileOp::Rename(path_in(from.as_str(), name), path_in(PENDING_DIR, name)));
    if embedding {
        ops.push(
            FileOp::TryRename(
                embedding_path_for(from.as_str(), name),
                embedding_path_for(PENDING_DIR, name),
            ),
        );
    }
    ops.push(FileOp::TryRemove(guess_path_for(from.as_str(), name)));
    assert(op_views(ops@) =~= unlabel_steps(cat@, name@, embedding));
    Ok(ops)
}

/// The path of a crop that waits, where its name is safe.
pub fn read_pending(name: &str) -> (r: Result<String, FaceError>)
    ensures
        match r {
            Ok(p) => safe_name(name@) && p@ == in_dir(PENDING_DIR@, name@),
            Err(e) => !safe_name(name@) && e@ == FaceErrorView::InvalidName,
        },
{
    if !is_safe_name(name) {
        return Err(FaceError::InvalidName);
    }
    Ok(path_in(PENDING_DIR, name))
}

/// The path of a sample. The cat is looked at before the name; crops that wait are no samples.
pub fn read_sample(cat: &str, name: &str) -> (r: Result<String, FaceError>)
    ensures
        match r {
            Ok(p) => safe_name(cat@) && safe_name(name@) && cat@ != PENDING_NAME@ && p@ == in_dir(
                cat_dir(cat@),
                name@,
            ),
            Err(e) => if !safe_name(cat@) {
                e@ == FaceErrorView::InvalidCat(cat@)
            } else if !safe_name(name@) {
                e@ == FaceErrorView::InvalidName
            } else {
                cat@ == PENDING_NAME@ && e@ == FaceErrorView::NotFound
            },
        },
{
    if !is_safe_name(cat) {
        return Err(FaceError::InvalidCat(cat.to_owned()));
    }
    if !is_safe_name(name) {
        return Err(FaceError::InvalidName);
    }
    if same(cat, PENDING_NAME) {
        return Err(FaceError::NotFound);
    }
    Ok(path_in(path_in(FACES_ROOT, cat).as_str(), name))
}

/// The directory to make for a new cat.
pub fn add_cat(name: &str) -> (r: Result<String, FaceError>)
    ensures
        match r {
            Ok(p) => safe_name(name@) && !reserved(name@) && p@ == cat_dir(name@),
            Err(e) => (!safe_name(name@) || reserved(name@)) && e@ == FaceErrorView::InvalidCat(
                name@,
            ),
        },
{
    if !is_safe_name(name) || is_reserved_bucket(name) {
        return Err(FaceError::InvalidCat(name.to_owned()));
    }
    Ok(path_in(FACES_ROOT, name))
}

/// The directory to remove with a cat; `there` says whether it has one.
pub fn delete_cat(name: &str, there: bool) -> (r: Result<String, FaceError>)
    ensures
        match r {
            Ok(p) => safe_name(name@) && !reserved(name@) && name@ != PENDING_NAME@ && there && p@
                == cat_dir(name@),
            Err(e) => if !safe_name(name@) || reserved(name@) {
                e@ == FaceErrorView::InvalidCat(name@)
            } else {
                (name@ == PENDING_NAME@ || !there) && e@ == FaceErrorView::NotFound
            },
        },
{
    if !is_safe_name(name) || is_reserved_bucket(name) {
        return Err(FaceError::InvalidCat(name.to_owned()));
    }
    if same(name, PENDING_NAME) || !there {
        return Err(FaceError::NotFound);
    }
    Ok(path_in(FACES_ROOT, name))
}

/// The steps that remove a crop and what stands beside it.
pub open spec fn removal(dir: Seq<char>, name: Seq<char>) -> Seq<FileOpView> {
    seq![
        FileOpView::Remove(in_dir(dir, name)),
        FileOpView::TryRemove(emb_path(dir, name)),
        FileOpView::TryRemove(guess_path(dir, name)),
    ]
}

fn push_removal(ops: &mut Vec<FileOp>, dir: &str, name: &str)
    ensures
        op_views(final(ops)@) == op_views(old(ops)@) + removal(dir@, name@),
{
    let ghost start = ops@;
    ops.push(FileOp::Remove(path_in(dir, name)));
    ops.push(FileOp::TryRemove(embedding_path_for(dir, name)));
    ops.push(FileOp::TryRemove(guess_path_for(dir, name)));
    assert(op_views(ops@) =~= op_views(start) + removal(dir@, name@));
}

/// Deletes a sample; `there` says whether the cat has it.
pub fn delete_sample(cat: &str, name: &str, there: bool) -> (r: Result<Vec<FileOp>, FaceError>)
    ensures
        match r {
            Ok(ops) => refusal(name@, cat@) is None && cat@ != PENDING_NAME@ && there && op_views(
                ops@,
            ) == removal(cat_dir(cat@), name@),
            Err(e) => match refusal(name@, cat@) {
                Some(x) => e@ == x,
                None => (cat@ == PENDING_NAME@ || !there) && e@ == FaceErrorView::NotFound,
            },
        },
{
    check_names(name, cat)?;
    if same(cat, PENDING_NAME) || !there {
        return Err(FaceError::NotFound);
    }
    let dir: String = path_in(FACES_ROOT, cat);
    let mut ops: Vec<FileOp> = Vec::new();
    push_removal(&mut ops, dir.as_str(), name);
    assert(op_views(ops@) =~= removal(cat_dir(cat@), name@));
    Ok(ops)
}

/// What a photo that was taken in is reported with.
#[derive(Debug, PartialEq, Eq)]
pub struct UploadedSample {
    pub name: String,
    pub samples: usize,
    pub low_quality: bool,
}

/// The name of an uploaded photo.
pub open spec fn upload_name(now_ms: u128) -> Seq<char> {
    UPLOAD_PREFIX@ + dec(now_ms as nat) + ".jpg"@
}

/// Whether a photo can be taken in for a cat. `there` says whether the cat has a directory: only a
/// cat that is enrolled takes photos.
pub open spec fn upload_refusal(bytes: Seq<u8>, cat: Seq<char>, there: bool) -> Option<
    FaceErrorView,
> {
    if !safe_name(cat) {
        Some(FaceErrorView::InvalidCat(cat))
    } else {
        match upload_verdict(bytes) {
            Err(e) => Some(FaceErrorView::InvalidUpload(e)),
            Ok(_) => if reserved(cat) || cat == PENDING_NAME@ || !there {
                Some(FaceErrorView::NotFound)
            } else {
                None
            },
        }
    }
}

/// The name under which an uploaded photo is saved.
pub fn upload_sample(bytes: &[u8], cat: &str, there: bool, now_ms: u128) -> (r: Result<
    String,
    FaceError,
>)
    ensures
        match r {
            Ok(name) => upload_refusal(bytes@, cat@, there) is None && name@ == upload_name(now_ms),
            Err(e) => upload_refusal(bytes@, cat@, there) == Some(e@),
        },
{
    if !is_safe_name(cat) {
        return Err(FaceError::InvalidCat(cat.to_owned()));
    }
    if let Err(e) = validate_upload(bytes) {
        return Err(FaceError::InvalidUpload(e));
    }
    if is_reserved_bucket(cat) || same(cat, PENDING_NAME) || !there {
        return Err(FaceError::NotFound);
    }
    let mut name: String = UPLOAD_PREFIX.to_owned();
    push_dec_wide(&mut name, now_ms);
    name.append(".jpg");
    Ok(name)
}

/// The crops among the first `n` files.
pub open spec fn jpgs_upto(v: Seq<DirFile>, n: int) -> Seq<(u64, Seq<char>)>
    decreases n,
{
    if n <= 0 {
        Seq::empty()
    } else if is_crop(v[n - 1].name@) {
        jpgs_upto(v, n - 1).push((v[n - 1].mtime, v[n - 1].name@))
    } else {
        jpgs_upto(v, n - 1)
    }
}

pub open spec fn times(v: Seq<(u64, Seq<char>)>) -> Seq<u64> {
    v.map_values(|f: (u64, Seq<char>)| f.0)
}

/// The steps that remove the first `n` crops of the order `p`.
pub open spec fn removals(dir: Seq<char>, v: Seq<(u64, Seq<char>)>, p: Seq<usize>, n: int) -> Seq<
    FileOpView,
>
    decreases n,
{
    if n <= 0 {
        Seq::empty()
    } else {
        removals(dir, v, p, n - 1) + removal(dir, v[p[n - 1] as int].1)
    }
}

/// How many are over the cap.
pub open spec fn excess(n: nat, cap: usize) -> int {
    if n > cap {
        n - cap
    } else {
        0
    }
}

/// Removes the oldest crops of a directory, as many as there are over `cap`, with what stands beside
/// them. Other files do not count.
pub fn evict_oldest_if_over_cap(dir: &str, files: &Vec<DirFile>, cap: usize) -> (ops: Vec<FileOp>)
    ensures
        exists|p: Seq<usize>| #[trigger]
            is_stable_order(times(jpgs_upto(files@, files@.len() as int)), p) && op_views(ops@)
                == removals(
                dir@,
                jpgs_upto(files@, files@.len() as int),
                p,
                excess(jpgs_upto(files@, files@.len() as int).len(), cap),
            ),
{
    let mut names: Vec<&str> = Vec::new();
    let mut keys: Vec<u64> = Vec::new();
    let mut i: usize = 0;
    let ghost all = jpgs_upto(files@, files@.len() as int);
    while i < files.len()
        invariant
            i <= files@.len(),
            names@.len() == jpgs_upto(files@, i as int).len(),
            forall|j: int|
                0 <= j < names@.len() ==> (#[trigger] names@[j])@ == jpgs_upto(files@, i as int)[j].1,
            keys@ =~= times(jpgs_upto(files@, i as int)),
        decreases files@.len() - i,
    {
        let f: &DirFile = &files[i];
        if has_jpg_extension(f.name.as_str()) {
            names.push(f.name.as_str());
            keys.push(f.mtime);
        }
        i = i + 1;
    }
    let p: Vec<usize> = stable_order(&keys);
    let n: usize = if names.len() > cap {
        names.len() - cap
    } else {
        0
    };
    let mut ops: Vec<FileOp> = Vec::new();
    let mut k: usize = 0;
    assert(op_views(ops@) =~= Seq::<FileOpView>::empty());
    while k < n
        invariant
            k <= n <= names@.len() == p@.len() == all.len(),
            is_stable_order(times(all), p@),
            forall|j: int| 0 <= j < names@.len() ==> (#[trigger] names@[j])@ == all[j].1,
            op_views(ops@) == removals(dir@, all, p@, k as int),
        decreases n - k,
    {
        let at: usize = p[k];
        assert(0 <= at < all.len());
        push_removal(&mut ops, dir, names[at]);
        k = k + 1;
    }
    assert(is_stable_order(times(all), p@));
    ops
}

/// The time of a crop whose pet is not known.
pub open spec fn unknown_since(name: Seq<char>) -> Option<u64> {
    if ends(name, "-unknown.jpg"@) {
        match uint_of(
            name.subrange(0, name.len() - "-unknown.jpg"@.len()),
            10,
            u64::MAX as nat,
        ) {
            Some(n) => Some(n as u64),
            None => None,
        }
    } else {
        None
    }
}

/// Whether an identification can be meant for a crop.
pub open spec fn within_window(ts: u64, start_time: u64) -> bool {
    ts - start_time <= TRACK_ASSOCIATION_WINDOW_SECS && start_time - ts
        <= TRACK_ASSOCIATION_WINDOW_SECS
}

/// The new names among `v`.
pub open spec fn targets(v: Seq<(Seq<char>, Seq<char>)>) -> Seq<Seq<char>> {
    v.map_values(|x: (Seq<char>, Seq<char>)| x.1)
}

/// Which of the first `n` files get a new name: the crops of an unknown pet that lie within the
/// window, unless a file of the new name is there already.
pub open spec fn retags_upto(names: Seq<Seq<char>>, pet_id: u32, start_time: u64, n: int) -> Seq<
    (Seq<char>, Seq<char>),
>
    decreases n,
{
    if n <= 0 {
        Seq::empty()
    } else {
        let done = retags_upto(names, pet_id, start_time, n - 1);
        match unknown_since(names[n - 1]) {
            Some(ts) if within_window(ts, start_time) => {
                let to = crop_name(ts, Some(pet_id));
                if names.contains(to) || targets(done).contains(to) {
                    done
                } else {
                    done.push((names[n - 1], to))
                }
            },
            _ => done,
        }
    }
}

/// A crop that gets a new name.
#[derive(Debug, PartialEq, Eq)]
pub struct Retag {
    pub from: String,
    pub to: String,
}

pub open spec fn retag_views(v: Seq<Retag>) -> Seq<(Seq<char>, Seq<char>)> {
    v.map_values(|r: Retag| (r.from@, r.to@))
}

fn listed(names: &Vec<String>, name: &str) -> (r: bool)
    ensures
        r == string_texts(names@).contains(name@),
{
    let ghost views = string_texts(names@);
    let mut i: usize = 0;
    while i < names.len()
        invariant
            i <= names@.len(),
            views == string_texts(names@),
            forall|j: int| 0 <= j < i ==> #[trigger] views[j] != name@,
        decreases names@.len() - i,
    {
        assert(views[i as int] == names@[i as int]@);
        if same(names[i].as_str(), name) {
            assert(views.contains(name@));
            return true;
        }
        i = i + 1;
    }
    false
}

fn taken(v: &Vec<Retag>, name: &str) -> (r: bool)
    ensures
        r == targets(retag_views(v@)).contains(name@),
{
    let ghost views = targets(retag_views(v@));
    let mut i: usize = 0;
    while i < v.len()
        invariant
            i <= v@.len(),
            views == targets(retag_views(v@)),
            forall|j: int| 0 <= j < i ==> #[trigger] views[j] != name@,
        decreases v@.len() - i,
    {
        assert(views[i as int] == v@[i as int].to@);
        if same(v[i].to.as_str(), name) {
            assert(views.contains(name@));
            return true;
        }
        i = i + 1;
    }
    false
}

/// Which files of a directory get a new name now that the vendor has identified a pet. None is ever
/// overwritten.
pub fn associate_track_in(names: &Vec<String>, pet_id: u32, start_time: u64) -> (out: Vec<Retag>)
    ensures
        retag_views(out@) == retags_upto(
            string_texts(names@),
            pet_id,
            start_time,
            names@.len() as int,
        ),
{
    let ghost views = string_texts(names@);
    let mut out: Vec<Retag> = Vec::new();
    let mut i: usize = 0;
    assert(retag_views(out@) =~= Seq::<(Seq<char>, Seq<char>)>::empty());
    while i < names.len()
        invariant
            i <= names@.len(),
            views == string_texts(names@),
            retag_views(out@) == retags_upto(views, pet_id, start_time, i as int),
        decreases names@.len() - i,
    {
        let name: &str = names[i].as_str();
        assert(views[i as int] == name@);
        let ghost done = out@;
        if let Some(t) = strip_suffix(name, "-unknown.jpg") {
            if let Some(ts) = parse_u64(t) {
                let apart: u64 = if ts > start_time {
                    ts - start_time
                } else {
                    start_time - ts
                };
                if apart <= TRACK_ASSOCIATION_WINDOW_SECS {
                    let to: String = save_pending(ts, Some(pet_id));
                    if !listed(names, to.as_str()) && !taken(&out, to.as_str()) {
                        let r: Retag = Retag { from: name.to_owned(), to };
                        let ghost x = (r.from@, r.to@);
                        out.push(r);
                        assert(retag_views(out@) =~= retag_views(done).push(x));
                    }
                }
            }
        }
        i = i + 1;
    }
    out
}

/// The steps that give one crop its new name.
pub open spec fn retag_steps(dir: Seq<char>, from: Seq<char>, to: Seq<char>) -> Seq<FileOpView> {
    seq![
        FileOpView::Rename(in_dir(dir, from), in_dir(dir, to)),
        FileOpView::TryRename(emb_path(dir, from), emb_path(dir, to)),
        FileOpView::TryRename(guess_path(dir, from), guess_path(dir, to)),
    ]
}

/// The steps for the first `n` crops.
pub open spec fn retags_steps(dir: Seq<char>, v: Seq<(Seq<char>, Seq<char>)>, n: int) -> Seq<
    FileOpView,
>
    decreases n,
{
    if n <= 0 {
        Seq::empty()
    } else {
        retags_steps(dir, v, n - 1) + retag_steps(dir, v[n - 1].0, v[n - 1].1)
    }
}

fn push_retag(ops: &mut Vec<FileOp>, r: &Retag)
    ensures
        op_views(final(ops)@) == op_views(old(ops)@) + retag_steps(PENDING_DIR@, r.from@, r.to@),
{
    let ghost start = ops@;
    let from: &str = r.from.as_str();
    let to: &str = r.to.as_str();
    ops.push(FileOp::Rename(path_in(PENDING_DIR, from), path_in(PENDING_DIR, to)));
    ops.push(
        FileOp::TryRename(
            embedding_path_for(PENDING_DIR, from),
            embedding_path_for(PENDING_DIR, to),
        ),
    );
    ops.push(
        FileOp::TryRename(guess_path_for(PENDING_DIR, from), guess_path_for(PENDING_DIR, to)),
    );
    assert(op_views(ops@) =~= op_views(start) + retag_steps(PENDING_DIR@, from@, to@));
}

/// The vendor has identified a pet: gives the crops that wait and are meant by it their new names,
/// with what stands beside them. `names` are all files that wait.
pub fn associate_track(names: &Vec<String>, pet_id: u32, start_time: u64) -> (ops: Vec<FileOp>)
    ensures
        op_views(ops@) == ({
            let v = retags_upto(
                string_texts(names@),
                pet_id,
                start_time,
                names@.len() as int,
            );
            retags_steps(PENDING_DIR@, v, v.len() as int)
        }),
{
    let retags: Vec<Retag> = associate_track_in(names, pet_id, start_time);
    let ghost v = retag_views(retags@);
    let mut ops: Vec<FileOp> = Vec::new();
    let mut i: usize = 0;
    assert(op_views(ops@) =~= Seq::<FileOpView>::empty());
    while i < retags.len()
        invariant
            i <= retags@.len() == v.len(),
            v == retag_views(retags@),
            op_views(ops@) == retags_steps(PENDING_DIR@, v, i as int),
        decreases retags@.len() - i,
    {
        assert(v[i as int] == (retags@[i as int].from@, retags@[i as int].to@));
        push_retag(&mut ops, &retags[i]);
        i = i + 1;
    }
    ops
}

} // verus!
