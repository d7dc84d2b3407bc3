//! Face crops: how they are named, what waits for a human to name it, and what is kept per cat.
//!
//! A crop waits in [`PENDING_DIR`] until it is labelled, which moves it to the directory of a cat.
//! Beside a crop may stand two files with the same stem: its embedding and the classifier's guess.
//! The decisions here are made from listings; what they call for is a list of [`FileOp`]s.

use vstd::prelude::*;
use vstd::string::*;

use crate::ai::{is_safe_name, safe_name};
use crate::bytes::{le32, le32_at, push_le32, read_le32};
use crate::embed::EMBED_DIM;
use crate::http::{field_of, json_field};
use crate::json::{
    escaped_or_null, join, joined, opt_json_escaped, opt_text, string_texts,
};
use crate::number::{
    dec, digits_of, has_float_form, is_float, parse_plain, parse_u64, push_dec, push_dec_wide,
    uint_of,
};
use crate::order::{
    is_named_order, is_stable_order, lemma_named_order_lists_all, named_earlier, named_keys,
    named_order, stable_order,
};
use crate::push::Field;
use crate::text::{
    char_len, cut, debug_text, debugged, ends, ends_with, escape_debug, escaped, match_back,
    rfind_str, same, skip, split_once, starts, starts_with, strip_prefix, strip_suffix, take, Pat,
};

pub mod laws;

pub mod store;

verus! {

pub const FACES_ROOT: &'static str = "/opt/kibble/faces";

pub const PENDING_DIR: &'static str = "/opt/kibble/faces/pending";

/// The last segment of [`PENDING_DIR`]: never a cat.
pub const PENDING_NAME: &'static str = "pending";

/// How many crops may wait.
pub const MAX_PENDING: usize = 200;

/// The largest photo that is taken in.
pub const MAX_UPLOAD_BYTES: usize = 524_288;

/// How far apart, in seconds, a crop and the vendor's identification may be.
pub const TRACK_ASSOCIATION_WINDOW_SECS: u64 = 300;

/// Where crops go that are worth nothing.
pub const SKIP_BUCKET: &'static str = "other";

/// Where crops go that show no cat.
pub const NOT_A_CAT_BUCKET: &'static str = "not_a_cat";

/// What the names of uploaded photos start with.
pub const UPLOAD_PREFIX: &'static str = "upload-";

/// What clients are told about once the crops have changed.
pub fn changed_fields() -> (r: [Field; 4])
    ensures
        r@ == seq![Field::Cats, Field::Identify, Field::ReviewFace, Field::PendingFaces],
{
    let r: [Field; 4] = [Field::Cats, Field::Identify, Field::ReviewFace, Field::PendingFaces];
    assert(r@ =~= seq![Field::Cats, Field::Identify, Field::ReviewFace, Field::PendingFaces]);
    r
}

/// What stands for the pet in the name of a crop.
pub open spec fn pet_label(pet_id: Option<u32>) -> Seq<char> {
    match pet_id {
        Some(id) => dec(id as nat),
        None => "unknown"@,
    }
}

/// The name of a crop: the time and the pet.
pub open spec fn crop_name(ts: u64, pet_id: Option<u32>) -> Seq<char> {
    dec(ts as nat) + "-"@ + pet_label(pet_id) + ".jpg"@
}

/// The name under which a crop is saved.
pub fn save_pending(now: u64, pet_id: Option<u32>) -> (s: String)
    ensures
        s@ == crop_name(now, pet_id),
{
    let mut s: String = String::new();
    push_dec(&mut s, now);
    assert(s@ =~= dec(now as nat));
    s.append("-");
    match pet_id {
        Some(id) => push_dec(&mut s, id as u64),
        None => s.append("unknown"),
    }
    s.append(".jpg");
    s
}

/// The pet that stands in the name of a crop: `unknown`, or an id in plain digits.
pub open spec fn label_of(label: Seq<char>) -> Option<Option<u32>> {
    if label == "unknown"@ {
        Some(None)
    } else {
        match digits_of(label, 10, u32::MAX as nat) {
            Some(n) => Some(Some(n as u32)),
            None => None,
        }
    }
}

/// Time and pet of a crop by its name, where that is the time in plain digits, a dash, the pet and
/// `.jpg`.
pub open spec fn pending_of(name: Seq<char>) -> Option<(u64, Option<u32>)> {
    if !ends(name, ".jpg"@) {
        None
    } else {
        match cut(name.subrange(0, name.len() - 4), Pat::Is('-')) {
            None => None,
            Some((t, label)) => match (digits_of(t, 10, u64::MAX as nat), label_of(label)) {
                (Some(ts), Some(pet)) => Some((ts as u64, pet)),
                _ => None,
            },
        }
    }
}

fn parse_label(label: &str) -> (r: Option<Option<u32>>)
    ensures
        r == label_of(label@),
{
    if same(label, "unknown") {
        Some(None)
    } else {
        match parse_plain(label, u32::MAX as u64) {
            Some(n) => Some(Some(n as u32)),
            None => None,
        }
    }
}

/// Reads the time and the pet out of the name of a crop; a name of another form gives nothing.
pub fn parse_pending_name(name: &str) -> (r: Option<(u64, Option<u32>)>)
    ensures
        r == pending_of(name@),
{
    proof {
        reveal_strlit(".jpg");
    }
    match strip_suffix(name, ".jpg") {
        None => None,
        Some(stem) => match split_once(stem, Pat::Is('-')) {
            None => None,
            Some((t, label)) => match (parse_plain(t, u64::MAX), parse_label(label)) {
                (Some(ts), Some(pet)) => Some((ts, pet)),
                _ => None,
            },
        },
    }
}

/// Why a photo is not taken in.
#[derive(Debug, Clone, Copy, PartialEq, Eq, Structural)]
pub enum UploadError {
    NotJpeg,
    TooLarge(usize),
}

impl UploadError {
    pub open spec fn text(self) -> Seq<char> {
        match self {
            UploadError::NotJpeg => "not a JPEG (missing FF D8 FF magic)"@,
            UploadError::TooLarge(n) => dec(n as nat) + " bytes exceeds the 524288-byte limit"@,
        }
    }

    pub fn message(&self) -> (s: String)
        ensures
            s@ == self.text(),
    {
        match *self {
            UploadError::NotJpeg => "not a JPEG (missing FF D8 FF magic)".to_owned(),
            UploadError::TooLarge(n) => {
                let mut s: String = String::new();
                push_dec_wide(&mut s, n as u128);
                assert(s@ =~= dec(n as nat));
                s.append(" bytes exceeds the 524288-byte limit");
                s
            },
        }
    }
}

/// Whether bytes start as a JPEG does.
pub open spec fn is_jpeg(bytes: Seq<u8>) -> bool {
    bytes.len() >= 3 && bytes[0] == 0xff && bytes[1] == 0xd8 && bytes[2] == 0xff
}

pub open spec fn upload_verdict(bytes: Seq<u8>) -> Result<(), UploadError> {
    if bytes.len() > MAX_UPLOAD_BYTES {
        Err(UploadError::TooLarge(bytes.len() as usize))
    } else if !is_jpeg(bytes) {
        Err(UploadError::NotJpeg)
    } else {
        Ok(())
    }
}

/// Whether a photo can be taken in: its size is looked at first.
pub fn validate_upload(bytes: &[u8]) -> (r: Result<(), UploadError>)
    ensures
        r == upload_verdict(bytes@),
{
    if bytes.len() > MAX_UPLOAD_BYTES {
        return Err(UploadError::TooLarge(bytes.len()));
    }
    if !(bytes.len() >= 3 && bytes[0] == 0xff && bytes[1] == 0xd8 && bytes[2] == 0xff) {
        return Err(UploadError::NotJpeg);
    }
    Ok(())
}

/// Why a request about crops is refused.
#[derive(Debug)]
pub enum FaceError {
    InvalidName,
    InvalidCat(String),
    NotFound,
    InvalidUpload(UploadError),
    Io(String),
}

/// A refusal with its texts as sequences.
pub enum FaceErrorView {
    InvalidName,
    InvalidCat(Seq<char>),
    NotFound,
    InvalidUpload(UploadError),
    Io(Seq<char>),
}

impl View for FaceError {
    type V = FaceErrorView;

    open spec fn view(&self) -> FaceErrorView {
        match self {
            FaceError::InvalidName => FaceErrorView::InvalidName,
            FaceError::InvalidCat(c) => FaceErrorView::InvalidCat(c@),
            FaceError::NotFound => FaceErrorView::NotFound,
            FaceError::InvalidUpload(e) => FaceErrorView::InvalidUpload(*e),
            FaceError::Io(m) => FaceErrorView::Io(m@),
        }
    }
}

impl FaceErrorView {
    pub open spec fn text(self) -> Seq<char> {
        match self {
            FaceErrorView::InvalidName => "invalid file name"@,
            FaceErrorView::InvalidCat(c) => "invalid \"cat\" "@ + debugged(c),
            FaceErrorView::NotFound => "no such pending face crop"@,
            FaceErrorView::InvalidUpload(e) => e.text(),
            FaceErrorView::Io(m) => m,
        }
    }
}

impl FaceError {
    pub fn message(&self) -> (s: String)
        ensures
            s@ == self@.text(),
    {
        match self {
            FaceError::InvalidName => "invalid file name".to_owned(),
            FaceError::InvalidCat(c) => {
                let mut s: String = "invalid \"cat\" ".to_owned();
                s.append(debug_text(c.as_str()).as_str());
                s
            },
            FaceError::NotFound => "no such pending face crop".to_owned(),
            FaceError::InvalidUpload(e) => e.message(),
            FaceError::Io(m) => m.clone(),
        }
    }
}

/// Whether a name is set aside and no cat.
pub open spec fn reserved(cat: Seq<char>) -> bool {
    cat == SKIP_BUCKET@ || cat == NOT_A_CAT_BUCKET@
}

pub fn is_reserved_bucket(cat: &str) -> (r: bool)
    ensures
        r == reserved(cat@),
{
    same(cat, SKIP_BUCKET) || same(cat, NOT_A_CAT_BUCKET)
}

/// Where the ending of a file's name starts: at its last dot, unless that is its first character.
pub open spec fn dot_of(name: Seq<char>) -> Option<int> {
    match match_back(name, "."@, name.len() as int) {
        Some(i) if i > 0 => Some(i),
        _ => None,
    }
}

/// A file's name with another ending.
pub open spec fn with_ending(name: Seq<char>, ending: Seq<char>) -> Seq<char> {
    match dot_of(name) {
        Some(i) => name.subrange(0, i) + "."@ + ending,
        None => name + "."@ + ending,
    }
}

pub fn with_extension(name: &str, ending: &str) -> (s: String)
    ensures
        s@ == with_ending(name@, ending@),
{
    let stem: &str = match rfind_str(name, ".") {
        Some(i) if i > 0 => take(name, i),
        _ => name,
    };
    let mut s: String = stem.to_owned();
    s.append(".");
    s.append(ending);
    s
}

/// Whether a file's name has the ending of a crop and more than that.
pub open spec fn is_crop(name: Seq<char>) -> bool {
    match dot_of(name) {
        Some(i) => name.subrange(i + 1, name.len() as int) == "jpg"@,
        None => false,
    }
}

pub fn has_jpg_extension(name: &str) -> (r: bool)
    ensures
        r == is_crop(name@),
{
    proof {
        reveal_strlit(".");
    }
    let n: usize = char_len(name);
    match rfind_str(name, ".") {
        Some(i) if 0 < i && i < n => same(skip(name, i + 1), "jpg"),
        _ => false,
    }
}

/// A path in a directory.
pub open spec fn in_dir(dir: Seq<char>, name: Seq<char>) -> Seq<char> {
    dir + "/"@ + name
}

pub fn path_in(dir: &str, name: &str) -> (s: String)
    ensures
        s@ == in_dir(dir@, name@),
{
    let mut s: String = dir.to_owned();
    s.append("/");
    s.append(name);
    s
}

/// The directory of a cat.
pub open spec fn cat_dir(cat: Seq<char>) -> Seq<char> {
    in_dir(FACES_ROOT@, cat)
}

/// The file that keeps a crop's embedding.
pub fn embedding_path_for(dir: &str, name: &str) -> (s: String)
    ensures
        s@ == in_dir(dir@, with_ending(name@, "emb"@)),
{
    path_in(dir, with_extension(name, "emb").as_str())
}

/// The file that keeps what the classifier guessed.
pub fn guess_path_for(dir: &str, name: &str) -> (s: String)
    ensures
        s@ == in_dir(dir@, with_ending(name@, "guess"@)),
{
    path_in(dir, with_extension(name, "guess").as_str())
}

/// The bytes of an embedding, given by the bit patterns of its numbers.
pub open spec fn embedding_bytes(feat: Seq<u32>) -> Seq<u8>
    decreases feat.len(),
{
    if feat.len() == 0 {
        Seq::empty()
    } else {
        embedding_bytes(feat.drop_last()) + le32(feat.last() as nat)
    }
}

/// An embedding as it is kept.
pub fn save_embedding(feat: &Vec<u32>) -> (out: Vec<u8>)
    ensures
        out@ == embedding_bytes(feat@),
{
    let mut out: Vec<u8> = Vec::new();
    let mut i: usize = 0;
    assert(feat@.subrange(0, 0) =~= Seq::<u32>::empty());
    while i < feat.len()
        invariant
            i <= feat@.len(),
            out@ == embedding_bytes(feat@.subrange(0, i as int)),
        decreases feat@.len() - i,
    {
        push_le32(&mut out, feat[i]);
        i = i + 1;
        assert(feat@.subrange(0, i as int).drop_last() =~= feat@.subrange(0, i - 1));
    }
    assert(feat@.subrange(0, i as int) =~= feat@);
    out
}

/// An embedding read back: the bit patterns of its numbers, or `None` where the file is not as long
/// as an embedding is.
pub fn load_embedding(bytes: &[u8]) -> (r: Option<Vec<u32>>)
    ensures
        match r {
            Some(feat) => bytes@.len() == EMBED_DIM * 4 && feat@.len() == EMBED_DIM && forall|i: int|
                0 <= i < EMBED_DIM ==> #[trigger] feat@[i] == le32_at(bytes@, i * 4),
            None => bytes@.len() != EMBED_DIM * 4,
        },
{
    if bytes.len() != EMBED_DIM * 4 {
        return None;
    }
    let mut feat: Vec<u32> = Vec::new();
    let mut i: usize = 0;
    while i < EMBED_DIM
        invariant
            i <= EMBED_DIM,
            bytes.len() == EMBED_DIM * 4,
            feat@.len() == i,
            forall|j: int| 0 <= j < i ==> #[trigger] feat@[j] == le32_at(bytes@, j * 4),
        decreases EMBED_DIM - i,
    {
        feat.push(read_le32(bytes, i * 4));
        i = i + 1;
    }
    Some(feat)
}

/// What the classifier made of a crop. The score is held as the text that stands for it.
#[derive(Debug, PartialEq, Eq)]
pub struct Guess {
    pub cat: String,
    pub score: String,
}

pub struct GuessView {
    pub cat: Seq<char>,
    pub score: Seq<char>,
}

impl View for Guess {
    type V = GuessView;

    open spec fn view(&self) -> GuessView {
        GuessView { cat: self.cat@, score: self.score@ }
    }
}

impl Clone for Guess {
    fn clone(&self) -> (r: Guess)
        ensures
            r@ == self@,
    {
        Guess { cat: self.cat.clone(), score: self.score.clone() }
    }
}

pub open spec fn guess_text(g: GuessView) -> Seq<char> {
    "{\"cat\":\""@ + escaped(g.cat) + "\",\"score\":"@ + g.score + "}"@
}

/// A guess as it is kept and reported.
pub fn guess_json(g: &Guess) -> (s: String)
    ensures
        s@ == guess_text(g@),
{
    let mut s: String = "{\"cat\":\"".to_owned();
    s.append(escape_debug(g.cat.as_str()).as_str());
    s.append("\",\"score\":");
    s.append(g.score.as_str());
    s.append("}");
    s
}

/// The guess that `text` keeps: a cat, and a score that is a number.
pub open spec fn guess_of(text: Seq<char>) -> Option<GuessView> {
    match (field_of(text, "cat"@), field_of(text, "score"@)) {
        (Some(cat), Some(score)) => if is_float(score) {
            Some(GuessView { cat, score })
        } else {
            None
        },
        _ => None,
    }
}

/// A guess read back.
pub fn load_guess(text: &str) -> (r: Option<Guess>)
    ensures
        opt_guess(r) == guess_of(text@),
{
    match (json_field(text, "cat"), json_field(text, "score")) {
        (Some(cat), Some(score)) => if has_float_form(score) {
            Some(Guess { cat: cat.to_owned(), score: score.to_owned() })
        } else {
            None
        },
        _ => None,
    }
}

pub open spec fn opt_guess(o: Option<Guess>) -> Option<GuessView> {
    match o {
        Some(g) => Some(g@),
        None => None,
    }
}

fn copy_guess(o: &Option<Guess>) -> (r: Option<Guess>)
    ensures
        opt_guess(r) == opt_guess(*o),
{
    match o {
        Some(g) => Some(g.clone()),
        None => None,
    }
}

/// A file of a listing.
pub struct DirFile {
    pub name: String,
    /// When it was written, in nanoseconds of Unix time.
    pub mtime: u64,
}

/// The crops among the first `n` files: time and name of each.
pub open spec fn crops_upto(v: Seq<DirFile>, n: int) -> Seq<(u64, Seq<char>)>
    decreases n,
{
    if n <= 0 {
        Seq::empty()
    } else if ends(v[n - 1].name@, ".jpg"@) {
        crops_upto(v, n - 1).push((v[n - 1].mtime, v[n - 1].name@))
    } else {
        crops_upto(v, n - 1)
    }
}

/// The crops of a listing, in its order.
pub open spec fn crops(v: Seq<DirFile>) -> Seq<(u64, Seq<char>)> {
    crops_upto(v, v.len() as int)
}

/// The names of `all` in the order `p`.
pub open spec fn names_by(all: Seq<(u64, Seq<char>)>, p: Seq<usize>) -> Seq<Seq<char>> {
    Seq::new(all.len(), |i: int| all[p[i] as int].1)
}

/// Whether `names` are those of the crops in `files`, the oldest first; crops that were written at
/// one time go by name.
pub open spec fn oldest_first(files: Seq<DirFile>, names: Seq<Seq<char>>) -> bool {
    exists|p: Seq<usize>|
        #![trigger is_named_order(crops(files), p)]
        is_named_order(crops(files), p) && names == names_by(crops(files), p)
}

/// The crops that wait, the oldest first.
pub fn list_pending(files: &Vec<DirFile>) -> (names: Vec<String>)
    ensures
        oldest_first(files@, string_texts(names@)),
{
    let mut keys: Vec<(u64, String)> = Vec::new();
    let mut i: usize = 0;
    assert(named_keys(keys@) =~= crops_upto(files@, 0));
    while i < files.len()
        invariant
            i <= files@.len(),
            named_keys(keys@) == crops_upto(files@, i as int),
        decreases files@.len() - i,
    {
        let ghost done = keys@;
        if ends_with(files[i].name.as_str(), ".jpg") {
            let k: (u64, String) = (files[i].mtime, files[i].name.clone());
            keys.push(k);
            assert(named_keys(keys@) =~= named_keys(done).push((k.0, k.1@)));
        }
        i = i + 1;
    }
    let ghost all = crops(files@);
    let p: Vec<usize> = named_order(&keys);
    let mut names: Vec<String> = Vec::new();
    let mut k: usize = 0;
    assert(keys@.len() == named_keys(keys@).len());
    while k < p.len()
        invariant
            k <= p@.len() == keys@.len(),
            all == named_keys(keys@),
            is_named_order(all, p@),
            names@.len() == k,
            forall|j: int| 0 <= j < k ==> (#[trigger] names@[j])@ == all[p@[j] as int].1,
        decreases p@.len() - k,
    {
        let at: usize = p[k];
        assert(0 <= at < keys@.len());
        names.push(keys[at].1.clone());
        k = k + 1;
    }
    assert(string_texts(names@) =~= names_by(all, p@));
    assert(is_named_order(all, p@));
    names
}

/// A crop that waits.
#[derive(Debug, PartialEq, Eq)]
pub struct PendingCrop {
    pub name: String,
    pub ts: u64,
    pub vendor_pet_id: Option<u32>,
    pub guess: Option<Guess>,
}

pub struct PendingCropView {
    pub name: Seq<char>,
    pub ts: u64,
    pub vendor_pet_id: Option<u32>,
    pub guess: Option<GuessView>,
}

impl View for PendingCrop {
    type V = PendingCropView;

    open spec fn view(&self) -> PendingCropView {
        PendingCropView {
            name: self.name@,
            ts: self.ts,
            vendor_pet_id: self.vendor_pet_id,
            guess: opt_guess(self.guess),
        }
    }
}

impl Clone for PendingCrop {
    fn clone(&self) -> (r: PendingCrop)
        ensures
            r@ == self@,
    {
        PendingCrop {
            name: self.name.clone(),
            ts: self.ts,
            vendor_pet_id: self.vendor_pet_id,
            guess: copy_guess(&self.guess),
        }
    }
}

pub open spec fn pending_views(v: Seq<PendingCrop>) -> Seq<PendingCropView> {
    v.map_values(|c: PendingCrop| c@)
}

/// A listed crop with the guess beside it.
pub struct Listed {
    pub name: String,
    pub guess: Option<Guess>,
}

/// The crops among the first `n` names; a name that is none is left out.
pub open spec fn pending_upto(v: Seq<Listed>, n: int) -> Seq<PendingCropView>
    decreases n,
{
    if n <= 0 {
        Seq::empty()
    } else {
        match pending_of(v[n - 1].name@) {
            Some((ts, vendor_pet_id)) => pending_upto(v, n - 1).push(
                PendingCropView {
                    name: v[n - 1].name@,
                    ts,
                    vendor_pet_id,
                    guess: opt_guess(v[n - 1].guess),
                },
            ),
            None => pending_upto(v, n - 1),
        }
    }
}

pub open spec fn pending_times(v: Seq<PendingCropView>) -> Seq<u64> {
    v.map_values(|c: PendingCropView| c.ts)
}

/// Whether `out` are the crops `v` by the time in their names, at equal times in their order.
pub open spec fn pending_sorted(v: Seq<PendingCropView>, out: Seq<PendingCropView>) -> bool {
    exists|p: Seq<usize>|
        #![trigger is_stable_order(pending_times(v), p)]
        is_stable_order(pending_times(v), p) && out == Seq::new(v.len(), |i: int| v[p[i] as int])
}

/// What is known of the crops that wait, by the time in their names.
pub fn list_pending_full(listed: &Vec<Listed>) -> (out: Vec<PendingCrop>)
    ensures
        pending_sorted(pending_upto(listed@, listed@.len() as int), pending_views(out@)),
{
    let mut v: Vec<PendingCrop> = Vec::new();
    let mut keys: Vec<u64> = Vec::new();
    let mut i: usize = 0;
    assert(pending_views(v@) =~= Seq::<PendingCropView>::empty());
    while i < listed.len()
        invariant
            i <= listed@.len(),
            pending_views(v@) == pending_upto(listed@, i as int),
            keys@ =~= pending_times(pending_views(v@)),
        decreases listed@.len() - i,
    {
        let ghost done = v@;
        let ghost times = keys@;
        if let Some((ts, vendor_pet_id)) = parse_pending_name(listed[i].name.as_str()) {
            let c: PendingCrop = PendingCrop {
                name: listed[i].name.clone(),
                ts,
                vendor_pet_id,
                guess: copy_guess(&listed[i].guess),
            };
            let ghost x = c@;
            v.push(c);
            keys.push(ts);
            assert(pending_views(v@) =~= pending_views(done).push(x));
        }
        i = i + 1;
    }
    let ghost views = pending_views(v@);
    let p: Vec<usize> = stable_order(&keys);
    let mut out: Vec<PendingCrop> = Vec::new();
    let mut k: usize = 0;
    assert(keys@.len() == views.len());
    while k < p.len()
        invariant
            k <= p@.len() == v@.len(),
            views == pending_views(v@),
            is_stable_order(pending_times(views), p@),
            out@.len() == k,
            forall|j: int| 0 <= j < k ==> (#[trigger] out@[j])@ == views[p@[j] as int],
        decreases p@.len() - k,
    {
        let at: usize = p[k];
        assert(0 <= at < v@.len());
        out.push(v[at].clone());
        k = k + 1;
    }
    assert(pending_views(out@) =~= Seq::new(views.len(), |i: int| views[p@[i] as int]));
    assert(is_stable_order(pending_times(views), p@));
    out
}

/// A crop that a human has named.
#[derive(Debug)]
pub struct LabelledCrop {
    pub cat: String,
    pub name: String,
    pub jpg_path: String,
    /// When it was written, in nanoseconds of Unix time.
    pub mtime: u64,
}

pub struct LabelledView {
    pub cat: Seq<char>,
    pub name: Seq<char>,
    pub jpg_path: Seq<char>,
    pub mtime: u64,
}

impl View for LabelledCrop {
    type V = LabelledView;

    open spec fn view(&self) -> LabelledView {
        LabelledView {
            cat: self.cat@,
            name: self.name@,
            jpg_path: self.jpg_path@,
            mtime: self.mtime,
        }
    }
}

pub open spec fn labelled_views(v: Seq<LabelledCrop>) -> Seq<LabelledView> {
    v.map_values(|c: LabelledCrop| c@)
}

/// A directory below [`FACES_ROOT`] with what is in it.
pub struct CatDir {
    pub name: String,
    pub files: Vec<DirFile>,
}

/// Whether a directory is that of a cat that counts.
pub open spec fn holds_a_cat(name: Seq<char>) -> bool {
    name != PENDING_NAME@ && !reserved(name)
}

/// The crops among the first `n` files of a cat.
pub open spec fn of_cat_upto(cat: Seq<char>, files: Seq<DirFile>, n: int) -> Seq<LabelledView>
    decreases n,
{
    if n <= 0 {
        Seq::empty()
    } else if is_crop(files[n - 1].name@) {
        of_cat_upto(cat, files, n - 1).push(
            LabelledView {
                cat,
                name: files[n - 1].name@,
                jpg_path: in_dir(cat_dir(cat), files[n - 1].name@),
                mtime: files[n - 1].mtime,
            },
        )
    } else {
        of_cat_upto(cat, files, n - 1)
    }
}

/// The crops in the first `n` directories.
pub open spec fn labelled_upto(dirs: Seq<CatDir>, n: int) -> Seq<LabelledView>
    decreases n,
{
    if n <= 0 {
        Seq::empty()
    } else if holds_a_cat(dirs[n - 1].name@) {
        labelled_upto(dirs, n - 1) + of_cat_upto(
            dirs[n - 1].name@,
            dirs[n - 1].files@,
            dirs[n - 1].files@.len() as int,
        )
    } else {
        labelled_upto(dirs, n - 1)
    }
}

fn list_cat(dir: &CatDir, out: &mut Vec<LabelledCrop>)
    ensures
        labelled_views(final(out)@) == labelled_views(old(out)@) + of_cat_upto(
            dir.name@,
            dir.files@,
            dir.files@.len() as int,
        ),
{
    let ghost start = labelled_views(out@);
    let cat_path: String = path_in(FACES_ROOT, dir.name.as_str());
    let mut i: usize = 0;
    assert(start =~= start + of_cat_upto(dir.name@, dir.files@, 0));
    while i < dir.files.len()
        invariant
            i <= dir.files@.len(),
            cat_path@ == cat_dir(dir.name@),
            labelled_views(out@) == start + of_cat_upto(dir.name@, dir.files@, i as int),
        decreases dir.files@.len() - i,
    {
        let f: &DirFile = &dir.files[i];
        let ghost done = out@;
        if has_jpg_extension(f.name.as_str()) {
            let c: LabelledCrop = LabelledCrop {
                cat: dir.name.clone(),
                name: f.name.clone(),
                jpg_path: path_in(cat_path.as_str(), f.name.as_str()),
                mtime: f.mtime,
            };
            let ghost x = c@;
            out.push(c);
            assert(labelled_views(out@) =~= labelled_views(done).push(x));
            assert(labelled_views(out@) =~= start + of_cat_upto(dir.name@, dir.files@, i + 1));
        }
        i = i + 1;
    }
}

/// Every crop that is named after a cat.
pub fn list_labelled(dirs: &Vec<CatDir>) -> (out: Vec<LabelledCrop>)
    ensures
        labelled_views(out@) == labelled_upto(dirs@, dirs@.len() as int),
{
    let mut out: Vec<LabelledCrop> = Vec::new();
    let mut i: usize = 0;
    assert(labelled_views(out@) =~= Seq::<LabelledView>::empty());
    while i < dirs.len()
        invariant
            i <= dirs@.len(),
            labelled_views(out@) == labelled_upto(dirs@, i as int),
        decreases dirs@.len() - i,
    {
        let d: &CatDir = &dirs[i];
        if !same(d.name.as_str(), PENDING_NAME) && !is_reserved_bucket(d.name.as_str()) {
            list_cat(d, &mut out);
        }
        i = i + 1;
    }
    out
}

/// Time and cat of each captured crop among the first `n`.
pub open spec fn cats_by_ts_upto(v: Seq<LabelledView>, n: int) -> Seq<(u64, Seq<char>)>
    decreases n,
{
    if n <= 0 {
        Seq::empty()
    } else {
        match pending_of(v[n - 1].name) {
            Some((ts, _)) if !starts(v[n - 1].name, UPLOAD_PREFIX@) => cats_by_ts_upto(
                v,
                n - 1,
            ).push((ts, v[n - 1].cat)),
            _ => cats_by_ts_upto(v, n - 1),
        }
    }
}

/// Which cat was captured when. Uploaded photos are no sightings.
pub fn labelled_cats_by_ts(crops: &Vec<LabelledCrop>) -> (out: Vec<(u64, String)>)
    ensures
        named_keys(out@) == cats_by_ts_upto(labelled_views(crops@), crops@.len() as int),
{
    let ghost views = labelled_views(crops@);
    let mut out: Vec<(u64, String)> = Vec::new();
    let mut i: usize = 0;
    assert(named_keys(out@) =~= Seq::<(u64, Seq<char>)>::empty());
    while i < crops.len()
        invariant
            i <= crops@.len(),
            views == labelled_views(crops@),
            named_keys(out@) == cats_by_ts_upto(views, i as int),
        decreases crops@.len() - i,
    {
        let c: &LabelledCrop = &crops[i];
        assert(views[i as int] == c@);
        let ghost done = out@;
        if !starts_with(c.name.as_str(), UPLOAD_PREFIX) {
            if let Some((ts, _)) = parse_pending_name(c.name.as_str()) {
                let k: (u64, String) = (ts, c.cat.clone());
                out.push(k);
                assert(named_keys(out@) =~= named_keys(done).push((k.0, k.1@)));
            }
        }
        i = i + 1;
    }
    out
}

/// When a cat was last seen, in seconds, as far as the first `n` crops show.
pub open spec fn seen_upto(v: Seq<LabelledView>, cat: Seq<char>, n: int) -> Option<u64>
    decreases n,
{
    if n <= 0 {
        None
    } else if v[n - 1].cat != cat || starts(v[n - 1].name, UPLOAD_PREFIX@) {
        seen_upto(v, cat, n - 1)
    } else {
        let ts = v[n - 1].mtime / 1_000_000_000;
        match seen_upto(v, cat, n - 1) {
            Some(t) if t >= ts => Some(t),
            _ => Some(ts),
        }
    }
}

/// When a cat was last seen. Uploaded photos are no sightings.
pub fn last_seen_from(crops: &Vec<LabelledCrop>, cat: &str) -> (r: Option<u64>)
    ensures
        r == seen_upto(labelled_views(crops@), cat@, crops@.len() as int),
{
    let ghost views = labelled_views(crops@);
    let mut r: Option<u64> = None;
    let mut i: usize = 0;
    while i < crops.len()
        invariant
            i <= crops@.len(),
            views == labelled_views(crops@),
            r == seen_upto(views, cat@, i as int),
        decreases crops@.len() - i,
    {
        let c: &LabelledCrop = &crops[i];
        assert(views[i as int] == c@);
        if same(c.cat.as_str(), cat) && !starts_with(c.name.as_str(), UPLOAD_PREFIX) {
            let ts: u64 = c.mtime / 1_000_000_000;
            r = match r {
                Some(t) if t >= ts => Some(t),
                _ => Some(ts),
            };
        }
        i = i + 1;
    }
    r
}

/// The newest of the first `n` crops: the one that was written last, the last of equals.
pub open spec fn newest_upto(v: Seq<LabelledView>, n: int) -> Option<int>
    decreases n,
{
    if n <= 0 {
        None
    } else {
        match newest_upto(v, n - 1) {
            Some(k) if v[n - 1].mtime < v[k].mtime => Some(k),
            _ => Some(n - 1),
        }
    }
}

/// The crop to show where none waits.
pub open spec fn newest(v: Seq<LabelledView>) -> Option<int> {
    newest_upto(v, v.len() as int)
}

fn newest_labelled(crops: &Vec<LabelledCrop>) -> (r: Option<usize>)
    ensures
        match r {
            Some(k) => newest(labelled_views(crops@)) == Some(k as int) && k < crops@.len(),
            None => newest(labelled_views(crops@)) is None,
        },
{
    let ghost views = labelled_views(crops@);
    let mut r: Option<usize> = None;
    let mut i: usize = 0;
    while i < crops.len()
        invariant
            i <= crops@.len(),
            views == labelled_views(crops@),
            match r {
                Some(k) => newest_upto(views, i as int) == Some(k as int) && k < i,
                None => newest_upto(views, i as int) is None,
            },
        decreases crops@.len() - i,
    {
        assert(views[i as int].mtime == crops@[i as int].mtime);
        r = match r {
            Some(k) => {
                assert(views[k as int].mtime == crops@[k as int].mtime);
                if crops[i].mtime < crops[k].mtime {
                    Some(k)
                } else {
                    Some(i)
                }
            },
            None => Some(i),
        };
        i = i + 1;
    }
    r
}

/// A crop to show.
#[derive(Debug, PartialEq, Eq)]
pub enum FaceTarget {
    Pending { name: String },
    Labelled { cat: String, name: String },
}

pub enum FaceTargetView {
    Pending(Seq<char>),
    Labelled(Seq<char>, Seq<char>),
}

impl View for FaceTarget {
    type V = FaceTargetView;

    open spec fn view(&self) -> FaceTargetView {
        match self {
            FaceTarget::Pending { name } => FaceTargetView::Pending(name@),
            FaceTarget::Labelled { cat, name } => FaceTargetView::Labelled(cat@, name@),
        }
    }
}

impl FaceTargetView {
    pub open spec fn path(self) -> Seq<char> {
        match self {
            FaceTargetView::Pending(name) => in_dir(PENDING_DIR@, name),
            FaceTargetView::Labelled(cat, name) => in_dir(cat_dir(cat), name),
        }
    }
}

impl FaceTarget {
    pub fn jpg_path(&self) -> (s: String)
        ensures
            s@ == self@.path(),
    {
        match self {
            FaceTarget::Pending { name } => path_in(PENDING_DIR, name.as_str()),
            FaceTarget::Labelled { cat, name } => path_in(
                path_in(FACES_ROOT, cat.as_str()).as_str(),
                name.as_str(),
            ),
        }
    }

    pub fn name(&self) -> (s: &str)
        ensures
            s@ == (match self@ {
                FaceTargetView::Pending(name) => name,
                FaceTargetView::Labelled(_, name) => name,
            }),
    {
        match self {
            FaceTarget::Pending { name } => name.as_str(),
            FaceTarget::Labelled { name, .. } => name.as_str(),
        }
    }
}

/// The newest of the named crops as a target.
pub open spec fn labelled_target(v: Seq<LabelledView>) -> Option<FaceTargetView> {
    match newest(v) {
        Some(k) => Some(FaceTargetView::Labelled(v[k].cat, v[k].name)),
        None => None,
    }
}

pub open spec fn opt_target(o: Option<FaceTarget>) -> Option<FaceTargetView> {
    match o {
        Some(t) => Some(t@),
        None => None,
    }
}

fn newest_target(crops: &Vec<LabelledCrop>) -> (r: Option<FaceTarget>)
    ensures
        opt_target(r) == labelled_target(labelled_views(crops@)),
{
    match newest_labelled(crops) {
        Some(k) => Some(
            FaceTarget::Labelled { cat: crops[k].cat.clone(), name: crops[k].name.clone() },
        ),
        None => None,
    }
}

/// Whether crop `k` of `v` comes before every other: by time, then by name.
pub open spec fn is_oldest(v: Seq<(u64, Seq<char>)>, k: int) -> bool {
    0 <= k < v.len() && forall|j: int|
        0 <= j < v.len() && j != k ==> #[trigger] named_earlier(v, k, j)
}

/// Whether every other crop of `v` comes before crop `k`.
pub open spec fn is_latest(v: Seq<(u64, Seq<char>)>, k: int) -> bool {
    0 <= k < v.len() && forall|j: int|
        0 <= j < v.len() && j != k ==> #[trigger] named_earlier(v, j, k)
}

/// The ends of a list of crops in order.
proof fn lemma_ends(files: Seq<DirFile>, names: Seq<Seq<char>>)
    requires
        oldest_first(files, names),
        crops(files).len() <= usize::MAX,
    ensures
        names.len() == crops(files).len(),
        names.len() > 0 ==> exists|k: int| #[trigger]
            is_oldest(crops(files), k) && crops(files)[k].1 == names[0],
        names.len() > 0 ==> exists|k: int| #[trigger]
            is_latest(crops(files), k) && crops(files)[k].1 == names.last(),
{
    let all = crops(files);
    let p = choose|p: Seq<usize>|
        #![trigger is_named_order(all, p)]
        is_named_order(all, p) && names == names_by(all, p);
    if names.len() > 0 {
        lemma_named_order_lists_all(all, p);
        let first = p[0] as int;
        let last = p[p.len() - 1] as int;
        assert forall|j: int| 0 <= j < all.len() && j != first implies #[trigger] named_earlier(
            all,
            first,
            j,
        ) by {
            assert(p.contains(j as usize));
            let m = choose|m: int| 0 <= m < p.len() && p[m] == j as usize;
            assert(named_earlier(all, p[0] as int, p[m] as int));
        }
        assert forall|j: int| 0 <= j < all.len() && j != last implies #[trigger] named_earlier(
            all,
            j,
            last,
        ) by {
            assert(p.contains(j as usize));
            let m = choose|m: int| 0 <= m < p.len() && p[m] == j as usize;
            assert(named_earlier(all, p[m] as int, p[p.len() - 1] as int));
        }
        assert(is_oldest(all, first) && all[first].1 == names[0]);
        assert(is_latest(all, last) && all[last].1 == names.last());
    }
}

proof fn lemma_crops_len(files: Seq<DirFile>, n: int)
    requires
        0 <= n,
    ensures
        crops_upto(files, n).len() <= n,
    decreases n,
{
    if n > 0 {
        lemma_crops_len(files, n - 1);
    }
}

/// The crop to review: the oldest that waits, else the newest that has a name.
pub fn review_target(files: &Vec<DirFile>, labelled: &Vec<LabelledCrop>) -> (r: Option<FaceTarget>)
    ensures
        if crops(files@).len() == 0 {
            opt_target(r) == labelled_target(labelled_views(labelled@))
        } else {
            exists|k: int| #[trigger]
                is_oldest(crops(files@), k) && opt_target(r) == Some(
                    FaceTargetView::Pending(crops(files@)[k].1),
                )
        },
{
    let names: Vec<String> = list_pending(files);
    let n: usize = files.len();
    proof {
        lemma_crops_len(files@, files@.len() as int);
        lemma_ends(files@, string_texts(names@));
    }
    if names.len() == 0 {
        return newest_target(labelled);
    }
    let ghost k = choose|k: int| #[trigger]
        is_oldest(crops(files@), k) && crops(files@)[k].1 == string_texts(names@)[0];
    let name: String = names[0].clone();
    assert(name@ == string_texts(names@)[0]);
    assert(is_oldest(crops(files@), k));
    Some(FaceTarget::Pending { name })
}

/// The crop to identify: the newest that waits, else the newest that has a name.
pub fn identify_target(files: &Vec<DirFile>, labelled: &Vec<LabelledCrop>) -> (r: Option<
    FaceTarget,
>)
    ensures
        if crops(files@).len() == 0 {
            opt_target(r) == labelled_target(labelled_views(labelled@))
        } else {
            exists|k: int| #[trigger]
                is_latest(crops(files@), k) && opt_target(r) == Some(
                    FaceTargetView::Pending(crops(files@)[k].1),
                )
        },
{
    let names: Vec<String> = list_pending(files);
    let n: usize = files.len();
    proof {
        lemma_crops_len(files@, files@.len() as int);
        lemma_ends(files@, string_texts(names@));
    }
    if names.len() == 0 {
        return newest_target(labelled);
    }
    let ghost k = choose|k: int| #[trigger]
        is_latest(crops(files@), k) && crops(files@)[k].1 == string_texts(names@).last();
    let name: String = names[names.len() - 1].clone();
    assert(name@ == string_texts(names@).last());
    assert(is_latest(crops(files@), k));
    Some(FaceTarget::Pending { name })
}

/// The cats among the first `n` directories.
pub open spec fn enrolled_upto(dirs: Seq<Seq<char>>, n: int) -> Seq<(u64, Seq<char>)>
    decreases n,
{
    if n <= 0 {
        Seq::empty()
    } else if safe_name(dirs[n - 1]) && holds_a_cat(dirs[n - 1]) {
        enrolled_upto(dirs, n - 1).push((0, dirs[n - 1]))
    } else {
        enrolled_upto(dirs, n - 1)
    }
}

/// Whether `names` are those of `all`, by name.
pub open spec fn by_name(all: Seq<(u64, Seq<char>)>, names: Seq<Seq<char>>) -> bool {
    exists|p: Seq<usize>|
        #![trigger is_named_order(all, p)]
        is_named_order(all, p) && names == names_by(all, p)
}

/// The cats that have a directory, with or without crops, by name.
pub fn list_enrolled_cats(dirs: &Vec<String>) -> (names: Vec<String>)
    ensures
        by_name(
            enrolled_upto(string_texts(dirs@), dirs@.len() as int),
            string_texts(names@),
        ),
{
    let ghost views = string_texts(dirs@);
    let mut keys: Vec<(u64, String)> = Vec::new();
    let mut i: usize = 0;
    assert(named_keys(keys@) =~= Seq::<(u64, Seq<char>)>::empty());
    while i < dirs.len()
        invariant
            i <= dirs@.len(),
            views == string_texts(dirs@),
            named_keys(keys@) == enrolled_upto(views, i as int),
        decreases dirs@.len() - i,
    {
        let d: &str = dirs[i].as_str();
        assert(views[i as int] == d@);
        let ghost done = keys@;
        if is_safe_name(d) && !is_reserved_bucket(d) && !same(d, PENDING_NAME) {
            let k: (u64, String) = (0, d.to_owned());
            keys.push(k);
            assert(named_keys(keys@) =~= named_keys(done).push((k.0, k.1@)));
        }
        i = i + 1;
    }
    let ghost all = named_keys(keys@);
    let p: Vec<usize> = named_order(&keys);
    let mut names: Vec<String> = Vec::new();
    let mut k: usize = 0;
    assert(keys@.len() == all.len());
    while k < p.len()
        invariant
            k <= p@.len() == keys@.len(),
            all == named_keys(keys@),
            is_named_order(all, p@),
            names@.len() == k,
            forall|j: int| 0 <= j < k ==> (#[trigger] names@[j])@ == all[p@[j] as int].1,
        decreases p@.len() - k,
    {
        let at: usize = p[k];
        assert(0 <= at < keys@.len());
        names.push(keys[at].1.clone());
        k = k + 1;
    }
    assert(string_texts(names@) =~= names_by(all, p@));
    assert(is_named_order(all, p@));
    names
}

/// What the classifier knows of a cat.
pub struct CatSummary {
    pub name: String,
    pub samples: u32,
    /// The sample that is most like the cat.
    pub avatar: Option<String>,
}

pub open spec fn summary_keys(v: Seq<CatSummary>) -> Seq<(u64, Seq<char>)> {
    v.map_values(|c: CatSummary| (0u64, c.name@))
}

pub open spec fn seen_text(o: Option<u64>) -> Seq<char> {
    match o {
        Some(t) => dec(t as nat),
        None => "null"@,
    }
}

/// A cat as it is reported.
pub open spec fn cat_text(c: CatSummary, crops: Seq<LabelledView>) -> Seq<char> {
    "{\"name\":\""@ + escaped(c.name@) + "\",\"samples\":"@ + dec(c.samples as nat)
        + ",\"last_seen\":"@ + seen_text(seen_upto(crops, c.name@, crops.len() as int))
        + ",\"avatar\":"@ + escaped_or_null(opt_text(c.avatar)) + "}"@
}

/// The cats in the order `p`.
pub open spec fn cats_text(v: Seq<CatSummary>, p: Seq<usize>, crops: Seq<LabelledView>) -> Seq<
    char,
> {
    "["@ + joined(Seq::new(v.len(), |i: int| cat_text(v[p[i] as int], crops)), ","@) + "]"@
}

fn cat_json(c: &CatSummary, crops: &Vec<LabelledCrop>) -> (s: String)
    ensures
        s@ == cat_text(*c, labelled_views(crops@)),
{
    let ghost views = labelled_views(crops@);
    assert(views.len() == crops@.len());
    let mut s: String = "{\"name\":\"".to_owned();
    s.append(escape_debug(c.name.as_str()).as_str());
    s.append("\",\"samples\":");
    push_dec(&mut s, c.samples as u64);
    s.append(",\"last_seen\":");
    match last_seen_from(crops, c.name.as_str()) {
        Some(t) => push_dec(&mut s, t),
        None => s.append("null"),
    }
    s.append(",\"avatar\":");
    s.append(opt_json_escaped(&c.avatar).as_str());
    s.append("}");
    s
}

/// The body that lists the cats by name.
pub fn cats_json(cats: &Vec<CatSummary>, crops: &Vec<LabelledCrop>) -> (s: String)
    ensures
        exists|p: Seq<usize>| #[trigger]
            is_named_order(summary_keys(cats@), p) && s@ == cats_text(
                cats@,
                p,
                labelled_views(crops@),
            ),
{
    let mut keys: Vec<(u64, String)> = Vec::new();
    let mut i: usize = 0;
    while i < cats.len()
        invariant
            i <= cats@.len(),
            keys@.len() == i,
            forall|j: int| 0 <= j < i ==> (#[trigger] keys@[j]).0 == 0 && keys@[j].1@ == cats@[j].name@,
        decreases cats@.len() - i,
    {
        keys.push((0u64, cats[i].name.clone()));
        i = i + 1;
    }
    assert(named_keys(keys@) =~= summary_keys(cats@));
    let p: Vec<usize> = named_order(&keys);
    let ghost views = labelled_views(crops@);
    let ghost want = Seq::new(cats@.len(), |i: int| cat_text(cats@[p@[i] as int], views));
    let mut parts: Vec<String> = Vec::new();
    let mut k: usize = 0;
    while k < p.len()
        invariant
            k <= p@.len() == cats@.len(),
            is_named_order(summary_keys(cats@), p@),
            views == labelled_views(crops@),
            want == Seq::new(cats@.len(), |i: int| cat_text(cats@[p@[i] as int], views)),
            parts@.len() == k,
            forall|j: int| 0 <= j < k ==> (#[trigger] parts@[j])@ == want[j],
        decreases p@.len() - k,
    {
        let at: usize = p[k];
        assert(0 <= at < cats@.len());
        parts.push(cat_json(&cats[at], crops));
        k = k + 1;
    }
    assert(string_texts(parts@) =~= want);
    let mut s: String = "[".to_owned();
    s.append(join(&parts, ",").as_str());
    s.append("]");
    assert(is_named_order(summary_keys(cats@), p@) && s@ == cats_text(cats@, p@, views));
    s
}

/// One sample of a cat.
#[derive(Debug, PartialEq, Eq)]
pub struct Sample {
    pub name: String,
    /// In seconds of Unix time.
    pub ts: u64,
}

pub open spec fn sample_views(v: Seq<Sample>) -> Seq<(u64, Seq<char>)> {
    v.map_values(|s: Sample| (s.ts, s.name@))
}

/// When a sample was taken, by its name. The name of an uploaded photo gives milliseconds.
pub open spec fn sample_time(name: Seq<char>) -> Option<u64> {
    if starts(name, UPLOAD_PREFIX@) && ends(
        name.subrange(UPLOAD_PREFIX@.len() as int, name.len() as int),
        ".jpg"@,
    ) {
        match uint_of(
            name.subrange(UPLOAD_PREFIX@.len() as int, name.len() - ".jpg"@.len()),
            10,
            u64::MAX as nat,
        ) {
            Some(ms) => Some((ms / 1000) as u64),
            None => None,
        }
    } else {
        match pending_of(name) {
            Some((ts, _)) => Some(ts),
            None => None,
        }
    }
}

pub fn sample_ts(name: &str) -> (r: Option<u64>)
    ensures
        r == sample_time(name@),
{
    if let Some(rest) = strip_prefix(name, UPLOAD_PREFIX) {
        if let Some(ms) = strip_suffix(rest, ".jpg") {
            proof {
                let a = UPLOAD_PREFIX@.len() as int;
                let b = name@.len() - ".jpg"@.len();
                assert(name@.subrange(a, name@.len() as int).subrange(
                    0,
                    name@.len() - a - ".jpg"@.len(),
                ) =~= name@.subrange(a, b));
            }
            return match parse_u64(ms) {
                Some(n) => Some(n / 1000),
                None => None,
            };
        }
    }
    match parse_pending_name(name) {
        Some((ts, _)) => Some(ts),
        None => None,
    }
}

/// The samples among the first `n` names.
pub open spec fn samples_upto(names: Seq<Seq<char>>, n: int) -> Seq<(u64, Seq<char>)>
    decreases n,
{
    if n <= 0 {
        Seq::empty()
    } else {
        match sample_time(names[n - 1]) {
            Some(ts) => samples_upto(names, n - 1).push((ts, names[n - 1])),
            None => samples_upto(names, n - 1),
        }
    }
}

pub open spec fn sample_times(v: Seq<(u64, Seq<char>)>) -> Seq<u64> {
    v.map_values(|s: (u64, Seq<char>)| s.0)
}

/// Whether `out` are the samples `v` by time, at equal times in their order.
pub open spec fn samples_sorted(v: Seq<(u64, Seq<char>)>, out: Seq<(u64, Seq<char>)>) -> bool {
    exists|p: Seq<usize>|
        #![trigger is_stable_order(sample_times(v), p)]
        is_stable_order(sample_times(v), p) && out == Seq::new(v.len(), |i: int| v[p[i] as int])
}

fn sort_samples(names: &Vec<String>) -> (out: Vec<Sample>)
    ensures
        samples_sorted(
            samples_upto(string_texts(names@), names@.len() as int),
            sample_views(out@),
        ),
{
    let ghost texts = string_texts(names@);
    let mut v: Vec<(u64, String)> = Vec::new();
    let mut keys: Vec<u64> = Vec::new();
    let mut i: usize = 0;
    assert(named_keys(v@) =~= Seq::<(u64, Seq<char>)>::empty());
    while i < names.len()
        invariant
            i <= names@.len(),
            texts == string_texts(names@),
            named_keys(v@) == samples_upto(texts, i as int),
            keys@ =~= sample_times(named_keys(v@)),
        decreases names@.len() - i,
    {
        let ghost done = v@;
        assert(texts[i as int] == names@[i as int]@);
        if let Some(ts) = sample_ts(names[i].as_str()) {
            let k: (u64, String) = (ts, names[i].clone());
            v.push(k);
            keys.push(ts);
            assert(named_keys(v@) =~= named_keys(done).push((k.0, k.1@)));
        }
        i = i + 1;
    }
    let ghost views = named_keys(v@);
    let p: Vec<usize> = stable_order(&keys);
    let mut out: Vec<Sample> = Vec::new();
    let mut k: usize = 0;
    assert(keys@.len() == views.len());
    while k < p.len()
        invariant
            k <= p@.len() == v@.len(),
            views == named_keys(v@),
            is_stable_order(sample_times(views), p@),
            out@.len() == k,
            forall|j: int|
                0 <= j < k ==> ((#[trigger] out@[j]).ts, out@[j].name@) == views[p@[j] as int],
        decreases p@.len() - k,
    {
        let at: usize = p[k];
        assert(0 <= at < v@.len());
        out.push(Sample { name: v[at].1.clone(), ts: v[at].0 });
        k = k + 1;
    }
    assert(sample_views(out@) =~= Seq::new(views.len(), |i: int| views[p@[i] as int]));
    assert(is_stable_order(sample_times(views), p@));
    out
}

/// The samples of a cat by time; `names` are the files in its directory, where there is one.
pub fn list_samples(cat: &str, names: Option<&Vec<String>>) -> (r: Result<Vec<Sample>, FaceError>)
    ensures
        match r {
            Ok(out) => safe_name(cat@) && cat@ != PENDING_NAME@ && (names matches Some(v)
                && samples_sorted(
                samples_upto(string_texts(v@), v@.len() as int),
                sample_views(out@),
            )),
            Err(e) => if !safe_name(cat@) {
                e@ == FaceErrorView::InvalidCat(cat@)
            } else {
                (cat@ == PENDING_NAME@ || names is None) && e@ == FaceErrorView::NotFound
            },
        },
{
    if !is_safe_name(cat) {
        return Err(FaceError::InvalidCat(cat.to_owned()));
    }
    if same(cat, PENDING_NAME) {
        return Err(FaceError::NotFound);
    }
    match names {
        Some(v) => Ok(sort_samples(v)),
        None => Err(FaceError::NotFound),
    }
}

} // verus!
