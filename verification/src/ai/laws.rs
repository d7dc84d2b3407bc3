//! What holds of the event feed and of the files behind it.

use vstd::prelude::*;
use vstd::string::*;

use crate::ai::{
    age_key, cat_at, crop_of, detection_text, event_name, found_upto, from_crop, newest_upto, past_upto,
    scene_upto, stem_of, DetectionView, TrackEntry,
};
use crate::number::{dec, lemma_dec_worth, lemma_uint_of_dec};
use crate::text::{is_digit, lemma_find_is, Pat};

verus! {

/// The events that a client has not seen are those with a greater number, in their order.
pub proof fn law_past_events(v: Seq<DetectionView>, since: u64, n: int)
    requires
        0 <= n <= v.len(),
    ensures
        past_upto(v, since, n) == v.subrange(0, n).filter(|x: DetectionView| x.seq > since).map_values(
            |x: DetectionView| detection_text(x),
        ),
    decreases n,
{
    reveal(Seq::filter);
    let p = |x: DetectionView| x.seq > since;
    let f = |x: DetectionView| detection_text(x);
    let s = v.subrange(0, n);
    if n > 0 {
        law_past_events(v, since, n - 1);
        assert(s.drop_last() =~= v.subrange(0, n - 1));
        assert(s.last() == v[n - 1]);
        let done = s.drop_last().filter(p);
        assert(done.push(v[n - 1]).map_values(f) =~= done.map_values(f).push(f(v[n - 1])));
    } else {
        assert(s.filter(p).map_values(f) =~= past_upto(v, since, 0));
    }
}

/// The crops that are found are the files whose names say so, each with its time and class.
pub proof fn law_found_crops(v: Seq<Seq<char>>, n: int)
    requires
        0 <= n <= v.len(),
    ensures
        found_upto(v, n) == v.subrange(0, n).filter(|x: Seq<char>| crop_of(x) is Some).map_values(
            |x: Seq<char>| ((crop_of(x)->0).0, (crop_of(x)->0).1, x),
        ),
    decreases n,
{
    reveal(Seq::filter);
    let p = |x: Seq<char>| crop_of(x) is Some;
    let f = |x: Seq<char>| ((crop_of(x)->0).0, (crop_of(x)->0).1, x);
    let s = v.subrange(0, n);
    if n > 0 {
        law_found_crops(v, n - 1);
        assert(s.drop_last() =~= v.subrange(0, n - 1));
        assert(s.last() == v[n - 1]);
        let done = s.drop_last().filter(p);
        assert(done.push(v[n - 1]).map_values(f) =~= done.map_values(f).push(f(v[n - 1])));
    } else {
        assert(s.filter(p).map_values(f) =~= found_upto(v, 0));
    }
}

/// The latest picture of the scene is that of the last visit or meal that has one.
pub proof fn law_latest_scene(v: Seq<DetectionView>, n: int) -> (k: int)
    requires
        0 <= n <= v.len(),
    ensures
        match scene_upto(v, n) {
            Some((ts, f)) => 0 <= k < n && shows_scene(v[k]) && v[k].ts == ts && v[k].image == Some(f)
                && forall|j: int| k < j < n ==> !shows_scene(#[trigger] v[j]),
            None => forall|j: int| 0 <= j < n ==> !shows_scene(#[trigger] v[j]),
        },
    decreases n,
{
    if n <= 0 {
        0
    } else if shows_scene(v[n - 1]) {
        n - 1
    } else {
        law_latest_scene(v, n - 1)
    }
}

/// Whether a detection is a visit or a meal with a picture.
pub open spec fn shows_scene(d: DetectionView) -> bool {
    d.image is Some && (d.class == "visit"@ || d.class == "eat"@)
}

/// The newest identification is one that none is later than; of several at one time it is the last.
pub proof fn law_newest_track(v: Seq<TrackEntry>, n: int, j: int)
    requires
        0 <= j < n <= v.len(),
    ensures
        newest_upto(v, n) matches Some(k) && 0 <= k < n && v[j].start_time <= v[k].start_time && (j > k
            ==> v[j].start_time < v[k].start_time),
    decreases n,
{
    reveal_with_fuel(newest_upto, 3);
    if n - 1 > 0 {
        if j < n - 1 {
            law_newest_track(v, n - 1, j);
        } else {
            law_newest_track(v, n - 1, 0);
        }
    }
}

/// The cat at a time is that of the first crop of that time.
pub proof fn law_cat_at_a_time(cats: Seq<(u64, Seq<char>)>, ts: u64) -> (k: int)
    ensures
        match cat_at(cats, ts) {
            Some(c) => 0 <= k < cats.len() && cats[k] == (ts, c) && forall|j: int|
                0 <= j < k ==> (#[trigger] cats[j]).0 != ts,
            None => forall|j: int| 0 <= j < cats.len() ==> (#[trigger] cats[j]).0 != ts,
        },
    decreases cats.len(),
{
    if cats.len() == 0 || cats[0].0 == ts {
        0
    } else {
        let rest = cats.drop_first();
        let k = law_cat_at_a_time(rest, ts);
        assert forall|j: int| 0 < j < cats.len() implies #[trigger] cats[j] == rest[j - 1] by {}
        k + 1
    }
}

/// The age by which an event's file is kept or removed is the time in its name.
pub proof fn law_age_is_the_time(ts: u64, class: Seq<char>)
    ensures
        age_key(event_name(ts, class)) == ts,
{
    reveal_strlit("-");
    let t = dec(ts as nat);
    let name = event_name(ts, class);
    lemma_dec_worth(ts as nat);
    lemma_uint_of_dec(ts as nat, u64::MAX as nat);
    assert forall|j: int| 0 <= j < t.len() implies !Pat::Is('-').has(#[trigger] name[j]) by {
        assert(name[j] == t[j]);
        assert(is_digit(t[j]));
    }
    assert(name[t.len() as int] == '-');
    lemma_find_is(name, Pat::Is('-'), t.len() as int);
    assert(name.subrange(0, t.len() as int) =~= t);
}

/// An event that is rebuilt from a file has the time and the class in its name, shows that file, and
/// is named by the cat of its second where it is a face.
pub proof fn law_rebuilt_events(
    ts: u64,
    class: Seq<char>,
    name: Seq<char>,
    cats: Seq<(u64, Seq<char>)>,
    seq: u64,
)
    ensures
        ({
            let d = from_crop((ts, class, name), cats, seq);
            &&& d.seq == seq && d.ts == ts && d.class == class && d.image == Some(name)
            &&& class == "face"@ ==> d.cat == cat_at(cats, ts)
            &&& class != "face"@ ==> d.cat is None
            &&& d.score is None && d.pet_id is None && d.b0x is None && d.total_score is None
        }),
{
}

/// The stem of a picture's name is the name without its ending.
pub proof fn law_stem_is_without_the_ending(stem: Seq<char>)
    ensures
        stem_of(stem + ".jpg"@) == Some(stem),
        stem_of(stem + ".jpeg"@) == Some(stem),
{
    reveal_strlit(".jpg");
    reveal_strlit(".jpeg");
    let a = stem + ".jpg"@;
    let b = stem + ".jpeg"@;
    assert(a.subrange(a.len() - 4, a.len() as int) =~= ".jpg"@);
    assert(a.subrange(0, a.len() - 4) =~= stem);
    assert(b.subrange(b.len() - 5, b.len() as int) =~= ".jpeg"@);
    assert(b.subrange(0, b.len() - 5) =~= stem);
    assert(b.subrange(b.len() - 4, b.len() as int)[0] == 'j');
    assert(".jpg"@[0] == '.');
}

} // verus!
