//! Which cat a face is: the roster of enrolled cats, how scores are ranked, and which comparisons a
//! measured threshold rests on.
//!
//! Embeddings and scores themselves are not held here. A cat is known by its place in the roster, a
//! sample by its place in a list, and a score by an integer that orders as the score does.

use vstd::prelude::*;
use vstd::string::*;

use crate::json::string_texts;
use crate::text::same;

pub mod laws;

verus! {

/// An enrolled cat and how many samples its model rests on.
#[derive(Debug)]
pub struct CatEntry {
    pub name: String,
    pub count: u32,
}

pub open spec fn entry_views(v: Seq<CatEntry>) -> Seq<(Seq<char>, u32)> {
    v.map_values(|c: CatEntry| (c.name@, c.count))
}

/// The place of a cat at or behind `i`.
pub open spec fn place_from(v: Seq<(Seq<char>, u32)>, name: Seq<char>, i: int) -> Option<int>
    decreases v.len() - i,
{
    if i < 0 || i >= v.len() {
        None
    } else if v[i].0 == name {
        Some(i)
    } else {
        place_from(v, name, i + 1)
    }
}

/// The place of a cat.
pub open spec fn place_of(v: Seq<(Seq<char>, u32)>, name: Seq<char>) -> Option<int> {
    place_from(v, name, 0)
}

/// The roster with a cat on it: unchanged where it was on it already.
pub open spec fn enrolled(v: Seq<(Seq<char>, u32)>, name: Seq<char>) -> Seq<(Seq<char>, u32)> {
    match place_of(v, name) {
        Some(_) => v,
        None => v.push((name, 0)),
    }
}

/// The place of a cat that is enrolled if need be.
pub open spec fn place_for(v: Seq<(Seq<char>, u32)>, name: Seq<char>) -> int {
    match place_of(v, name) {
        Some(i) => i,
        None => v.len() as int,
    }
}

/// The roster with another number of samples for the cat at `i`.
pub open spec fn counted(v: Seq<(Seq<char>, u32)>, i: int, n: u32) -> Seq<(Seq<char>, u32)> {
    v.update(i, (v[i].0, n))
}

/// The roster after a sample is taken in.
pub open spec fn labelled(v: Seq<(Seq<char>, u32)>, name: Seq<char>) -> Seq<(Seq<char>, u32)> {
    let w = enrolled(v, name);
    let i = place_for(v, name);
    counted(w, i, w[i].1.wrapping_add(1))
}

/// The roster after a sample is taken back. A cat that is left without samples is gone.
pub open spec fn unlabelled(v: Seq<(Seq<char>, u32)>, name: Seq<char>) -> Seq<(Seq<char>, u32)> {
    match place_of(v, name) {
        Some(i) => if v[i].1 == 0 {
            v
        } else if v[i].1 == 1 {
            v.remove(i)
        } else {
            counted(v, i, (v[i].1 - 1) as u32)
        },
        None => v,
    }
}

/// Whether no two cats have one name.
pub open spec fn names_differ(v: Seq<(Seq<char>, u32)>) -> bool {
    forall|i: int, j: int| 0 <= i < j < v.len() ==> (#[trigger] v[i]).0 != (#[trigger] v[j]).0
}

/// What taking a sample back did.
#[derive(Debug, Clone, Copy, PartialEq, Eq, Structural)]
pub enum Unlabelled {
    /// There was nothing to take back.
    Nothing,
    /// The cat at this place has one sample less.
    Kept(usize),
    /// The cat at this place had no other sample and is gone.
    Pruned(usize),
}

/// The enrolled cats.
pub struct Classifier {
    cats: Vec<CatEntry>,
}

impl View for Classifier {
    type V = Seq<(Seq<char>, u32)>;

    closed spec fn view(&self) -> Seq<(Seq<char>, u32)> {
        entry_views(self.cats@)
    }
}

pub proof fn lemma_place(v: Seq<(Seq<char>, u32)>, name: Seq<char>, i: int)
    requires
        0 <= i,
    ensures
        place_from(v, name, i) matches Some(k) ==> i <= k < v.len() && v[k].0 == name && forall|j: int|
            i <= j < k ==> (#[trigger] v[j]).0 != name,
        place_from(v, name, i) is None ==> forall|j: int|
            i <= j < v.len() ==> (#[trigger] v[j]).0 != name,
    decreases v.len() - i,
{
    if i < v.len() && v[i].0 != name {
        lemma_place(v, name, i + 1);
    }
}

impl Classifier {
    /// No two cats have one name.
    pub open spec fn wf(&self) -> bool {
        names_differ(self@)
    }

    pub fn new() -> (r: Classifier)
        ensures
            r@.len() == 0,
            r.wf(),
    {
        Classifier { cats: Vec::new() }
    }

    /// The enrolled cats, in the order in which they were enrolled.
    pub fn cats(&self) -> (v: &Vec<CatEntry>)
        ensures
            entry_views(v@) == self@,
    {
        &self.cats
    }

    fn position(&self, name: &str) -> (r: Option<usize>)
        ensures
            match r {
                Some(i) => place_of(self@, name@) == Some(i as int) && i < self@.len(),
                None => place_of(self@, name@) is None,
            },
            self@.len() == self.cats@.len(),
    {
        let ghost all = self@;
        let mut i: usize = 0;
        while i < self.cats.len()
            invariant
                i <= self.cats@.len() == all.len(),
                all == entry_views(self.cats@),
                place_of(all, name@) == place_from(all, name@, i as int),
            decreases self.cats@.len() - i,
        {
            assert(all[i as int] == (self.cats@[i as int].name@, self.cats@[i as int].count));
            if same(self.cats[i].name.as_str(), name) {
                return Some(i);
            }
            i = i + 1;
        }
        None
    }

    fn set_count(&mut self, i: usize, n: u32)
        requires
            i < old(self)@.len(),
        ensures
            final(self)@ == counted(old(self)@, i as int, n),
    {
        let ghost before = self@;
        let name: String = self.cats[i].name.clone();
        self.cats.set(i, CatEntry { name, count: n });
        assert(self@ =~= counted(before, i as int, n));
    }

    /// Enrolls a cat without samples, where it is not enrolled yet; gives its place.
    pub fn ensure_cat(&mut self, name: &str) -> (i: usize)
        requires
            old(self).wf(),
        ensures
            final(self).wf(),
            final(self)@ == enrolled(old(self)@, name@),
            i == place_for(old(self)@, name@),
            i < final(self)@.len(),
    {
        let ghost before = self@;
        proof {
            lemma_place(before, name@, 0);
        }
        match self.position(name) {
            Some(i) => i,
            None => {
                let i: usize = self.cats.len();
                self.cats.push(CatEntry { name: name.to_owned(), count: 0 });
                assert(self@ =~= before.push((name@, 0u32)));
                i
            },
        }
    }

    /// Takes a sample of a cat in; gives the place whose model the sample goes to. A sample that is
    /// not usable changes nothing.
    pub fn label(&mut self, cat: &str, usable: bool) -> (r: Option<usize>)
        requires
            old(self).wf(),
        ensures
            final(self).wf(),
            if usable {
                let i = place_for(old(self)@, cat@);
                &&& r == Some(i as usize)
                &&& 0 <= i < final(self)@.len()
                &&& final(self)@ == labelled(old(self)@, cat@)
            } else {
                r is None && final(self)@ == old(self)@
            },
    {
        if !usable {
            return None;
        }
        let i: usize = self.ensure_cat(cat);
        let ghost mid = self@;
        assert(mid.len() == self.cats@.len());
        let n: u32 = self.cats[i].count.wrapping_add(1);
        self.set_count(i, n);
        assert(names_differ(self@)) by {
            assert forall|a: int, b: int| 0 <= a < b < self@.len() implies (#[trigger] self@[a]).0
                != (#[trigger] self@[b]).0 by {
                assert(mid[a].0 != mid[b].0);
            }
        }
        Some(i)
    }

    /// Takes a sample of a cat back. A cat that is left without samples is gone.
    pub fn unlabel(&mut self, cat: &str, usable: bool) -> (r: Unlabelled)
        requires
            old(self).wf(),
        ensures
            final(self).wf(),
            final(self)@ == (if usable {
                unlabelled(old(self)@, cat@)
            } else {
                old(self)@
            }),
            match place_of(old(self)@, cat@) {
                Some(i) if usable && old(self)@[i].1 > 0 => 0 <= i < old(self)@.len() && r == (
                if old(self)@[i].1 == 1 {
                    Unlabelled::Pruned(i as usize)
                } else {
                    Unlabelled::Kept(i as usize)
                }),
                _ => r == Unlabelled::Nothing,
            },
    {
        if !usable {
            return Unlabelled::Nothing;
        }
        let ghost before = self@;
        let i: usize = match self.position(cat) {
            Some(i) => i,
            None => return Unlabelled::Nothing,
        };
        assert(before[i as int] == (self.cats@[i as int].name@, self.cats@[i as int].count));
        let n: u32 = self.cats[i].count;
        if n == 0 {
            return Unlabelled::Nothing;
        }
        if n == 1 {
            self.cats.remove(i);
            assert(self@ =~= before.remove(i as int));
            proof {
                lemma_remove_differ(before, i as int);
            }
            Unlabelled::Pruned(i)
        } else {
            self.set_count(i, n - 1);
            assert(names_differ(self@)) by {
                assert forall|a: int, b: int| 0 <= a < b < self@.len() implies (
                #[trigger] self@[a]).0 != (#[trigger] self@[b]).0 by {
                    assert(before[a].0 != before[b].0);
                }
            }
            Unlabelled::Kept(i)
        }
    }

    /// Takes a cat off the roster, whatever samples it has; gives the place that it had.
    pub fn remove_cat(&mut self, name: &str) -> (r: Option<usize>)
        requires
            old(self).wf(),
        ensures
            final(self).wf(),
            match place_of(old(self)@, name@) {
                Some(i) => r == Some(i as usize) && 0 <= i < old(self)@.len() && final(self)@ == old(
                    self,
                )@.remove(i),
                None => r is None && final(self)@ == old(self)@,
            },
            place_of(final(self)@, name@) is None,
    {
        let ghost before = self@;
        proof {
            lemma_place(before, name@, 0);
        }
        match self.position(name) {
            Some(i) => {
                self.cats.remove(i);
                assert(self@ =~= before.remove(i as int));
                proof {
                    lemma_remove_differ(before, i as int);
                    lemma_place(self@, name@, 0);
                    if let Some(k) = place_of(self@, name@) {
                        let old_k = if k < i {
                            k
                        } else {
                            k + 1
                        };
                        assert(self@[k] == before[old_k]);
                        assert(before[i as int].0 == name@);
                    }
                }
                Some(i)
            },
            None => None,
        }
    }

    /// Sets how many samples a cat has, and enrolls it if need be; gives its place.
    pub fn recompute_cat(&mut self, name: &str, samples: u32) -> (i: usize)
        requires
            old(self).wf(),
        ensures
            final(self).wf(),
            i == place_for(old(self)@, name@),
            final(self)@ == counted(enrolled(old(self)@, name@), i as int, samples),
    {
        let i: usize = self.ensure_cat(name);
        let ghost mid = self@;
        self.set_count(i, samples);
        assert(names_differ(self@)) by {
            assert forall|a: int, b: int| 0 <= a < b < self@.len() implies (#[trigger] self@[a]).0
                != (#[trigger] self@[b]).0 by {
                assert(mid[a].0 != mid[b].0);
            }
        }
        i
    }
}

proof fn lemma_remove_differ(v: Seq<(Seq<char>, u32)>, i: int)
    requires
        names_differ(v),
        0 <= i < v.len(),
    ensures
        names_differ(v.remove(i)),
{
    let w = v.remove(i);
    assert forall|a: int, b: int| 0 <= a < b < w.len() implies (#[trigger] w[a]).0 != (
    #[trigger] w[b]).0 by {
        let x = if a < i {
            a
        } else {
            a + 1
        };
        let y = if b < i {
            b
        } else {
            b + 1
        };
        assert(w[a] == v[x] && w[b] == v[y]);
    }
}

/// What a ranking says, by the places of the cats.
#[derive(Debug, Clone, Copy, PartialEq, Eq, Structural)]
pub enum Ranking {
    /// No cat has a score.
    Empty,
    /// The best score is accepted; the second best may be there.
    Known(usize, Option<usize>),
    /// The best score is not accepted.
    Rejected(usize),
}

/// Whether the cat at `i` ranks ahead of the one at `j`: its score is higher, or as high and listed
/// first.
pub open spec fn ahead(scores: Seq<Option<i64>>, i: int, j: int) -> bool {
    match (scores[i], scores[j]) {
        (Some(a), Some(b)) => a > b || (a == b && i < j),
        (Some(_), None) => true,
        _ => false,
    }
}

/// Whether the cat at `j` does not take part: it has no score, or is the one to leave out.
pub open spec fn left_out(scores: Seq<Option<i64>>, skip: Option<usize>, j: int) -> bool {
    scores[j] is None || (match skip {
        Some(s) => s == j,
        None => false,
    })
}

/// Whether the cat at `i` ranks ahead of all others among the first `n` that take part.
pub open spec fn is_best(scores: Seq<Option<i64>>, skip: Option<usize>, n: int, i: int) -> bool {
    0 <= i < n && !left_out(scores, skip, i) && forall|j: int|
        0 <= j < n && j != i && !left_out(scores, skip, j) ==> #[trigger] ahead(scores, i, j)
}

/// Whether none of the first `n` takes part.
pub open spec fn none_left(scores: Seq<Option<i64>>, skip: Option<usize>, n: int) -> bool {
    forall|j: int| 0 <= j < n ==> #[trigger] left_out(scores, skip, j)
}

fn best_but(scores: &Vec<Option<i64>>, skip: Option<usize>) -> (r: Option<usize>)
    ensures
        match r {
            Some(i) => is_best(scores@, skip, scores@.len() as int, i as int),
            None => none_left(scores@, skip, scores@.len() as int),
        },
{
    let mut best: Option<(usize, i64)> = None;
    let mut i: usize = 0;
    while i < scores.len()
        invariant
            i <= scores@.len(),
            match best {
                Some((b, high)) => is_best(scores@, skip, i as int, b as int) && scores@[b as int]
                    == Some(high),
                None => none_left(scores@, skip, i as int),
            },
        decreases scores@.len() - i,
    {
        let skipped: bool = match skip {
            Some(s) => s == i,
            None => false,
        };
        if let Some(score) = scores[i] {
            if !skipped {
                assert(!left_out(scores@, skip, i as int));
                match best {
                    Some((b, high)) => {
                        if score > high {
                            assert forall|j: int|
                                0 <= j < i + 1 && j != i && !left_out(scores@, skip, j) implies
                                #[trigger] ahead(scores@, i as int, j) by {
                                if j != b {
                                    assert(ahead(scores@, b as int, j));
                                }
                            }
                            best = Some((i, score));
                        } else {
                            assert(ahead(scores@, b as int, i as int));
                        }
                    },
                    None => {
                        best = Some((i, score));
                    },
                }
            }
        }
        i = i + 1;
    }
    match best {
        Some((b, _)) => Some(b),
        None => None,
    }
}

/// The scores that count: a cat without samples has none.
pub open spec fn held_scores(v: Seq<(Seq<char>, u32)>, scores: Seq<Option<i64>>) -> Seq<Option<i64>> {
    Seq::new(
        scores.len(),
        |i: int|
            if i < v.len() && v[i].1 > 0 {
                scores[i]
            } else {
                None
            },
    )
}

impl Classifier {
    fn usable_scores(&self, scores: &Vec<Option<i64>>) -> (out: Vec<Option<i64>>)
        ensures
            out@ == held_scores(self@, scores@),
    {
        let ghost all = self@;
        let mut out: Vec<Option<i64>> = Vec::new();
        let mut i: usize = 0;
        assert(all.len() == self.cats@.len());
        while i < scores.len()
            invariant
                i <= scores@.len(),
                all == entry_views(self.cats@),
                all.len() == self.cats@.len(),
                out@ == held_scores(all, scores@).subrange(0, i as int),
            decreases scores@.len() - i,
        {
            if i < self.cats.len() && self.cats[i].count > 0 {
                out.push(scores[i]);
            } else {
                out.push(None);
            }
            i = i + 1;
            assert(out@ =~= held_scores(all, scores@).subrange(0, i as int));
        }
        assert(out@ =~= held_scores(all, scores@));
        out
    }

    /// Ranks the scores that the cats have, each at the place of its cat, against the least score
    /// that is accepted. A cat without samples does not take part.
    pub fn identify(&self, scores: &Vec<Option<i64>>, accept: i64) -> (r: Ranking)
        ensures
            ({
                let held = held_scores(self@, scores@);
                let n = held.len() as int;
                match r {
                    Ranking::Empty => none_left(held, None, n),
                    Ranking::Known(i, second) => {
                        &&& is_best(held, None, n, i as int)
                        &&& held[i as int]->0 >= accept
                        &&& match second {
                            Some(k) => is_best(held, Some(i), n, k as int),
                            None => none_left(held, Some(i), n),
                        }
                    },
                    Ranking::Rejected(i) => is_best(held, None, n, i as int) && held[i as int]->0
                        < accept,
                }
            }),
    {
        let held: Vec<Option<i64>> = self.usable_scores(scores);
        match best_but(&held, None) {
            None => Ranking::Empty,
            Some(i) => {
                assert(!left_out(held@, None, i as int));
                match held[i] {
                    Some(score) if score >= accept => Ranking::Known(i, best_but(&held, Some(i))),
                    _ => Ranking::Rejected(i),
                }
            },
        }
    }
}

/// Why a threshold cannot be measured.
#[derive(Debug, Clone, Copy, PartialEq, Eq, Structural)]
pub enum ThresholdError {
    /// Fewer than two cats have a sample.
    NotEnoughCats,
    /// No cat has a second sample to hold its first against.
    NotEnoughSamplesPerCat,
}

/// The samples of one cat, by their places.
#[derive(Debug)]
pub struct Group {
    pub name: String,
    pub members: Vec<usize>,
}

pub open spec fn group_views(v: Seq<Group>) -> Seq<(Seq<char>, Seq<usize>)> {
    v.map_values(|g: Group| (g.name@, g.members@))
}

/// The place of a cat's group at or behind `i`.
pub open spec fn group_from(v: Seq<(Seq<char>, Seq<usize>)>, name: Seq<char>, i: int) -> Option<int>
    decreases v.len() - i,
{
    if i < 0 || i >= v.len() {
        None
    } else if v[i].0 == name {
        Some(i)
    } else {
        group_from(v, name, i + 1)
    }
}

/// The groups of the first `n` samples, in the order in which the cats come up.
pub open spec fn groups_upto(cats: Seq<Seq<char>>, n: int) -> Seq<(Seq<char>, Seq<usize>)>
    decreases n,
{
    if n <= 0 {
        Seq::empty()
    } else {
        let v = groups_upto(cats, n - 1);
        let name = cats[n - 1];
        match group_from(v, name, 0) {
            Some(k) => v.update(k, (name, v[k].1.push((n - 1) as usize))),
            None => v.push((name, seq![(n - 1) as usize])),
        }
    }
}

fn find_group(v: &Vec<Group>, name: &str) -> (r: Option<usize>)
    ensures
        match r {
            Some(i) => group_from(group_views(v@), name@, 0) == Some(i as int) && i < v@.len()
                && v@[i as int].name@ == name@,
            None => group_from(group_views(v@), name@, 0) is None,
        },
{
    let ghost all = group_views(v@);
    let mut i: usize = 0;
    while i < v.len()
        invariant
            i <= v@.len() == all.len(),
            all == group_views(v@),
            group_from(all, name@, 0) == group_from(all, name@, i as int),
        decreases v@.len() - i,
    {
        assert(all[i as int] == (v@[i as int].name@, v@[i as int].members@));
        if same(v[i].name.as_str(), name) {
            return Some(i);
        }
        i = i + 1;
    }
    None
}

/// Groups samples by cat; `cats` names the cat of each usable sample. A threshold takes two cats.
pub fn group_samples(cats: &Vec<String>) -> (r: Result<Vec<Group>, ThresholdError>)
    ensures
        ({
            let all = groups_upto(string_texts(cats@), cats@.len() as int);
            match r {
                Ok(v) => all.len() >= 2 && group_views(v@) == all,
                Err(e) => all.len() < 2 && e == ThresholdError::NotEnoughCats,
            }
        }),
{
    let ghost names = string_texts(cats@);
    let mut v: Vec<Group> = Vec::new();
    let mut i: usize = 0;
    assert(group_views(v@) =~= Seq::<(Seq<char>, Seq<usize>)>::empty());
    while i < cats.len()
        invariant
            i <= cats@.len(),
            names == string_texts(cats@),
            group_views(v@) == groups_upto(names, i as int),
        decreases cats@.len() - i,
    {
        assert(names[i as int] == cats@[i as int]@);
        let ghost before = group_views(v@);
        match find_group(&v, cats[i].as_str()) {
            Some(k) => {
                let name: String = v[k].name.clone();
                let mut members: Vec<usize> = v[k].members.clone();
                assert(members@ =~= v@[k as int].members@);
                members.push(i);
                let g: Group = Group { name, members };
                let ghost gv = (g.name@, g.members@);
                v.set(k, g);
                assert(group_views(v@) =~= before.update(k as int, gv));
            },
            None => {
                let mut members: Vec<usize> = Vec::new();
                members.push(i);
                assert(members@ =~= seq![i]);
                let g: Group = Group { name: cats[i].clone(), members };
                let ghost gv = (g.name@, g.members@);
                v.push(g);
                assert(group_views(v@) =~= before.push(gv));
            },
        }
        i = i + 1;
    }
    assert(group_views(v@).len() == v@.len());
    if v.len() < 2 {
        return Err(ThresholdError::NotEnoughCats);
    }
    Ok(v)
}

/// The comparisons of the first `n` samples of group `g` with the other samples of their cat.
pub open spec fn own_upto(g: int, members: Seq<usize>, n: int) -> Seq<(usize, usize)>
    decreases n,
{
    if n <= 0 {
        Seq::empty()
    } else {
        own_upto(g, members, n - 1).push((g as usize, members[n - 1]))
    }
}

/// The comparisons of samples with their own cat, in the first `n` groups: a cat with one sample
/// has none.
pub open spec fn genuine_upto(v: Seq<(Seq<char>, Seq<usize>)>, n: int) -> Seq<(usize, usize)>
    decreases n,
{
    if n <= 0 {
        Seq::empty()
    } else if v[n - 1].1.len() < 2 {
        genuine_upto(v, n - 1)
    } else {
        genuine_upto(v, n - 1) + own_upto(n - 1, v[n - 1].1, v[n - 1].1.len() as int)
    }
}

fn push_members(out: &mut Vec<(usize, usize)>, g: usize, members: &Vec<usize>)
    ensures
        final(out)@ == old(out)@ + own_upto(g as int, members@, members@.len() as int),
{
    let ghost start = out@;
    let mut i: usize = 0;
    assert(out@ =~= start + own_upto(g as int, members@, 0));
    while i < members.len()
        invariant
            i <= members@.len(),
            out@ == start + own_upto(g as int, members@, i as int),
        decreases members@.len() - i,
    {
        out.push((g, members[i]));
        i = i + 1;
        assert(out@ =~= start + own_upto(g as int, members@, i as int));
    }
}

/// Which samples are held against the other samples of their own cat: the group, and the sample.
pub fn genuine_comparisons(groups: &Vec<Group>) -> (out: Vec<(usize, usize)>)
    ensures
        out@ == genuine_upto(group_views(groups@), groups@.len() as int),
{
    let ghost all = group_views(groups@);
    let mut out: Vec<(usize, usize)> = Vec::new();
    let mut i: usize = 0;
    while i < groups.len()
        invariant
            i <= groups@.len(),
            all == group_views(groups@),
            out@ == genuine_upto(all, i as int),
        decreases groups@.len() - i,
    {
        assert(all[i as int] == (groups@[i as int].name@, groups@[i as int].members@));
        if groups[i].members.len() >= 2 {
            push_members(&mut out, i, &groups[i].members);
        }
        i = i + 1;
    }
    out
}

/// The comparisons of the samples of group `i` with the cats of the first `n` groups but their own.
pub open spec fn against_upto(v: Seq<(Seq<char>, Seq<usize>)>, i: int, n: int) -> Seq<(usize, usize)>
    decreases n,
{
    if n <= 0 {
        Seq::empty()
    } else if n - 1 == i {
        against_upto(v, i, n - 1)
    } else {
        against_upto(v, i, n - 1) + own_upto(n - 1, v[i].1, v[i].1.len() as int)
    }
}

/// The comparisons of samples with other cats, for the first `n` groups.
pub open spec fn impostor_upto(v: Seq<(Seq<char>, Seq<usize>)>, n: int) -> Seq<(usize, usize)>
    decreases n,
{
    if n <= 0 {
        Seq::empty()
    } else {
        impostor_upto(v, n - 1) + against_upto(v, n - 1, v.len() as int)
    }
}

fn push_against(out: &mut Vec<(usize, usize)>, groups: &Vec<Group>, i: usize)
    requires
        i < groups@.len(),
    ensures
        final(out)@ == old(out)@ + against_upto(
            group_views(groups@),
            i as int,
            groups@.len() as int,
        ),
{
    let ghost all = group_views(groups@);
    let ghost start = out@;
    let mut j: usize = 0;
    assert(out@ =~= start + against_upto(all, i as int, 0));
    while j < groups.len()
        invariant
            j <= groups@.len(),
            i < groups@.len(),
            all == group_views(groups@),
            out@ == start + against_upto(all, i as int, j as int),
        decreases groups@.len() - j,
    {
        assert(all[i as int] == (groups@[i as int].name@, groups@[i as int].members@));
        if j != i {
            let ghost before = against_upto(all, i as int, j as int);
            push_members(out, j, &groups[i].members);
            assert(out@ =~= start + (before + own_upto(
                j as int,
                all[i as int].1,
                all[i as int].1.len() as int,
            )));
        }
        j = j + 1;
    }
}

/// Which samples are held against other cats: the group of the other cat, and the sample.
pub fn impostor_comparisons(groups: &Vec<Group>) -> (out: Vec<(usize, usize)>)
    ensures
        out@ == impostor_upto(group_views(groups@), groups@.len() as int),
{
    let ghost all = group_views(groups@);
    let mut out: Vec<(usize, usize)> = Vec::new();
    let mut i: usize = 0;
    while i < groups.len()
        invariant
            i <= groups@.len(),
            all == group_views(groups@),
            all.len() == groups@.len(),
            out@ == impostor_upto(all, i as int),
        decreases groups@.len() - i,
    {
        push_against(&mut out, groups, i);
        i = i + 1;
    }
    out
}

/// What a threshold is measured from: the places of the lowest score of a sample against its own
/// cat and of the highest against another, where there is one, and whether the former is higher.
#[derive(Debug, Clone, Copy, PartialEq, Eq, Structural)]
pub struct Margin {
    pub min_genuine: usize,
    pub max_impostor: Option<usize>,
    pub separable: bool,
}

pub open spec fn is_lowest(scores: Seq<i64>, i: int) -> bool {
    0 <= i < scores.len() && forall|j: int|
        0 <= j < scores.len() ==> scores[i] <= #[trigger] scores[j]
}

pub open spec fn is_highest(scores: Seq<i64>, i: int) -> bool {
    0 <= i < scores.len() && forall|j: int|
        0 <= j < scores.len() ==> scores[i] >= #[trigger] scores[j]
}

/// Whether `m` is the margin between the lowest of the genuine scores and the highest of the others.
pub open spec fn is_margin(m: Margin, genuine: Seq<i64>, impostor: Seq<i64>) -> bool {
    is_lowest(genuine, m.min_genuine as int) && (match m.max_impostor {
        Some(k) => is_highest(impostor, k as int) && m.separable == (genuine[m.min_genuine as int]
            > impostor[k as int]),
        None => impostor.len() == 0 && m.separable,
    })
}

/// The margin between the scores of samples against their own cats and those against other cats.
pub fn derive_threshold(genuine: &Vec<i64>, impostor: &Vec<i64>) -> (r: Result<
    Margin,
    ThresholdError,
>)
    ensures
        match r {
            Ok(m) => is_margin(m, genuine@, impostor@),
            Err(e) => genuine@.len() == 0 && e == ThresholdError::NotEnoughSamplesPerCat,
        },
{
    if genuine.len() == 0 {
        return Err(ThresholdError::NotEnoughSamplesPerCat);
    }
    let mut low: usize = 0;
    let mut i: usize = 1;
    while i < genuine.len()
        invariant
            1 <= i <= genuine@.len(),
            low < i,
            forall|j: int| 0 <= j < i ==> genuine@[low as int] <= #[trigger] genuine@[j],
        decreases genuine@.len() - i,
    {
        if genuine[i] < genuine[low] {
            low = i;
        }
        i = i + 1;
    }
    if impostor.len() == 0 {
        return Ok(Margin { min_genuine: low, max_impostor: None, separable: true });
    }
    let mut high: usize = 0;
    let mut k: usize = 1;
    while k < impostor.len()
        invariant
            1 <= k <= impostor@.len(),
            high < k,
            forall|j: int| 0 <= j < k ==> impostor@[high as int] >= #[trigger] impostor@[j],
        decreases impostor@.len() - k,
    {
        if impostor[k] > impostor[high] {
            high = k;
        }
        k = k + 1;
    }
    Ok(
        Margin {
            min_genuine: low,
            max_impostor: Some(high),
            separable: genuine[low] > impostor[high],
        },
    )
}

} // verus!
