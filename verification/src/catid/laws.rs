//! Laws of the roster and of the comparisons.

use vstd::prelude::*;

use crate::catid::{
    against_upto, ahead, enrolled, genuine_upto, group_from, groups_upto, held_scores, impostor_upto,
    is_best, is_margin, labelled, left_out, lemma_place, own_upto, place_for, place_from, place_of,
    unlabelled, Margin,
};

verus! {

proof fn lemma_place_is(v: Seq<(Seq<char>, u32)>, name: Seq<char>, k: int, i: int)
    requires
        0 <= i <= k < v.len(),
        v[k].0 == name,
        forall|j: int| i <= j < k ==> (#[trigger] v[j]).0 != name,
    ensures
        place_from(v, name, i) == Some(k),
    decreases k - i,
{
    if i < k {
        assert(v[i].0 != name);
        lemma_place_is(v, name, k, i + 1);
    }
}

/// Taking a sample back undoes taking it in, unless the cat was enrolled without any: then it is
/// gone.
pub proof fn law_unlabel_undoes_label(v: Seq<(Seq<char>, u32)>, name: Seq<char>)
    requires
        place_of(v, name) matches Some(i) ==> 0 < v[i].1 < u32::MAX,
    ensures
        unlabelled(labelled(v, name), name) == v,
{
    lemma_place(v, name, 0);
    let w = enrolled(v, name);
    let i = place_for(v, name);
    let l = labelled(v, name);
    assert forall|j: int| 0 <= j < i implies (#[trigger] l[j]).0 != name by {
        assert(l[j] == v[j]);
    }
    lemma_place_is(l, name, i, 0);
    assert(unlabelled(l, name) =~= v);
}

/// A cat that is enrolled twice is enrolled once.
pub proof fn law_enrolling_twice_is_once(v: Seq<(Seq<char>, u32)>, name: Seq<char>)
    ensures
        enrolled(enrolled(v, name), name) == enrolled(v, name),
        place_for(enrolled(v, name), name) == place_for(v, name),
{
    lemma_place(v, name, 0);
    if place_of(v, name) is None {
        let w = enrolled(v, name);
        assert forall|j: int| 0 <= j < v.len() implies (#[trigger] w[j]).0 != name by {
            assert(w[j] == v[j]);
        }
        lemma_place_is(w, name, v.len() as int, 0);
    }
}

proof fn lemma_own(g: int, members: Seq<usize>, n: int, k: int)
    requires
        0 <= k < n,
    ensures
        own_upto(g, members, n).len() == n,
        own_upto(g, members, n)[k] == (g as usize, members[k]),
    decreases n,
{
    if k < n - 1 {
        lemma_own(g, members, n - 1, k);
    } else if n > 1 {
        lemma_own(g, members, n - 1, 0);
    } else {
        reveal_with_fuel(own_upto, 2);
    }
}

proof fn lemma_in_part(a: Seq<(usize, usize)>, b: Seq<(usize, usize)>, x: (usize, usize))
    ensures
        a.contains(x) ==> (a + b).contains(x),
        b.contains(x) ==> (a + b).contains(x),
{
    if a.contains(x) {
        let i = choose|i: int| 0 <= i < a.len() && a[i] == x;
        assert((a + b)[i] == x);
    }
    if b.contains(x) {
        let i = choose|i: int| 0 <= i < b.len() && b[i] == x;
        assert((a + b)[a.len() + i] == x);
    }
}

/// Every sample of a cat with two or more is held against the rest of its own cat.
pub proof fn law_own_cat_is_compared(v: Seq<(Seq<char>, Seq<usize>)>, n: int, i: int, k: int)
    requires
        0 <= i < n <= v.len(),
        v[i].1.len() >= 2,
        0 <= k < v[i].1.len(),
    ensures
        genuine_upto(v, n).contains((i as usize, v[i].1[k])),
    decreases n,
{
    let own = own_upto(n - 1, v[n - 1].1, v[n - 1].1.len() as int);
    let x = (i as usize, v[i].1[k]);
    if i == n - 1 {
        lemma_own(i, v[i].1, v[i].1.len() as int, k);
        assert(own[k] == x);
    } else {
        law_own_cat_is_compared(v, n - 1, i, k);
    }
    lemma_in_part(genuine_upto(v, n - 1), own, x);
}

proof fn lemma_against(v: Seq<(Seq<char>, Seq<usize>)>, i: int, j: int, n: int, k: int)
    requires
        0 <= j < n <= v.len(),
        0 <= i < v.len(),
        i != j,
        0 <= k < v[i].1.len(),
    ensures
        against_upto(v, i, n).contains((j as usize, v[i].1[k])),
    decreases n,
{
    let part = own_upto(n - 1, v[i].1, v[i].1.len() as int);
    let x = (j as usize, v[i].1[k]);
    if j == n - 1 {
        lemma_own(j, v[i].1, v[i].1.len() as int, k);
        assert(part[k] == x);
    } else {
        lemma_against(v, i, j, n - 1, k);
    }
    lemma_in_part(against_upto(v, i, n - 1), part, x);
}

/// Every sample is held against every cat but its own.
pub proof fn law_other_cats_are_compared(
    v: Seq<(Seq<char>, Seq<usize>)>,
    n: int,
    i: int,
    j: int,
    k: int,
)
    requires
        0 <= i < n <= v.len(),
        0 <= j < v.len(),
        i != j,
        0 <= k < v[i].1.len(),
    ensures
        impostor_upto(v, n).contains((j as usize, v[i].1[k])),
    decreases n,
{
    let part = against_upto(v, n - 1, v.len() as int);
    let x = (j as usize, v[i].1[k]);
    if i == n - 1 {
        lemma_against(v, i, j, v.len() as int, k);
    } else {
        law_other_cats_are_compared(v, n - 1, i, j, k);
    }
    lemma_in_part(impostor_upto(v, n - 1), part, x);
}

/// How many samples a cat has.
pub open spec fn samples_of(v: Seq<(Seq<char>, u32)>, name: Seq<char>) -> u32 {
    match place_of(v, name) {
        Some(i) => v[i].1,
        None => 0,
    }
}

/// Taking a sample in counts one more for its cat, and leaves every other cat's count as it was.
pub proof fn law_label_counts_one(v: Seq<(Seq<char>, u32)>, name: Seq<char>, other: Seq<char>)
    requires
        samples_of(v, name) < u32::MAX,
    ensures
        samples_of(labelled(v, name), name) == samples_of(v, name) + 1,
        other != name ==> samples_of(labelled(v, name), other) == samples_of(v, other),
{
    lemma_place(v, name, 0);
    lemma_place(v, other, 0);
    let w = enrolled(v, name);
    let l = labelled(v, name);
    let i = place_for(v, name);
    assert forall|j: int| 0 <= j < i implies (#[trigger] l[j]).0 != name by {
        assert(l[j] == v[j]);
    }
    lemma_place_is(l, name, i, 0);
    if other != name {
        lemma_place(l, other, 0);
        match place_of(v, other) {
            Some(k) => {
                assert forall|j: int| 0 <= j < k implies (#[trigger] l[j]).0 != other by {
                    assert(l[j].0 == v[j].0);
                }
                assert(l[k] == v[k]);
                lemma_place_is(l, other, k, 0);
            },
            None => {
                if let Some(k) = place_of(l, other) {
                    assert(l[k].0 == other);
                    if k < v.len() {
                        assert(v[k].0 == l[k].0);
                    }
                }
            },
        }
    }
}

proof fn lemma_group_from(v: Seq<(Seq<char>, Seq<usize>)>, name: Seq<char>, i: int)
    requires
        0 <= i,
    ensures
        match group_from(v, name, i) {
            Some(k) => i <= k < v.len() && v[k].0 == name,
            None => forall|k: int| i <= k < v.len() ==> (#[trigger] v[k]).0 != name,
        },
    decreases v.len() - i,
{
    if i < v.len() && v[i].0 != name {
        lemma_group_from(v, name, i + 1);
    }
}

/// A group holds samples of one cat alone, the cat that it is named after.
pub proof fn law_groups_hold_one_cat(cats: Seq<Seq<char>>, n: int, k: int, m: int)
    requires
        0 <= n <= cats.len() <= usize::MAX,
        0 <= k < groups_upto(cats, n).len(),
        0 <= m < groups_upto(cats, n)[k].1.len(),
    ensures
        groups_upto(cats, n)[k].1[m] < n,
        cats[groups_upto(cats, n)[k].1[m] as int] == groups_upto(cats, n)[k].0,
    decreases n,
{
    if n > 0 {
        let v = groups_upto(cats, n - 1);
        lemma_group_from(v, cats[n - 1], 0);
        if k < v.len() && m < v[k].1.len() {
            law_groups_hold_one_cat(cats, n - 1, k, m);
        }
    }
}

/// No two groups are of one cat.
pub proof fn law_groups_differ(cats: Seq<Seq<char>>, n: int, k: int, l: int)
    requires
        0 <= n <= cats.len(),
        0 <= k < l < groups_upto(cats, n).len(),
    ensures
        groups_upto(cats, n)[k].0 != groups_upto(cats, n)[l].0,
    decreases n,
{
    if n > 0 {
        let v = groups_upto(cats, n - 1);
        lemma_group_from(v, cats[n - 1], 0);
        if l < v.len() {
            law_groups_differ(cats, n - 1, k, l);
        }
    }
}

/// Every sample is in a group, the one of its cat.
pub proof fn law_samples_are_grouped(cats: Seq<Seq<char>>, n: int, i: int) -> (r: (int, int))
    requires
        0 <= i < n <= cats.len() <= usize::MAX,
    ensures
        0 <= r.0 < groups_upto(cats, n).len(),
        0 <= r.1 < groups_upto(cats, n)[r.0].1.len(),
        groups_upto(cats, n)[r.0].0 == cats[i],
        groups_upto(cats, n)[r.0].1[r.1] == i,
    decreases n,
{
    let v = groups_upto(cats, n - 1);
    lemma_group_from(v, cats[n - 1], 0);
    if i == n - 1 {
        match group_from(v, cats[i], 0) {
            Some(k) => (k, v[k].1.len() as int),
            None => (v.len() as int, 0),
        }
    } else {
        law_samples_are_grouped(cats, n - 1, i)
    }
}

/// A cat without a sample has no score, and the score of any other is kept.
pub proof fn law_scores_need_a_sample(v: Seq<(Seq<char>, u32)>, scores: Seq<Option<i64>>, i: int)
    requires
        v.len() == scores.len(),
        0 <= i < v.len(),
    ensures
        held_scores(v, scores).len() == v.len(),
        v[i].1 == 0 ==> held_scores(v, scores)[i] is None,
        v[i].1 > 0 ==> held_scores(v, scores)[i] == scores[i],
{
}

/// The cats can be told apart exactly where every genuine score is above every other one.
pub proof fn law_margin_separates(m: Margin, genuine: Seq<i64>, impostor: Seq<i64>)
    requires
        is_margin(m, genuine, impostor),
    ensures
        m.separable <==> forall|i: int, j: int|
            0 <= i < genuine.len() && 0 <= j < impostor.len() ==> #[trigger] genuine[i]
                > #[trigger] impostor[j],
        0 <= m.min_genuine < genuine.len(),
        m.max_impostor matches Some(k) ==> 0 <= k < impostor.len(),
{
    if let Some(k) = m.max_impostor {
        assert(genuine[m.min_genuine as int] > impostor[k as int] || !m.separable);
    }
}

/// No cat that takes part has a higher score than the best, which has one itself and is not the cat that
/// is left out.
pub proof fn law_best_is_highest(scores: Seq<Option<i64>>, skip: Option<usize>, i: int, j: int)
    requires
        is_best(scores, skip, scores.len() as int, i),
        0 <= j < scores.len(),
    ensures
        scores[i] is Some,
        skip matches Some(s) ==> s != i,
        scores[j] is Some && !(skip matches Some(s) && s == j) ==> scores[i]->0 >= scores[j]->0,
        scores[j] is Some && !(skip matches Some(s) && s == j) && scores[i]->0 == scores[j]->0 ==> i <= j,
{
    if j != i && !left_out(scores, skip, j) {
        assert(ahead(scores, i, j));
    }
}

} // verus!
