//! Orders: of texts, and stable sorting by a key.

use vstd::prelude::*;

use crate::text::chars_of;

verus! {

/// Whether `a` comes before `b`, where they agree up to `i`.
pub open spec fn before_from(a: Seq<char>, b: Seq<char>, i: int) -> bool
    decreases b.len() - i,
{
    if i < 0 || i >= b.len() {
        false
    } else if i >= a.len() {
        true
    } else if a[i] == b[i] {
        before_from(a, b, i + 1)
    } else {
        a[i] < b[i]
    }
}

/// Whether `a` comes before `b`: the first character that differs decides, and a text comes
/// before what it is a beginning of.
pub open spec fn before(a: Seq<char>, b: Seq<char>) -> bool {
    before_from(a, b, 0)
}

/// Where two texts differ first.
proof fn lemma_difference(a: Seq<char>, b: Seq<char>, i: int) -> (k: int)
    requires
        0 <= i <= a.len(),
        i <= b.len(),
        forall|j: int| 0 <= j < i ==> a[j] == b[j],
    ensures
        i <= k <= a.len(),
        k <= b.len(),
        forall|j: int| 0 <= j < k ==> a[j] == b[j],
        k < a.len() && k < b.len() ==> a[k] != b[k],
        before_from(a, b, i) == (k < b.len() && (k == a.len() || a[k] < b[k])),
        before_from(b, a, i) == (k < a.len() && (k == b.len() || b[k] < a[k])),
    decreases b.len() - i,
{
    if i < a.len() && i < b.len() && a[i] == b[i] {
        lemma_difference(a, b, i + 1)
    } else {
        i
    }
}

/// Of two texts one comes first, or they are equal.
pub proof fn lemma_before_total(a: Seq<char>, b: Seq<char>)
    ensures
        before(a, b) || before(b, a) || a == b,
        !(before(a, b) && before(b, a)),
        !before(a, a),
{
    let k = lemma_difference(a, b, 0);
    if k == a.len() && k == b.len() {
        assert(a =~= b);
    }
    let m = lemma_difference(a, a, 0);
}

pub proof fn lemma_before_transitive(a: Seq<char>, b: Seq<char>, c: Seq<char>)
    requires
        before(a, b),
        before(b, c),
    ensures
        before(a, c),
{
    let k = lemma_difference(a, b, 0);
    let m = lemma_difference(b, c, 0);
    let n = lemma_difference(a, c, 0);
    let least = if k < m {
        k
    } else {
        m
    };
    if n < least {
        assert(a[n] == b[n]);
        assert(b[n] == c[n]);
    }
    if n > least {
        assert(a[least] == c[least]);
    }
}

/// Whether `a` comes before `b`.
pub fn comes_before(a: &str, b: &str) -> (r: bool)
    ensures
        r == before(a@, b@),
{
    let x: Vec<char> = chars_of(a);
    let y: Vec<char> = chars_of(b);
    let mut i: usize = 0;
    while i < y.len()
        invariant
            i <= y.len(),
            x@ == a@,
            y@ == b@,
            before(a@, b@) == before_from(a@, b@, i as int),
        decreases y.len() - i,
    {
        if i >= x.len() {
            return true;
        }
        if x[i] != y[i] {
            return x[i] < y[i];
        }
        i = i + 1;
    }
    false
}

/// Whether item `i` comes before item `j`: by key, and at equal keys by place.
pub open spec fn earlier(keys: Seq<u64>, i: int, j: int) -> bool {
    keys[i] < keys[j] || (keys[i] == keys[j] && i < j)
}

/// Whether `p` lists the places of all items by key, items with equal keys in their old order.
pub open spec fn is_stable_order(keys: Seq<u64>, p: Seq<usize>) -> bool {
    &&& p.len() == keys.len()
    &&& forall|i: int| 0 <= i < p.len() ==> 0 <= #[trigger] p[i] < keys.len()
    &&& forall|i: int, j: int|
        #![trigger p[i], p[j]]
        0 <= i < j < p.len() ==> earlier(keys, p[i] as int, p[j] as int)
}

/// The places of the items in the order of their keys; the sort is stable.
pub fn stable_order(keys: &Vec<u64>) -> (p: Vec<usize>)
    ensures
        is_stable_order(keys@, p@),
{
    let mut p: Vec<usize> = Vec::new();
    let mut k: usize = 0;
    while k < keys.len()
        invariant
            k <= keys.len(),
            p@.len() == k,
            forall|i: int| 0 <= i < p@.len() ==> 0 <= #[trigger] p@[i] < k,
            forall|i: int, j: int|
                #![trigger p@[i], p@[j]]
                0 <= i < j < p@.len() ==> earlier(keys@, p@[i] as int, p@[j] as int),
        decreases keys.len() - k,
    {
        let mut at: usize = p.len();
        while at > 0 && keys[p[at - 1]] > keys[k]
            invariant
                k < keys.len(),
                at <= p.len(),
                forall|i: int| 0 <= i < p@.len() ==> 0 <= #[trigger] p@[i] < k,
                forall|i: int| at <= i < p@.len() ==> keys@[#[trigger] p@[i] as int] > keys@[k as int],
            decreases at,
        {
            at = at - 1;
        }
        let ghost q = p@;
        p.insert(at, k);
        proof {
            assert(p@ == q.insert(at as int, k));
            assert forall|i: int, j: int|
                #![trigger p@[i], p@[j]]
                0 <= i < j < p@.len() implies earlier(keys@, p@[i] as int, p@[j] as int) by {
                let a = if i < at {
                    i
                } else {
                    i - 1
                };
                let b = if j < at {
                    j
                } else {
                    j - 1
                };
                if j == at {
                    assert(p@[i] == q[i]);
                    if i < at - 1 {
                        assert(earlier(keys@, q[i] as int, q[at - 1] as int));
                    }
                } else if i == at {
                    assert(p@[j] == q[b]);
                } else {
                    assert(p@[i] == q[a] && p@[j] == q[b]);
                    assert(earlier(keys@, q[a] as int, q[b] as int));
                }
            }
        }
        k = k + 1;
    }
    p
}

/// As many distinct places as there are items are all the places.
proof fn lemma_covers(p: Seq<usize>, n: nat)
    requires
        p.no_duplicates(),
        p.len() == n,
        n <= usize::MAX,
        forall|i: int| 0 <= i < p.len() ==> #[trigger] p[i] < n,
    ensures
        forall|k: usize| k < n ==> #[trigger] p.contains(k),
{
    let all = Set::new(|x: usize| x < n);
    let have = p.to_set();
    assert forall|k: usize| k < n implies #[trigger] p.contains(k) by {
        vstd::seq_lib::seq_to_set_is_finite(p);
        p.unique_seq_to_set();
        lemma_below(n);
        assert(have.subset_of(all)) by {
            assert forall|x: usize| have.contains(x) implies all.contains(x) by {
                let i = choose|i: int| 0 <= i < p.len() && p[i] == x;
                assert(p[i] < n);
            }
        }
        vstd::set_lib::lemma_subset_equality(have, all);
        assert(all.contains(k));
    }
}

/// A stable order lists every item once.
pub proof fn lemma_order_lists_all(keys: Seq<u64>, p: Seq<usize>)
    requires
        is_stable_order(keys, p),
        keys.len() <= usize::MAX,
    ensures
        p.no_duplicates(),
        forall|k: usize| k < keys.len() ==> #[trigger] p.contains(k),
{
    assert(p.no_duplicates()) by {
        assert forall|i: int, j: int| 0 <= i < p.len() && 0 <= j < p.len() && i != j implies p[i]
            != p[j] by {
            if i < j {
                assert(earlier(keys, p[i] as int, p[j] as int));
            } else {
                assert(earlier(keys, p[j] as int, p[i] as int));
            }
        }
    }
    lemma_covers(p, keys.len());
}

proof fn lemma_below(n: nat)
    requires
        n <= usize::MAX,
    ensures
        Set::new(|x: usize| x < n).finite(),
        Set::new(|x: usize| x < n).len() == n,
    decreases n,
{
    let s = Set::new(|x: usize| x < n);
    if n == 0 {
        assert(s =~= Set::<usize>::empty());
    } else {
        let m = (n - 1) as nat;
        let t = Set::new(|x: usize| x < m);
        lemma_below(m);
        assert(s =~= t.insert(m as usize));
    }
}

/// Of two texts that agree up to `k`, the one with the smaller character there comes first.
pub proof fn lemma_before_at(a: Seq<char>, b: Seq<char>, k: int, i: int)
    requires
        0 <= i <= k,
        k < a.len(),
        k < b.len(),
        forall|j: int| 0 <= j < k ==> a[j] == b[j],
        a[k] < b[k],
    ensures
        before_from(a, b, i),
    decreases k - i,
{
    if i < k {
        lemma_before_at(a, b, k, i + 1);
    }
}

/// There is only one stable order.
pub proof fn law_stable_order_is_unique(keys: Seq<u64>, p: Seq<usize>, q: Seq<usize>)
    requires
        is_stable_order(keys, p),
        is_stable_order(keys, q),
        keys.len() <= usize::MAX,
    ensures
        p == q,
{
    lemma_order_lists_all(keys, p);
    lemma_order_lists_all(keys, q);
    assert forall|i: int| 0 <= i < p.len() implies p[i] == q[i] by {
        lemma_same_place(keys, p, q, i);
    }
    assert(p =~= q);
}

proof fn lemma_same_place(keys: Seq<u64>, p: Seq<usize>, q: Seq<usize>, i: int)
    requires
        is_stable_order(keys, p),
        is_stable_order(keys, q),
        p.no_duplicates(),
        q.no_duplicates(),
        forall|k: usize| k < keys.len() ==> #[trigger] p.contains(k),
        forall|k: usize| k < keys.len() ==> #[trigger] q.contains(k),
        0 <= i < p.len(),
    ensures
        p[i] == q[i],
    decreases i,
{
    assert forall|j: int| 0 <= j < i implies p[j] == q[j] by {
        lemma_same_place(keys, p, q, j);
    }
    if p[i] != q[i] {
        assert(q.contains(p[i]));
        assert(p.contains(q[i]));
        let m = choose|m: int| 0 <= m < q.len() && q[m] == p[i];
        let n = choose|n: int| 0 <= n < p.len() && p[n] == q[i];
        if m < i {
            assert(p[m] == q[m]);
        }
        if n < i {
            assert(p[n] == q[n]);
        }
        assert(earlier(keys, q[i] as int, q[m] as int));
        assert(earlier(keys, p[i] as int, p[n] as int));
    }
}

/// Whether item `i` comes before item `j`: by key, at equal keys by name, and then by place.
pub open spec fn named_earlier(keys: Seq<(u64, Seq<char>)>, i: int, j: int) -> bool {
    keys[i].0 < keys[j].0 || (keys[i].0 == keys[j].0 && (before(keys[i].1, keys[j].1) || (
    keys[i].1 == keys[j].1 && i < j)))
}

/// Whether `p` lists the places of all items by key and name.
pub open spec fn is_named_order(keys: Seq<(u64, Seq<char>)>, p: Seq<usize>) -> bool {
    &&& p.len() == keys.len()
    &&& forall|i: int| 0 <= i < p.len() ==> 0 <= #[trigger] p[i] < keys.len()
    &&& forall|i: int, j: int|
        #![trigger p[i], p[j]]
        0 <= i < j < p.len() ==> named_earlier(keys, p[i] as int, p[j] as int)
}

pub open spec fn named_keys(v: Seq<(u64, String)>) -> Seq<(u64, Seq<char>)> {
    v.map_values(|k: (u64, String)| (k.0, k.1@))
}

proof fn lemma_named_earlier(keys: Seq<(u64, Seq<char>)>, i: int, j: int, k: int)
    ensures
        named_earlier(keys, i, j) && named_earlier(keys, j, k) ==> named_earlier(keys, i, k),
        i != j ==> named_earlier(keys, i, j) || named_earlier(keys, j, i),
        !(named_earlier(keys, i, j) && named_earlier(keys, j, i)),
{
    let a = keys[i].1;
    let b = keys[j].1;
    let c = keys[k].1;
    lemma_before_total(a, b);
    lemma_before_total(b, c);
    lemma_before_total(a, c);
    if before(a, b) && before(b, c) {
        lemma_before_transitive(a, b, c);
    }
}

/// The places of the items in the order of their keys and names.
pub fn named_order(keys: &Vec<(u64, String)>) -> (p: Vec<usize>)
    ensures
        is_named_order(named_keys(keys@), p@),
{
    let mut p: Vec<usize> = Vec::new();
    let ghost ks = named_keys(keys@);
    let mut k: usize = 0;
    while k < keys.len()
        invariant
            k <= keys.len(),
            ks == named_keys(keys@),
            p@.len() == k,
            forall|i: int| 0 <= i < p@.len() ==> 0 <= #[trigger] p@[i] < k,
            forall|i: int, j: int|
                #![trigger p@[i], p@[j]]
                0 <= i < j < p@.len() ==> named_earlier(ks, p@[i] as int, p@[j] as int),
        decreases keys.len() - k,
    {
        let mut at: usize = p.len();
        while at > 0 && (keys[p[at - 1]].0 > keys[k].0 || (keys[p[at - 1]].0 == keys[k].0
            && comes_before(keys[k].1.as_str(), keys[p[at - 1]].1.as_str())))
            invariant
                k < keys.len(),
                ks == named_keys(keys@),
                at <= p.len(),
                forall|i: int| 0 <= i < p@.len() ==> 0 <= #[trigger] p@[i] < k,
                forall|i: int|
                    at <= i < p@.len() ==> named_earlier(ks, k as int, #[trigger] p@[i] as int),
            decreases at,
        {
            at = at - 1;
        }
        let ghost q = p@;
        proof {
            if at > 0 {
                let l = q[at - 1] as int;
                assert(ks[l] == (keys@[l].0, keys@[l].1@));
                assert(ks[k as int] == (keys@[k as int].0, keys@[k as int].1@));
                lemma_named_earlier(ks, k as int, l, l);
                assert(!named_earlier(ks, k as int, l));
                assert(named_earlier(ks, l, k as int));
            }
        }
        p.insert(at, k);
        proof {
            assert(p@ == q.insert(at as int, k));
            assert forall|i: int, j: int|
                #![trigger p@[i], p@[j]]
                0 <= i < j < p@.len() implies named_earlier(ks, p@[i] as int, p@[j] as int) by {
                let a = if i < at {
                    i
                } else {
                    i - 1
                };
                let b = if j < at {
                    j
                } else {
                    j - 1
                };
                if j == at {
                    assert(p@[i] == q[i]);
                    if i < at - 1 {
                        assert(named_earlier(ks, q[i] as int, q[at - 1] as int));
                        lemma_named_earlier(ks, q[i] as int, q[at - 1] as int, k as int);
                    }
                } else if i == at {
                    assert(p@[j] == q[b]);
                } else {
                    assert(p@[i] == q[a] && p@[j] == q[b]);
                    assert(named_earlier(ks, q[a] as int, q[b] as int));
                }
            }
        }
        k = k + 1;
    }
    p
}

/// An order by key and name lists every item once.
pub proof fn lemma_named_order_lists_all(keys: Seq<(u64, Seq<char>)>, p: Seq<usize>)
    requires
        is_named_order(keys, p),
        keys.len() <= usize::MAX,
    ensures
        p.no_duplicates(),
        forall|k: usize| k < keys.len() ==> #[trigger] p.contains(k),
{
    assert(p.no_duplicates()) by {
        assert forall|i: int, j: int| 0 <= i < p.len() && 0 <= j < p.len() && i != j implies p[i]
            != p[j] by {
            lemma_before_total(keys[p[i] as int].1, keys[p[j] as int].1);
            if i < j {
                assert(named_earlier(keys, p[i] as int, p[j] as int));
            } else {
                assert(named_earlier(keys, p[j] as int, p[i] as int));
            }
        }
    }
    lemma_covers(p, keys.len());
}

/// There is only one order by key and name.
pub proof fn law_named_order_is_unique(
    keys: Seq<(u64, Seq<char>)>,
    p: Seq<usize>,
    q: Seq<usize>,
)
    requires
        is_named_order(keys, p),
        is_named_order(keys, q),
        keys.len() <= usize::MAX,
    ensures
        p == q,
{
    lemma_named_order_lists_all(keys, p);
    lemma_named_order_lists_all(keys, q);
    assert forall|i: int| 0 <= i < p.len() implies p[i] == q[i] by {
        lemma_same_named_place(keys, p, q, i);
    }
    assert(p =~= q);
}

proof fn lemma_same_named_place(
    keys: Seq<(u64, Seq<char>)>,
    p: Seq<usize>,
    q: Seq<usize>,
    i: int,
)
    requires
        is_named_order(keys, p),
        is_named_order(keys, q),
        p.no_duplicates(),
        q.no_duplicates(),
        forall|k: usize| k < keys.len() ==> #[trigger] p.contains(k),
        forall|k: usize| k < keys.len() ==> #[trigger] q.contains(k),
        0 <= i < p.len(),
    ensures
        p[i] == q[i],
    decreases i,
{
    assert forall|j: int| 0 <= j < i implies p[j] == q[j] by {
        lemma_same_named_place(keys, p, q, j);
    }
    if p[i] != q[i] {
        assert(q.contains(p[i]));
        assert(p.contains(q[i]));
        let m = choose|m: int| 0 <= m < q.len() && q[m] == p[i];
        let n = choose|n: int| 0 <= n < p.len() && p[n] == q[i];
        if m < i {
            assert(p[m] == q[m]);
        }
        if n < i {
            assert(p[n] == q[n]);
        }
        assert(named_earlier(keys, q[i] as int, q[m] as int));
        assert(named_earlier(keys, p[i] as int, p[n] as int));
        lemma_named_earlier(keys, p[i] as int, q[i] as int, 0);
    }
}

} // verus!
