//! Lists: keeping part of one, and dropping repetitions.

use vstd::prelude::*;

verus! {

/// `s` without repetitions: of each item, the first occurrence.
pub open spec fn distinct<A>(s: Seq<A>) -> Seq<A>
    decreases s.len(),
{
    if s.len() == 0 {
        s
    } else if distinct(s.drop_last()).contains(s.last()) {
        distinct(s.drop_last())
    } else {
        distinct(s.drop_last()).push(s.last())
    }
}

/// What is left of a list without repetitions holds the same items.
pub proof fn lemma_distinct_contains<A>(s: Seq<A>, x: A)
    ensures
        distinct(s).contains(x) <==> s.contains(x),
    decreases s.len(),
{
    if s.len() > 0 {
        let t = s.drop_last();
        let d = distinct(t);
        let l = s.last();
        lemma_distinct_contains(t, x);
        if distinct(s).contains(x) {
            let i = choose|i: int| 0 <= i < distinct(s).len() && distinct(s)[i] == x;
            if d.contains(l) || i < d.len() {
                assert(d[i] == x);
                assert(d.contains(x));
                let j = choose|j: int| 0 <= j < t.len() && t[j] == x;
                assert(s[j] == x);
            } else {
                assert(s[s.len() - 1] == x);
            }
            assert(s.contains(x));
        }
        if s.contains(x) {
            let i = choose|i: int| 0 <= i < s.len() && s[i] == x;
            if i < s.len() - 1 {
                assert(t[i] == x);
                assert(t.contains(x));
                let k = choose|k: int| 0 <= k < d.len() && d[k] == x;
                if !d.contains(l) {
                    assert(d.push(l)[k] == x);
                }
            } else if !d.contains(l) {
                assert(d.push(l)[d.len() as int] == x);
            }
            assert(distinct(s).contains(x));
        }
    }
}

/// A list without repetitions holds no item twice.
pub proof fn lemma_distinct_no_duplicates<A>(s: Seq<A>)
    ensures
        forall|i: int, j: int|
            0 <= i < j < distinct(s).len() ==> distinct(s)[i] != distinct(s)[j],
    decreases s.len(),
{
    if s.len() > 0 {
        let d = distinct(s.drop_last());
        lemma_distinct_no_duplicates(s.drop_last());
        assert forall|i: int, j: int| 0 <= i < j < distinct(s).len() implies distinct(s)[i]
            != distinct(s)[j] by {
            if j < d.len() {
                assert(d[i] != d[j]);
            } else {
                assert(!d.contains(s.last()));
                assert(d[i] != s.last());
            }
        }
    }
}

/// A list that holds no item twice is left as it is.
pub proof fn lemma_distinct_of_distinct<A>(s: Seq<A>)
    requires
        forall|i: int, j: int| 0 <= i < j < s.len() ==> s[i] != s[j],
    ensures
        distinct(s) == s,
    decreases s.len(),
{
    if s.len() > 0 {
        let t = s.drop_last();
        assert forall|i: int, j: int| 0 <= i < j < t.len() implies t[i] != t[j] by {
            assert(s[i] != s[j]);
        }
        lemma_distinct_of_distinct(t);
        if t.contains(s.last()) {
            let i = choose|i: int| 0 <= i < t.len() && t[i] == s.last();
            assert(s[i] != s[s.len() - 1]);
        }
        assert(t.push(s.last()) =~= s);
    }
}

/// The items of `s` that `keep` holds of, in order.
pub open spec fn kept<A>(s: Seq<A>, keep: spec_fn(A) -> bool) -> Seq<A>
    decreases s.len(),
{
    if s.len() == 0 {
        s
    } else if keep(s.last()) {
        kept(s.drop_last(), keep).push(s.last())
    } else {
        kept(s.drop_last(), keep)
    }
}

/// What is kept of a list are the items of the list that `keep` holds of.
pub proof fn lemma_kept_contains<A>(s: Seq<A>, keep: spec_fn(A) -> bool, x: A)
    ensures
        kept(s, keep).contains(x) <==> s.contains(x) && keep(x),
    decreases s.len(),
{
    if s.len() > 0 {
        let t = s.drop_last();
        let k = kept(t, keep);
        let l = s.last();
        lemma_kept_contains(t, keep, x);
        if kept(s, keep).contains(x) {
            let i = choose|i: int| 0 <= i < kept(s, keep).len() && kept(s, keep)[i] == x;
            if i < k.len() {
                assert(k[i] == x);
                assert(k.contains(x));
                let j = choose|j: int| 0 <= j < t.len() && t[j] == x;
                assert(s[j] == x);
            } else {
                assert(s[s.len() - 1] == x);
            }
            assert(s.contains(x) && keep(x));
        }
        if s.contains(x) && keep(x) {
            let i = choose|i: int| 0 <= i < s.len() && s[i] == x;
            if i < s.len() - 1 {
                assert(t[i] == x);
                assert(t.contains(x));
                let j = choose|j: int| 0 <= j < k.len() && k[j] == x;
                if keep(l) {
                    assert(k.push(l)[j] == x);
                }
            } else {
                assert(k.push(l)[k.len() as int] == x);
            }
            assert(kept(s, keep).contains(x));
        }
    }
}

/// What is kept of a list that holds no item twice holds no item twice.
pub proof fn lemma_kept_no_duplicates<A>(s: Seq<A>, keep: spec_fn(A) -> bool)
    requires
        forall|i: int, j: int| 0 <= i < j < s.len() ==> s[i] != s[j],
    ensures
        forall|i: int, j: int|
            0 <= i < j < kept(s, keep).len() ==> kept(s, keep)[i] != kept(s, keep)[j],
    decreases s.len(),
{
    if s.len() > 0 {
        let t = s.drop_last();
        let k = kept(t, keep);
        assert forall|i: int, j: int| 0 <= i < j < t.len() implies t[i] != t[j] by {
            assert(s[i] != s[j]);
        }
        lemma_kept_no_duplicates(t, keep);
        assert forall|i: int, j: int| 0 <= i < j < kept(s, keep).len() implies kept(s, keep)[i]
            != kept(s, keep)[j] by {
            if j < k.len() {
                assert(k[i] != k[j]);
            } else {
                lemma_kept_contains(t, keep, s.last());
                if k[i] == s.last() {
                    assert(k.contains(s.last()));
                    let m = choose|m: int| 0 <= m < t.len() && t[m] == s.last();
                    assert(s[m] != s[s.len() - 1]);
                }
            }
        }
    }
}

/// Two lists that hold the same items, each once, are equally long, and what
/// a function makes of their items is the same but for the order.
pub proof fn lemma_same_items_same_images<A, B>(a: Seq<A>, b: Seq<A>, f: spec_fn(A) -> B)
    requires
        forall|i: int, j: int| 0 <= i < j < a.len() ==> a[i] != a[j],
        forall|i: int, j: int| 0 <= i < j < b.len() ==> b[i] != b[j],
        forall|x: A| a.contains(x) <==> b.contains(x),
    ensures
        a.len() == b.len(),
        a.map_values(f).to_multiset() == b.map_values(f).to_multiset(),
    decreases a.len(),
{
    broadcast use vstd::multiset::group_multiset_axioms;

    if a.len() == 0 {
        if b.len() > 0 {
            assert(b.contains(b[0]));
            assert(a.contains(b[0]));
        }
        assert(a.map_values(f) =~= b.map_values(f));
    } else {
        let x = a.last();
        assert(a[a.len() - 1] == x);
        assert(a.contains(x));
        let j = choose|j: int| 0 <= j < b.len() && b[j] == x;
        let a1 = a.drop_last();
        let b1 = b.remove(j);
        assert forall|p: int, q: int| 0 <= p < q < a1.len() implies a1[p] != a1[q] by {
            assert(a[p] != a[q]);
        }
        assert forall|p: int, q: int| 0 <= p < q < b1.len() implies b1[p] != b1[q] by {
            let p0 = if p < j { p } else { p + 1 };
            let q0 = if q < j { q } else { q + 1 };
            assert(b[p0] != b[q0]);
        }
        assert forall|y: A| a1.contains(y) <==> b1.contains(y) by {
            if a1.contains(y) {
                let p = choose|p: int| 0 <= p < a1.len() && a1[p] == y;
                assert(a[p] == y);
                assert(a[p] != a[a.len() - 1]);
                assert(a.contains(y));
                let q = choose|q: int| 0 <= q < b.len() && b[q] == y;
                assert(q != j);
                let q1 = if q < j { q } else { q - 1 };
                assert(b1[q1] == y);
            }
            if b1.contains(y) {
                let q = choose|q: int| 0 <= q < b1.len() && b1[q] == y;
                let q0 = if q < j { q } else { q + 1 };
                assert(b[q0] == y);
                if q0 < j {
                    assert(b[q0] != b[j]);
                } else {
                    assert(b[j] != b[q0]);
                }
                assert(b.contains(y));
                let p = choose|p: int| 0 <= p < a.len() && a[p] == y;
                assert(p < a.len() - 1);
                assert(a1[p] == y);
            }
        }
        lemma_same_items_same_images(a1, b1, f);
        let am = a.map_values(f);
        let bm = b.map_values(f);
        assert(am =~= a1.map_values(f).push(f(x)));
        vstd::seq_lib::to_multiset_build(a1.map_values(f), f(x));
        assert(bm.remove(j) =~= b1.map_values(f));
        vstd::seq_lib::to_multiset_remove(bm, j);
        vstd::seq_lib::to_multiset_contains(bm, bm[j]);
        assert(bm.contains(bm[j]));
        assert(bm.to_multiset() =~= bm.to_multiset().remove(bm[j]).insert(bm[j]));
    }
}

/// How often an item occurs in a list, counted one by one from the front.
pub open spec fn occurrences<A>(s: Seq<A>, x: A) -> nat
    decreases s.len(),
{
    if s.len() == 0 {
        0
    } else {
        occurrences(s.drop_last(), x) + if s.last() == x {
            1nat
        } else {
            0nat
        }
    }
}

/// Nothing occurs in a list more often than the list is long.
pub proof fn lemma_occurrences_bound<A>(s: Seq<A>, x: A)
    ensures
        occurrences(s, x) <= s.len(),
    decreases s.len(),
{
    if s.len() > 0 {
        lemma_occurrences_bound(s.drop_last(), x);
    }
}

/// How often an item occurs in a list does not depend on the order of the
/// list.
pub proof fn lemma_occurrences_ignore_order<A>(s: Seq<A>, x: A)
    ensures
        occurrences(s, x) == s.to_multiset().count(x),
    decreases s.len(),
{
    broadcast use vstd::multiset::group_multiset_axioms;

    if s.len() == 0 {
        s.to_multiset_ensures();
        assert(s.to_multiset().len() == 0);
    } else {
        lemma_occurrences_ignore_order(s.drop_last(), x);
        assert(s =~= s.drop_last().push(s.last()));
        vstd::seq_lib::to_multiset_build(s.drop_last(), s.last());
    }
}

} // verus!
