//! Stable sorting by an order that the caller defines.
//!
//! The items to sort stay where they are: what is computed is the order in
//! which to read them, as a list of their positions. Items that the order
//! does not tell apart are read in the order they stand in.

use vstd::prelude::*;

verus! {

/// A collection of items, known by their positions `0..size`, with an order
/// on them.
pub trait Ranked {
    /// How many items there are.
    spec fn size(&self) -> nat;

    /// Whether the item at `i` sorts no later than the item at `j`.
    spec fn le(&self, i: int, j: int) -> bool;

    /// Decides [`Ranked::le`].
    fn no_later(&self, i: usize, j: usize) -> (r: bool)
        requires
            i < self.size(),
            j < self.size(),
        ensures
            r == self.le(i as int, j as int),
    ;
}

/// Whether the order of `r` compares any two items and is transitive.
pub open spec fn total_preorder<R: Ranked>(r: &R) -> bool {
    &&& forall|i: int, j: int|
        0 <= i < r.size() && 0 <= j < r.size() ==> #[trigger] r.le(i, j) || r.le(j, i)
    &&& forall|i: int, j: int, k: int|
        0 <= i < r.size() && 0 <= j < r.size() && 0 <= k < r.size() && #[trigger] r.le(i, j)
            && #[trigger] r.le(j, k) ==> r.le(i, k)
}

/// Whether the item at `i` is read before the item at `j`: it sorts no later,
/// and where the two tie it stands first.
pub open spec fn before<R: Ranked>(r: &R, i: int, j: int) -> bool {
    r.le(i, j) && (r.le(j, i) ==> i < j)
}

/// Whether `v` lists positions from `lo` up to `hi`, none of them twice.
pub open spec fn lists_within(v: Seq<usize>, lo: int, hi: int) -> bool {
    &&& forall|p: int| 0 <= p < v.len() ==> lo <= #[trigger] v[p] < hi
    &&& forall|p: int, q: int| 0 <= p < q < v.len() ==> #[trigger] v[p] != #[trigger] v[q]
}

/// Whether each position that `v` lists is read before all that follow it.
pub open spec fn in_order<R: Ranked>(r: &R, v: Seq<usize>) -> bool {
    forall|p: int, q: int|
        0 <= p < q < v.len() ==> before(r, (#[trigger] v[p]) as int, (#[trigger] v[q]) as int)
}

/// Whether `v` lists positions from `lo` up to `hi`, none of them twice, and
/// in order if the order of `r` is one to sort by.
pub open spec fn ordered_within<R: Ranked>(r: &R, v: Seq<usize>, lo: int, hi: int) -> bool {
    lists_within(v, lo, hi) && (total_preorder(r) ==> in_order(r, v))
}

/// Whether `perm` is the stable order of the items of `r`: it lists every
/// position once, each item before all that follow it.
pub open spec fn is_stable_order<R: Ranked>(r: &R, perm: Seq<usize>) -> bool {
    perm.len() == r.size() && lists_within(perm, 0, r.size() as int) && in_order(r, perm)
}

/// Whether `out` is a merge under way of `a` and `b`, of which `a[i..]` and
/// `b[j..]` are left: it lists positions within bounds, none twice and none
/// that is left, and, if the order of `r` is one to sort by, each before all
/// that follow it and before all that are left.
pub open spec fn merging<R: Ranked>(
    r: &R,
    out: Seq<usize>,
    a: Seq<usize>,
    b: Seq<usize>,
    i: int,
    j: int,
    lo: int,
    hi: int,
) -> bool {
    &&& lists_within(out, lo, hi)
    &&& forall|k: int, x: int|
        0 <= k < out.len() && i <= x < a.len() ==> #[trigger] out[k] != #[trigger] a[x]
    &&& forall|k: int, y: int|
        0 <= k < out.len() && j <= y < b.len() ==> #[trigger] out[k] != #[trigger] b[y]
    &&& total_preorder(r) ==> {
        &&& in_order(r, out)
        &&& forall|k: int, x: int|
            0 <= k < out.len() && i <= x < a.len() ==> before(
                r,
                (#[trigger] out[k]) as int,
                (#[trigger] a[x]) as int,
            )
        &&& forall|k: int, y: int|
            0 <= k < out.len() && j <= y < b.len() ==> before(
                r,
                (#[trigger] out[k]) as int,
                (#[trigger] b[y]) as int,
            )
    }
}

/// Whether the position `x` may be read next, with `a[i..]` and `b[j..]`
/// left: it is none of them, and, if the order of `r` is one to sort by, it
/// is read before all of them.
pub open spec fn reads_next<R: Ranked>(
    r: &R,
    x: usize,
    a: Seq<usize>,
    b: Seq<usize>,
    i: int,
    j: int,
) -> bool {
    &&& forall|k: int| i <= k < a.len() ==> x != #[trigger] a[k]
    &&& forall|k: int| j <= k < b.len() ==> x != #[trigger] b[k]
    &&& total_preorder(r) ==> {
        &&& forall|k: int| i <= k < a.len() ==> before(r, x as int, (#[trigger] a[k]) as int)
        &&& forall|k: int| j <= k < b.len() ==> before(r, x as int, (#[trigger] b[k]) as int)
    }
}

/// One step of a merge: the head of either list, read next, leaves a merge
/// under way of what is left.
proof fn lemma_merging_step<R: Ranked>(
    r: &R,
    out: Seq<usize>,
    x: usize,
    a: Seq<usize>,
    b: Seq<usize>,
    i: int,
    j: int,
    from_a: bool,
    lo: int,
    hi: int,
)
    requires
        merging(r, out, a, b, i, j, lo, hi),
        lo <= x < hi,
        0 <= i <= a.len(),
        0 <= j <= b.len(),
        from_a ==> i < a.len() && x == a[i],
        !from_a ==> j < b.len() && x == b[j],
        reads_next(r, x, a, b, if from_a { i + 1 } else { i }, if from_a { j } else { j + 1 }),
    ensures
        merging(
            r,
            out.push(x),
            a,
            b,
            if from_a { i + 1 } else { i },
            if from_a { j } else { j + 1 },
            lo,
            hi,
        ),
{
    let next = out.push(x);
    let i2 = if from_a { i + 1 } else { i };
    let j2 = if from_a { j } else { j + 1 };
    assert forall|k: int| 0 <= k < out.len() implies #[trigger] out[k] != x by {
        if from_a {
            assert(out[k] != a[i]);
        } else {
            assert(out[k] != b[j]);
        }
    }
    assert forall|p: int, q: int| 0 <= p < q < next.len() implies #[trigger] next[p]
        != #[trigger] next[q] by {
        if q < out.len() {
            assert(out[p] != out[q]);
        } else {
            assert(out[p] != x);
        }
    }
    assert forall|k: int, y: int| 0 <= k < next.len() && i2 <= y < a.len() implies #[trigger] next[k]
        != #[trigger] a[y] by {
        if k < out.len() {
            assert(out[k] != a[y]);
        }
    }
    assert forall|k: int, y: int| 0 <= k < next.len() && j2 <= y < b.len() implies #[trigger] next[k]
        != #[trigger] b[y] by {
        if k < out.len() {
            assert(out[k] != b[y]);
        }
    }
    if total_preorder(r) {
        assert forall|k: int| 0 <= k < out.len() implies before(
            r,
            (#[trigger] out[k]) as int,
            x as int,
        ) by {
            if from_a {
                assert(before(r, out[k] as int, a[i] as int));
            } else {
                assert(before(r, out[k] as int, b[j] as int));
            }
        }
        assert forall|p: int, q: int| 0 <= p < q < next.len() implies before(
            r,
            (#[trigger] next[p]) as int,
            (#[trigger] next[q]) as int,
        ) by {
            if q < out.len() {
                assert(before(r, out[p] as int, out[q] as int));
            } else {
                assert(before(r, out[p] as int, x as int));
            }
        }
        assert forall|k: int, y: int| 0 <= k < next.len() && i2 <= y < a.len() implies before(
            r,
            (#[trigger] next[k]) as int,
            (#[trigger] a[y]) as int,
        ) by {
            if k < out.len() {
                assert(before(r, out[k] as int, a[y] as int));
            }
        }
        assert forall|k: int, y: int| 0 <= k < next.len() && j2 <= y < b.len() implies before(
            r,
            (#[trigger] next[k]) as int,
            (#[trigger] b[y]) as int,
        ) by {
            if k < out.len() {
                assert(before(r, out[k] as int, b[y] as int));
            }
        }
    }
}

/// Merges two ordered lists of positions, all of the first standing before
/// all of the second.
fn merge<R: Ranked>(r: &R, a: &Vec<usize>, b: &Vec<usize>, lo: usize, mid: usize, hi: usize) -> (out:
    Vec<usize>)
    requires
        lo <= mid <= hi <= r.size(),
        ordered_within(r, a@, lo as int, mid as int),
        ordered_within(r, b@, mid as int, hi as int),
        a@.len() + b@.len() <= usize::MAX,
    ensures
        out@.len() == a@.len() + b@.len(),
        ordered_within(r, out@, lo as int, hi as int),
{
    let mut out: Vec<usize> = Vec::new();
    let mut i: usize = 0;
    let mut j: usize = 0;
    while i < a.len() || j < b.len()
        invariant
            lo <= mid <= hi <= r.size(),
            ordered_within(r, a@, lo as int, mid as int),
            ordered_within(r, b@, mid as int, hi as int),
            a@.len() + b@.len() <= usize::MAX,
            i <= a@.len(),
            j <= b@.len(),
            out@.len() == i + j,
            merging(r, out@, a@, b@, i as int, j as int, lo as int, hi as int),
        decreases a@.len() - i + b@.len() - j,
    {
        let from_a = if j >= b.len() {
            true
        } else if i >= a.len() {
            false
        } else {
            r.no_later(a[i], b[j])
        };
        if from_a {
            let x = a[i];
            proof {
                assert forall|k: int| i < k < a@.len() implies x != #[trigger] a@[k] by {
                    assert(a@[i as int] != a@[k]);
                }
                assert forall|k: int| j <= k < b@.len() implies x != #[trigger] b@[k] by {}
                if total_preorder(r) {
                    assert forall|k: int| i < k < a@.len() implies before(
                        r,
                        x as int,
                        (#[trigger] a@[k]) as int,
                    ) by {
                        assert(before(r, a@[i as int] as int, a@[k] as int));
                    }
                    assert forall|k: int| j <= k < b@.len() implies before(
                        r,
                        x as int,
                        (#[trigger] b@[k]) as int,
                    ) by {
                        let bj = b@[j as int] as int;
                        let bk = b@[k] as int;
                        assert(r.le(x as int, bj));
                        if k > j {
                            assert(before(r, bj, bk));
                        } else {
                            assert(r.le(bj, bj) || r.le(bj, bj));
                        }
                        assert(r.le(bj, bk));
                        assert(r.le(x as int, bk));
                    }
                }
                lemma_merging_step(
                    r,
                    out@,
                    x,
                    a@,
                    b@,
                    i as int,
                    j as int,
                    true,
                    lo as int,
                    hi as int,
                );
            }
            out.push(x);
            i += 1;
        } else {
            let y = b[j];
            proof {
                assert forall|k: int| i <= k < a@.len() implies y != #[trigger] a@[k] by {}
                assert forall|k: int| j < k < b@.len() implies y != #[trigger] b@[k] by {
                    assert(b@[j as int] != b@[k]);
                }
                if total_preorder(r) {
                    assert forall|k: int| i <= k < a@.len() implies before(
                        r,
                        y as int,
                        (#[trigger] a@[k]) as int,
                    ) by {
                        let ai = a@[i as int] as int;
                        let ak = a@[k] as int;
                        assert(!r.le(ai, y as int));
                        if k > i {
                            assert(before(r, ai, ak));
                        } else {
                            assert(r.le(ai, ai) || r.le(ai, ai));
                        }
                        assert(r.le(ai, ak));
                        if r.le(ak, y as int) {
                            assert(r.le(ai, y as int));
                        }
                        assert(r.le(ak, y as int) || r.le(y as int, ak));
                    }
                    assert forall|k: int| j < k < b@.len() implies before(
                        r,
                        y as int,
                        (#[trigger] b@[k]) as int,
                    ) by {
                        assert(before(r, b@[j as int] as int, b@[k] as int));
                    }
                }
                lemma_merging_step(
                    r,
                    out@,
                    y,
                    a@,
                    b@,
                    i as int,
                    j as int,
                    false,
                    lo as int,
                    hi as int,
                );
            }
            out.push(y);
            j += 1;
        }
    }
    out
}

/// The stable order of the items at `lo..hi`.
fn order_range<R: Ranked>(r: &R, lo: usize, hi: usize) -> (out: Vec<usize>)
    requires
        lo <= hi <= r.size(),
    ensures
        out@.len() == hi - lo,
        ordered_within(r, out@, lo as int, hi as int),
    decreases hi - lo,
{
    if hi - lo == 0 {
        Vec::new()
    } else if hi - lo == 1 {
        let mut out: Vec<usize> = Vec::new();
        out.push(lo);
        out
    } else {
        let mid = lo + (hi - lo) / 2;
        let a = order_range(r, lo, mid);
        let b = order_range(r, mid, hi);
        merge(r, &a, &b, lo, mid, hi)
    }
}

/// An order in which to read the `n` items of `r`: it lists every position
/// once, and it is the stable order of the items wherever the order of `r`
/// compares any two items and is transitive.
pub fn stable_order<R: Ranked>(r: &R, n: usize) -> (perm: Vec<usize>)
    requires
        n == r.size(),
    ensures
        perm@.len() == n,
        lists_within(perm@, 0, n as int),
        total_preorder(r) ==> is_stable_order(r, perm@),
{
    order_range(r, 0, n)
}

/// Whether `perm` lists positions below `n`, each sorting no later by `le`
/// than all that follow it, and standing first where the two tie.
pub open spec fn is_order_by(n: nat, le: spec_fn(int, int) -> bool, perm: Seq<usize>) -> bool {
    &&& perm.len() == n
    &&& forall|p: int| 0 <= p < perm.len() ==> #[trigger] perm[p] < n
    &&& forall|p: int, q: int|
        0 <= p < q < perm.len() ==> {
            let i = (#[trigger] perm[p]) as int;
            let j = (#[trigger] perm[q]) as int;
            le(i, j) && (le(j, i) ==> i < j)
        }
}

/// Such an order lists every position.
pub proof fn lemma_order_lists_all(n: nat, le: spec_fn(int, int) -> bool, perm: Seq<usize>, v: int)
    requires
        is_order_by(n, le, perm),
        0 <= v < n,
    ensures
        exists|p: int| 0 <= p < perm.len() && perm[p] == v,
{
    let ints = Seq::new(perm.len(), |p: int| perm[p] as int);
    assert forall|i: int, j: int| 0 <= i < ints.len() && 0 <= j < ints.len() && i != j implies ints[i]
        != ints[j] by {
        if i < j {
            assert(le(perm[i] as int, perm[j] as int));
        } else {
            assert(le(perm[j] as int, perm[i] as int));
        }
    }
    ints.unique_seq_to_set();
    vstd::seq_lib::seq_to_set_is_finite(ints);
    vstd::set_lib::lemma_int_range(0, n as int);
    let all = vstd::set_lib::set_int_range(0, n as int);
    assert forall|x: int| ints.to_set().contains(x) implies all.contains(x) by {
        let p = choose|p: int| 0 <= p < ints.len() && ints[p] == x;
        assert(0 <= perm[p] < n);
    }
    vstd::set_lib::lemma_subset_equality(ints.to_set(), all);
    assert(all.contains(v));
    assert(ints.to_set().contains(v));
    let p = choose|p: int| 0 <= p < ints.len() && ints[p] == v;
    assert(perm[p] == v);
}

proof fn lemma_orders_agree(n: nat, le: spec_fn(int, int) -> bool, a: Seq<usize>, b: Seq<usize>, k: int)
    requires
        is_order_by(n, le, a),
        is_order_by(n, le, b),
        0 <= k <= n,
    ensures
        forall|m: int| 0 <= m < k ==> a[m] == b[m],
    decreases k,
{
    if k > 0 {
        lemma_orders_agree(n, le, a, b, k - 1);
        let x = a[k - 1];
        let y = b[k - 1];
        if x != y {
            lemma_order_lists_all(n, le, b, x as int);
            let j = choose|j: int| 0 <= j < b.len() && b[j] == x as int;
            if j < k - 1 {
                assert(a[j] == b[j]);
                assert(le(a[j] as int, a[k - 1] as int));
            }
            assert(le(b[k - 1] as int, b[j] as int));
            lemma_order_lists_all(n, le, a, y as int);
            let i = choose|i: int| 0 <= i < a.len() && a[i] == y as int;
            if i < k - 1 {
                assert(a[i] == b[i]);
                assert(le(b[i] as int, b[k - 1] as int));
            }
            assert(le(a[k - 1] as int, a[i] as int));
        }
    }
}

/// There is one such order: the order of the items and the positions they
/// stand in leave no choice.
pub proof fn lemma_order_unique(n: nat, le: spec_fn(int, int) -> bool, a: Seq<usize>, b: Seq<usize>)
    requires
        is_order_by(n, le, a),
        is_order_by(n, le, b),
    ensures
        a == b,
{
    lemma_orders_agree(n, le, a, b, n as int);
    assert(a =~= b);
}

/// There is one stable order of the items of `r`.
pub proof fn lemma_stable_order_unique<R: Ranked>(r: &R, a: Seq<usize>, b: Seq<usize>)
    requires
        is_stable_order(r, a),
        is_stable_order(r, b),
    ensures
        a == b,
{
    let le = |i: int, j: int| r.le(i, j);
    assert forall|p: int, q: int| 0 <= p < q < a.len() implies le(
        (#[trigger] a[p]) as int,
        (#[trigger] a[q]) as int,
    ) && (le(a[q] as int, a[p] as int) ==> a[p] < a[q]) by {
        assert(before(r, a[p] as int, a[q] as int));
    }
    assert forall|p: int, q: int| 0 <= p < q < b.len() implies le(
        (#[trigger] b[p]) as int,
        (#[trigger] b[q]) as int,
    ) && (le(b[q] as int, b[p] as int) ==> b[p] < b[q]) by {
        assert(before(r, b[p] as int, b[q] as int));
    }
    lemma_order_unique(r.size(), le, a, b);
}

} // verus!
