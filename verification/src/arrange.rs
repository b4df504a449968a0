//! Sequences that hold the same items in another arrangement.

use vstd::prelude::*;

verus! {

/// Whether `p` names each of the positions `0` to `n - 1` once.
pub open spec fn is_arrangement(p: Seq<int>, n: int) -> bool {
    &&& p.len() == n
    &&& forall|i: int| 0 <= i < n ==> 0 <= #[trigger] p[i] < n
    &&& forall|i: int, j: int| 0 <= i < j < n ==> #[trigger] p[i] != #[trigger] p[j]
}

/// Whether `after` holds the items of `before` in the arrangement `p`: at
/// each position `i` the item that stood at `p[i]`.
pub open spec fn arranged<T>(before: Seq<T>, after: Seq<T>, p: Seq<int>) -> bool {
    &&& is_arrangement(p, before.len() as int)
    &&& after.len() == before.len()
    &&& forall|i: int| 0 <= i < after.len() ==> #[trigger] after[i] == before[p[i]]
}

/// The arrangement that leaves every item in its place.
pub open spec fn in_place(n: int) -> Seq<int> {
    Seq::new(n as nat, |i: int| i)
}

/// Each number of `p`, less `by`.
pub open spec fn lowered(p: Seq<int>, by: int) -> Seq<int> {
    Seq::new(p.len(), |j: int| p[j] - by)
}

/// The number of items of `s`.
pub open spec fn count<T>(s: Seq<T>) -> int {
    s.len() as int
}

/// An arrangement that keeps the order of all positions leaves every item
/// in its place.
pub proof fn lemma_increasing_is_in_place(p: Seq<int>, n: int)
    requires
        is_arrangement(p, n),
        forall|i: int, j: int| 0 <= i < j < n ==> p[i] < p[j],
    ensures
        p == in_place(n),
{
    assert forall|i: int| 0 <= i < n implies p[i] == i by {
        lemma_increasing_from_below(p, n, i);
        lemma_increasing_from_above(p, n, i);
    }
    assert(p =~= in_place(n));
}

/// An arrangement that keeps the order puts nothing before its place.
proof fn lemma_increasing_from_below(p: Seq<int>, n: int, i: int)
    requires
        is_arrangement(p, n),
        forall|i: int, j: int| 0 <= i < j < n ==> p[i] < p[j],
        0 <= i < n,
    ensures
        p[i] >= i,
    decreases i,
{
    if i > 0 {
        lemma_increasing_from_below(p, n, i - 1);
    }
}

/// An arrangement that keeps the order puts nothing behind its place.
proof fn lemma_increasing_from_above(p: Seq<int>, n: int, i: int)
    requires
        is_arrangement(p, n),
        forall|i: int, j: int| 0 <= i < j < n ==> p[i] < p[j],
        0 <= i < n,
    ensures
        p[i] <= i,
    decreases n - i,
{
    if i < n - 1 {
        lemma_increasing_from_above(p, n, i + 1);
    }
}

/// An arrangement that turns the order of all positions round puts the last
/// item first, the last but one second, and so on.
pub proof fn lemma_decreasing_is_reversal(p: Seq<int>, n: int)
    requires
        is_arrangement(p, n),
        forall|i: int, j: int| 0 <= i < j < n ==> p[i] > p[j],
    ensures
        forall|i: int| 0 <= i < n ==> #[trigger] p[i] == n - 1 - i,
{
    assert forall|i: int| 0 <= i < n implies #[trigger] p[i] == n - 1 - i by {
        lemma_decreasing_from_below(p, n, i);
        lemma_decreasing_from_above(p, n, i);
    }
}

/// An arrangement that turns the order round puts nothing before its turned place.
proof fn lemma_decreasing_from_below(p: Seq<int>, n: int, i: int)
    requires
        is_arrangement(p, n),
        forall|i: int, j: int| 0 <= i < j < n ==> p[i] > p[j],
        0 <= i < n,
    ensures
        p[i] >= n - 1 - i,
    decreases n - i,
{
    if i < n - 1 {
        lemma_decreasing_from_below(p, n, i + 1);
    }
}

/// An arrangement that turns the order round puts nothing behind its turned place.
proof fn lemma_decreasing_from_above(p: Seq<int>, n: int, i: int)
    requires
        is_arrangement(p, n),
        forall|i: int, j: int| 0 <= i < j < n ==> p[i] > p[j],
        0 <= i < n,
    ensures
        p[i] <= n - 1 - i,
    decreases i,
{
    if i > 0 {
        lemma_decreasing_from_above(p, n, i - 1);
    }
}

/// More than `m` numbers out of `m` possible ones hold one number twice.
pub proof fn lemma_pigeonhole(f: Seq<int>, m: int)
    requires
        f.len() > m >= 0,
        forall|i: int| 0 <= i < f.len() ==> 0 <= #[trigger] f[i] < m,
    ensures
        exists|i: int, j: int| 0 <= i < j < f.len() && #[trigger] f[i] == #[trigger] f[j],
    decreases m,
{
    if m == 0 {
        assert(0 <= f[0] < m);
    } else if exists|k: int| 0 <= k < f.len() && f[k] == m - 1 {
        let k = choose|k: int| 0 <= k < f.len() && f[k] == m - 1;
        if exists|t: int| 0 <= t < f.len() && t != k && f[t] == m - 1 {
            let t = choose|t: int| 0 <= t < f.len() && t != k && f[t] == m - 1;
            if t < k {
                assert(f[t] == f[k]);
            } else {
                assert(f[k] == f[t]);
            }
        } else {
            let g = f.remove(k);
            assert forall|i: int| 0 <= i < g.len() implies 0 <= #[trigger] g[i] < m - 1 by {
                if i < k {
                    assert(g[i] == f[i]);
                } else {
                    assert(g[i] == f[i + 1]);
                }
            }
            lemma_pigeonhole(g, m - 1);
            let (i, j) = choose|i: int, j: int|
                0 <= i < j < g.len() && #[trigger] g[i] == #[trigger] g[j];
            let fi = if i < k {
                i
            } else {
                i + 1
            };
            let fj = if j < k {
                j
            } else {
                j + 1
            };
            assert(f[fi] == g[i] && f[fj] == g[j]);
            assert(f[fi] == f[fj]);
        }
    } else {
        lemma_pigeonhole(f, m - 1);
    }
}

/// An arrangement names every position.
pub proof fn lemma_arrangement_is_onto(p: Seq<int>, n: int, z: int)
    requires
        is_arrangement(p, n),
        0 <= z < n,
    ensures
        exists|b: int| 0 <= b < n && #[trigger] p[b] == z,
{
    if !(exists|b: int| 0 <= b < n && #[trigger] p[b] == z) {
        let f = Seq::new(
            n as nat,
            |i: int|
                if p[i] < z {
                    p[i]
                } else {
                    p[i] - 1
                },
        );
        assert forall|i: int| 0 <= i < f.len() implies 0 <= #[trigger] f[i] < n - 1 by {
            assert(p[i] != z);
        }
        lemma_pigeonhole(f, n - 1);
        let (i, j) = choose|i: int, j: int| 0 <= i < j < f.len() && #[trigger] f[i] == #[trigger] f[j];
        assert(p[i] != z && p[j] != z);
        assert(p[i] == p[j]);
    }
}

} // verus!
