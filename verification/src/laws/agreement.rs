//! The check and the sort agree.

use std::cmp::Ordering;
use vstd::prelude::*;

use crate::arrange::{
    arranged,
    count,
    in_place,
    lemma_decreasing_is_reversal,
    lemma_increasing_is_in_place,
};
use crate::comparer::{
    out_of_order,
    Comparer,
};
use crate::laws::total::{
    lemma_forced_order,
    lemma_texts_arranged,
    lemma_total_chain,
    lemma_total_reflexive,
    no_ties,
    texts_arranged,
};
use crate::line::{
    texts,
    SortableLine,
};
use crate::sorter::{
    fixed_on,
    ascending,
    is_sorting,
    is_total_on,
    keeps_ties,
    mirrored,
    Sorter,
};

verus! {

/// How the line at position `j` of `t` compares with the line behind it.
pub open spec fn step(c: Comparer, t: Seq<Seq<char>>, j: int) -> Ordering {
    c.forced_order(t[j], t[j + 1])
}

/// Whether no line of `t` is greater than the line directly behind it.
pub open spec fn steps_up(c: Comparer, t: Seq<Seq<char>>) -> bool {
    forall|j: int| 0 <= j < t.len() - 1 ==> #[trigger] step(c, t, j) != Ordering::Greater
}

/// Whether every line of `t` is greater than the line directly behind it.
pub open spec fn steps_down(c: Comparer, t: Seq<Seq<char>>) -> bool {
    forall|j: int| 0 <= j < t.len() - 1 ==> #[trigger] step(c, t, j) == Ordering::Greater
}

/// Where no line is greater than the next, the line at `i` is not greater than
/// the later line at `j`.
pub(crate) proof fn lemma_up_between(c: Comparer, t: Seq<Seq<char>>, i: int, j: int)
    requires
        is_total_on(c, t),
        steps_up(c, t),
        0 <= i < j < t.len(),
    ensures
        c.forced_order(t[i], t[j]) != Ordering::Greater,
    decreases j - i,
{
    assert(step(c, t, j - 1) != Ordering::Greater);
    if i < j - 1 {
        lemma_up_between(c, t, i, j - 1);
        lemma_total_chain(c, t, i, j - 1, j);
    }
}

/// Where every line is greater than the next, the line at `i` is greater than
/// the later line at `j`.
pub(crate) proof fn lemma_down_between(c: Comparer, t: Seq<Seq<char>>, i: int, j: int)
    requires
        is_total_on(c, t),
        steps_down(c, t),
        0 <= i < j < t.len(),
    ensures
        c.forced_order(t[i], t[j]) == Ordering::Greater,
    decreases j - i,
{
    assert(step(c, t, j - 1) == Ordering::Greater);
    if i < j - 1 {
        lemma_down_between(c, t, i, j - 1);
        lemma_total_chain(c, t, i, j - 1, j);
    }
}

/// Lines that a total order finds in order step by step are in order
/// throughout.
pub(crate) proof fn lemma_steps_up_is_ascending(c: Comparer, t: Seq<Seq<char>>)
    requires
        is_total_on(c, t),
        steps_up(c, t),
    ensures
        ascending(c, t),
{
    assert forall|i: int, j: int| 0 <= i < j < t.len() implies #[trigger] c.forced_order(
        t[i],
        t[j],
    ) != Ordering::Greater by {
        lemma_up_between(c, t, i, j);
    }
}

/// Whether the check of `sorter` finds no fault with any of `lines`.
pub open spec fn passes(sorter: Sorter, lines: Seq<SortableLine>) -> bool {
    forall|j: int| 0 <= j < lines.len() ==> sorter.passes_at(lines, j)
}

/// For a comparer with a fixed order, one line may follow another exactly
/// where the comparer accepts both and its order does not find them out of
/// order.
pub(crate) proof fn lemma_fixed_may_follow(sorter: Sorter, a: Seq<char>, b: Seq<char>)
    requires
        sorter.comparer.fixes(a),
        sorter.comparer.fixes(b),
    ensures
        sorter.may_follow(a, b) <==> sorter.comparer.accepts(a) && sorter.comparer.accepts(b)
            && !out_of_order(sorter.comparer.order(a, b), sorter.reverse),
        sorter.may_break(a, b) <==> sorter.comparer.accepts(a) && sorter.comparer.accepts(b)
            && out_of_order(sorter.comparer.order(a, b), sorter.reverse),
{
    let o = sorter.comparer.order(a, b);
    assert(sorter.comparer.is_outcome(a, b, o));
}

/// What the check asks of the line at `j`, where lines need not be unique
/// and the order is fixed and total: that the line before it is not out of
/// order with it.
pub(crate) proof fn lemma_passes_at(sorter: Sorter, lines: Seq<SortableLine>, j: int)
    requires
        fixed_on(sorter.comparer, texts(lines)),
        !sorter.unique,
        is_total_on(sorter.comparer, texts(lines)),
        0 <= j < lines.len(),
    ensures
        sorter.passes_at(lines, j) <==> (j > 0 ==> !out_of_order(
            step(sorter.comparer, texts(lines), j - 1),
            sorter.reverse,
        )),
{
    let c = sorter.comparer;
    let t = texts(lines);
    if j > 0 {
        assert(t[j] == lines[j].line@ && t[j - 1] == lines[j - 1].line@);
        lemma_total_reflexive(c, t, j - 1);
        lemma_total_reflexive(c, t, j);
        lemma_fixed_may_follow(sorter, t[j - 1], t[j]);
        lemma_forced_order(c, t[j - 1], t[j]);
    }
}

/// Sorting lines that are in order keeps the order of the places `i` and `j`.
pub(crate) proof fn lemma_pair_kept(
    c: Comparer,
    t: Seq<Seq<char>>,
    u: Seq<Seq<char>>,
    p: Seq<int>,
    i: int,
    j: int,
)
    requires
        is_total_on(c, t),
        ascending(c, t),
        texts_arranged(t, u, p),
        ascending(c, u),
        keeps_ties(c, u, p),
        0 <= i < j < t.len(),
    ensures
        p[i] < p[j],
{
    assert(u[i] == t[p[i]] && u[j] == t[p[j]]);
    if p[i] > p[j] {
        assert(c.forced_order(t[p[j]], t[p[i]]) != Ordering::Greater);
        assert(c.forced_order(u[i], u[j]) != Ordering::Greater);
        assert(mirrored(c, t[p[i]], t[p[j]]));
        assert(c.forced_order(u[i], u[j]) == Ordering::Equal);
    }
}

/// Sorting lines that are in order leaves every line in its place.
pub(crate) proof fn lemma_sorted_stays(c: Comparer, t: Seq<Seq<char>>, u: Seq<Seq<char>>, p: Seq<int>)
    requires
        is_total_on(c, t),
        ascending(c, t),
        texts_arranged(t, u, p),
        ascending(c, u),
        keeps_ties(c, u, p),
    ensures
        p == in_place(count(t)),
{
    assert forall|i: int, j: int| 0 <= i < j < count(t) implies p[i] < p[j] by {
        lemma_pair_kept(c, t, u, p, i, j);
    }
    lemma_increasing_is_in_place(p, count(t));
}

/// Sorting lines of which each is greater than the next turns the order of the
/// places `i` and `j` round.
pub(crate) proof fn lemma_pair_turned(
    c: Comparer,
    t: Seq<Seq<char>>,
    u: Seq<Seq<char>>,
    p: Seq<int>,
    i: int,
    j: int,
)
    requires
        is_total_on(c, t),
        steps_down(c, t),
        texts_arranged(t, u, p),
        ascending(c, u),
        0 <= i < j < t.len(),
    ensures
        p[i] > p[j],
{
    assert(u[i] == t[p[i]] && u[j] == t[p[j]]);
    if p[i] < p[j] {
        lemma_down_between(c, t, p[i], p[j]);
        assert(c.forced_order(u[i], u[j]) != Ordering::Greater);
    }
}

/// Sorting lines of which each is greater than the next turns them round.
pub(crate) proof fn lemma_descending_turns(
    c: Comparer,
    t: Seq<Seq<char>>,
    u: Seq<Seq<char>>,
    p: Seq<int>,
)
    requires
        is_total_on(c, t),
        steps_down(c, t),
        texts_arranged(t, u, p),
        ascending(c, u),
    ensures
        forall|i: int| 0 <= i < t.len() ==> #[trigger] p[i] == t.len() - 1 - i,
{
    assert forall|i: int, j: int| 0 <= i < j < count(t) implies p[i] > p[j] by {
        lemma_pair_turned(c, t, u, p, i, j);
    }
    lemma_decreasing_is_reversal(p, count(t));
}

/// The arrangement that puts the last of `n` items first, and so on.
pub open spec fn turned_round(n: int) -> Seq<int> {
    Seq::new(n as nat, |i: int| n - 1 - i)
}

/// Turning lines round arranges them.
pub(crate) proof fn lemma_turned_round(s: Seq<SortableLine>)
    ensures
        arranged(s, s.reverse(), turned_round(count(s))),
{
    let n = count(s);
    let p = turned_round(n);
    assert forall|i: int| 0 <= i < n implies #[trigger] s.reverse()[i] == s[p[i]] by {}
}

/// The text at `i` of lines turned round is the text at the mirrored place.
pub(crate) proof fn lemma_reversed_texts(s: Seq<SortableLine>, i: int)
    requires
        0 <= i < s.len(),
    ensures
        texts(s.reverse())[i] == texts(s)[s.len() - 1 - i],
        s.reverse().len() == s.len(),
{
    assert(s.reverse()[i] == s[s.len() - 1 - i]);
}

/// Going up, lines that pass the check are left in place by the sort.
pub(crate) proof fn lemma_passing_up_stays(
    sorter: Sorter,
    lines: Seq<SortableLine>,
    s: Seq<SortableLine>,
    p: Seq<int>,
)
    requires
        fixed_on(sorter.comparer, texts(lines)),
        !sorter.unique,
        !sorter.reverse,
        is_total_on(sorter.comparer, texts(lines)),
        is_sorting(sorter.comparer, lines, s, p),
        passes(sorter, lines),
    ensures
        s == lines,
{
    let c = sorter.comparer;
    let t = texts(lines);
    assert forall|j: int| 0 <= j < t.len() - 1 implies #[trigger] step(c, t, j)
        != Ordering::Greater by {
        assert(sorter.passes_at(lines, j + 1));
        lemma_passes_at(sorter, lines, j + 1);
    }
    lemma_steps_up_is_ascending(c, t);
    lemma_texts_arranged(lines, s, p);
    lemma_sorted_stays(c, t, texts(s), p);
    assert(s =~= lines);
}

/// Going up, lines that the sort leaves in place pass the check.
pub(crate) proof fn lemma_staying_up_passes(
    sorter: Sorter,
    lines: Seq<SortableLine>,
    s: Seq<SortableLine>,
    p: Seq<int>,
)
    requires
        fixed_on(sorter.comparer, texts(lines)),
        !sorter.unique,
        !sorter.reverse,
        is_total_on(sorter.comparer, texts(lines)),
        is_sorting(sorter.comparer, lines, s, p),
        s == lines,
    ensures
        passes(sorter, lines),
{
    let c = sorter.comparer;
    let t = texts(lines);
    assert forall|j: int| 0 <= j < lines.len() implies sorter.passes_at(lines, j) by {
        lemma_passes_at(sorter, lines, j);
        if j > 0 {
            assert(c.forced_order(t[j - 1], t[j]) != Ordering::Greater);
        }
    }
}

/// Going down, lines that pass the check come back from the sort as they
/// went in.
pub(crate) proof fn lemma_passing_down_turns(
    sorter: Sorter,
    lines: Seq<SortableLine>,
    s: Seq<SortableLine>,
    p: Seq<int>,
)
    requires
        fixed_on(sorter.comparer, texts(lines)),
        !sorter.unique,
        sorter.reverse,
        is_total_on(sorter.comparer, texts(lines)),
        is_sorting(sorter.comparer, lines, s, p),
        passes(sorter, lines),
    ensures
        s.reverse() == lines,
{
    let c = sorter.comparer;
    let t = texts(lines);
    let n = count(lines);
    assert forall|j: int| 0 <= j < t.len() - 1 implies #[trigger] step(c, t, j)
        == Ordering::Greater by {
        assert(sorter.passes_at(lines, j + 1));
        lemma_passes_at(sorter, lines, j + 1);
    }
    lemma_texts_arranged(lines, s, p);
    lemma_descending_turns(c, t, texts(s), p);
    assert forall|i: int| 0 <= i < n implies s.reverse()[i] == lines[i] by {
        assert(s.reverse()[i] == s[n - 1 - i]);
        assert(s[n - 1 - i] == lines[p[n - 1 - i]]);
    }
    assert(s.reverse() =~= lines);
}

/// Where `u` is in order without ties and `t` holds its lines turned round,
/// the line at `j` of `t` is greater than the next.
pub(crate) proof fn lemma_step_down_at(c: Comparer, t: Seq<Seq<char>>, u: Seq<Seq<char>>, j: int)
    requires
        is_total_on(c, t),
        no_ties(c, t),
        ascending(c, u),
        u.len() == t.len(),
        0 <= j < t.len() - 1,
        t[j] == u[t.len() - 1 - j],
        t[j + 1] == u[t.len() - 2 - j],
    ensures
        step(c, t, j) == Ordering::Greater,
{
    let n = t.len();
    assert(c.forced_order(u[n - 2 - j], u[n - 1 - j]) != Ordering::Greater);
    assert(mirrored(c, t[j], t[j + 1]));
    assert(c.forced_order(t[j], t[j + 1]) != Ordering::Equal);
}

/// Where sorted lines turned round give `lines`, and no two of them compare
/// as equal, the line at `j` of `lines` is greater than the next.
pub(crate) proof fn lemma_turned_step(c: Comparer, lines: Seq<SortableLine>, s: Seq<SortableLine>, j: int)
    requires
        is_total_on(c, texts(lines)),
        no_ties(c, texts(lines)),
        ascending(c, texts(s)),
        s.reverse() == lines,
        0 <= j < lines.len() - 1,
    ensures
        step(c, texts(lines), j) == Ordering::Greater,
{
    lemma_reversed_texts(s, j);
    lemma_reversed_texts(s, j + 1);
    lemma_step_down_at(c, texts(lines), texts(s), j);
}

/// Going down, lines without ties that come back from the sort as they went
/// in pass the check.
pub(crate) proof fn lemma_turning_down_passes(
    sorter: Sorter,
    lines: Seq<SortableLine>,
    s: Seq<SortableLine>,
    p: Seq<int>,
)
    requires
        fixed_on(sorter.comparer, texts(lines)),
        !sorter.unique,
        sorter.reverse,
        is_total_on(sorter.comparer, texts(lines)),
        no_ties(sorter.comparer, texts(lines)),
        is_sorting(sorter.comparer, lines, s, p),
        s.reverse() == lines,
    ensures
        passes(sorter, lines),
{
    let c = sorter.comparer;
    assert(ascending(c, texts(s)));
    assert forall|j: int| 0 <= j < lines.len() implies sorter.passes_at(lines, j) by {
        lemma_passes_at(sorter, lines, j);
        if j > 0 {
            lemma_turned_step(c, lines, s, j - 1);
        }
    }
}

/// The check and the sort agree: lines pass the check exactly where sorting
/// them leaves every line in its place.
///
/// This is stated of lines that need not be unique, for a comparer whose
/// order is fixed and total on the lines. Going down, equal lines fail the
/// check although sorting leaves them in place, so it is then stated of lines
/// of which no two compare as equal.
pub proof fn law_check_agrees_with_sort(
    sorter: Sorter,
    lines: Seq<SortableLine>,
    s: Seq<SortableLine>,
    p: Seq<int>,
)
    requires
        fixed_on(sorter.comparer, texts(lines)),
        !sorter.unique,
        is_total_on(sorter.comparer, texts(lines)),
        sorter.reverse ==> no_ties(sorter.comparer, texts(lines)),
        is_sorting(sorter.comparer, lines, s, p),
    ensures
        passes(sorter, lines) <==> sorter.finished(s) == lines,
{
    if sorter.reverse {
        if passes(sorter, lines) {
            lemma_passing_down_turns(sorter, lines, s, p);
        }
        if s.reverse() == lines {
            lemma_turning_down_passes(sorter, lines, s, p);
        }
    } else {
        if passes(sorter, lines) {
            lemma_passing_up_stays(sorter, lines, s, p);
        }
        if s == lines {
            lemma_staying_up_passes(sorter, lines, s, p);
        }
    }
}

} // verus!
