//! Sorting what was sorted.

use std::cmp::Ordering;
use vstd::prelude::*;

use crate::arrange::{
    arranged,
    count,
    lemma_arrangement_is_onto,
    lemma_pigeonhole,
    lowered,
};
use crate::comparer::Comparer;
use crate::laws::agreement::{
    lemma_descending_turns,
    lemma_reversed_texts,
    lemma_sorted_stays,
    lemma_step_down_at,
    lemma_turned_round,
    step,
    turned_round,
};
use crate::laws::total::{
    lemma_fixed_arranged,
    lemma_no_ties_arranged,
    lemma_texts_arranged,
    lemma_total_arranged,
    lemma_total_chain,
    lemma_total_reflexive,
    lemma_total_strict_chain,
    no_ties,
    texts_arranged,
};
use crate::line::{
    texts,
    SortableLine,
};
use crate::sorter::{
    fixed_on,
    ascending,
    carries_over,
    is_sorting,
    is_total_on,
    keeps_ties,
    mirrored,
    without_repeats,
    Sorter,
};

verus! {

/// The places of the lines that `without_repeats` keeps.
pub open spec fn kept_places(lines: Seq<SortableLine>) -> Seq<int>
    decreases lines.len(),
{
    if lines.len() == 0 {
        Seq::<int>::empty()
    } else if lines.len() >= 2 && lines[lines.len() - 2].line@ == lines.last().line@ {
        kept_places(lines.drop_last())
    } else {
        kept_places(lines.drop_last()).push(lines.len() - 1)
    }
}

/// What `without_repeats` keeps: some of the lines it is given, in their
/// order, the last of them with the text of the last line, and no two
/// neighbours with one text.
pub(crate) proof fn lemma_without_repeats(lines: Seq<SortableLine>)
    ensures
        without_repeats(lines).len() == kept_places(lines).len(),
        forall|i: int|
            0 <= i < kept_places(lines).len() ==> 0 <= #[trigger] kept_places(lines)[i]
                < lines.len() && without_repeats(lines)[i] == lines[kept_places(lines)[i]],
        forall|i: int, j: int|
            0 <= i < j < kept_places(lines).len() ==> #[trigger] kept_places(lines)[i]
                < #[trigger] kept_places(lines)[j],
        lines.len() > 0 ==> without_repeats(lines).len() > 0 && without_repeats(
            lines,
        ).last().line@ == lines.last().line@,
        forall|i: int|
            0 <= i < without_repeats(lines).len() - 1 ==> (#[trigger] without_repeats(
                lines,
            )[i]).line@ != without_repeats(lines)[i + 1].line@,
    decreases lines.len(),
{
    if lines.len() > 0 {
        let front = lines.drop_last();
        lemma_without_repeats(front);
        let w = without_repeats(front);
        let k = kept_places(front);
        assert forall|i: int| 0 <= i < k.len() implies front[k[i]] == lines[k[i]] by {}
        if front.len() > 0 {
            assert(front.last() == lines[lines.len() - 2]);
        }
    }
}

/// Lines without two neighbours of one text have no repeats to lose.
pub(crate) proof fn lemma_nothing_to_lose(lines: Seq<SortableLine>)
    requires
        forall|i: int|
            0 <= i < lines.len() - 1 ==> (#[trigger] lines[i]).line@ != lines[i + 1].line@,
    ensures
        without_repeats(lines) == lines,
    decreases lines.len(),
{
    if lines.len() > 0 {
        let front = lines.drop_last();
        assert forall|i: int| 0 <= i < front.len() - 1 implies (#[trigger] front[i]).line@
            != front[i + 1].line@ by {
            assert(front[i] == lines[i] && front[i + 1] == lines[i + 1]);
        }
        lemma_nothing_to_lose(front);
        if lines.len() >= 2 {
            assert(lines[lines.len() - 2].line@ != lines[lines.len() - 2 + 1].line@);
        }
        assert(front.push(lines.last()) =~= lines);
    }
}

/// Lines in order that lose their repeats stay in order, and an order that
/// is total on them stays total.
pub(crate) proof fn lemma_without_repeats_ascending(c: Comparer, lines: Seq<SortableLine>)
    requires
        is_total_on(c, texts(lines)),
        ascending(c, texts(lines)),
    ensures
        is_total_on(c, texts(without_repeats(lines))),
        ascending(c, texts(without_repeats(lines))),
{
    lemma_without_repeats(lines);
    let t = texts(lines);
    let w = without_repeats(lines);
    let u = texts(w);
    let k = kept_places(lines);
    assert forall|i: int| 0 <= i < u.len() implies #[trigger] u[i] == t[k[i]] by {
        assert(w[i] == lines[k[i]]);
    }
    assert forall|i: int, j: int| 0 <= i < u.len() && 0 <= j < u.len() implies #[trigger] mirrored(
        c,
        u[i],
        u[j],
    ) by {
        assert(u[i] == t[k[i]] && u[j] == t[k[j]]);
        assert(mirrored(c, t[k[i]], t[k[j]]));
    }
    assert forall|i: int, j: int, x: int|
        0 <= i < u.len() && 0 <= j < u.len() && 0 <= x < u.len() implies #[trigger] carries_over(
        c,
        u[i],
        u[j],
        u[x],
    ) by {
        assert(u[i] == t[k[i]] && u[j] == t[k[j]] && u[x] == t[k[x]]);
        assert(carries_over(c, t[k[i]], t[k[j]], t[k[x]]));
    }
    assert forall|i: int, j: int| 0 <= i < j < u.len() implies #[trigger] c.forced_order(
        u[i],
        u[j],
    ) != Ordering::Greater by {
        assert(u[i] == t[k[i]] && u[j] == t[k[j]]);
        assert(k[i] < k[j]);
        assert(c.forced_order(t[k[i]], t[k[j]]) != Ordering::Greater);
    }
}

/// Lines of which no two compare as equal hold no text twice.
pub(crate) proof fn lemma_no_ties_no_repeats(c: Comparer, lines: Seq<SortableLine>)
    requires
        is_total_on(c, texts(lines)),
        no_ties(c, texts(lines)),
    ensures
        without_repeats(lines) == lines,
{
    let t = texts(lines);
    assert forall|i: int| 0 <= i < lines.len() - 1 implies (#[trigger] lines[i]).line@ != lines[i
        + 1].line@ by {
        lemma_total_reflexive(c, t, i);
        assert(t[i] == lines[i].line@ && t[i + 1] == lines[i + 1].line@);
        assert(c.forced_order(t[i], t[i + 1]) != Ordering::Equal);
    }
    lemma_nothing_to_lose(lines);
}

/// Lines that a comparer reads in one way only are read so in any
/// arrangement.
pub(crate) proof fn lemma_fixed_lines_arranged(
    c: Comparer,
    before: Seq<SortableLine>,
    after: Seq<SortableLine>,
    p: Seq<int>,
)
    requires
        fixed_on(c, texts(before)),
        arranged(before, after, p),
    ensures
        fixed_on(c, texts(after)),
{
    lemma_texts_arranged(before, after, p);
    lemma_fixed_arranged(c, texts(before), texts(after), p);
}

/// Lines that a comparer reads in one way only are read so when they are
/// turned round, and when they have lost their repeats.
pub(crate) proof fn lemma_fixed_finished(sorter: Sorter, s: Seq<SortableLine>)
    requires
        fixed_on(sorter.comparer, texts(s)),
    ensures
        fixed_on(sorter.comparer, texts(s.reverse())),
        fixed_on(sorter.comparer, texts(without_repeats(s))),
        fixed_on(sorter.comparer, texts(without_repeats(s.reverse()))),
        fixed_on(sorter.comparer, texts(sorter.finished(s))),
{
    let c = sorter.comparer;
    lemma_turned_round(s);
    lemma_fixed_lines_arranged(c, s, s.reverse(), turned_round(count(s)));
    lemma_fixed_without_repeats(c, s);
    lemma_fixed_without_repeats(c, s.reverse());
}

/// Lines that a comparer reads in one way only are read so when they have
/// lost their repeats.
pub(crate) proof fn lemma_fixed_without_repeats(c: Comparer, lines: Seq<SortableLine>)
    requires
        fixed_on(c, texts(lines)),
    ensures
        fixed_on(c, texts(without_repeats(lines))),
{
    lemma_without_repeats(lines);
    let t = texts(lines);
    let w = without_repeats(lines);
    let u = texts(w);
    let k = kept_places(lines);
    assert forall|i: int| 0 <= i < u.len() implies c.fixes(#[trigger] u[i]) by {
        assert(w[i] == lines[k[i]]);
        assert(u[i] == t[k[i]]);
    }
}

/// Going up, sorting lines that are in order gives the same lines.
pub(crate) proof fn lemma_again_up(sorter: Sorter, out: Seq<SortableLine>, twice: Seq<SortableLine>, second: Seq<int>)
    requires
        fixed_on(sorter.comparer, texts(out)),
        is_total_on(sorter.comparer, texts(out)),
        ascending(sorter.comparer, texts(out)),
        is_sorting(sorter.comparer, out, twice, second),
    ensures
        twice == out,
{
    lemma_texts_arranged(out, twice, second);
    lemma_sorted_stays(sorter.comparer, texts(out), texts(twice), second);
    assert(twice =~= out);
}

/// Going down without ties, sorting lines that were sorted and turned round
/// gives, turned round, the same lines.
pub(crate) proof fn lemma_again_down(
    sorter: Sorter,
    once: Seq<SortableLine>,
    twice: Seq<SortableLine>,
    second: Seq<int>,
)
    requires
        fixed_on(sorter.comparer, texts(once)),
        is_total_on(sorter.comparer, texts(once)),
        no_ties(sorter.comparer, texts(once)),
        ascending(sorter.comparer, texts(once)),
        is_sorting(sorter.comparer, once.reverse(), twice, second),
    ensures
        twice.reverse() == once.reverse(),
        is_total_on(sorter.comparer, texts(once.reverse())),
        no_ties(sorter.comparer, texts(once.reverse())),
{
    let c = sorter.comparer;
    let out = once.reverse();
    let n = count(once);
    lemma_fixed_finished(sorter, once);
    lemma_turned_round(once);
    lemma_texts_arranged(once, out, turned_round(n));
    lemma_total_arranged(c, texts(once), texts(out), turned_round(n));
    lemma_no_ties_arranged(c, texts(once), texts(out), turned_round(n));
    assert forall|j: int| 0 <= j < texts(out).len() - 1 implies #[trigger] step(c, texts(out), j)
        == Ordering::Greater by {
        lemma_reversed_texts(once, j);
        lemma_reversed_texts(once, j + 1);
        lemma_step_down_at(c, texts(out), texts(once), j);
    }
    lemma_texts_arranged(out, twice, second);
    lemma_descending_turns(c, texts(out), texts(twice), second);
    assert forall|i: int| 0 <= i < n implies twice.reverse()[i] == out[i] by {
        assert(twice.reverse()[i] == twice[n - 1 - i]);
        assert(twice[n - 1 - i] == out[second[n - 1 - i]]);
    }
    assert(twice.reverse() =~= out);
}

/// Sorting what was sorted changes nothing: the second sort gives the lines
/// that the first one gave, each in its place.
///
/// This is stated for a comparer whose order is fixed and total on the
/// lines, whether or not lines are to be unique. Going down, lines that
/// compare as equal change places among each other with every sort, so it is
/// then stated of lines of which no two compare as equal.
pub proof fn law_sorting_again_changes_nothing(
    sorter: Sorter,
    lines: Seq<SortableLine>,
    once: Seq<SortableLine>,
    first: Seq<int>,
    twice: Seq<SortableLine>,
    second: Seq<int>,
)
    requires
        fixed_on(sorter.comparer, texts(lines)),
        is_total_on(sorter.comparer, texts(lines)),
        sorter.reverse ==> no_ties(sorter.comparer, texts(lines)),
        is_sorting(sorter.comparer, lines, once, first),
        is_sorting(sorter.comparer, sorter.finished(once), twice, second),
    ensures
        sorter.finished(twice) == sorter.finished(once),
{
    let c = sorter.comparer;
    lemma_fixed_lines_arranged(c, lines, once, first);
    lemma_fixed_finished(sorter, once);
    lemma_texts_arranged(lines, once, first);
    lemma_total_arranged(c, texts(lines), texts(once), first);
    if sorter.reverse {
        lemma_no_ties_arranged(c, texts(lines), texts(once), first);
        lemma_turned_round(once);
        lemma_texts_arranged(once, once.reverse(), turned_round(count(once)));
        lemma_total_arranged(c, texts(once), texts(once.reverse()), turned_round(count(once)));
        lemma_no_ties_arranged(c, texts(once), texts(once.reverse()), turned_round(count(once)));
        lemma_no_ties_no_repeats(c, once.reverse());
        assert(sorter.finished(once) == once.reverse());
        lemma_again_down(sorter, once, twice, second);
    } else {
        if sorter.unique {
            lemma_without_repeats_ascending(c, once);
            lemma_without_repeats(once);
            lemma_again_up(sorter, without_repeats(once), twice, second);
            lemma_nothing_to_lose(without_repeats(once));
        } else {
            lemma_again_up(sorter, once, twice, second);
        }
    }
}

/// Where the line at `i` of `t` is less than the line at `i` of `u`, every
/// line of `u` from `i` on comes from a place of `t` behind `i`.
pub(crate) proof fn lemma_later_place(
    c: Comparer,
    t: Seq<Seq<char>>,
    u: Seq<Seq<char>>,
    p: Seq<int>,
    i: int,
    j: int,
)
    requires
        is_total_on(c, t),
        ascending(c, t),
        texts_arranged(t, u, p),
        ascending(c, u),
        0 <= i <= j < t.len(),
        c.forced_order(t[i], u[i]) == Ordering::Less,
    ensures
        p[j] > i,
{
    assert(u[i] == t[p[i]] && u[j] == t[p[j]]);
    if p[j] <= i {
        lemma_total_reflexive(c, t, i);
        lemma_total_reflexive(c, t, p[i]);
        if p[j] < i {
            assert(c.forced_order(t[p[j]], t[i]) != Ordering::Greater);
        }
        if i < j {
            assert(c.forced_order(u[i], u[j]) != Ordering::Greater);
        }
        lemma_total_strict_chain(c, t, p[j], i, p[i]);
        lemma_total_strict_chain(c, t, p[j], p[i], p[j]);
        lemma_total_reflexive(c, t, p[j]);
    }
}

/// Where the line at `i` of `t` is greater than the line at `i` of `u`, every
/// line of `u` up to `i` comes from a place of `t` before `i`.
pub(crate) proof fn lemma_earlier_place(
    c: Comparer,
    t: Seq<Seq<char>>,
    u: Seq<Seq<char>>,
    p: Seq<int>,
    i: int,
    j: int,
)
    requires
        is_total_on(c, t),
        ascending(c, t),
        texts_arranged(t, u, p),
        ascending(c, u),
        0 <= j <= i < t.len(),
        c.forced_order(t[i], u[i]) == Ordering::Greater,
    ensures
        p[j] < i,
{
    assert(u[i] == t[p[i]] && u[j] == t[p[j]]);
    if p[j] >= i {
        lemma_total_reflexive(c, t, i);
        lemma_total_reflexive(c, t, p[i]);
        lemma_total_reflexive(c, t, p[j]);
        assert(mirrored(c, t[i], t[p[i]]));
        if p[j] > i {
            assert(c.forced_order(t[i], t[p[j]]) != Ordering::Greater);
        }
        if j < i {
            assert(c.forced_order(u[j], u[i]) != Ordering::Greater);
        }
        lemma_total_strict_chain(c, t, p[j], p[i], i);
        lemma_total_strict_chain(c, t, p[j], i, p[j]);
    }
}

/// Two arrangements of the same lines that are both in order hold at every
/// place lines that compare as equal.
pub(crate) proof fn lemma_ascending_agree(
    c: Comparer,
    t: Seq<Seq<char>>,
    u: Seq<Seq<char>>,
    p: Seq<int>,
    i: int,
)
    requires
        is_total_on(c, t),
        ascending(c, t),
        texts_arranged(t, u, p),
        ascending(c, u),
        0 <= i < t.len(),
    ensures
        c.forced_order(t[i], u[i]) == Ordering::Equal,
{
    let n = count(t);
    if c.forced_order(t[i], u[i]) == Ordering::Less {
        let f = lowered(p.skip(i), i + 1);
        assert forall|j: int| 0 <= j < f.len() implies 0 <= #[trigger] f[j] < n - i - 1 by {
            lemma_later_place(c, t, u, p, i, i + j);
        }
        lemma_pigeonhole(f, n - i - 1);
        let (a, b) = choose|a: int, b: int| 0 <= a < b < f.len() && #[trigger] f[a] == #[trigger] f[
            b
        ];
        assert(p[i + a] == p[i + b]);
    } else if c.forced_order(t[i], u[i]) == Ordering::Greater {
        let f = p.take(i + 1);
        assert forall|j: int| 0 <= j < f.len() implies 0 <= #[trigger] f[j] < i by {
            lemma_earlier_place(c, t, u, p, i, j);
        }
        lemma_pigeonhole(f, i);
        let (a, b) = choose|a: int, b: int| 0 <= a < b < f.len() && #[trigger] f[a] == #[trigger] f[
            b
        ];
        assert(p[a] == p[b]);
    }
}

/// Follows one arrangement by another.
pub open spec fn followed_by(p: Seq<int>, q: Seq<int>) -> Seq<int> {
    Seq::new(q.len(), |i: int| p[q[i]])
}

/// One arrangement followed by another is an arrangement.
pub(crate) proof fn lemma_followed_by(
    t: Seq<Seq<char>>,
    u: Seq<Seq<char>>,
    p: Seq<int>,
    v: Seq<Seq<char>>,
    q: Seq<int>,
)
    requires
        texts_arranged(t, u, p),
        texts_arranged(u, v, q),
    ensures
        texts_arranged(t, v, followed_by(p, q)),
{
    let r = followed_by(p, q);
    assert forall|i: int, j: int| 0 <= i < j < count(t) implies #[trigger] r[i] != #[trigger] r[
        j
    ] by {
        assert(q[i] != q[j]);
        if q[i] < q[j] {
            assert(p[q[i]] != p[q[j]]);
        } else {
            assert(p[q[j]] != p[q[i]]);
        }
    }
    assert forall|i: int| 0 <= i < v.len() implies #[trigger] v[i] == t[r[i]] by {
        assert(v[i] == u[q[i]]);
        assert(u[q[i]] == t[p[q[i]]]);
    }
}

/// Whether no line of `t` is less than a later one.
pub open spec fn descending(c: Comparer, t: Seq<Seq<char>>) -> bool {
    forall|i: int, j: int|
        0 <= i < j < t.len() ==> #[trigger] c.forced_order(t[i], t[j]) != Ordering::Less
}

/// Whether no two neighbours among `t` are the same.
pub open spec fn neighbours_differ(t: Seq<Seq<char>>) -> bool {
    forall|i: int| 0 <= i < t.len() - 1 ==> #[trigger] t[i] != t[i + 1]
}

/// Lines in order, turned round, are in order going down.
pub(crate) proof fn lemma_reversed_is_descending(c: Comparer, s: Seq<SortableLine>)
    requires
        is_total_on(c, texts(s)),
        ascending(c, texts(s)),
    ensures
        descending(c, texts(s.reverse())),
        is_total_on(c, texts(s.reverse())),
{
    let u = texts(s);
    let r = texts(s.reverse());
    let n = count(s);
    lemma_turned_round(s);
    lemma_texts_arranged(s, s.reverse(), turned_round(n));
    lemma_total_arranged(c, u, r, turned_round(n));
    assert forall|i: int, j: int| 0 <= i < j < r.len() implies #[trigger] c.forced_order(
        r[i],
        r[j],
    ) != Ordering::Less by {
        lemma_reversed_texts(s, i);
        lemma_reversed_texts(s, j);
        assert(c.forced_order(u[n - 1 - j], u[n - 1 - i]) != Ordering::Greater);
        assert(mirrored(c, u[n - 1 - i], u[n - 1 - j]));
    }
}

/// Lines in order going down, turned round, are in order going up.
pub(crate) proof fn lemma_reversed_is_ascending(c: Comparer, s: Seq<SortableLine>)
    requires
        is_total_on(c, texts(s)),
        descending(c, texts(s)),
    ensures
        ascending(c, texts(s.reverse())),
        is_total_on(c, texts(s.reverse())),
{
    let u = texts(s);
    let r = texts(s.reverse());
    let n = count(s);
    lemma_turned_round(s);
    lemma_texts_arranged(s, s.reverse(), turned_round(n));
    lemma_total_arranged(c, u, r, turned_round(n));
    assert forall|i: int, j: int| 0 <= i < j < r.len() implies #[trigger] c.forced_order(
        r[i],
        r[j],
    ) != Ordering::Greater by {
        lemma_reversed_texts(s, i);
        lemma_reversed_texts(s, j);
        assert(c.forced_order(u[n - 1 - j], u[n - 1 - i]) != Ordering::Less);
        assert(mirrored(c, u[n - 1 - i], u[n - 1 - j]));
    }
}

/// Lines in order going down that lose their repeats stay in order, and no
/// two neighbours among them hold one text.
pub(crate) proof fn lemma_without_repeats_descending(c: Comparer, lines: Seq<SortableLine>)
    requires
        is_total_on(c, texts(lines)),
        descending(c, texts(lines)),
    ensures
        is_total_on(c, texts(without_repeats(lines))),
        descending(c, texts(without_repeats(lines))),
        neighbours_differ(texts(without_repeats(lines))),
{
    lemma_without_repeats(lines);
    let t = texts(lines);
    let w = without_repeats(lines);
    let u = texts(w);
    let k = kept_places(lines);
    assert forall|i: int| 0 <= i < u.len() implies #[trigger] u[i] == t[k[i]] by {
        assert(w[i] == lines[k[i]]);
    }
    assert forall|i: int, j: int| 0 <= i < u.len() && 0 <= j < u.len() implies #[trigger] mirrored(
        c,
        u[i],
        u[j],
    ) by {
        assert(u[i] == t[k[i]] && u[j] == t[k[j]]);
        assert(mirrored(c, t[k[i]], t[k[j]]));
    }
    assert forall|i: int, j: int, x: int|
        0 <= i < u.len() && 0 <= j < u.len() && 0 <= x < u.len() implies #[trigger] carries_over(
        c,
        u[i],
        u[j],
        u[x],
    ) by {
        assert(u[i] == t[k[i]] && u[j] == t[k[j]] && u[x] == t[k[x]]);
        assert(carries_over(c, t[k[i]], t[k[j]], t[k[x]]));
    }
    assert forall|i: int, j: int| 0 <= i < j < u.len() implies #[trigger] c.forced_order(
        u[i],
        u[j],
    ) != Ordering::Less by {
        assert(u[i] == t[k[i]] && u[j] == t[k[j]]);
        assert(k[i] < k[j]);
        assert(c.forced_order(t[k[i]], t[k[j]]) != Ordering::Less);
    }
    assert forall|i: int| 0 <= i < u.len() - 1 implies #[trigger] u[i] != u[i + 1] by {
        assert(w[i].line@ != w[i + 1].line@);
    }
}

/// Among lines in order going down, a line between two lines that compare as
/// equal compares as equal to both.
pub(crate) proof fn lemma_between_ties(c: Comparer, t: Seq<Seq<char>>, x: int, z: int, y: int)
    requires
        is_total_on(c, t),
        descending(c, t),
        0 <= x < z < y < t.len(),
        c.forced_order(t[x], t[y]) == Ordering::Equal,
    ensures
        c.forced_order(t[x], t[z]) == Ordering::Equal,
        c.forced_order(t[z], t[y]) == Ordering::Equal,
{
    assert(c.forced_order(t[x], t[z]) != Ordering::Less);
    assert(c.forced_order(t[z], t[y]) != Ordering::Less);
    assert(mirrored(c, t[x], t[z]));
    assert(mirrored(c, t[z], t[y]));
    assert(mirrored(c, t[x], t[y]));
    lemma_total_strict_chain(c, t, y, z, x);
    lemma_total_strict_chain(c, t, z, x, y);
    lemma_total_strict_chain(c, t, y, x, z);
    lemma_total_chain(c, t, y, z, x);
}

/// A stable sort of lines that are in order going down, and of which no two
/// neighbours are the same, makes no two lines that are the same neighbours.
pub(crate) proof fn lemma_neighbours_stay_apart(
    c: Comparer,
    o: Seq<Seq<char>>,
    w: Seq<Seq<char>>,
    q: Seq<int>,
    a: int,
)
    requires
        is_total_on(c, o),
        descending(c, o),
        neighbours_differ(o),
        texts_arranged(o, w, q),
        keeps_ties(c, w, q),
        0 <= a < w.len() - 1,
    ensures
        w[a] != w[a + 1],
{
    if w[a] == w[a + 1] {
        let x = q[a];
        let y = q[a + 1];
        assert(w[a] == o[x] && w[a + 1] == o[y]);
        lemma_total_reflexive(c, o, x);
        assert(c.forced_order(w[a], w[a + 1]) == Ordering::Equal);
        assert(x < y);
        if y == x + 1 {
            assert(o[x] != o[x + 1]);
        } else {
            let z = x + 1;
            lemma_between_ties(c, o, x, z, y);
            lemma_arrangement_is_onto(q, count(o), z);
            let b = choose|b: int| 0 <= b < count(o) && #[trigger] q[b] == z;
            assert(w[b] == o[z]);
            assert(mirrored(c, o[x], o[z]));
            if b < a {
                assert(c.forced_order(w[b], w[a]) == Ordering::Equal);
            } else if b > a + 1 {
                assert(c.forced_order(w[a + 1], w[b]) == Ordering::Equal);
            }
        }
    }
}

/// Lines of which no two neighbours hold one text keep that when they are
/// turned round.
pub(crate) proof fn lemma_turned_neighbours_differ(s: Seq<SortableLine>)
    requires
        neighbours_differ(texts(s)),
    ensures
        forall|i: int|
            0 <= i < s.reverse().len() - 1 ==> (#[trigger] s.reverse()[i]).line@ != s.reverse()[i
                + 1].line@,
{
    let n = count(s);
    let u = texts(s);
    assert forall|i: int| 0 <= i < s.reverse().len() - 1 implies (#[trigger] s.reverse()[
        i
    ]).line@ != s.reverse()[i + 1].line@ by {
        assert(s.reverse()[i] == s[n - 1 - i]);
        assert(s.reverse()[i + 1] == s[n - 2 - i]);
        assert(u[n - 2 - i] != u[n - 2 - i + 1]);
    }
}

/// Going down with unique lines, the second sort keeps the order of the
/// first.
pub(crate) proof fn lemma_again_down_unique(
    sorter: Sorter,
    once: Seq<SortableLine>,
    twice: Seq<SortableLine>,
    second: Seq<int>,
    i: int,
)
    requires
        fixed_on(sorter.comparer, texts(once)),
        sorter.unique,
        sorter.reverse,
        is_total_on(sorter.comparer, texts(once)),
        ascending(sorter.comparer, texts(once)),
        is_sorting(sorter.comparer, sorter.finished(once), twice, second),
        0 <= i < sorter.finished(once).len(),
    ensures
        sorter.finished(twice).len() == sorter.finished(once).len(),
        sorter.comparer.forced_order(
            sorter.finished(once)[i].line@,
            sorter.finished(twice)[i].line@,
        ) == Ordering::Equal,
{
    let c = sorter.comparer;
    let out = sorter.finished(once);
    let m = count(out);
    lemma_fixed_finished(sorter, once);
    lemma_reversed_is_descending(c, once);
    lemma_without_repeats_descending(c, once.reverse());
    lemma_texts_arranged(out, twice, second);
    assert forall|a: int| 0 <= a < texts(twice).len() - 1 implies #[trigger] texts(twice)[a]
        != texts(twice)[a + 1] by {
        lemma_neighbours_stay_apart(c, texts(out), texts(twice), second, a);
    }
    lemma_turned_neighbours_differ(twice);
    lemma_nothing_to_lose(twice.reverse());
    assert(sorter.finished(twice) == twice.reverse());
    lemma_reversed_is_ascending(c, out);
    lemma_turned_round(out.reverse());
    assert(out.reverse().reverse() =~= out);
    lemma_texts_arranged(out.reverse(), out, turned_round(m));
    lemma_followed_by(texts(out.reverse()), texts(out), turned_round(m), texts(twice), second);
    lemma_ascending_agree(
        c,
        texts(out.reverse()),
        texts(twice),
        followed_by(turned_round(m), second),
        m - 1 - i,
    );
    lemma_reversed_texts(out, m - 1 - i);
    lemma_reversed_texts(twice, i);
    assert(texts(out)[i] == out[i].line@);
    assert(texts(twice.reverse())[i] == twice.reverse()[i].line@);
}

/// Where lines need not be unique, the second sort keeps the order of the
/// first.
pub(crate) proof fn lemma_again_keeps_order_with_repeats(
    sorter: Sorter,
    lines: Seq<SortableLine>,
    once: Seq<SortableLine>,
    first: Seq<int>,
    twice: Seq<SortableLine>,
    second: Seq<int>,
    i: int,
)
    requires
        fixed_on(sorter.comparer, texts(lines)),
        !sorter.unique,
        is_total_on(sorter.comparer, texts(lines)),
        is_sorting(sorter.comparer, lines, once, first),
        is_sorting(sorter.comparer, sorter.finished(once), twice, second),
        0 <= i < sorter.finished(once).len(),
    ensures
        sorter.finished(twice).len() == sorter.finished(once).len(),
        sorter.comparer.forced_order(
            sorter.finished(once)[i].line@,
            sorter.finished(twice)[i].line@,
        ) == Ordering::Equal,
{
    let c = sorter.comparer;
    let n = count(lines);
    lemma_fixed_lines_arranged(c, lines, once, first);
    lemma_fixed_finished(sorter, once);
    lemma_texts_arranged(lines, once, first);
    lemma_total_arranged(c, texts(lines), texts(once), first);
    let out1 = sorter.finished(once);
    if sorter.reverse {
        let turn = turned_round(n);
        lemma_turned_round(once);
        lemma_texts_arranged(once, out1, turn);
        lemma_total_arranged(c, texts(once), texts(out1), turn);
        lemma_texts_arranged(out1, twice, second);
        lemma_followed_by(texts(once), texts(out1), turn, texts(twice), second);
        lemma_ascending_agree(c, texts(once), texts(twice), followed_by(turn, second), n - 1 - i);
        lemma_reversed_texts(once, i);
        lemma_reversed_texts(twice, i);
        assert(texts(out1)[i] == out1[i].line@);
        assert(texts(twice.reverse())[i] == twice.reverse()[i].line@);
    } else {
        lemma_texts_arranged(out1, twice, second);
        lemma_ascending_agree(c, texts(once), texts(twice), second, i);
        assert(texts(once)[i] == once[i].line@);
        assert(texts(twice)[i] == twice[i].line@);
    }
}

/// Sorting what was sorted keeps the order: the second sort gives as many
/// lines as the first, and puts at every place a line that compares as equal
/// to the line that the first one put there.
///
/// This is stated for a comparer whose order is fixed and total on the
/// lines, whether or not lines are to be unique, going up or down.
pub proof fn law_sorting_again_keeps_order(
    sorter: Sorter,
    lines: Seq<SortableLine>,
    once: Seq<SortableLine>,
    first: Seq<int>,
    twice: Seq<SortableLine>,
    second: Seq<int>,
    i: int,
)
    requires
        fixed_on(sorter.comparer, texts(lines)),
        is_total_on(sorter.comparer, texts(lines)),
        is_sorting(sorter.comparer, lines, once, first),
        is_sorting(sorter.comparer, sorter.finished(once), twice, second),
        0 <= i < sorter.finished(once).len(),
    ensures
        sorter.finished(twice).len() == sorter.finished(once).len(),
        sorter.comparer.forced_order(
            sorter.finished(once)[i].line@,
            sorter.finished(twice)[i].line@,
        ) == Ordering::Equal,
{
    let c = sorter.comparer;
    if !sorter.unique {
        lemma_again_keeps_order_with_repeats(sorter, lines, once, first, twice, second, i);
    } else {
        lemma_fixed_lines_arranged(c, lines, once, first);
        lemma_fixed_finished(sorter, once);
        lemma_texts_arranged(lines, once, first);
        lemma_total_arranged(c, texts(lines), texts(once), first);
        if sorter.reverse {
            lemma_again_down_unique(sorter, once, twice, second, i);
        } else {
            let out = without_repeats(once);
            lemma_without_repeats_ascending(c, once);
            lemma_without_repeats(once);
            lemma_again_up(sorter, out, twice, second);
            lemma_nothing_to_lose(out);
            lemma_total_reflexive(c, texts(out), i);
            assert(texts(out)[i] == out[i].line@);
        }
    }
}

} // verus!
