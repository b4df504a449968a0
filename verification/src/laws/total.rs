//! Orders that are total, and what follows from an order being total.

use std::cmp::Ordering;
use vstd::prelude::*;

use crate::arrange::{
    arranged,
    count,
    is_arrangement,
};
use crate::comparer::Comparer;
use crate::ip::{
    address_literal,
    first_difference,
    IpView,
};
use crate::ip_order::{
    ip_order,
    IpComparer,
};
use crate::line::{
    texts,
    SortableLine,
};
use crate::network::{
    network_literal,
    network_order,
    Network,
    NetworkComparer,
};
use crate::numbered::{
    fraction_len,
    larger,
    lemma_number_shape,
    lemma_rescale,
    lemma_same_number,
    lemma_scale_keeps_order,
    nat_order,
    number_len,
    number_order,
    numbered_text_order,
    scaled_number,
    shift10,
};
use crate::path::{
    components_order,
    pairwise_order,
    path_order,
    prefix_first,
    prefix_order,
    prefix_second,
    ParsedPath,
    PrefixView,
};
use crate::sorter::{
    fixed_on,
    carries_over,
    is_total_on,
    mirrored,
};
use crate::text::{
    lex_order,
    lowercase_of,
    text_order,
};

verus! {

/// A total order finds every line equal to itself, and so accepts it.
pub(crate) proof fn lemma_total_reflexive(c: Comparer, t: Seq<Seq<char>>, i: int)
    requires
        is_total_on(c, t),
        0 <= i < t.len(),
    ensures
        c.forced_order(t[i], t[i]) == Ordering::Equal,
        c.accepts(t[i]),
{
    reveal(Comparer::forced_order);
    assert(mirrored(c, t[i], t[i]));
}

/// In a total order, "not greater" carries over along three lines, and so
/// does "greater".
pub(crate) proof fn lemma_total_chain(c: Comparer, t: Seq<Seq<char>>, i: int, j: int, k: int)
    requires
        is_total_on(c, t),
        0 <= i < t.len(),
        0 <= j < t.len(),
        0 <= k < t.len(),
    ensures
        c.forced_order(t[i], t[j]) != Ordering::Greater && c.forced_order(t[j], t[k])
            != Ordering::Greater ==> c.forced_order(t[i], t[k]) != Ordering::Greater,
        c.forced_order(t[i], t[j]) == Ordering::Greater && c.forced_order(t[j], t[k])
            == Ordering::Greater ==> c.forced_order(t[i], t[k]) == Ordering::Greater,
{
    assert(mirrored(c, t[i], t[j]));
    assert(mirrored(c, t[j], t[k]));
    assert(mirrored(c, t[i], t[k]));
    assert(carries_over(c, t[i], t[j], t[k]));
    assert(carries_over(c, t[k], t[i], t[j]));
    assert(carries_over(c, t[j], t[k], t[i]));
}

/// In a total order, "less" carries over along "not greater" on either
/// side.
pub(crate) proof fn lemma_total_strict_chain(c: Comparer, t: Seq<Seq<char>>, i: int, j: int, k: int)
    requires
        is_total_on(c, t),
        0 <= i < t.len(),
        0 <= j < t.len(),
        0 <= k < t.len(),
    ensures
        c.forced_order(t[i], t[j]) == Ordering::Less && c.forced_order(t[j], t[k])
            != Ordering::Greater ==> c.forced_order(t[i], t[k]) == Ordering::Less,
        c.forced_order(t[i], t[j]) != Ordering::Greater && c.forced_order(t[j], t[k])
            == Ordering::Less ==> c.forced_order(t[i], t[k]) == Ordering::Less,
{
    lemma_total_chain(c, t, i, j, k);
    lemma_total_chain(c, t, j, k, i);
    lemma_total_chain(c, t, k, i, j);
    assert(mirrored(c, t[i], t[j]));
    assert(mirrored(c, t[j], t[k]));
    assert(mirrored(c, t[i], t[k]));
    assert(mirrored(c, t[k], t[i]));
}

/// The order that a comparer forces on two lines that it accepts is its
/// order.
pub(crate) proof fn lemma_forced_order(c: Comparer, a: Seq<char>, b: Seq<char>)
    ensures
        c.accepts(a) && c.accepts(b) ==> c.forced_order(a, b) == c.order(a, b),
        !(c.accepts(a) && c.accepts(b)) ==> c.forced_order(a, b) == Ordering::Less,
{
    reveal(Comparer::forced_order);
}

/// Whether no two lines of `t` at different places compare as equal.
pub open spec fn no_ties(c: Comparer, t: Seq<Seq<char>>) -> bool {
    forall|i: int, j: int|
        0 <= i < j < t.len() ==> #[trigger] c.forced_order(t[i], t[j]) != Ordering::Equal
}

/// Whether `u` holds the lines of `t` in the arrangement `p`.
pub open spec fn texts_arranged(t: Seq<Seq<char>>, u: Seq<Seq<char>>, p: Seq<int>) -> bool {
    &&& is_arrangement(p, count(t))
    &&& u.len() == t.len()
    &&& forall|i: int| 0 <= i < u.len() ==> #[trigger] u[i] == t[p[i]]
}

/// The texts of arranged lines are arranged in the same way.
pub(crate) proof fn lemma_texts_arranged(before: Seq<SortableLine>, after: Seq<SortableLine>, p: Seq<int>)
    requires
        arranged(before, after, p),
    ensures
        texts_arranged(texts(before), texts(after), p),
{
    let t = texts(before);
    let u = texts(after);
    assert forall|i: int| 0 <= i < u.len() implies #[trigger] u[i] == t[p[i]] by {
        assert(after[i] == before[p[i]]);
    }
}

/// An order that is total on some lines is total on the same lines in any
/// arrangement.
pub(crate) proof fn lemma_total_arranged(c: Comparer, t: Seq<Seq<char>>, u: Seq<Seq<char>>, p: Seq<int>)
    requires
        is_total_on(c, t),
        texts_arranged(t, u, p),
    ensures
        is_total_on(c, u),
{
    assert forall|i: int, j: int| 0 <= i < u.len() && 0 <= j < u.len() implies #[trigger] mirrored(
        c,
        u[i],
        u[j],
    ) by {
        assert(u[i] == t[p[i]] && u[j] == t[p[j]]);
        assert(mirrored(c, t[p[i]], t[p[j]]));
    }
    assert forall|i: int, j: int, k: int|
        0 <= i < u.len() && 0 <= j < u.len() && 0 <= k < u.len() implies #[trigger] carries_over(
        c,
        u[i],
        u[j],
        u[k],
    ) by {
        assert(u[i] == t[p[i]] && u[j] == t[p[j]] && u[k] == t[p[k]]);
        assert(carries_over(c, t[p[i]], t[p[j]], t[p[k]]));
    }
}

/// Lines that a comparer reads in one way only are read so in any
/// arrangement.
pub(crate) proof fn lemma_fixed_arranged(
    c: Comparer,
    t: Seq<Seq<char>>,
    u: Seq<Seq<char>>,
    p: Seq<int>,
)
    requires
        fixed_on(c, t),
        texts_arranged(t, u, p),
    ensures
        fixed_on(c, u),
{
    assert forall|i: int| 0 <= i < u.len() implies c.fixes(#[trigger] u[i]) by {
        assert(u[i] == t[p[i]]);
    }
}

/// Lines of which no two compare as equal keep that in any arrangement.
pub(crate) proof fn lemma_no_ties_arranged(
    c: Comparer,
    t: Seq<Seq<char>>,
    u: Seq<Seq<char>>,
    p: Seq<int>,
)
    requires
        is_total_on(c, t),
        no_ties(c, t),
        texts_arranged(t, u, p),
    ensures
        no_ties(c, u),
{
    assert forall|i: int, j: int| 0 <= i < j < u.len() implies #[trigger] c.forced_order(
        u[i],
        u[j],
    ) != Ordering::Equal by {
        assert(u[i] == t[p[i]] && u[j] == t[p[j]]);
        assert(mirrored(c, t[p[i]], t[p[j]]));
        if p[i] < p[j] {
            assert(c.forced_order(t[p[i]], t[p[j]]) != Ordering::Equal);
        } else {
            assert(c.forced_order(t[p[j]], t[p[i]]) != Ordering::Equal);
        }
    }
}

/// The order by code points reads the same from either side, and finds
/// equal only what is the same.
pub(crate) proof fn lemma_lex_order_mirrored(a: Seq<char>, b: Seq<char>)
    ensures
        lex_order(a, b) == Ordering::Less <==> lex_order(b, a) == Ordering::Greater,
        lex_order(a, b) == Ordering::Greater <==> lex_order(b, a) == Ordering::Less,
        lex_order(a, b) == Ordering::Equal <==> a == b,
    decreases a.len(),
{
    if a.len() > 0 && b.len() > 0 {
        lemma_lex_order_mirrored(a.drop_first(), b.drop_first());
        if a[0] == b[0] && a.drop_first() == b.drop_first() {
            assert(a =~= seq![a[0]] + a.drop_first());
            assert(b =~= seq![b[0]] + b.drop_first());
        }
    } else if a.len() == 0 && b.len() == 0 {
        assert(a =~= b);
    }
}

/// The order by code points carries over along three texts.
pub(crate) proof fn lemma_lex_order_carries(a: Seq<char>, b: Seq<char>, c: Seq<char>)
    requires
        lex_order(a, b) == lex_order(b, c),
    ensures
        lex_order(a, c) == lex_order(a, b),
    decreases a.len(),
{
    if a.len() > 0 && b.len() > 0 && c.len() > 0 {
        if a[0] == b[0] && b[0] == c[0] {
            lemma_lex_order_carries(a.drop_first(), b.drop_first(), c.drop_first());
        }
    }
}

/// Without a collator, text is ordered totally, whatever the lines.
pub proof fn law_text_order_is_total(c: Comparer, t: Seq<Seq<char>>)
    requires
        c matches Comparer::Text(text) && text.collator is None,
    ensures
        is_total_on(c, t),
{
    reveal(Comparer::forced_order);
    let text = c->Text_0;
    let key = |s: Seq<char>|
        if text.case_insensitive {
            lowercase_of(s)
        } else {
            s
        };
    assert forall|i: int, j: int| 0 <= i < t.len() && 0 <= j < t.len() implies #[trigger] mirrored(
        c,
        t[i],
        t[j],
    ) by {
        lemma_lex_order_mirrored(key(t[i]), key(t[j]));
        lemma_lex_order_mirrored(key(t[j]), key(t[i]));
    }
    assert forall|i: int, j: int, k: int|
        0 <= i < t.len() && 0 <= j < t.len() && 0 <= k < t.len() implies #[trigger] carries_over(
        c,
        t[i],
        t[j],
        t[k],
    ) by {
        if lex_order(key(t[i]), key(t[j])) == lex_order(key(t[j]), key(t[k])) {
            lemma_lex_order_carries(key(t[i]), key(t[j]), key(t[k]));
        }
    }
}

/// The first difference of two sequences of octets reads the same from either
/// side.
pub(crate) proof fn lemma_first_difference_mirrored(a: Seq<u8>, b: Seq<u8>, from: int)
    requires
        a.len() == b.len(),
        0 <= from,
    ensures
        first_difference(a, b, from) == Some(true) <==> first_difference(b, a, from) == Some(
            false,
        ),
        first_difference(a, b, from) == Some(false) <==> first_difference(b, a, from) == Some(
            true,
        ),
        first_difference(a, b, from) is None <==> first_difference(b, a, from) is None,
    decreases a.len() - from,
{
    if from < a.len() {
        lemma_first_difference_mirrored(a, b, from + 1);
    }
}

/// The first difference carries over along three sequences of octets.
pub(crate) proof fn lemma_first_difference_carries(a: Seq<u8>, b: Seq<u8>, c: Seq<u8>, from: int)
    requires
        a.len() == b.len(),
        b.len() == c.len(),
        0 <= from,
        first_difference(a, b, from) == first_difference(b, c, from),
    ensures
        first_difference(a, c, from) == first_difference(a, b, from),
    decreases a.len() - from,
{
    if from < a.len() {
        if a[from] == b[from] && b[from] == c[from] {
            lemma_first_difference_carries(a, b, c, from + 1);
        }
    }
}

/// The order of addresses reads the same from either side and carries over
/// along three addresses.
pub(crate) proof fn lemma_ip_order_is_total(x: IpView, y: IpView, z: IpView)
    requires
        x.octets.len() == y.octets.len(),
        y.octets.len() == z.octets.len(),
    ensures
        ip_order(x, y) == Ordering::Less <==> ip_order(y, x) == Ordering::Greater,
        ip_order(x, y) == Ordering::Equal <==> ip_order(y, x) == Ordering::Equal,
        ip_order(x, y) == ip_order(y, z) ==> ip_order(x, z) == ip_order(x, y),
        ip_order(x, x) == Ordering::Equal,
{
    lemma_first_difference_mirrored(x.octets, y.octets, 0);
    lemma_first_difference_mirrored(x.octets, x.octets, 0);
    if x.v6 == y.v6 && y.v6 == z.v6 && first_difference(x.octets, y.octets, 0) == first_difference(
        y.octets,
        z.octets,
        0,
    ) {
        lemma_first_difference_carries(x.octets, y.octets, z.octets, 0);
    }
}

/// Every address that a line denotes has sixteen octets.
pub(crate) proof fn lemma_address_has_sixteen_octets(s: Seq<char>)
    requires
        address_literal(s) is Some,
    ensures
        address_literal(s)->Some_0.octets.len() == 16,
{
}

/// Lines that are all IP addresses are ordered totally.
pub proof fn law_ip_order_is_total(c: Comparer, t: Seq<Seq<char>>)
    requires
        c is Ip,
        forall|i: int| 0 <= i < t.len() ==> IpComparer::accepts(#[trigger] t[i]),
    ensures
        is_total_on(c, t),
{
    reveal(Comparer::forced_order);
    assert forall|i: int, j: int| 0 <= i < t.len() && 0 <= j < t.len() implies #[trigger] mirrored(
        c,
        t[i],
        t[j],
    ) by {
        lemma_address_has_sixteen_octets(t[i]);
        lemma_address_has_sixteen_octets(t[j]);
        let x = address_literal(t[i])->Some_0;
        let y = address_literal(t[j])->Some_0;
        lemma_ip_order_is_total(x, y, x);
    }
    assert forall|i: int, j: int, k: int|
        0 <= i < t.len() && 0 <= j < t.len() && 0 <= k < t.len() implies #[trigger] carries_over(
        c,
        t[i],
        t[j],
        t[k],
    ) by {
        lemma_address_has_sixteen_octets(t[i]);
        lemma_address_has_sixteen_octets(t[j]);
        lemma_address_has_sixteen_octets(t[k]);
        let x = address_literal(t[i])->Some_0;
        let y = address_literal(t[j])->Some_0;
        let z = address_literal(t[k])->Some_0;
        lemma_ip_order_is_total(x, y, z);
    }
}

/// The order of networks reads the same from either side and carries over
/// along three networks.
pub(crate) proof fn lemma_network_order_is_total(x: Network, y: Network, z: Network)
    ensures
        network_order(x, y) == Ordering::Less <==> network_order(y, x) == Ordering::Greater,
        network_order(x, y) == Ordering::Equal <==> network_order(y, x) == Ordering::Equal,
        network_order(x, y) == network_order(y, z) ==> network_order(x, z) == network_order(x, y),
{
    lemma_ip_order_is_total(x.address@, y.address@, z.address@);
    lemma_ip_order_is_total(y.address@, x.address@, z.address@);
    lemma_ip_order_is_total(x.address@, z.address@, y.address@);
    lemma_ip_order_is_total(y.address@, z.address@, x.address@);
}

/// Lines that are all networks are ordered totally.
pub proof fn law_network_order_is_total(c: Comparer, t: Seq<Seq<char>>)
    requires
        c is Network,
        forall|i: int| 0 <= i < t.len() ==> NetworkComparer::accepts(#[trigger] t[i]),
    ensures
        is_total_on(c, t),
{
    reveal(Comparer::forced_order);
    assert forall|i: int, j: int| 0 <= i < t.len() && 0 <= j < t.len() implies #[trigger] mirrored(
        c,
        t[i],
        t[j],
    ) by {
        let x = network_literal(t[i])->Some_0;
        let y = network_literal(t[j])->Some_0;
        lemma_network_order_is_total(x, y, x);
    }
    assert forall|i: int, j: int, k: int|
        0 <= i < t.len() && 0 <= j < t.len() && 0 <= k < t.len() implies #[trigger] carries_over(
        c,
        t[i],
        t[j],
        t[k],
    ) by {
        let x = network_literal(t[i])->Some_0;
        let y = network_literal(t[j])->Some_0;
        let z = network_literal(t[k])->Some_0;
        lemma_network_order_is_total(x, y, z);
    }
}

/// The text by which two lines are ordered where there is no collator.
pub open spec fn plain_key(case_insensitive: bool, s: Seq<char>) -> Seq<char> {
    if case_insensitive {
        lowercase_of(s)
    } else {
        s
    }
}

/// Without a collator, the order of text reads the same from either side,
/// carries over along three texts, and finds equal only texts with one key.
pub(crate) proof fn lemma_plain_text_order(
    case_insensitive: bool,
    a: Seq<char>,
    b: Seq<char>,
    c: Seq<char>,
)
    ensures
        text_order(None, case_insensitive, a, b) == Ordering::Less <==> text_order(
            None,
            case_insensitive,
            b,
            a,
        ) == Ordering::Greater,
        text_order(None, case_insensitive, a, b) == Ordering::Greater <==> text_order(
            None,
            case_insensitive,
            b,
            a,
        ) == Ordering::Less,
        text_order(None, case_insensitive, a, b) == Ordering::Equal <==> plain_key(
            case_insensitive,
            a,
        ) == plain_key(case_insensitive, b),
        text_order(None, case_insensitive, a, b) == text_order(None, case_insensitive, b, c)
            ==> text_order(None, case_insensitive, a, c) == text_order(
            None,
            case_insensitive,
            a,
            b,
        ),
{
    let ka = plain_key(case_insensitive, a);
    let kb = plain_key(case_insensitive, b);
    let kc = plain_key(case_insensitive, c);
    lemma_lex_order_mirrored(ka, kb);
    lemma_lex_order_mirrored(kb, ka);
    if lex_order(ka, kb) == lex_order(kb, kc) {
        lemma_lex_order_carries(ka, kb, kc);
    }
}

/// Without a collator, the order of two lists of components of one length
/// reads the same from either side.
pub(crate) proof fn lemma_pairwise_mirrored(
    case_insensitive: bool,
    x: Seq<Seq<char>>,
    y: Seq<Seq<char>>,
    from: int,
)
    requires
        x.len() == y.len(),
        0 <= from,
    ensures
        pairwise_order(None, case_insensitive, x, y, from) == Ordering::Less <==> pairwise_order(
            None,
            case_insensitive,
            y,
            x,
            from,
        ) == Ordering::Greater,
        pairwise_order(None, case_insensitive, x, y, from) == Ordering::Equal <==> pairwise_order(
            None,
            case_insensitive,
            y,
            x,
            from,
        ) == Ordering::Equal,
    decreases x.len() - from,
{
    if from < x.len() {
        lemma_plain_text_order(case_insensitive, x[from], y[from], x[from]);
        lemma_plain_text_order(case_insensitive, y[from], x[from], y[from]);
        lemma_pairwise_mirrored(case_insensitive, x, y, from + 1);
    }
}

/// Without a collator, the order of lists of components of one length
/// carries over along three lists.
pub(crate) proof fn lemma_pairwise_carries(
    case_insensitive: bool,
    x: Seq<Seq<char>>,
    y: Seq<Seq<char>>,
    z: Seq<Seq<char>>,
    from: int,
)
    requires
        x.len() == y.len(),
        y.len() == z.len(),
        0 <= from,
        pairwise_order(None, case_insensitive, x, y, from) == pairwise_order(
            None,
            case_insensitive,
            y,
            z,
            from,
        ),
    ensures
        pairwise_order(None, case_insensitive, x, z, from) == pairwise_order(
            None,
            case_insensitive,
            x,
            y,
            from,
        ),
    decreases x.len() - from,
{
    if from < x.len() {
        lemma_plain_text_order(case_insensitive, x[from], y[from], z[from]);
        lemma_plain_text_order(case_insensitive, y[from], z[from], x[from]);
        lemma_plain_text_order(case_insensitive, x[from], z[from], y[from]);
        let first = text_order(None, case_insensitive, x[from], y[from]);
        let second = text_order(None, case_insensitive, y[from], z[from]);
        if first == Ordering::Equal && second == Ordering::Equal {
            lemma_pairwise_carries(case_insensitive, x, y, z, from + 1);
        }
    }
}

/// The order of prefixes reads the same from either side and carries over
/// along three prefixes.
pub(crate) proof fn lemma_prefix_order_is_total(p: PrefixView, q: PrefixView, r: PrefixView)
    ensures
        prefix_order(p, q) == Ordering::Less <==> prefix_order(q, p) == Ordering::Greater,
        prefix_order(p, q) == Ordering::Equal <==> prefix_order(q, p) == Ordering::Equal,
        prefix_order(p, q) == prefix_order(q, r) ==> prefix_order(p, r) == prefix_order(p, q),
{
    lemma_lex_order_mirrored(prefix_first(p), prefix_first(q));
    lemma_lex_order_mirrored(prefix_first(q), prefix_first(p));
    lemma_lex_order_mirrored(prefix_second(p), prefix_second(q));
    lemma_lex_order_mirrored(prefix_second(q), prefix_second(p));
    lemma_lex_order_mirrored(prefix_first(q), prefix_first(r));
    lemma_lex_order_mirrored(prefix_first(p), prefix_first(r));
    if lex_order(prefix_first(p), prefix_first(q)) == lex_order(prefix_first(q), prefix_first(r)) {
        lemma_lex_order_carries(prefix_first(p), prefix_first(q), prefix_first(r));
    }
    if lex_order(prefix_second(p), prefix_second(q)) == lex_order(
        prefix_second(q),
        prefix_second(r),
    ) {
        lemma_lex_order_carries(prefix_second(p), prefix_second(q), prefix_second(r));
    }
}

/// Without a collator, the order of lists of components reads the same from
/// either side and carries over along three lists.
pub(crate) proof fn lemma_components_order_is_total(
    case_insensitive: bool,
    x: Seq<Seq<char>>,
    y: Seq<Seq<char>>,
    z: Seq<Seq<char>>,
)
    ensures
        components_order(None, case_insensitive, x, y) == Ordering::Less <==> components_order(
            None,
            case_insensitive,
            y,
            x,
        ) == Ordering::Greater,
        components_order(None, case_insensitive, x, y) == Ordering::Equal <==> components_order(
            None,
            case_insensitive,
            y,
            x,
        ) == Ordering::Equal,
        components_order(None, case_insensitive, x, y) == components_order(
            None,
            case_insensitive,
            y,
            z,
        ) ==> components_order(None, case_insensitive, x, z) == components_order(
            None,
            case_insensitive,
            x,
            y,
        ),
{
    if x.len() == y.len() {
        lemma_pairwise_mirrored(case_insensitive, x, y, 0);
        if y.len() == z.len() && pairwise_order(None, case_insensitive, x, y, 0) == pairwise_order(
            None,
            case_insensitive,
            y,
            z,
            0,
        ) {
            lemma_pairwise_carries(case_insensitive, x, y, z, 0);
        }
    }
}

/// Without a collator, the order of paths reads the same from either side
/// and carries over along three paths.
pub(crate) proof fn lemma_path_order_is_total(
    case_insensitive: bool,
    x: ParsedPath,
    y: ParsedPath,
    z: ParsedPath,
)
    ensures
        path_order(None, case_insensitive, x, y) == Ordering::Less <==> path_order(
            None,
            case_insensitive,
            y,
            x,
        ) == Ordering::Greater,
        path_order(None, case_insensitive, x, y) == Ordering::Equal <==> path_order(
            None,
            case_insensitive,
            y,
            x,
        ) == Ordering::Equal,
        path_order(None, case_insensitive, x, y) == path_order(None, case_insensitive, y, z)
            ==> path_order(None, case_insensitive, x, z) == path_order(
            None,
            case_insensitive,
            x,
            y,
        ),
{
    let (cx, cy, cz) = (x.components, y.components, z.components);
    lemma_components_order_is_total(case_insensitive, cx, cy, cz);
    lemma_components_order_is_total(case_insensitive, cx, cz, cy);
    lemma_components_order_is_total(case_insensitive, cy, cx, cz);
    lemma_components_order_is_total(case_insensitive, cy, cz, cx);
    lemma_components_order_is_total(case_insensitive, cz, cx, cy);
    lemma_components_order_is_total(case_insensitive, cz, cy, cx);
    if x.prefix is Some && y.prefix is Some {
        let (p, q) = (x.prefix->Some_0, y.prefix->Some_0);
        lemma_prefix_order_is_total(p, q, p);
        if z.prefix is Some {
            let r = z.prefix->Some_0;
            lemma_prefix_order_is_total(p, q, r);
            lemma_prefix_order_is_total(p, r, q);
            lemma_prefix_order_is_total(q, p, r);
            lemma_prefix_order_is_total(q, r, p);
            lemma_prefix_order_is_total(r, p, q);
            lemma_prefix_order_is_total(r, q, p);
        }
    }
}

/// Without a collator, paths are ordered totally, whatever the lines.
pub proof fn law_path_order_is_total(c: Comparer, t: Seq<Seq<char>>)
    requires
        c matches Comparer::Path(paths) && paths.collator is None,
    ensures
        is_total_on(c, t),
{
    reveal(Comparer::forced_order);
    let paths = c->Path_0;
    assert forall|i: int, j: int| 0 <= i < t.len() && 0 <= j < t.len() implies #[trigger] mirrored(
        c,
        t[i],
        t[j],
    ) by {
        lemma_path_order_is_total(
            paths.case_insensitive,
            paths.parsed(t[i]),
            paths.parsed(t[j]),
            paths.parsed(t[i]),
        );
    }
    assert forall|i: int, j: int, k: int|
        0 <= i < t.len() && 0 <= j < t.len() && 0 <= k < t.len() implies #[trigger] carries_over(
        c,
        t[i],
        t[j],
        t[k],
    ) by {
        lemma_path_order_is_total(
            paths.case_insensitive,
            paths.parsed(t[i]),
            paths.parsed(t[j]),
            paths.parsed(t[k]),
        );
    }
}

/// The order of two numbers can be read off at any number of fraction
/// digits that both have room in.
pub(crate) proof fn lemma_number_order_at(a: Seq<char>, b: Seq<char>, places: int)
    requires
        fraction_len(a) <= places,
        fraction_len(b) <= places,
    ensures
        number_order(a, b) == nat_order(scaled_number(a, places), scaled_number(b, places)),
{
    let p = larger(fraction_len(a), fraction_len(b));
    lemma_rescale(a, p, places);
    lemma_rescale(b, p, places);
    lemma_scale_keeps_order(scaled_number(a, p), scaled_number(b, p), shift10(places - p));
    lemma_scale_keeps_order(scaled_number(b, p), scaled_number(a, p), shift10(places - p));
}

/// The order of numbers reads the same from either side and carries over
/// along three numbers.
pub(crate) proof fn lemma_number_order_is_total(a: Seq<char>, b: Seq<char>, c: Seq<char>)
    ensures
        number_order(a, b) == Ordering::Less <==> number_order(b, a) == Ordering::Greater,
        number_order(a, b) == Ordering::Equal <==> number_order(b, a) == Ordering::Equal,
        number_order(a, b) == number_order(b, c) ==> number_order(a, c) == number_order(a, b),
{
    let r = larger(larger(fraction_len(a), fraction_len(b)), fraction_len(c));
    lemma_number_order_at(a, b, r);
    lemma_number_order_at(b, a, r);
    lemma_number_order_at(b, c, r);
    lemma_number_order_at(a, c, r);
}

/// Whether `a` and `b`, where both begin with a number and the numbers are
/// equal, begin with the same text.
pub open spec fn alike_if_equal(a: Seq<char>, b: Seq<char>) -> bool {
    number_len(a) > 0 && number_len(b) > 0 && number_order(a, b) == Ordering::Equal ==> a.take(
        number_len(a),
    ) == b.take(number_len(b))
}

/// Whether all numbers of one value among the numbers that the lines `t`
/// begin with are written alike.
pub open spec fn equal_numbers_alike(t: Seq<Seq<char>>) -> bool {
    forall|i: int, j: int|
        0 <= i < t.len() && 0 <= j < t.len() ==> #[trigger] alike_if_equal(t[i], t[j])
}

/// What two lines that begin with the same text as their number have in
/// common: their numbers are equal, and are ordered alike with the number
/// of any third line.
pub(crate) proof fn lemma_same_number_same_order(a: Seq<char>, b: Seq<char>, c: Seq<char>)
    requires
        number_len(a) > 0,
        a.take(number_len(a)) == b.take(number_len(b)),
    ensures
        number_len(b) > 0,
        number_order(a, b) == Ordering::Equal,
        number_order(a, c) == number_order(b, c),
        number_order(c, a) == number_order(c, b),
{
    lemma_same_number(a, b);
    lemma_number_shape(a);
    lemma_number_shape(b);
}

/// Without a collator, three lines of which equal numbers are written alike
/// are ordered totally.
pub(crate) proof fn lemma_numbered_text_order_is_total(
    case_insensitive: bool,
    a: Seq<char>,
    b: Seq<char>,
    c: Seq<char>,
)
    requires
        alike_if_equal(a, b),
        alike_if_equal(b, a),
        alike_if_equal(b, c),
        alike_if_equal(c, b),
        alike_if_equal(a, c),
        alike_if_equal(c, a),
    ensures
        numbered_text_order(None, case_insensitive, a, b) == Ordering::Less
            <==> numbered_text_order(None, case_insensitive, b, a) == Ordering::Greater,
        numbered_text_order(None, case_insensitive, a, b) == Ordering::Equal
            <==> numbered_text_order(None, case_insensitive, b, a) == Ordering::Equal,
        numbered_text_order(None, case_insensitive, a, b) == numbered_text_order(
            None,
            case_insensitive,
            b,
            c,
        ) ==> numbered_text_order(None, case_insensitive, a, c) == numbered_text_order(
            None,
            case_insensitive,
            a,
            b,
        ),
{
    let (ra, rb, rc) = (a.skip(number_len(a)), b.skip(number_len(b)), c.skip(number_len(c)));
    lemma_plain_text_order(case_insensitive, a, b, c);
    lemma_plain_text_order(case_insensitive, b, a, c);
    lemma_plain_text_order(case_insensitive, ra, rb, rc);
    lemma_plain_text_order(case_insensitive, rb, ra, rc);
    lemma_plain_text_order(case_insensitive, rb, rc, ra);
    lemma_plain_text_order(case_insensitive, ra, rc, rb);
    lemma_number_order_is_total(a, b, c);
    lemma_number_order_is_total(b, a, c);
    lemma_number_order_is_total(a, c, b);
    lemma_number_order_is_total(b, c, a);
    lemma_number_order_is_total(c, a, b);
    lemma_number_order_is_total(c, b, a);
    if number_len(a) > 0 && a.take(number_len(a)) == b.take(number_len(b)) {
        lemma_same_number_same_order(a, b, c);
    }
    if number_len(b) > 0 && b.take(number_len(b)) == a.take(number_len(a)) {
        lemma_same_number_same_order(b, a, c);
    }
    if number_len(b) > 0 && b.take(number_len(b)) == c.take(number_len(c)) {
        lemma_same_number_same_order(b, c, a);
    }
    if number_len(c) > 0 && c.take(number_len(c)) == b.take(number_len(b)) {
        lemma_same_number_same_order(c, b, a);
    }
    if number_len(a) > 0 && a.take(number_len(a)) == c.take(number_len(c)) {
        lemma_same_number_same_order(a, c, b);
    }
    if number_len(c) > 0 && c.take(number_len(c)) == a.take(number_len(a)) {
        lemma_same_number_same_order(c, a, b);
    }
}

/// Without a collator, lines that may begin with a number are ordered
/// totally, provided that all numbers of one value among them are written
/// alike. Numbers of one value that are written differently, as `1.0` and
/// `1.00` are, compare as equal whatever follows them, and so can break the
/// order.
pub proof fn law_numbered_text_order_is_total(c: Comparer, t: Seq<Seq<char>>)
    requires
        c matches Comparer::NumberedText(numbered) && numbered.collator is None,
        equal_numbers_alike(t),
    ensures
        is_total_on(c, t),
{
    reveal(Comparer::forced_order);
    let numbered = c->NumberedText_0;
    assert forall|i: int, j: int| 0 <= i < t.len() && 0 <= j < t.len() implies #[trigger] mirrored(
        c,
        t[i],
        t[j],
    ) by {
        assert(alike_if_equal(t[i], t[j]) && alike_if_equal(t[j], t[i]));
        assert(alike_if_equal(t[i], t[i]) && alike_if_equal(t[j], t[j]));
        lemma_numbered_text_order_is_total(numbered.case_insensitive, t[i], t[j], t[i]);
    }
    assert forall|i: int, j: int, k: int|
        0 <= i < t.len() && 0 <= j < t.len() && 0 <= k < t.len() implies #[trigger] carries_over(
        c,
        t[i],
        t[j],
        t[k],
    ) by {
        assert(alike_if_equal(t[i], t[j]) && alike_if_equal(t[j], t[i]));
        assert(alike_if_equal(t[j], t[k]) && alike_if_equal(t[k], t[j]));
        assert(alike_if_equal(t[i], t[k]) && alike_if_equal(t[k], t[i]));
        lemma_numbered_text_order_is_total(numbered.case_insensitive, t[i], t[j], t[k]);
    }
}

/// Whether `c` orders text without a collator, where it orders text at all.
pub open spec fn uses_no_collator(c: Comparer) -> bool {
    match c {
        Comparer::Text(text) => text.collator is None,
        Comparer::NumberedText(numbered) => numbered.collator is None,
        Comparer::DatetimeText(dated) => dated.collator is None,
        Comparer::Path(paths) => paths.collator is None,
        Comparer::Ip(_) => true,
        Comparer::Network(_) => true,
    }
}

/// A line compares as equal with itself, the empty line too: under every
/// comparer that accepts the line, reads it in one way only and uses no
/// collator.
pub proof fn law_line_equals_itself(c: Comparer, a: Seq<char>)
    requires
        c.fixes(a),
        c.accepts(a),
        uses_no_collator(c),
    ensures
        c.order(a, a) == Ordering::Equal,
{
    match c {
        Comparer::Text(text) => {
            lemma_plain_text_order(text.case_insensitive, a, a, a);
        },
        Comparer::NumberedText(numbered) => {
            let rest = a.skip(number_len(a));
            lemma_plain_text_order(numbered.case_insensitive, a, a, a);
            lemma_plain_text_order(numbered.case_insensitive, rest, rest, rest);
        },
        Comparer::Path(paths) => {
            let x = paths.parsed(a);
            lemma_path_order_is_total(paths.case_insensitive, x, x, x);
        },
        Comparer::Ip(_) => {
            lemma_address_has_sixteen_octets(a);
            let x = address_literal(a)->Some_0;
            lemma_ip_order_is_total(x, x, x);
        },
        Comparer::Network(_) => {
            let x = network_literal(a)->Some_0;
            lemma_ip_order_is_total(x.address@, x.address@, x.address@);
        },
        Comparer::DatetimeText(dated) => {
            lemma_plain_text_order(dated.case_insensitive, a, a, a);
        },
    }
}

/// Without a collator, lines that are read as dates are ordered totally by
/// the order that the sort goes by where no line begins with a word that may
/// name a date: the order of text.
pub proof fn law_undated_order_is_total(c: Comparer, t: Seq<Seq<char>>)
    requires
        c matches Comparer::DatetimeText(dated) && dated.collator is None,
    ensures
        is_total_on(c, t),
{
    reveal(Comparer::forced_order);
    let dated = c->DatetimeText_0;
    assert forall|i: int, j: int| 0 <= i < t.len() && 0 <= j < t.len() implies #[trigger] mirrored(
        c,
        t[i],
        t[j],
    ) by {
        lemma_plain_text_order(dated.case_insensitive, t[i], t[j], t[i]);
        lemma_plain_text_order(dated.case_insensitive, t[j], t[i], t[j]);
    }
    assert forall|i: int, j: int, k: int|
        0 <= i < t.len() && 0 <= j < t.len() && 0 <= k < t.len() implies #[trigger] carries_over(
        c,
        t[i],
        t[j],
        t[k],
    ) by {
        lemma_plain_text_order(dated.case_insensitive, t[i], t[j], t[k]);
    }
}

} // verus!
