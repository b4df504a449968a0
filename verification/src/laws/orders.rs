//! How the orders treat lines of different kinds.

use std::cmp::Ordering;
use vstd::prelude::*;

use crate::collation::CollationView;
use crate::datetime::{
    datetime_text_order,
    may_name_date,
    may_read_as,
    Instant,
};
use crate::ip::IpView;
use crate::ip_order::ip_order;
use crate::laws::total::lemma_ip_order_is_total;
use crate::network::{
    network_order,
    Network,
};
use crate::numbered::{
    lemma_number_shape,
    number_len,
    number_order,
    numbered_text_order,
};
use crate::path::{
    components_order,
    path_order,
    prefix_order,
    ParsedPath,
};
use crate::text::text_order;

verus! {

/// A line that begins with a number comes before every line that does not,
/// whatever else the two lines hold.
pub proof fn law_number_comes_first(
    collation: Option<CollationView>,
    case_insensitive: bool,
    a: Seq<char>,
    b: Seq<char>,
)
    requires
        number_len(a) > 0,
        number_len(b) == 0,
    ensures
        numbered_text_order(collation, case_insensitive, a, b) == Ordering::Less,
        numbered_text_order(collation, case_insensitive, b, a) == Ordering::Greater,
{
}

/// Two lines that begin with the same number, written the same way, are
/// ordered by the text behind it; two lines that begin with no number are
/// ordered as text.
pub proof fn law_numbered_text_falls_back(
    collation: Option<CollationView>,
    case_insensitive: bool,
    a: Seq<char>,
    b: Seq<char>,
)
    ensures
        number_len(a) > 0 && a.take(number_len(a)) == b.take(number_len(b))
            ==> numbered_text_order(collation, case_insensitive, a, b) == text_order(
            collation,
            case_insensitive,
            a.skip(number_len(a)),
            b.skip(number_len(b)),
        ),
        number_len(a) == 0 && number_len(b) == 0 ==> numbered_text_order(
            collation,
            case_insensitive,
            a,
            b,
        ) == text_order(collation, case_insensitive, a, b),
{
    lemma_number_shape(a);
    lemma_number_shape(b);
    if number_len(a) > 0 && a.take(number_len(a)) == b.take(number_len(b)) {
        assert(a.take(number_len(a)).len() == number_len(a));
        assert(b.take(number_len(b)).len() == number_len(b));
    }
}

/// Two lines that begin with numbers written differently are ordered by the
/// values of the numbers alone.
pub proof fn law_numbers_decide(
    collation: Option<CollationView>,
    case_insensitive: bool,
    a: Seq<char>,
    b: Seq<char>,
)
    requires
        number_len(a) > 0,
        number_len(b) > 0,
        a.take(number_len(a)) != b.take(number_len(b)),
    ensures
        numbered_text_order(collation, case_insensitive, a, b) == number_order(a, b),
{
}

/// A line that was read as a date comes before every line that was not, and
/// two lines that were not are ordered as text. A line without a word that
/// may name a date is never read as one.
pub proof fn law_date_comes_first(
    collation: Option<CollationView>,
    case_insensitive: bool,
    a: Seq<char>,
    b: Seq<char>,
    instant_a: Option<Instant>,
    instant_b: Option<Instant>,
)
    requires
        may_read_as(a, instant_a),
        may_read_as(b, instant_b),
    ensures
        instant_a is Some && instant_b is None ==> datetime_text_order(
            collation,
            case_insensitive,
            a,
            b,
            instant_a,
            instant_b,
        ) == Ordering::Less,
        instant_a is None && instant_b is Some ==> datetime_text_order(
            collation,
            case_insensitive,
            a,
            b,
            instant_a,
            instant_b,
        ) == Ordering::Greater,
        !may_name_date(a) && !may_name_date(b) ==> datetime_text_order(
            collation,
            case_insensitive,
            a,
            b,
            instant_a,
            instant_b,
        ) == text_order(collation, case_insensitive, a, b),
{
}

/// An absolute path comes before a relative one, and of two paths that are
/// both absolute or both relative and have no prefix, the one with fewer
/// components comes first, whatever the components are.
pub proof fn law_depth_before_content(
    collation: Option<CollationView>,
    case_insensitive: bool,
    x: ParsedPath,
    y: ParsedPath,
)
    ensures
        x.absolute && !y.absolute ==> path_order(collation, case_insensitive, x, y)
            == Ordering::Less,
        x.components.len() < y.components.len() ==> components_order(
            collation,
            case_insensitive,
            x.components,
            y.components,
        ) == Ordering::Less,
        x.absolute == y.absolute && x.prefix is None && y.prefix is None && x.components.len()
            < y.components.len() ==> path_order(collation, case_insensitive, x, y)
            == Ordering::Less,
{
}

/// A path with a prefix comes before a path without one. This holds of paths
/// of which only those with a prefix are absolute, as it is with Windows
/// paths.
pub proof fn law_prefix_comes_first(
    collation: Option<CollationView>,
    case_insensitive: bool,
    x: ParsedPath,
    y: ParsedPath,
)
    requires
        x.prefix is Some,
        y.prefix is None,
        y.absolute ==> y.prefix is Some,
    ensures
        path_order(collation, case_insensitive, x, y) == Ordering::Less,
        path_order(collation, case_insensitive, y, x) == Ordering::Greater,
{
}

/// Of two paths with different prefixes that are both absolute or both
/// relative, the prefixes decide.
pub proof fn law_prefix_decides(
    collation: Option<CollationView>,
    case_insensitive: bool,
    x: ParsedPath,
    y: ParsedPath,
)
    requires
        x.absolute == y.absolute,
        x.prefix is Some,
        y.prefix is Some,
        prefix_order(x.prefix->Some_0, y.prefix->Some_0) != Ordering::Equal,
    ensures
        path_order(collation, case_insensitive, x, y) == prefix_order(
            x.prefix->Some_0,
            y.prefix->Some_0,
        ),
{
}

/// Every IPv4 address comes before every IPv6 address.
pub proof fn law_ipv4_comes_first(x: IpView, y: IpView)
    requires
        !x.v6,
        y.v6,
    ensures
        ip_order(x, y) == Ordering::Less,
        ip_order(y, x) == Ordering::Greater,
{
}

/// Every IPv4 network comes before every IPv6 network, and of two networks
/// with one address the one with the shorter prefix comes first.
pub proof fn law_network_order(x: Network, y: Network)
    ensures
        x.address is V4 && y.address is V6 ==> network_order(x, y) == Ordering::Less,
        x.address == y.address && x.prefix_len < y.prefix_len ==> network_order(x, y)
            == Ordering::Less,
{
    lemma_ip_order_is_total(x.address@, x.address@, x.address@);
}

} // verus!
