//! The six ways of comparing lines, under one roof.

use std::cmp::Ordering;
use vstd::prelude::*;

use crate::datetime::{may_name_date, DatetimeTextComparer};
use crate::error::{Error, ErrorView};
use crate::ip::parse_ip_address;
use crate::ip_order::IpComparer;
use crate::network::NetworkComparer;
use crate::numbered::NumberedTextComparer;
use crate::path::PathComparer;
use crate::text::TextComparer;

verus! {

/// Whether a pair of lines that compares as `o` is out of order. Going up, a
/// pair is out of order where the first line is greater. Going down, it is
/// out of order unless the first line is greater: equal lines are then out of
/// order too.
pub open spec fn out_of_order(o: Ordering, reverse: bool) -> bool {
    if reverse {
        o != Ordering::Greater
    } else {
        o == Ordering::Greater
    }
}

/// A comparer of one of the six kinds.
pub enum Comparer {
    Text(TextComparer),
    NumberedText(NumberedTextComparer),
    DatetimeText(DatetimeTextComparer),
    Path(PathComparer),
    Ip(IpComparer),
    Network(NetworkComparer),
}

impl Comparer {
    /// Whether the comparer can compare `line` with other lines. Only the
    /// comparers of addresses and of networks refuse lines: those that are no
    /// address, or no network.
    pub open spec fn accepts(&self, line: Seq<char>) -> bool {
        match self {
            Comparer::Ip(_) => IpComparer::accepts(line),
            Comparer::Network(_) => NetworkComparer::accepts(line),
            _ => true,
        }
    }

    /// Whether `e` is the error with which the comparer refuses `line`.
    pub open spec fn refuses_with(&self, line: Seq<char>, e: ErrorView) -> bool {
        match self {
            Comparer::Ip(_) => e == ErrorView::InvalidAddress(line),
            Comparer::Network(_) => e == ErrorView::InvalidNetwork(line),
            _ => false,
        }
    }

    /// Whether the comparer reads `line` in one way only. It does so but
    /// where the line is read as a date and begins with a word that may name
    /// one.
    pub open spec fn fixes(&self, line: Seq<char>) -> bool {
        match self {
            Comparer::DatetimeText(_) => !may_name_date(line),
            _ => true,
        }
    }

    /// The order of two lines that the comparer accepts and reads in one way
    /// only.
    pub open spec fn order(&self, a: Seq<char>, b: Seq<char>) -> Ordering {
        match self {
            Comparer::Text(c) => c.order(a, b),
            Comparer::NumberedText(c) => c.order(a, b),
            Comparer::Path(c) => c.order(a, b),
            Comparer::Ip(_) => IpComparer::order(a, b),
            Comparer::Network(_) => NetworkComparer::order(a, b),
            Comparer::DatetimeText(c) => c.order(a, b, None, None),
        }
    }

    /// Whether comparing `a` with `b`, two lines that the comparer accepts,
    /// can give `o`.
    pub open spec fn is_outcome(&self, a: Seq<char>, b: Seq<char>, o: Ordering) -> bool {
        match self {
            Comparer::DatetimeText(c) => c.is_outcome(a, b, o),
            _ => o == self.order(a, b),
        }
    }

    /// The order by which lines are sorted that the comparer reads in one
    /// way only: that of the comparer, and `Less` for a pair with a line that
    /// the comparer refuses.
    #[verifier::opaque]
    pub open spec fn forced_order(&self, a: Seq<char>, b: Seq<char>) -> Ordering {
        if self.accepts(a) && self.accepts(b) {
            self.order(a, b)
        } else {
            Ordering::Less
        }
    }

    /// Tells whether the comparer accepts a line, and if not, why not.
    pub fn check_line(&self, line: &str) -> (r: Result<(), Error>)
        ensures
            match r {
                Ok(_) => self.accepts(line@),
                Err(e) => !self.accepts(line@) && self.refuses_with(line@, e@),
            },
    {
        match self {
            Comparer::Ip(_) => match parse_ip_address(line) {
                Ok(_) => Ok(()),
                Err(e) => Err(e),
            },
            Comparer::Network(_) => match NetworkComparer::parse_network(line) {
                Ok(_) => Ok(()),
                Err(e) => Err(e),
            },
            _ => Ok(()),
        }
    }

    /// Compares two lines, with `Less` in place of a failure.
    pub fn cmp_or_less(&self, str1: &str, str2: &str) -> (o: Ordering)
        ensures
            self.fixes(str1@) && self.fixes(str2@) ==> o == self.forced_order(str1@, str2@),
            self.accepts(str1@) && self.accepts(str2@) ==> self.is_outcome(str1@, str2@, o),
    {
        reveal(Comparer::forced_order);
        match self.cmp(str1, str2) {
            Ok(o) => o,
            Err(_) => Ordering::Less,
        }
    }

    /// Compares two lines.
    ///
    /// This fails where the comparer refuses one of the lines, with the error
    /// for the first of them that it refuses. So it never fails but for
    /// addresses and networks.
    pub fn cmp(&self, str1: &str, str2: &str) -> (r: Result<Ordering, Error>)
        ensures
            !(self is Ip) && !(self is Network) ==> r is Ok,
            match r {
                Ok(o) => self.accepts(str1@) && self.accepts(str2@) && self.is_outcome(
                    str1@,
                    str2@,
                    o,
                ),
                Err(e) => if self.accepts(str1@) {
                    !self.accepts(str2@) && self.refuses_with(str2@, e@)
                } else {
                    self.refuses_with(str1@, e@)
                },
            },
    {
        match self {
            Comparer::Text(c) => c.cmp(str1, str2),
            Comparer::NumberedText(c) => c.cmp(str1, str2),
            Comparer::DatetimeText(c) => c.cmp(str1, str2),
            Comparer::Path(c) => c.cmp(str1, str2),
            Comparer::Ip(c) => c.cmp(str1, str2),
            Comparer::Network(c) => c.cmp(str1, str2),
        }
    }

    /// Tells whether `str1` before `str2` is out of order: going up, whether
    /// `str1` is greater; going down, with `reverse`, whether it is not.
    pub fn is_ordered(&self, str1: &str, str2: &str, reverse: bool) -> (r: Result<bool, Error>)
        ensures
            match r {
                Ok(b) => self.accepts(str1@) && self.accepts(str2@) && exists|o: Ordering|
                    #[trigger] self.is_outcome(str1@, str2@, o) && b == out_of_order(o, reverse),
                Err(e) => if self.accepts(str1@) {
                    !self.accepts(str2@) && self.refuses_with(str2@, e@)
                } else {
                    self.refuses_with(str1@, e@)
                },
            },
            self.fixes(str1@) && self.fixes(str2@) ==> (r matches Ok(b) ==> b == out_of_order(
                self.order(str1@, str2@),
                reverse,
            )),
    {
        match self.cmp(str1, str2) {
            Ok(ord) => {
                let greater = match ord {
                    Ordering::Greater => true,
                    _ => false,
                };
                Ok(
                    if reverse {
                        !greater
                    } else {
                        greater
                    },
                )
            },
            Err(e) => Err(e),
        }
    }
}

} // verus!
