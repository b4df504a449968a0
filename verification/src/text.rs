//! The order of plain text, which every text-based rule falls back on.

use std::cmp::Ordering;
use vstd::prelude::*;

use crate::chars::code_point;
use crate::collation::{collation_order, CollationView, LocaleCollator};
use crate::error::Error;

verus! {

/// The order of `a` and `b` by code points: the first position at which they
/// differ decides, and a proper prefix comes first.
pub open spec fn lex_order(a: Seq<char>, b: Seq<char>) -> Ordering
    decreases a.len(),
{
    if a.len() == 0 {
        if b.len() == 0 {
            Ordering::Equal
        } else {
            Ordering::Less
        }
    } else if b.len() == 0 {
        Ordering::Greater
    } else if code_point(a[0]) < code_point(b[0]) {
        Ordering::Less
    } else if code_point(a[0]) > code_point(b[0]) {
        Ordering::Greater
    } else {
        lex_order(a.drop_first(), b.drop_first())
    }
}

/// The lower-case form of `s` by the Unicode case mappings.
pub uninterp spec fn lowercase_of(s: Seq<char>) -> Seq<char>;

/// The order of two lines as text: by the collation where there is one, else
/// by the code points of the lower-cased lines where case is to be ignored,
/// else by the code points of the lines themselves.
pub open spec fn text_order(
    collation: Option<CollationView>,
    case_insensitive: bool,
    a: Seq<char>,
    b: Seq<char>,
) -> Ordering {
    match collation {
        Some(c) => collation_order(c.locale, c.ignore_case, a, b),
        None => if case_insensitive {
            lex_order(lowercase_of(a), lowercase_of(b))
        } else {
            lex_order(a, b)
        },
    }
}

/// The view of an optional collator.
pub open spec fn collation_of(collator: Option<LocaleCollator>) -> Option<CollationView> {
    match collator {
        Some(c) => Some(c@),
        None => None,
    }
}

/// `Ord::cmp` on `str`, which orders strings lexicographically by their
/// bytes, and so by their code points.
#[verifier::external_body]
pub(crate) fn str_order(a: &str, b: &str) -> (o: Ordering)
    ensures
        o == lex_order(a@, b@),
{
    a.cmp(b)
}

/// `str::to_lowercase`.
#[verifier::external_body]
fn lowercase(s: &str) -> (r: String)
    ensures
        r@ == lowercase_of(s@),
{
    s.to_lowercase()
}

/// Compares two strings as text.
pub fn compare_two_strings(
    collator: Option<&LocaleCollator>,
    case_insensitive: bool,
    str1: &str,
    str2: &str,
) -> (o: Ordering)
    ensures
        o == text_order(
            match collator {
                Some(c) => Some(c@),
                None => None,
            },
            case_insensitive,
            str1@,
            str2@,
        ),
{
    match collator {
        Some(c) => c.compare(str1, str2),
        None => {
            if case_insensitive {
                let lower1 = lowercase(str1);
                let lower2 = lowercase(str2);
                str_order(lower1.as_str(), lower2.as_str())
            } else {
                str_order(str1, str2)
            }
        },
    }
}

/// Orders lines as text, with no parsing.
pub struct TextComparer {
    pub collator: Option<LocaleCollator>,
    pub case_insensitive: bool,
}

impl TextComparer {
    /// A comparer of text with these settings.
    pub fn new(collator: Option<LocaleCollator>, case_insensitive: bool) -> (r: Self)
        ensures
            r.collator == collator,
            r.case_insensitive == case_insensitive,
    {
        Self { collator, case_insensitive }
    }

    /// The order of two lines under this comparer.
    pub open spec fn order(&self, a: Seq<char>, b: Seq<char>) -> Ordering {
        text_order(collation_of(self.collator), self.case_insensitive, a, b)
    }

    /// Compares two lines. This never fails.
    pub fn cmp(&self, str1: &str, str2: &str) -> (r: Result<Ordering, Error>)
        ensures
            r == Ok::<Ordering, Error>(self.order(str1@, str2@)),
    {
        Ok(compare_two_strings(self.collator.as_ref(), self.case_insensitive, str1, str2))
    }
}

} // verus!
