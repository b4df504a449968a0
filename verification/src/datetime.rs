//! Lines that begin with a date, or with a date and a time in one word: they
//! are ordered by the instant that the word names.

use std::cmp::Ordering;
use vstd::prelude::*;

use crate::chars::{chars_of, code_point};
use crate::collation::{CollationView, LocaleCollator};
use crate::error::Error;
use crate::numbered::{digit_of, is_digit, is_digit_char};
use crate::text::{collation_of, compare_two_strings, text_order};

verus! {

/// Whether `c` is white space: a character with the Unicode property
/// `White_Space`.
pub open spec fn is_space(c: char) -> bool {
    let p = code_point(c);
    ||| 0x09 <= p <= 0x0d
    ||| p == 0x20
    ||| p == 0x85
    ||| p == 0xa0
    ||| p == 0x1680
    ||| 0x2000 <= p <= 0x200a
    ||| p == 0x2028
    ||| p == 0x2029
    ||| p == 0x202f
    ||| p == 0x205f
    ||| p == 0x3000
}

/// How many characters other than white space stand in `s` from `from` on,
/// without a break.
pub open spec fn word_run(s: Seq<char>, from: int) -> int
    decreases s.len() - from,
{
    if 0 <= from < s.len() && !is_space(s[from]) {
        1 + word_run(s, from + 1)
    } else {
        0
    }
}

/// The length of the word that may name a date in `s`, or 0 where there is
/// none. Such a word begins the line with a digit, has at least two
/// characters, and ends before the first white space or with the line,
/// whatever follows it.
pub open spec fn datetime_token_len(s: Seq<char>) -> int {
    let n = word_run(s, 0);
    if n >= 2 && is_digit(s[0]) {
        n
    } else {
        0
    }
}

/// A point in time: whole seconds since the start of 1970 in UTC, and the
/// part of a second beyond them in nanoseconds.
#[derive(Clone, Copy, Debug, PartialEq, Eq)]
pub struct Instant {
    pub seconds: i64,
    pub nanos: u32,
}

/// Which of two instants is the earlier.
pub open spec fn instant_order(x: Instant, y: Instant) -> Ordering {
    if x.seconds < y.seconds {
        Ordering::Less
    } else if x.seconds > y.seconds {
        Ordering::Greater
    } else if x.nanos < y.nanos {
        Ordering::Less
    } else if x.nanos > y.nanos {
        Ordering::Greater
    } else {
        Ordering::Equal
    }
}

/// The order of two lines, given the instant that each was read as, if any.
///
/// Two instants are ordered by time. A line with an instant comes before one
/// without. Two lines without are ordered as text.
pub open spec fn datetime_text_order(
    collation: Option<CollationView>,
    case_insensitive: bool,
    a: Seq<char>,
    b: Seq<char>,
    instant_a: Option<Instant>,
    instant_b: Option<Instant>,
) -> Ordering {
    match (instant_a, instant_b) {
        (Some(x), Some(y)) => instant_order(x, y),
        (Some(_), None) => Ordering::Less,
        (None, Some(_)) => Ordering::Greater,
        (None, None) => text_order(collation, case_insensitive, a, b),
    }
}

/// Whether `w` begins with a date of the form `2020-07-20`: four digits, two
/// digits and two digits, with hyphens between them.
pub open spec fn begins_with_date(w: Seq<char>) -> bool {
    &&& w.len() >= 10
    &&& is_digit(w[0]) && is_digit(w[1]) && is_digit(w[2]) && is_digit(w[3])
    &&& w[4] == '-'
    &&& is_digit(w[5]) && is_digit(w[6])
    &&& w[7] == '-'
    &&& is_digit(w[8]) && is_digit(w[9])
}

/// Whether `w` is a date of the form `2020-07-20` followed by an offset from
/// UTC of 24 hours or more, as `+24:00` or `-9900`. No such offset exists,
/// and such a word names no date.
pub open spec fn has_wild_offset(w: Seq<char>) -> bool {
    &&& begins_with_date(w)
    &&& w.len() >= 13
    &&& w[10] == '+' || w[10] == '-'
    &&& is_digit(w[11]) && is_digit(w[12])
    &&& digit_of(w[11]) * 10 + digit_of(w[12]) >= 24
}

/// Whether the line `s` begins with a word that may name a date, and that
/// the date parser is asked about: a word of two or more characters that
/// begins with a digit, and gives no offset of 24 hours or more.
pub open spec fn may_name_date(s: Seq<char>) -> bool {
    datetime_token_len(s) > 0 && !has_wild_offset(s.take(datetime_token_len(s)))
}

/// Whether `instant` can be what the line `s` was read as: a line without a
/// word that may name a date is read as none.
pub open spec fn may_read_as(s: Seq<char>, instant: Option<Instant>) -> bool {
    !may_name_date(s) ==> instant is None
}

/// The parser of `dateparser`, by way of `str::parse` for `DateTimeUtc`, and
/// the two parts of the time stamp of what it found. A text without a time
/// zone is read in the time zone of the machine, and a date without a time
/// gets the time of day at which it is read, so nothing is claimed of the
/// result.
///
/// The parser builds the offset that follows a date of the form `2020-07-20`
/// from its hours and minutes without looking at their size, and fails to
/// return where that offset is 24 hours or more. Such words are left out.
#[verifier::external_body]
fn parse_instant(word: &str) -> (r: Option<Instant>)
    requires
        !has_wild_offset(word@),
{
    match word.parse::<dateparser::DateTimeUtc>() {
        Ok(found) => Some(
            Instant { seconds: found.0.timestamp(), nanos: found.0.timestamp_subsec_nanos() },
        ),
        Err(_) => None,
    }
}

/// Tells whether `c` is white space.
pub fn is_space_char(c: char) -> (b: bool)
    ensures
        b == is_space(c),
{
    let p = c as u32;
    (0x09 <= p && p <= 0x0d) || p == 0x20 || p == 0x85 || p == 0xa0 || p == 0x1680 || (0x2000 <= p
        && p <= 0x200a) || p == 0x2028 || p == 0x2029 || p == 0x202f || p == 0x205f || p == 0x3000
}

/// Finds the word that may name a date in a line: its length, or 0.
pub fn datetime_token(s: &Vec<char>) -> (n: usize)
    ensures
        n == datetime_token_len(s@),
        n <= s.len(),
{
    let mut end: usize = 0;
    while end < s.len() && !is_space_char(s[end])
        invariant
            end <= s.len(),
            word_run(s@, 0) == end + word_run(s@, end as int),
        decreases s.len() - end,
    {
        end += 1;
    }
    if end < 2 {
        return 0;
    }
    let first = s[0];
    if !(first >= '0' && first <= '9') {
        return 0;
    }
    end
}

/// Tells whether the first `n` characters of `s` are a date followed by an
/// offset of 24 hours or more.
pub fn wild_offset(s: &Vec<char>, n: usize) -> (b: bool)
    requires
        n <= s.len(),
    ensures
        b == has_wild_offset(s@.take(n as int)),
{
    if n < 13 {
        return false;
    }
    let date = is_digit_char(s[0]) && is_digit_char(s[1]) && is_digit_char(s[2]) && is_digit_char(
        s[3],
    ) && s[4] == '-' && is_digit_char(s[5]) && is_digit_char(s[6]) && s[7] == '-' && is_digit_char(
        s[8],
    ) && is_digit_char(s[9]);
    if !date || !(s[10] == '+' || s[10] == '-') || !is_digit_char(s[11]) || !is_digit_char(s[12]) {
        return false;
    }
    let hours = (s[11] as u32 - 48) * 10 + (s[12] as u32 - 48);
    hours >= 24
}

/// Orders lines that name an instant by time, before all other lines, and
/// those other lines as text.
pub struct DatetimeTextComparer {
    pub collator: Option<LocaleCollator>,
    pub case_insensitive: bool,
}

impl DatetimeTextComparer {
    /// A comparer that falls back on the order of text with these settings.
    pub fn new(collator: Option<LocaleCollator>, case_insensitive: bool) -> (r: Self)
        ensures
            r.collator == collator,
            r.case_insensitive == case_insensitive,
    {
        Self { collator, case_insensitive }
    }

    /// The order of two lines under this comparer, given what they were read
    /// as.
    pub open spec fn order(
        &self,
        a: Seq<char>,
        b: Seq<char>,
        instant_a: Option<Instant>,
        instant_b: Option<Instant>,
    ) -> Ordering {
        datetime_text_order(
            collation_of(self.collator),
            self.case_insensitive,
            a,
            b,
            instant_a,
            instant_b,
        )
    }

    /// Reads the word that a line begins with as an instant. A line that
    /// does not begin with a word of two or more characters, the first of
    /// them a digit, is never read as one, nor is a word that gives an offset
    /// of 24 hours or more; of any other line the date parser is asked, with
    /// that word.
    pub fn datetime_from_str(line: &str) -> (r: Option<Instant>)
        ensures
            may_read_as(line@, r),
    {
        let chars = chars_of(line);
        let n = datetime_token(&chars);
        if n == 0 || wild_offset(&chars, n) {
            None
        } else {
            parse_instant(line.substring_char(0, n))
        }
    }

    /// Compares two lines that were read as `dt1` and `dt2`.
    pub fn cmp_parsed(
        &self,
        str1: &str,
        str2: &str,
        dt1: Option<Instant>,
        dt2: Option<Instant>,
    ) -> (o: Ordering)
        ensures
            o == self.order(str1@, str2@, dt1, dt2),
    {
        match (dt1, dt2) {
            (Some(x), Some(y)) => {
                if x.seconds < y.seconds {
                    Ordering::Less
                } else if x.seconds > y.seconds {
                    Ordering::Greater
                } else if x.nanos < y.nanos {
                    Ordering::Less
                } else if x.nanos > y.nanos {
                    Ordering::Greater
                } else {
                    Ordering::Equal
                }
            },
            (Some(_), None) => Ordering::Less,
            (None, Some(_)) => Ordering::Greater,
            (None, None) => compare_two_strings(
                self.collator.as_ref(),
                self.case_insensitive,
                str1,
                str2,
            ),
        }
    }

    /// Whether `o` is how the lines `a` and `b` compare for some reading of
    /// each that the lines allow.
    pub open spec fn is_outcome(&self, a: Seq<char>, b: Seq<char>, o: Ordering) -> bool {
        exists|instant_a: Option<Instant>, instant_b: Option<Instant>|
            may_read_as(a, instant_a) && may_read_as(b, instant_b) && o == #[trigger] self.order(
                a,
                b,
                instant_a,
                instant_b,
            )
    }

    /// Compares two lines. This never fails. Where neither line can name a
    /// date, they are compared as text.
    pub fn cmp(&self, str1: &str, str2: &str) -> (r: Result<Ordering, Error>)
        ensures
            r is Ok,
            self.is_outcome(str1@, str2@, r->Ok_0),
            !may_name_date(str1@) && !may_name_date(str2@) ==> r->Ok_0 == text_order(
                collation_of(self.collator),
                self.case_insensitive,
                str1@,
                str2@,
            ),
    {
        let dt1 = Self::datetime_from_str(str1);
        let dt2 = Self::datetime_from_str(str2);
        let o = self.cmp_parsed(str1, str2, dt1, dt2);
        assert(o == self.order(str1@, str2@, dt1, dt2));
        Ok(o)
    }
}

} // verus!
