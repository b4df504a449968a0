//! Lines that begin with a number: an integer or a simple decimal, without
//! sign or exponent. Such lines are ordered by the number first.

use std::cmp::Ordering;
use vstd::prelude::*;

use crate::chars::{chars_of, code_point};
use crate::collation::{CollationView, LocaleCollator};
use crate::error::Error;
use crate::text::{collation_of, compare_two_strings, text_order};

verus! {

/// Whether `c` is one of the digits `0` to `9`.
pub open spec fn is_digit(c: char) -> bool {
    48 <= code_point(c) <= 57
}

/// The number that the digit `c` stands for.
pub open spec fn digit_of(c: char) -> nat {
    (code_point(c) - 48) as nat
}

/// How many digits stand in `s` from position `from` on, without a break.
pub open spec fn digit_run(s: Seq<char>, from: int) -> int
    decreases s.len() - from,
{
    if 0 <= from < s.len() && is_digit(s[from]) {
        1 + digit_run(s, from + 1)
    } else {
        0
    }
}

/// The length of the integer part of the number that `s` begins with; 0 where
/// `s` begins with no number.
pub open spec fn integer_len(s: Seq<char>) -> int {
    digit_run(s, 0)
}

/// The number of digits behind the decimal point of the number that `s` begins
/// with. A point belongs to the number only where digits stand on both sides
/// of it.
pub open spec fn fraction_len(s: Seq<char>) -> int {
    let n = integer_len(s);
    if n > 0 && n < s.len() && s[n] == '.' {
        digit_run(s, n + 1)
    } else {
        0
    }
}

/// The length of the number that `s` begins with, its point included; 0 where
/// `s` begins with no number.
pub open spec fn number_len(s: Seq<char>) -> int {
    if fraction_len(s) > 0 {
        integer_len(s) + 1 + fraction_len(s)
    } else {
        integer_len(s)
    }
}

/// The digits of the number that `s` begins with, without its point.
pub open spec fn number_digits(s: Seq<char>) -> Seq<char> {
    let n = integer_len(s);
    s.subrange(0, n) + if fraction_len(s) > 0 {
        s.subrange(n + 1, n + 1 + fraction_len(s))
    } else {
        Seq::<char>::empty()
    }
}

/// The number that a sequence of digits denotes in base 10.
pub open spec fn digits_value(s: Seq<char>) -> nat
    decreases s.len(),
{
    if s.len() == 0 {
        0
    } else {
        digits_value(s.drop_last()) * 10 + digit_of(s.last())
    }
}

/// 10 to the power `k`.
pub open spec fn pow10(k: nat) -> nat
    decreases k,
{
    if k == 0 {
        1
    } else {
        10 * pow10((k - 1) as nat)
    }
}

/// The number that `s` begins with, multiplied by 10 to the power `places`:
/// a whole number where `places` is at least the number of its fraction digits.
pub open spec fn scaled_number(s: Seq<char>, places: int) -> nat {
    digits_value(number_digits(s)) * pow10((places - fraction_len(s)) as nat)
}

/// The larger of two numbers.
pub open spec fn larger(a: int, b: int) -> int {
    if a >= b {
        a
    } else {
        b
    }
}

/// The order of two whole numbers.
pub open spec fn nat_order(a: nat, b: nat) -> Ordering {
    if a < b {
        Ordering::Less
    } else if a > b {
        Ordering::Greater
    } else {
        Ordering::Equal
    }
}

/// The order of the numbers that `a` and `b` begin with, by their exact
/// values: both are brought to the same number of fraction digits and then
/// compared as whole numbers.
pub open spec fn number_order(a: Seq<char>, b: Seq<char>) -> Ordering {
    let places = larger(fraction_len(a), fraction_len(b));
    nat_order(scaled_number(a, places), scaled_number(b, places))
}

/// The order of two lines that may begin with a number.
///
/// Where both do, and the two numbers are written alike, the text behind them
/// decides; written differently, their values decide, and the text behind
/// them is not looked at. A line with a number comes before one without.
/// Two lines without a number are ordered as text.
pub open spec fn numbered_text_order(
    collation: Option<CollationView>,
    case_insensitive: bool,
    a: Seq<char>,
    b: Seq<char>,
) -> Ordering {
    if number_len(a) > 0 && number_len(b) > 0 {
        if a.take(number_len(a)) == b.take(number_len(b)) {
            text_order(collation, case_insensitive, a.skip(number_len(a)), b.skip(number_len(b)))
        } else {
            number_order(a, b)
        }
    } else if number_len(a) > 0 {
        Ordering::Less
    } else if number_len(b) > 0 {
        Ordering::Greater
    } else {
        text_order(collation, case_insensitive, a, b)
    }
}

/// `k` times the digit `0`.
pub open spec fn zeros(k: int) -> Seq<char> {
    Seq::new(k as nat, |i: int| '0')
}

/// The digits of the number that `s` begins with, filled up with zeros in
/// front to `width` integer digits and behind to `places` fraction digits.
#[verifier::opaque]
pub open spec fn aligned(s: Seq<char>, width: int, places: int) -> Seq<char> {
    zeros(width - integer_len(s)) + number_digits(s) + zeros(places - fraction_len(s))
}

/// Every position of a run of digits holds a digit.
pub proof fn lemma_digit_run(s: Seq<char>, from: int)
    requires
        0 <= from <= s.len(),
    ensures
        0 <= digit_run(s, from) <= s.len() - from,
        forall|k: int| from <= k < from + digit_run(s, from) ==> is_digit(#[trigger] s[k]),
        from + digit_run(s, from) < s.len() ==> !is_digit(s[from + digit_run(s, from)]),
    decreases s.len() - from,
{
    if from < s.len() && is_digit(s[from]) {
        lemma_digit_run(s, from + 1);
    }
}

/// The number at the head of a line lies within the line and is made of
/// digits, but for its point.
pub proof fn lemma_number_shape(s: Seq<char>)
    ensures
        0 <= integer_len(s),
        0 <= fraction_len(s),
        number_len(s) <= s.len(),
        number_len(s) > 0 <==> integer_len(s) > 0,
        number_len(s) > 0 <==> (s.len() > 0 && is_digit(s[0])),
        number_digits(s).len() == integer_len(s) + fraction_len(s),
        forall|k: int|
            0 <= k < number_digits(s).len() ==> is_digit(#[trigger] number_digits(s)[k]),
{
    lemma_digit_run(s, 0);
    let n = integer_len(s);
    if n > 0 && n < s.len() && s[n] == '.' {
        lemma_digit_run(s, n + 1);
    }
}

/// Zeros in front do not change what digits denote.
pub proof fn lemma_leading_zeros(k: nat, s: Seq<char>)
    ensures
        digits_value(zeros(k as int) + s) == digits_value(s),
    decreases s.len(), k,
{
    let t = zeros(k as int) + s;
    if s.len() == 0 {
        if k > 0 {
            assert(t.drop_last() =~= zeros(k - 1) + s);
            lemma_leading_zeros((k - 1) as nat, s);
        }
    } else {
        assert(t.drop_last() =~= zeros(k as int) + s.drop_last());
        lemma_leading_zeros(k, s.drop_last());
    }
}

/// Each zero behind multiplies what digits denote by 10.
pub proof fn lemma_trailing_zeros(s: Seq<char>, k: nat)
    ensures
        digits_value(s + zeros(k as int)) == digits_value(s) * pow10(k),
    decreases k,
{
    let t = s + zeros(k as int);
    if k == 0 {
        assert(t =~= s);
        assert(pow10(0) == 1);
    } else {
        assert(t.drop_last() =~= s + zeros(k - 1));
        assert(t.last() == '0');
        lemma_trailing_zeros(s, (k - 1) as nat);
        let v = digits_value(s);
        let p = pow10((k - 1) as nat);
        assert(v * p * 10 == v * (10 * p)) by (nonlinear_arith);
    }
}

/// Filled up with zeros, the digits of a number denote the number, scaled.
pub proof fn lemma_aligned_value(s: Seq<char>, width: int, places: int)
    requires
        width >= integer_len(s),
        places >= fraction_len(s),
    ensures
        digits_value(aligned(s, width, places)) == scaled_number(s, places),
        aligned(s, width, places).len() == width + places,
        forall|k: int|
            0 <= k < width + places ==> is_digit(#[trigger] aligned(s, width, places)[k]),
        forall|k: int|
            0 <= k < width ==> #[trigger] aligned(s, width, places)[k] == (if k < width
                - integer_len(s) {
                '0'
            } else {
                s[k - (width - integer_len(s))]
            }),
        forall|k: int|
            0 <= k < places ==> #[trigger] aligned(s, width, places)[width + k] == (if k
                < fraction_len(s) {
                s[integer_len(s) + 1 + k]
            } else {
                '0'
            }),
{
    reveal(aligned);
    lemma_number_shape(s);
    let front = (width - integer_len(s)) as nat;
    let back = (places - fraction_len(s)) as nat;
    let tail = number_digits(s) + zeros(back as int);
    assert(aligned(s, width, places) =~= zeros(front as int) + tail);
    lemma_leading_zeros(front, tail);
    lemma_trailing_zeros(number_digits(s), back);
}

/// 10 to the power `d`, for a `d` that is not negative.
pub open spec fn shift10(d: int) -> nat {
    pow10(d as nat)
}

/// Powers of 10 are positive, and multiply as their exponents add.
pub proof fn lemma_shift10(d: int, e: int)
    requires
        0 <= d,
        0 <= e,
    ensures
        shift10(d) > 0,
        shift10(d + e) == shift10(d) * shift10(e),
    decreases d,
{
    if d > 0 {
        lemma_shift10(d - 1, e);
        lemma_shift10(d - 1, 0);
        let x = shift10(d - 1);
        let y = shift10(e);
        assert(10 * (x * y) == (10 * x) * y) by (nonlinear_arith);
        assert(10 * x > 0) by (nonlinear_arith)
            requires
                x > 0,
        ;
    } else {
        assert(shift10(0) == 1);
        assert(1 * shift10(e) == shift10(e));
    }
}

/// A number brought to more fraction digits is multiplied by a power of 10.
pub proof fn lemma_rescale(s: Seq<char>, places: int, more: int)
    requires
        fraction_len(s) <= places <= more,
    ensures
        scaled_number(s, more) == scaled_number(s, places) * shift10(more - places),
        shift10(more - places) > 0,
{
    lemma_number_shape(s);
    let v = digits_value(number_digits(s));
    let x = shift10(places - fraction_len(s));
    let y = shift10(more - places);
    lemma_shift10(places - fraction_len(s), more - places);
    lemma_shift10(more - places, 0);
    assert(v * (x * y) == (v * x) * y) by (nonlinear_arith);
}

/// Multiplying two numbers by one positive number keeps their order.
pub proof fn lemma_scale_keeps_order(u: nat, v: nat, m: nat)
    requires
        m > 0,
    ensures
        u < v <==> u * m < v * m,
        u == v <==> u * m == v * m,
{
    assert(u < v ==> u * m < v * m) by (nonlinear_arith)
        requires
            m > 0,
    ;
    assert(u > v ==> u * m > v * m) by (nonlinear_arith)
        requires
            m > 0,
    ;
}

/// A run of digits is at least as long as any stretch of digits from its
/// start.
pub proof fn lemma_digit_run_at_least(s: Seq<char>, from: int, m: int)
    requires
        0 <= from,
        0 <= m,
        from + m <= s.len(),
        forall|k: int| from <= k < from + m ==> is_digit(#[trigger] s[k]),
    ensures
        digit_run(s, from) >= m,
    decreases m,
{
    lemma_digit_run(s, from);
    if m > 0 {
        assert(is_digit(s[from]));
        lemma_digit_run_at_least(s, from + 1, m - 1);
    }
}

/// Two lines that begin with the same text as their number begin with the
/// same number.
pub proof fn lemma_same_number(a: Seq<char>, b: Seq<char>)
    requires
        number_len(a) > 0,
        a.take(number_len(a)) == b.take(number_len(b)),
    ensures
        integer_len(a) == integer_len(b),
        fraction_len(a) == fraction_len(b),
        number_digits(a) == number_digits(b),
{
    lemma_number_shape(a);
    lemma_number_shape(b);
    let n = number_len(a);
    assert(a.take(n).len() == n);
    assert(b.take(number_len(b)).len() == number_len(b));
    assert(number_len(b) == n);
    assert forall|k: int| 0 <= k < n implies a[k] == b[k] by {
        assert(a.take(n)[k] == b.take(n)[k]);
    }
    let ia = integer_len(a);
    lemma_digit_run(a, 0);
    lemma_digit_run(b, 0);
    lemma_digit_run_at_least(b, 0, ia);
    if ia < n {
        assert(a[ia] == '.');
        assert(b[ia] == '.');
        assert(!is_digit(b[ia]));
        assert(integer_len(b) == ia);
        let fa = fraction_len(a);
        lemma_digit_run(a, ia + 1);
        lemma_digit_run(b, ia + 1);
        lemma_digit_run_at_least(b, ia + 1, fa);
        assert(fraction_len(b) == fa);
        assert(number_digits(a) =~= number_digits(b));
    } else {
        assert(integer_len(b) == ia);
        assert(fraction_len(b) == 0);
        assert(number_digits(a) =~= number_digits(b));
    }
}

/// Of two digit sequences of one length, the one with the smaller digit at
/// the first place where they differ denotes the smaller number.
pub proof fn lemma_first_difference(p: Seq<char>, q: Seq<char>, pos: int)
    requires
        p.len() == q.len(),
        forall|k: int| 0 <= k < p.len() ==> is_digit(#[trigger] p[k]),
        forall|k: int| 0 <= k < q.len() ==> is_digit(#[trigger] q[k]),
        0 <= pos < p.len(),
        forall|k: int| 0 <= k < pos ==> p[k] == q[k],
        digit_of(p[pos]) < digit_of(q[pos]),
    ensures
        digits_value(p) < digits_value(q),
    decreases p.len(),
{
    let head_p = p.drop_last();
    let head_q = q.drop_last();
    assert(is_digit(p.last()) && is_digit(q.last()));
    if pos == p.len() - 1 {
        assert(head_p =~= head_q);
    } else {
        assert forall|k: int| 0 <= k < head_p.len() implies is_digit(#[trigger] head_p[k]) by {
            assert(head_p[k] == p[k]);
        }
        assert forall|k: int| 0 <= k < head_q.len() implies is_digit(#[trigger] head_q[k]) by {
            assert(head_q[k] == q[k]);
        }
        lemma_first_difference(head_p, head_q, pos);
    }
}

/// Tells whether `c` is one of the digits `0` to `9`.
pub fn is_digit_char(c: char) -> (b: bool)
    ensures
        b == is_digit(c),
{
    c >= '0' && c <= '9'
}

/// Counts the digits that stand in `s` from `from` on.
pub fn count_digits(s: &Vec<char>, from: usize) -> (n: usize)
    requires
        from <= s.len(),
    ensures
        n == digit_run(s@, from as int),
        from + n <= s.len(),
{
    let mut end = from;
    while end < s.len() && is_digit_char(s[end])
        invariant
            from <= end <= s.len(),
            digit_run(s@, from as int) == (end - from) + digit_run(s@, end as int),
        decreases s.len() - end,
    {
        end += 1;
    }
    end - from
}

/// Finds the number that `s` begins with: the lengths of its integer part and
/// of its fraction, and its length as a whole.
pub fn leading_number(s: &Vec<char>) -> (r: (usize, usize, usize))
    ensures
        r.0 == integer_len(s@),
        r.1 == fraction_len(s@),
        r.2 == number_len(s@),
        r.2 <= s.len(),
{
    proof {
        lemma_number_shape(s@);
    }
    let int_len = count_digits(s, 0);
    if int_len > 0 && int_len < s.len() && s[int_len] == '.' {
        let frac_len = count_digits(s, int_len + 1);
        if frac_len > 0 {
            (int_len, frac_len, int_len + 1 + frac_len)
        } else {
            (int_len, 0, int_len)
        }
    } else {
        (int_len, 0, int_len)
    }
}

/// Tells which of the numbers that `s1` and `s2` begin with is the smaller:
/// `Some(true)` for the first, `Some(false)` for the second, `None` where
/// they are equal.
fn smaller_number(
    s1: &Vec<char>,
    int1: usize,
    frac1: usize,
    s2: &Vec<char>,
    int2: usize,
    frac2: usize,
) -> (r: Option<bool>)
    requires
        int1 == integer_len(s1@),
        frac1 == fraction_len(s1@),
        int2 == integer_len(s2@),
        frac2 == fraction_len(s2@),
    ensures
        ({
            let places = larger(frac1 as int, frac2 as int);
            let v1 = scaled_number(s1@, places);
            let v2 = scaled_number(s2@, places);
            match r {
                None => v1 == v2,
                Some(first) => if first {
                    v1 < v2
                } else {
                    v1 > v2
                },
            }
        }),
{
    let width = if int1 >= int2 {
        int1
    } else {
        int2
    };
    let places = if frac1 >= frac2 {
        frac1
    } else {
        frac2
    };
    let ghost a1 = aligned(s1@, width as int, places as int);
    let ghost a2 = aligned(s2@, width as int, places as int);
    proof {
        lemma_number_shape(s1@);
        lemma_number_shape(s2@);
        lemma_aligned_value(s1@, width as int, places as int);
        lemma_aligned_value(s2@, width as int, places as int);
    }
    let mut k: usize = 0;
    while k < width
        invariant
            k <= width,
            int1 <= width,
            int2 <= width,
            int1 <= s1.len(),
            int2 <= s2.len(),
            places as int == larger(frac1 as int, frac2 as int),
            a1.len() == width + places,
            a2.len() == width + places,
            forall|j: int| 0 <= j < width + places ==> is_digit(#[trigger] a1[j]),
            forall|j: int| 0 <= j < width + places ==> is_digit(#[trigger] a2[j]),
            forall|j: int|
                0 <= j < width ==> #[trigger] a1[j] == (if j < width - int1 {
                    '0'
                } else {
                    s1@[j - (width - int1)]
                }),
            forall|j: int|
                0 <= j < width ==> #[trigger] a2[j] == (if j < width - int2 {
                    '0'
                } else {
                    s2@[j - (width - int2)]
                }),
            digits_value(a1) == scaled_number(s1@, places as int),
            digits_value(a2) == scaled_number(s2@, places as int),
            forall|j: int| 0 <= j < k ==> a1[j] == a2[j],
        decreases width - k,
    {
        let c1 = if k < width - int1 {
            '0'
        } else {
            s1[k - (width - int1)]
        };
        let c2 = if k < width - int2 {
            '0'
        } else {
            s2[k - (width - int2)]
        };
        assert(c1 == a1[k as int]);
        assert(c2 == a2[k as int]);
        if c1 < c2 {
            proof {
                lemma_first_difference(a1, a2, k as int);
            }
            return Some(true);
        }
        if c1 > c2 {
            proof {
                lemma_first_difference(a2, a1, k as int);
            }
            return Some(false);
        }
        k += 1;
    }
    let mut k: usize = 0;
    while k < places
        invariant
            k <= places,
            frac1 <= places,
            frac2 <= places,
            frac1 > 0 ==> int1 + 1 + frac1 <= s1.len(),
            frac2 > 0 ==> int2 + 1 + frac2 <= s2.len(),
            places as int == larger(frac1 as int, frac2 as int),
            a1.len() == width + places,
            a2.len() == width + places,
            forall|j: int| 0 <= j < width + places ==> is_digit(#[trigger] a1[j]),
            forall|j: int| 0 <= j < width + places ==> is_digit(#[trigger] a2[j]),
            forall|j: int|
                0 <= j < places ==> #[trigger] a1[width + j] == (if j < frac1 {
                    s1@[int1 + 1 + j]
                } else {
                    '0'
                }),
            forall|j: int|
                0 <= j < places ==> #[trigger] a2[width + j] == (if j < frac2 {
                    s2@[int2 + 1 + j]
                } else {
                    '0'
                }),
            digits_value(a1) == scaled_number(s1@, places as int),
            digits_value(a2) == scaled_number(s2@, places as int),
            forall|j: int| 0 <= j < width + k ==> a1[j] == a2[j],
        decreases places - k,
    {
        let c1 = if k < frac1 {
            s1[int1 + 1 + k]
        } else {
            '0'
        };
        let c2 = if k < frac2 {
            s2[int2 + 1 + k]
        } else {
            '0'
        };
        assert(c1 == a1[width + k]);
        assert(c2 == a2[width + k]);
        if c1 < c2 {
            proof {
                lemma_first_difference(a1, a2, width + k);
            }
            return Some(true);
        }
        if c1 > c2 {
            proof {
                lemma_first_difference(a2, a1, width + k);
            }
            return Some(false);
        }
        k += 1;
    }
    assert(a1 =~= a2);
    None
}

/// Whether the first `len1` characters of `s1` and the first `len2` of `s2`
/// are the same text.
fn same_prefix(s1: &Vec<char>, len1: usize, s2: &Vec<char>, len2: usize) -> (b: bool)
    requires
        len1 <= s1.len(),
        len2 <= s2.len(),
    ensures
        b == (s1@.take(len1 as int) == s2@.take(len2 as int)),
{
    if len1 != len2 {
        assert(s1@.take(len1 as int).len() != s2@.take(len2 as int).len());
        return false;
    }
    let mut k: usize = 0;
    while k < len1
        invariant
            k <= len1,
            len1 == len2,
            len1 <= s1.len(),
            len2 <= s2.len(),
            forall|j: int| 0 <= j < k ==> s1@[j] == s2@[j],
        decreases len1 - k,
    {
        if s1[k] != s2[k] {
            assert(s1@.take(len1 as int)[k as int] != s2@.take(len2 as int)[k as int]);
            return false;
        }
        k += 1;
    }
    assert(s1@.take(len1 as int) =~= s2@.take(len2 as int));
    true
}

/// Orders lines by the number they begin with, and lines with the same
/// number, or with none, as text.
pub struct NumberedTextComparer {
    pub collator: Option<LocaleCollator>,
    pub case_insensitive: bool,
}

impl NumberedTextComparer {
    /// A comparer that falls back on the order of text with these settings.
    pub fn new(collator: Option<LocaleCollator>, case_insensitive: bool) -> (r: Self)
        ensures
            r.collator == collator,
            r.case_insensitive == case_insensitive,
    {
        Self { collator, case_insensitive }
    }

    /// The order of two lines under this comparer.
    pub open spec fn order(&self, a: Seq<char>, b: Seq<char>) -> Ordering {
        numbered_text_order(collation_of(self.collator), self.case_insensitive, a, b)
    }

    /// Compares two lines. This never fails.
    pub fn cmp(&self, str1: &str, str2: &str) -> (r: Result<Ordering, Error>)
        ensures
            r == Ok::<Ordering, Error>(self.order(str1@, str2@)),
    {
        let chars1 = chars_of(str1);
        let chars2 = chars_of(str2);
        let (int1, frac1, len1) = leading_number(&chars1);
        let (int2, frac2, len2) = leading_number(&chars2);
        proof {
            lemma_number_shape(str1@);
            lemma_number_shape(str2@);
        }
        if int1 > 0 && int2 > 0 {
            if same_prefix(&chars1, len1, &chars2, len2) {
                let rest1 = str1.substring_char(len1, chars1.len());
                let rest2 = str2.substring_char(len2, chars2.len());
                Ok(
                    compare_two_strings(
                        self.collator.as_ref(),
                        self.case_insensitive,
                        rest1,
                        rest2,
                    ),
                )
            } else {
                match smaller_number(&chars1, int1, frac1, &chars2, int2, frac2) {
                    None => Ok(Ordering::Equal),
                    Some(true) => Ok(Ordering::Less),
                    Some(false) => Ok(Ordering::Greater),
                }
            }
        } else if int1 > 0 {
            Ok(Ordering::Less)
        } else if int2 > 0 {
            Ok(Ordering::Greater)
        } else {
            Ok(compare_two_strings(self.collator.as_ref(), self.case_insensitive, str1, str2))
        }
    }
}

} // verus!
