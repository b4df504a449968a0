//! Checking that lines are in order, and putting them in order.

use rayon::slice::ParallelSliceMut;
use std::cmp::Ordering;
use vstd::prelude::*;

use crate::arrange::arranged;
use crate::chars::idx;
use crate::collation::{
    collator_for_locale,
    has_collation,
    is_locale_tag,
    CollationView,
    LocaleCollator,
};
use crate::comparer::{out_of_order, Comparer};
use crate::datetime::DatetimeTextComparer;
use crate::error::{CheckError, CheckErrorView, Error, ErrorView};
use crate::ip_order::IpComparer;
use crate::line::{texts, SortableLine};
use crate::network::NetworkComparer;
use crate::numbered::NumberedTextComparer;
use crate::path::{PathComparer, PathType};
use crate::seen::SeenLines;
use crate::text::{collation_of, TextComparer};

verus! {

/// The rule by which lines are ordered.
#[derive(Clone, Copy, Debug, PartialEq, Eq)]
pub enum Strategy {
    Text,
    NumberedText,
    DatetimeText,
    Path,
    Ip,
    Network,
}

impl Strategy {
    /// Whether a locale makes a difference to the rule: it does to all but
    /// the rules for addresses and networks.
    pub fn supports_locale(self) -> (b: bool)
        ensures
            b == !(self is Ip || self is Network),
    {
        match self {
            Strategy::Ip | Strategy::Network => false,
            _ => true,
        }
    }

    /// Whether the rule reads lines as paths, so that the conventions for
    /// paths make a difference.
    pub fn supports_path_type(self) -> (b: bool)
        ensures
            b == (self is Path),
    {
        match self {
            Strategy::Path => true,
            _ => false,
        }
    }
}

/// Whether `comparer` is the comparer for `strategy` with these settings.
pub open spec fn is_comparer_for(
    comparer: Comparer,
    strategy: Strategy,
    collation: Option<CollationView>,
    case_insensitive: bool,
    windows: bool,
) -> bool {
    match strategy {
        Strategy::Text => comparer matches Comparer::Text(c) && collation_of(c.collator)
            == collation && c.case_insensitive == case_insensitive,
        Strategy::NumberedText => comparer matches Comparer::NumberedText(c) && collation_of(
            c.collator,
        ) == collation && c.case_insensitive == case_insensitive,
        Strategy::DatetimeText => comparer matches Comparer::DatetimeText(c) && collation_of(
            c.collator,
        ) == collation && c.case_insensitive == case_insensitive,
        Strategy::Path => comparer matches Comparer::Path(c) && collation_of(c.collator)
            == collation && c.case_insensitive == case_insensitive && c.path_type == (if windows {
            PathType::Windows
        } else {
            PathType::Unix
        }),
        Strategy::Ip => comparer is Ip,
        Strategy::Network => comparer is Network,
    }
}

/// Whether the order that `c` forces on `a` and `b` reads the same from
/// either side.
pub open spec fn mirrored(c: Comparer, a: Seq<char>, b: Seq<char>) -> bool {
    &&& c.forced_order(a, b) == Ordering::Less <==> c.forced_order(b, a) == Ordering::Greater
    &&& c.forced_order(a, b) == Ordering::Equal <==> c.forced_order(b, a) == Ordering::Equal
}

/// Whether the order that `c` forces carries over from `a` and `b`, and `b`
/// and `x`, to `a` and `x`.
pub open spec fn carries_over(c: Comparer, a: Seq<char>, b: Seq<char>, x: Seq<char>) -> bool {
    c.forced_order(a, b) == c.forced_order(b, x) ==> c.forced_order(a, x) == c.forced_order(a, b)
}

/// Whether `c` orders the lines `lines` totally: each pair reads the same
/// from either side, and the order carries over along any three lines.
pub open spec fn is_total_on(c: Comparer, lines: Seq<Seq<char>>) -> bool {
    &&& forall|i: int, j: int|
        0 <= i < lines.len() && 0 <= j < lines.len() ==> #[trigger] mirrored(c, lines[i], lines[j])
    &&& forall|i: int, j: int, k: int|
        0 <= i < lines.len() && 0 <= j < lines.len() && 0 <= k < lines.len()
            ==> #[trigger] carries_over(c, lines[i], lines[j], lines[k])
}

/// Whether `c` reads each of the lines `lines` in one way only, so that their
/// order depends on the lines alone.
pub open spec fn fixed_on(c: Comparer, lines: Seq<Seq<char>>) -> bool {
    forall|i: int| 0 <= i < lines.len() ==> c.fixes(#[trigger] lines[i])
}

/// Whether no line of `lines` is greater than a later one.
pub open spec fn ascending(c: Comparer, lines: Seq<Seq<char>>) -> bool {
    forall|i: int, j: int|
        0 <= i < j < lines.len() ==> #[trigger] c.forced_order(lines[i], lines[j])
            != Ordering::Greater
}

/// Whether lines that compare as equal stand in `lines` as they stood before
/// they were brought into the arrangement `p`.
pub open spec fn keeps_ties(c: Comparer, lines: Seq<Seq<char>>, p: Seq<int>) -> bool {
    forall|i: int, j: int|
        0 <= i < j < lines.len() && #[trigger] c.forced_order(lines[i], lines[j])
            == Ordering::Equal ==> p[i] < p[j]
}

/// Whether `after` can be what sorting `before` by `c` gives, by way of the
/// arrangement `p`.
///
/// It always holds the lines of `before`. Where the order of these lines is
/// fixed and total, it is ascending, and lines that compare as equal have
/// kept their places among each other.
pub open spec fn is_sorting(
    c: Comparer,
    before: Seq<SortableLine>,
    after: Seq<SortableLine>,
    p: Seq<int>,
) -> bool {
    &&& arranged(before, after, p)
    &&& fixed_on(c, texts(before)) && is_total_on(c, texts(before)) ==> ascending(
        c,
        texts(after),
    ) && keeps_ties(
        c,
        texts(after),
        p,
    )
}

/// `lines` without every line that holds the same text as the line before
/// it.
pub open spec fn without_repeats(lines: Seq<SortableLine>) -> Seq<SortableLine>
    decreases lines.len(),
{
    if lines.len() == 0 {
        lines
    } else if lines.len() >= 2 && lines[lines.len() - 2].line@ == lines.last().line@ {
        without_repeats(lines.drop_last())
    } else {
        without_repeats(lines.drop_last()).push(lines.last())
    }
}

/// `par_sort_by` of rayon, comparing lines by `cmp_or_less`. It is stable,
/// and sorts where the comparison depends on the lines alone and is a total
/// order of them; where it is not, the lines are left in an order that is
/// not specified.
#[verifier::external_body]
fn par_sort(lines: &mut Vec<SortableLine>, comparer: &Comparer)
    ensures
        exists|p: Seq<int>| #[trigger] is_sorting(*comparer, old(lines)@, final(lines)@, p),
{
    lines.par_sort_by(|a, b| comparer.cmp_or_less(&a.line, &b.line));
}

/// The lines in the opposite order.
fn reverse_lines(lines: Vec<SortableLine>) -> (r: Vec<SortableLine>)
    ensures
        r@ == lines@.reverse(),
{
    let ghost all = lines@;
    let mut rest = lines;
    let mut out: Vec<SortableLine> = Vec::new();
    while rest.len() > 0
        invariant
            rest.len() <= all.len(),
            rest@ == all.take(rest.len() as int),
            out.len() == all.len() - rest.len(),
            forall|i: int| 0 <= i < out.len() ==> #[trigger] out@[i] == all[all.len() - 1 - i],
        decreases rest.len(),
    {
        let line = rest.pop().unwrap();
        out.push(line);
    }
    assert(out@ =~= all.reverse());
    out
}

/// The lines without repeats.
fn dedup_lines(lines: Vec<SortableLine>) -> (r: Vec<SortableLine>)
    ensures
        r@ == without_repeats(lines@),
{
    let ghost all = lines@;
    let mut out: Vec<SortableLine> = Vec::new();
    for line in it: lines
        invariant
            it.seq() == all,
            out@ == without_repeats(all.take(it.index() as int)),
            it.index() > 0 ==> out.len() > 0 && out@.last().line@ == all[it.index() - 1].line@,
    {
        let ghost k = it.index() as int;
        assert(all.take(k + 1).drop_last() =~= all.take(k));
        assert(all.take(k + 1).last() == all[k]);
        let repeated = out.len() > 0 && out[out.len() - 1].line == line.line;
        if !repeated {
            out.push(line);
        }
    }
    assert(all.take(all.len() as int) =~= all);
    out
}

/// Checks and sorts lines by one rule.
pub struct Sorter {
    pub comparer: Comparer,
    pub unique: bool,
    pub reverse: bool,
}

impl Sorter {
    /// A sorter for `strategy`.
    ///
    /// Where a locale is named, its collator is built first, whatever the
    /// strategy, and the sorter is refused exactly where the collator is:
    /// for a malformed tag with [`Error::InvalidLocale`], for a tag without
    /// a collator with [`Error::CollatorUnavailable`]. Without a locale this
    /// always succeeds.
    pub fn new(
        strategy: Strategy,
        locale_name: Option<&str>,
        unique: bool,
        case_insensitive: bool,
        reverse: bool,
        windows: bool,
    ) -> (r: Result<Sorter, Error>)
        ensures
            r is Ok <==> (locale_name matches Some(name) ==> is_locale_tag(name@) && has_collation(
                name@,
                case_insensitive,
            )),
            match r {
                Ok(sorter) => {
                    &&& sorter.unique == unique
                    &&& sorter.reverse == reverse
                    &&& is_comparer_for(
                        sorter.comparer,
                        strategy,
                        match locale_name {
                            Some(name) => Some(
                                CollationView { locale: name@, ignore_case: case_insensitive },
                            ),
                            None => None,
                        },
                        case_insensitive,
                        windows,
                    )
                },
                Err(Error::InvalidLocale(t)) => locale_name matches Some(name) && t@ == name@
                    && !is_locale_tag(name@),
                Err(Error::CollatorUnavailable(t)) => locale_name matches Some(name) && t@
                    == name@ && is_locale_tag(name@),
                Err(_) => false,
            },
    {
        let collator: Option<LocaleCollator> = match locale_name {
            Some(name) => match collator_for_locale(name, case_insensitive) {
                Ok(c) => Some(c),
                Err(e) => { return Err(e); },
            },
            None => None,
        };
        let comparer = match strategy {
            Strategy::Text => Comparer::Text(TextComparer::new(collator, case_insensitive)),
            Strategy::NumberedText => Comparer::NumberedText(
                NumberedTextComparer::new(collator, case_insensitive),
            ),
            Strategy::DatetimeText => Comparer::DatetimeText(
                DatetimeTextComparer::new(collator, case_insensitive),
            ),
            Strategy::Path => Comparer::Path(
                PathComparer::new(
                    collator,
                    case_insensitive,
                    if windows {
                        PathType::Windows
                    } else {
                        PathType::Unix
                    },
                ),
            ),
            Strategy::Ip => Comparer::Ip(IpComparer::new()),
            Strategy::Network => Comparer::Network(NetworkComparer::new()),
        };
        Ok(Sorter { comparer, unique, reverse })
    }

    /// Whether the line `b` can stand directly behind the line `a`: the
    /// comparer accepts both, and can find them in order.
    pub open spec fn may_follow(&self, a: Seq<char>, b: Seq<char>) -> bool {
        &&& self.comparer.accepts(a)
        &&& self.comparer.accepts(b)
        &&& exists|o: Ordering| #[trigger]
            self.comparer.is_outcome(a, b, o) && !out_of_order(o, self.reverse)
    }

    /// Whether the comparer accepts the lines `a` and `b` and can find `a`
    /// before `b` out of order.
    pub open spec fn may_break(&self, a: Seq<char>, b: Seq<char>) -> bool {
        &&& self.comparer.accepts(a)
        &&& self.comparer.accepts(b)
        &&& exists|o: Ordering| #[trigger]
            self.comparer.is_outcome(a, b, o) && out_of_order(o, self.reverse)
    }

    /// Whether the check finds no fault with the line at position `j`: it can
    /// stand behind the line before it, and where lines are to be unique, no
    /// line before it holds the same text.
    pub open spec fn passes_at(&self, lines: Seq<SortableLine>, j: int) -> bool {
        &&& j > 0 ==> self.may_follow(lines[j - 1].line@, lines[j].line@)
        &&& self.unique ==> forall|i: int|
            0 <= i < j ==> (#[trigger] lines[i]).line@ != lines[j].line@
    }

    /// Whether the check can fail at position `j` with the error `e`.
    ///
    /// The order is checked first: a line that the comparer refuses, the
    /// line before rather than the line at `j`, gives the comparer's error,
    /// and a pair out of order [`CheckError::NotSorted`] with both lines.
    /// Only then, and only where lines are to be unique, an earlier line
    /// with the same text gives [`CheckError::NotUnique`] with the numbers
    /// of both lines.
    pub open spec fn fails_at(&self, lines: Seq<SortableLine>, j: int, e: ErrorView) -> bool {
        let before = lines[j - 1].line@;
        let here = lines[j].line@;
        if j > 0 && !self.comparer.accepts(before) {
            self.comparer.refuses_with(before, e)
        } else if j > 0 && !self.comparer.accepts(here) {
            self.comparer.refuses_with(here, e)
        } else {
            ||| j > 0 && self.may_break(before, here) && e == ErrorView::Check(
                CheckErrorView::NotSorted { first: before, second: here },
            )
            ||| (j > 0 ==> self.may_follow(before, here)) && self.unique && exists|i: int|
                0 <= i < j && #[trigger] lines[i].line@ == here && e == ErrorView::Check(
                    CheckErrorView::NotUnique {
                        line1: lines[i].line_number,
                        line2: lines[j].line_number,
                        line: here,
                    },
                )
        }
    }

    /// Checks in one pass, line by line, that the lines are in order, and
    /// where lines are to be unique, that no two hold the same text.
    ///
    /// The answer is `true` where no line gives a fault, and else the error
    /// of the first line that does. Two lines hold the same text where they
    /// are equal character by character, whatever the comparer makes of
    /// them.
    pub fn lines_are_sorted(&self, lines: &[SortableLine]) -> (r: Result<bool, Error>)
        ensures
            match r {
                Ok(sorted) => sorted && forall|j: int|
                    0 <= j < lines.len() ==> self.passes_at(lines@, j),
                Err(e) => exists|j: int|
                    0 <= j < lines.len() && #[trigger] self.fails_at(lines@, j, e@) && forall|
                        k: int,
                    |
                        0 <= k < j ==> self.passes_at(lines@, k),
            },
    {
        let mut seen = SeenLines::new();
        let mut j: usize = 0;
        while j < lines.len()
            invariant
                j <= lines.len(),
                forall|k: int| 0 <= k < j ==> self.passes_at(lines@, k),
                self.unique ==> seen.holds(lines@, idx(j)),
            decreases lines.len() - j,
        {
            let here = &lines[j];
            if j > 0 {
                let before = &lines[j - 1];
                match self.is_ordered(before.line.as_str(), here.line.as_str()) {
                    Err(e) => {
                        assert(self.fails_at(lines@, idx(j), e@));
                        return Err(e);
                    },
                    Ok(true) => {
                        let e = Error::Check(
                            CheckError::NotSorted {
                                first: before.line.clone(),
                                second: here.line.clone(),
                            },
                        );
                        assert(self.fails_at(lines@, idx(j), e@));
                        return Err(e);
                    },
                    Ok(false) => {},
                }
            }
            if self.unique {
                match seen.find_or_add(lines, j) {
                    Some(i) => {
                        let e = Error::Check(
                            CheckError::NotUnique {
                                line1: lines[i].line_number,
                                line2: here.line_number,
                                line: here.line.clone(),
                            },
                        );
                        assert(lines@[idx(i)].line@ == lines@[idx(j)].line@);
                        assert(self.fails_at(lines@, idx(j), e@));
                        return Err(e);
                    },
                    None => {},
                }
            }
            assert(self.passes_at(lines@, idx(j)));
            j += 1;
        }
        Ok(true)
    }

    /// Tells whether `str1` before `str2` is out of order for this sorter.
    pub fn is_ordered(&self, str1: &str, str2: &str) -> (r: Result<bool, Error>)
        ensures
            match r {
                Ok(b) => if b {
                    self.may_break(str1@, str2@)
                } else {
                    self.may_follow(str1@, str2@)
                },
                Err(e) => if self.comparer.accepts(str1@) {
                    !self.comparer.accepts(str2@) && self.comparer.refuses_with(str2@, e@)
                } else {
                    self.comparer.refuses_with(str1@, e@)
                },
            },
    {
        self.comparer.is_ordered(str1, str2, self.reverse)
    }

    /// What becomes of sorted lines `s`: they are turned round where the
    /// order is to go down, and then lose their repeats where lines are to be
    /// unique.
    pub open spec fn finished(&self, s: Seq<SortableLine>) -> Seq<SortableLine> {
        let turned = if self.reverse {
            s.reverse()
        } else {
            s
        };
        if self.unique {
            without_repeats(turned)
        } else {
            turned
        }
    }

    /// Sorts the lines.
    ///
    /// Two or more lines of which the comparer refuses one are not sorted:
    /// the error is that of the first line it refuses. Fewer than two lines
    /// are never compared, and so never refused. In every other case the
    /// lines are sorted by the comparer, then turned round where the order is
    /// to go down, and then freed of repeats where lines are to be unique.
    pub fn sort_lines(&self, lines: Vec<SortableLine>) -> (r: Result<Vec<SortableLine>, Error>)
        ensures
            match r {
                Ok(out) => {
                    &&& lines.len() >= 2 ==> forall|i: int|
                        0 <= i < lines.len() ==> self.comparer.accepts(#[trigger] lines[i].line@)
                    &&& exists|s: Seq<SortableLine>, p: Seq<int>| #[trigger]
                        is_sorting(self.comparer, lines@, s, p) && out@ == self.finished(s)
                },
                Err(e) => lines.len() >= 2 && exists|i: int|
                    0 <= i < lines.len() && !self.comparer.accepts(lines[i].line@)
                        && #[trigger] self.comparer.refuses_with(lines[i].line@, e@) && forall|
                        k: int,
                    |
                        0 <= k < i ==> self.comparer.accepts(#[trigger] lines[k].line@),
            },
    {
        if lines.len() >= 2 {
            let mut i: usize = 0;
            while i < lines.len()
                invariant
                    i <= lines.len(),
                    lines.len() >= 2,
                    forall|k: int| 0 <= k < i ==> self.comparer.accepts(#[trigger] lines[k].line@),
                decreases lines.len() - i,
            {
                match self.comparer.check_line(lines[i].line.as_str()) {
                    Ok(_) => {},
                    Err(e) => {
                        assert(self.comparer.refuses_with(lines[idx(i)].line@, e@));
                        return Err(e);
                    },
                }
                i += 1;
            }
        }
        let ghost before = lines@;
        let mut lines = lines;
        par_sort(&mut lines, &self.comparer);
        let ghost sorted = lines@;
        let ghost p = choose|p: Seq<int>| is_sorting(self.comparer, before, sorted, p);
        let lines = if self.reverse {
            reverse_lines(lines)
        } else {
            lines
        };
        let lines = if self.unique {
            dedup_lines(lines)
        } else {
            lines
        };
        assert(is_sorting(self.comparer, before, sorted, p) && lines@ == self.finished(sorted));
        Ok(lines)
    }
}

} // verus!
