//! What a run does with a text: which settings go together, what to check,
//! what to write, and how a failure counts.

use std::collections::hash_map::DefaultHasher;
use vstd::prelude::*;
use vstd::std_specs::hash::DefaultHasherAdditionalSpecFns;

use crate::error::{CheckError, CheckErrorView, Error, ErrorView};
use crate::line::{hash_lines, lines_writes, views, SortableLine};
use crate::sorter::{is_sorting, Sorter, Strategy};

verus! {

/// Settings that do not go together.
#[derive(Clone, Copy, Debug, PartialEq, Eq)]
pub enum OptionsError {
    /// A locale was named for a strategy to which it makes no difference.
    LocaleNotSupported(Strategy),
    /// Windows paths were asked for, for a strategy that reads no paths.
    WindowsNotSupported(Strategy),
    /// The text was to be changed in place and to be checked only.
    InPlaceWithCheck,
}

/// What the settings are refused with, if they are refused: the first of
/// the three faults that they show.
pub open spec fn options_fault(
    sort: Strategy,
    has_locale: bool,
    windows: bool,
    in_place: bool,
    check: bool,
) -> Option<OptionsError> {
    if has_locale && (sort is Ip || sort is Network) {
        Some(OptionsError::LocaleNotSupported(sort))
    } else if windows && !(sort is Path) {
        Some(OptionsError::WindowsNotSupported(sort))
    } else if in_place && check {
        Some(OptionsError::InPlaceWithCheck)
    } else {
        None
    }
}

/// Tells whether the settings go together.
pub fn validate_args(sort: Strategy, has_locale: bool, windows: bool, in_place: bool, check: bool) -> (r:
    Result<(), OptionsError>)
    ensures
        match r {
            Ok(_) => options_fault(sort, has_locale, windows, in_place, check) is None,
            Err(e) => options_fault(sort, has_locale, windows, in_place, check) == Some(e),
        },
{
    if has_locale && !sort.supports_locale() {
        return Err(OptionsError::LocaleNotSupported(sort));
    }
    if windows && !sort.supports_path_type() {
        return Err(OptionsError::WindowsNotSupported(sort));
    }
    if in_place && check {
        return Err(OptionsError::InPlaceWithCheck);
    }
    Ok(())
}

/// The status with which a run that failed with `e` ends: 1 where a check
/// found the lines wanting, 2 for every other failure.
pub fn exit_status(e: &Error) -> (status: i32)
    ensures
        status == (if e is Check {
            1i32
        } else {
            2i32
        }),
{
    match e {
        Error::Check(_) => 1,
        _ => 2,
    }
}

/// Checks the lines of a text: a text with an empty line directly above a
/// line fails at once, any other text where its lines fail the check of the
/// sorter.
pub fn check_lines(sorter: &Sorter, lines: &[SortableLine], has_empty_lines: bool) -> (r: Result<
    (),
    Error,
>)
    ensures
        has_empty_lines ==> (r matches Err(e) && e@ == ErrorView::Check(
            CheckErrorView::HasUnexpectedEmptyLines,
        )),
        !has_empty_lines ==> match r {
            Ok(_) => forall|j: int| 0 <= j < lines.len() ==> sorter.passes_at(lines@, j),
            Err(e) => exists|j: int|
                0 <= j < lines.len() && #[trigger] sorter.fails_at(lines@, j, e@) && forall|k: int|
                    0 <= k < j ==> sorter.passes_at(lines@, k),
        },
{
    if has_empty_lines {
        return Err(Error::Check(CheckError::HasUnexpectedEmptyLines));
    }
    match sorter.lines_are_sorted(lines) {
        Ok(_) => Ok(()),
        Err(e) => Err(e),
    }
}

/// Sorted lines, with the answer to whether sorting changed anything.
pub struct Sorted {
    /// The lines, sorted.
    pub lines: Vec<SortableLine>,
    /// Whether the lines, their numbers and their comments hash as they did
    /// before sorting. This is never so for a text that had an empty line
    /// directly above a line: writing such a text drops the empty line.
    pub unchanged: bool,
}

/// Sorts the lines of a text and tells whether that changed anything.
pub fn sort_and_compare(sorter: &Sorter, lines: Vec<SortableLine>, has_empty_lines: bool) -> (r:
    Result<Sorted, Error>)
    ensures
        match r {
            Ok(sorted) => {
                &&& lines.len() >= 2 ==> forall|i: int|
                    0 <= i < lines.len() ==> sorter.comparer.accepts(#[trigger] lines[i].line@)
                &&& exists|s: Seq<SortableLine>, p: Seq<int>| #[trigger]
                    is_sorting(sorter.comparer, lines@, s, p) && sorted.lines@
                        == sorter.finished(s)
                &&& sorted.unchanged == (!has_empty_lines && DefaultHasher::spec_finish(
                    lines_writes(views(lines@)),
                ) == DefaultHasher::spec_finish(lines_writes(views(sorted.lines@))))
            },
            Err(e) => lines.len() >= 2 && exists|i: int|
                0 <= i < lines.len() && !sorter.comparer.accepts(lines[i].line@)
                    && #[trigger] sorter.comparer.refuses_with(lines[i].line@, e@) && forall|
                    k: int,
                |
                    0 <= k < i ==> sorter.comparer.accepts(#[trigger] lines[k].line@),
        },
{
    let before = if has_empty_lines {
        None
    } else {
        Some(hash_lines(lines.as_slice()))
    };
    let sorted = match sorter.sort_lines(lines) {
        Ok(sorted) => sorted,
        Err(e) => { return Err(e); },
    };
    let unchanged = match before {
        Some(hash) => hash == hash_lines(sorted.as_slice()),
        None => false,
    };
    Ok(Sorted { lines: sorted, unchanged })
}

/// What is to be done with sorted lines.
#[derive(Clone, Copy, Debug, PartialEq, Eq)]
pub enum OutputAction {
    /// Nothing: the text is as it should be.
    Nothing,
    /// The lines are printed.
    Print,
    /// The text is written anew, after a copy of the old text was made.
    RewriteWithBackup,
    /// The text is written anew.
    Rewrite,
}

/// Decides what is to be done with sorted lines: they are printed where that
/// was asked for; else nothing is done where sorting changed nothing; else the
/// text is written anew, with a copy of the old text unless it is to be
/// changed in place.
pub fn output_action(unchanged: bool, stdout: bool, in_place: bool) -> (action: OutputAction)
    ensures
        action == (if stdout {
            OutputAction::Print
        } else if unchanged {
            OutputAction::Nothing
        } else if in_place {
            OutputAction::Rewrite
        } else {
            OutputAction::RewriteWithBackup
        }),
{
    if stdout {
        OutputAction::Print
    } else if unchanged {
        OutputAction::Nothing
    } else if in_place {
        OutputAction::Rewrite
    } else {
        OutputAction::RewriteWithBackup
    }
}

} // verus!
