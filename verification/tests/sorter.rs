use omegasort::line::SortableLine;
use omegasort::sorter::{Sorter, Strategy};

#[test]
fn sort_lines() {
    let sorter = Sorter::new(Strategy::Text, None, false, false, false, false).unwrap();
    let lines = ["foo", "bar", "quux", "baz"]
        .into_iter()
        .enumerate()
        .map(|l| (l.0 + 1, l.1))
        .map(SortableLine::from_number_and_str)
        .collect::<Vec<_>>();
    let sorted_lines = sorter.sort_lines(lines.clone()).unwrap();

    let mut expect = [(2, "bar"), (4, "baz"), (1, "foo"), (3, "quux")]
        .into_iter()
        .map(SortableLine::from_number_and_str)
        .collect::<Vec<_>>();
    assert_eq!(sorted_lines, expect, "got expected ascending sorting");

    let sorter = Sorter::new(Strategy::Text, None, false, false, true, false).unwrap();
    let sorted_lines = sorter.sort_lines(lines).unwrap();
    expect.reverse();
    assert_eq!(sorted_lines, expect, "got expected descending sorting");
}

use omegasort::error::{CheckError, Error};
use omegasort::line::Comment;
use omegasort::run::{
    check_lines, exit_status, output_action, sort_and_compare, validate_args, OptionsError,
    OutputAction,
};

fn lines_of(texts: &[&str]) -> Vec<SortableLine> {
    texts
        .iter()
        .enumerate()
        .map(|(i, t)| SortableLine::from_number_and_str((i + 1, t)))
        .collect()
}

fn texts_of(lines: &[SortableLine]) -> Vec<&str> {
    lines.iter().map(|l| l.line.as_str()).collect()
}

fn sorter(strategy: Strategy, unique: bool, reverse: bool) -> Sorter {
    Sorter::new(strategy, None, unique, false, reverse, false).unwrap()
}

#[test]
fn check_accepts_sorted_lines() {
    let s = sorter(Strategy::Text, false, false);
    assert_eq!(s.lines_are_sorted(&lines_of(&[])), Ok(true));
    assert_eq!(s.lines_are_sorted(&lines_of(&["a"])), Ok(true));
    assert_eq!(s.lines_are_sorted(&lines_of(&["a", "b", "b", "c"])), Ok(true));
    let down = sorter(Strategy::Text, false, true);
    assert_eq!(down.lines_are_sorted(&lines_of(&["c", "b", "a"])), Ok(true));
}

#[test]
fn check_reports_the_first_pair_out_of_order() {
    let s = sorter(Strategy::Text, false, false);
    assert_eq!(
        s.lines_are_sorted(&lines_of(&["a", "c", "b", "a"])),
        Err(Error::Check(CheckError::NotSorted {
            first: "c".to_string(),
            second: "b".to_string()
        }))
    );
    let down = sorter(Strategy::Text, false, true);
    assert_eq!(
        down.lines_are_sorted(&lines_of(&["c", "b", "b", "a"])),
        Err(Error::Check(CheckError::NotSorted {
            first: "b".to_string(),
            second: "b".to_string()
        }))
    );
    assert_eq!(
        down.lines_are_sorted(&lines_of(&["a", "b"])),
        Err(Error::Check(CheckError::NotSorted {
            first: "a".to_string(),
            second: "b".to_string()
        }))
    );
}

#[test]
fn check_reports_repeats_by_line_number() {
    let s = sorter(Strategy::Text, true, false);
    let mut lines = lines_of(&["a", "b", "b", "c"]);
    lines[1].line_number = 20;
    lines[2].line_number = 31;
    assert_eq!(
        s.lines_are_sorted(&lines),
        Err(Error::Check(CheckError::NotUnique {
            line1: 20,
            line2: 31,
            line: "b".to_string()
        }))
    );
    assert_eq!(s.lines_are_sorted(&lines_of(&["a", "b", "c"])), Ok(true));
    // The order is checked before the repeats.
    assert_eq!(
        s.lines_are_sorted(&lines_of(&["b", "a", "a"])),
        Err(Error::Check(CheckError::NotSorted {
            first: "b".to_string(),
            second: "a".to_string()
        }))
    );
}

#[test]
fn repeats_are_found_by_text_not_by_order() {
    // Lines that compare as equal but differ as text are no repeats.
    let s = sorter(Strategy::NumberedText, true, false);
    assert_eq!(s.lines_are_sorted(&lines_of(&["1.0 x", "1.00 x"])), Ok(true));
    assert_eq!(
        s.lines_are_sorted(&lines_of(&["1.0 x", "1.00 x", "1.0 x"])),
        Err(Error::Check(CheckError::NotUnique {
            line1: 1,
            line2: 3,
            line: "1.0 x".to_string()
        }))
    );
    let no_case = Sorter::new(Strategy::Text, None, true, true, false, false).unwrap();
    assert_eq!(no_case.lines_are_sorted(&lines_of(&["a", "A", "b"])), Ok(true));
    assert_eq!(
        no_case.lines_are_sorted(&lines_of(&["a", "A", "a"])),
        Err(Error::Check(CheckError::NotUnique {
            line1: 1,
            line2: 3,
            line: "a".to_string()
        }))
    );
}

#[test]
fn check_passes_on_comparison_errors() {
    let s = sorter(Strategy::Ip, false, false);
    assert_eq!(s.lines_are_sorted(&lines_of(&["not an address"])), Ok(true));
    assert_eq!(
        s.lines_are_sorted(&lines_of(&["1.1.1.1", "2.2.2.2", "x", "y"])),
        Err(Error::InvalidAddress("x".to_string()))
    );
    assert_eq!(
        s.lines_are_sorted(&lines_of(&["x", "1.1.1.1"])),
        Err(Error::InvalidAddress("x".to_string()))
    );
    let n = sorter(Strategy::Network, false, false);
    assert_eq!(
        n.lines_are_sorted(&lines_of(&["1.1.1.0/24", "1.1.1.1"])),
        Err(Error::InvalidNetwork("1.1.1.1".to_string()))
    );
    assert_eq!(
        s.is_ordered("2.2.2.2", "1.1.1.1"),
        Ok(true)
    );
}

#[test]
fn sort_removes_repeats_and_turns_round() {
    let input = ["b", "a", "c", "a", "b", "b"];
    assert_eq!(
        texts_of(
            &sorter(Strategy::Text, false, false)
                .sort_lines(lines_of(&input))
                .unwrap()
        ),
        ["a", "a", "b", "b", "b", "c"]
    );
    assert_eq!(
        texts_of(
            &sorter(Strategy::Text, true, false)
                .sort_lines(lines_of(&input))
                .unwrap()
        ),
        ["a", "b", "c"]
    );
    assert_eq!(
        texts_of(
            &sorter(Strategy::Text, false, true)
                .sort_lines(lines_of(&input))
                .unwrap()
        ),
        ["c", "b", "b", "b", "a", "a"]
    );
    let unique_down = sorter(Strategy::Text, true, true)
        .sort_lines(lines_of(&input))
        .unwrap();
    assert_eq!(texts_of(&unique_down), ["c", "b", "a"]);
    // Going up the first of the repeats stays, going down the last.
    assert_eq!(
        unique_down.iter().map(|l| l.line_number).collect::<Vec<_>>(),
        [3, 6, 4]
    );
    let unique_up = sorter(Strategy::Text, true, false)
        .sort_lines(lines_of(&input))
        .unwrap();
    assert_eq!(
        unique_up.iter().map(|l| l.line_number).collect::<Vec<_>>(),
        [2, 1, 3]
    );
}

#[test]
fn sort_keeps_lines_that_only_compare_as_equal() {
    let no_case = Sorter::new(Strategy::Text, None, true, true, false, false).unwrap();
    assert_eq!(
        texts_of(&no_case.sort_lines(lines_of(&["b", "A", "a", "a"])).unwrap()),
        ["A", "a", "b"]
    );
}

#[test]
fn sort_fails_on_a_line_that_cannot_be_compared() {
    let s = sorter(Strategy::Ip, false, false);
    assert_eq!(
        s.sort_lines(lines_of(&["2.2.2.2", "bad", "1.1.1.1", "worse"])),
        Err(Error::InvalidAddress("bad".to_string()))
    );
    let n = sorter(Strategy::Network, true, true);
    assert_eq!(
        n.sort_lines(lines_of(&["1.1.1.0/24", "::/0", "1.1.1.0/33"])),
        Err(Error::InvalidNetwork("1.1.1.0/33".to_string()))
    );
    // Fewer than two lines are never compared.
    assert_eq!(
        texts_of(&s.sort_lines(lines_of(&["bad"])).unwrap()),
        ["bad"]
    );
    assert_eq!(s.sort_lines(lines_of(&[])), Ok(vec![]));
    assert_eq!(
        texts_of(
            &s.sort_lines(lines_of(&["::1", "2.2.2.2", "1.1.1.1"]))
                .unwrap()
        ),
        ["1.1.1.1", "2.2.2.2", "::1"]
    );
}

#[test]
fn sort_is_stable_and_takes_comments_along() {
    let mut lines = lines_of(&["1.0 b", "2 x", "1.00 a", "1 c"]);
    lines[2].comment = Some(Comment {
        is_preceded_by_empty_line: true,
        lines: vec!["# about a".to_string()],
    });
    let sorted = sorter(Strategy::NumberedText, false, false)
        .sort_lines(lines.clone())
        .unwrap();
    assert_eq!(
        sorted,
        vec![
            lines[0].clone(),
            lines[2].clone(),
            lines[3].clone(),
            lines[1].clone()
        ]
    );
}

#[test]
fn sorting_twice_changes_nothing() {
    for strategy in [Strategy::Text, Strategy::NumberedText, Strategy::Path] {
        for unique in [false, true] {
            let s = sorter(strategy, unique, false);
            let once = s
                .sort_lines(lines_of(&["10 b", "9 a", "/x/y", "/z", "b", "9 a", "a"]))
                .unwrap();
            let twice = s.sort_lines(once.clone()).unwrap();
            assert_eq!(once, twice);
            assert_eq!(s.lines_are_sorted(&once), Ok(true));
        }
    }
    let down = sorter(Strategy::Text, true, true);
    let once = down.sort_lines(lines_of(&["b", "c", "a", "b"])).unwrap();
    assert_eq!(down.sort_lines(once.clone()).unwrap(), once);
    assert_eq!(down.lines_are_sorted(&once), Ok(true));
}

#[test]
fn check_agrees_with_sort() {
    let s = sorter(Strategy::Text, false, false);
    for input in [
        vec!["a", "b", "c"],
        vec!["a", "a"],
        vec![],
        vec!["b", "a"],
        vec!["a", "c", "b"],
    ] {
        let lines = lines_of(&input);
        let unchanged = s.sort_lines(lines.clone()).unwrap() == lines;
        assert_eq!(s.lines_are_sorted(&lines).is_ok(), unchanged, "{input:?}");
    }
    let down = sorter(Strategy::Text, false, true);
    for input in [vec!["c", "b", "a"], vec![], vec!["a", "b"], vec!["c", "a", "b"]] {
        let lines = lines_of(&input);
        let unchanged = down.sort_lines(lines.clone()).unwrap() == lines;
        assert_eq!(down.lines_are_sorted(&lines).is_ok(), unchanged, "{input:?}");
    }
}

#[test]
fn sorter_is_built_for_each_strategy() {
    for strategy in [
        Strategy::Text,
        Strategy::NumberedText,
        Strategy::DatetimeText,
        Strategy::Path,
        Strategy::Ip,
        Strategy::Network,
    ] {
        let s = Sorter::new(strategy, None, true, false, true, true).unwrap();
        assert!(s.unique);
        assert!(s.reverse);
        assert_eq!(strategy.supports_locale(), !matches!(strategy, Strategy::Ip | Strategy::Network));
        assert_eq!(strategy.supports_path_type(), matches!(strategy, Strategy::Path));
    }
    assert_eq!(
        Sorter::new(Strategy::Text, Some("no locale"), false, false, false, false).err(),
        Some(Error::InvalidLocale("no locale".to_string()))
    );
    assert_eq!(
        Sorter::new(Strategy::Ip, Some("??"), false, false, false, false).err(),
        Some(Error::InvalidLocale("??".to_string()))
    );
    let german = Sorter::new(Strategy::Text, Some("de-DE"), false, false, false, false).unwrap();
    assert_eq!(
        texts_of(&german.sort_lines(lines_of(&["zoo", "foo", "öoo"])).unwrap()),
        ["foo", "öoo", "zoo"]
    );
    let windows = Sorter::new(Strategy::Path, None, false, false, false, true).unwrap();
    assert_eq!(
        texts_of(&windows.sort_lines(lines_of(&[r"\b", r"C:\a\b", r"C:\z"])).unwrap()),
        [r"C:\z", r"C:\a\b", r"\b"]
    );
}

#[test]
fn settings_that_do_not_go_together_are_refused() {
    assert_eq!(validate_args(Strategy::Text, true, false, true, false), Ok(()));
    assert_eq!(validate_args(Strategy::Path, true, true, false, true), Ok(()));
    assert_eq!(
        validate_args(Strategy::Ip, true, true, true, true),
        Err(OptionsError::LocaleNotSupported(Strategy::Ip))
    );
    assert_eq!(
        validate_args(Strategy::Network, true, false, false, false),
        Err(OptionsError::LocaleNotSupported(Strategy::Network))
    );
    assert_eq!(
        validate_args(Strategy::Text, true, true, true, true),
        Err(OptionsError::WindowsNotSupported(Strategy::Text))
    );
    assert_eq!(
        validate_args(Strategy::Network, false, true, false, false),
        Err(OptionsError::WindowsNotSupported(Strategy::Network))
    );
    assert_eq!(
        validate_args(Strategy::Path, false, true, true, true),
        Err(OptionsError::InPlaceWithCheck)
    );
}

#[test]
fn failures_of_a_check_count_apart() {
    assert_eq!(exit_status(&Error::Check(CheckError::HasUnexpectedEmptyLines)), 1);
    assert_eq!(
        exit_status(&Error::Check(CheckError::NotSorted {
            first: "b".to_string(),
            second: "a".to_string()
        })),
        1
    );
    assert_eq!(
        exit_status(&Error::Check(CheckError::NotUnique {
            line1: 1,
            line2: 2,
            line: "a".to_string()
        })),
        1
    );
    assert_eq!(exit_status(&Error::InvalidAddress("x".to_string())), 2);
    assert_eq!(exit_status(&Error::InvalidNetwork("x".to_string())), 2);
    assert_eq!(exit_status(&Error::InvalidLocale("x".to_string())), 2);
    assert_eq!(exit_status(&Error::CollatorUnavailable("x".to_string())), 2);
    assert_eq!(exit_status(&Error::NoLineEnding(2048)), 2);
}

#[test]
fn a_run_checks_and_sorts() {
    let s = sorter(Strategy::Text, false, false);
    assert_eq!(check_lines(&s, &lines_of(&["a", "b"]), false), Ok(()));
    assert_eq!(
        check_lines(&s, &lines_of(&["a", "b"]), true),
        Err(Error::Check(CheckError::HasUnexpectedEmptyLines))
    );
    assert_eq!(
        check_lines(&s, &lines_of(&["b", "a"]), false),
        Err(Error::Check(CheckError::NotSorted {
            first: "b".to_string(),
            second: "a".to_string()
        }))
    );
    let sorted = sort_and_compare(&s, lines_of(&["a", "b"]), false).unwrap();
    assert!(sorted.unchanged);
    assert_eq!(texts_of(&sorted.lines), ["a", "b"]);
    let sorted = sort_and_compare(&s, lines_of(&["a", "b"]), true).unwrap();
    assert!(!sorted.unchanged);
    let sorted = sort_and_compare(&s, lines_of(&["b", "a"]), false).unwrap();
    assert!(!sorted.unchanged);
    assert_eq!(texts_of(&sorted.lines), ["a", "b"]);
    let ips = sorter(Strategy::Ip, false, false);
    assert_eq!(
        sort_and_compare(&ips, lines_of(&["x", "y"]), false).err(),
        Some(Error::InvalidAddress("x".to_string()))
    );
    assert_eq!(output_action(true, true, true), OutputAction::Print);
    assert_eq!(output_action(false, true, false), OutputAction::Print);
    assert_eq!(output_action(true, false, true), OutputAction::Nothing);
    assert_eq!(output_action(true, false, false), OutputAction::Nothing);
    assert_eq!(output_action(false, false, true), OutputAction::Rewrite);
    assert_eq!(
        output_action(false, false, false),
        OutputAction::RewriteWithBackup
    );
}

#[test]
fn lines_that_a_collator_finds_equal_are_kept() {
    let s = Sorter::new(Strategy::Text, Some("en-US"), true, true, false, false).unwrap();
    let sorted = s.sort_lines(lines_of(&["b", "A", "a", "a", "B"])).unwrap();
    assert_eq!(texts_of(&sorted), ["A", "a", "b", "B"]);
    assert_eq!(s.lines_are_sorted(&lines_of(&["a", "A", "b"])), Ok(true));
    assert_eq!(
        s.lines_are_sorted(&lines_of(&["a", "A", "a"])),
        Err(Error::Check(CheckError::NotUnique {
            line1: 1,
            line2: 3,
            line: "a".to_string()
        }))
    );
    let down = Sorter::new(Strategy::Text, Some("en-US"), false, true, true, false).unwrap();
    assert_eq!(
        down.lines_are_sorted(&lines_of(&["b", "a", "A"])),
        Err(Error::Check(CheckError::NotSorted {
            first: "a".to_string(),
            second: "A".to_string()
        }))
    );
}

#[test]
fn lines_with_and_without_dates_are_sorted() {
    let s = sorter(Strategy::DatetimeText, false, false);
    assert_eq!(
        texts_of(&s.sort_lines(lines_of(&["no dt", "also none", "b", "7 up"])).unwrap()),
        ["7 up", "also none", "b", "no dt"]
    );
    assert_eq!(
        texts_of(
            &s.sort_lines(lines_of(&[
                "undated",
                "2021-05-01T01:17:02Z later",
                "2020-07-20+24:00 no date",
                "1991-01-02 early",
                "2021-05-01T01:17:01Z sooner",
            ]))
            .unwrap()
        ),
        [
            "1991-01-02 early",
            "2021-05-01T01:17:01Z sooner",
            "2021-05-01T01:17:02Z later",
            "2020-07-20+24:00 no date",
            "undated",
        ]
    );
    assert_eq!(
        s.lines_are_sorted(&lines_of(&["1991-01-02 z", "2020-01-01T00:00:00Z a", "#x"])),
        Ok(true)
    );
    assert_eq!(
        s.lines_are_sorted(&lines_of(&["#x", "1991-01-02 z"])),
        Err(Error::Check(CheckError::NotSorted {
            first: "#x".to_string(),
            second: "1991-01-02 z".to_string()
        }))
    );
}
