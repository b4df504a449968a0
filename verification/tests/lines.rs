use omegasort::ending::{
    buf_contains_str, could_not_determine_line_ending, determine_line_ending, FIRST_CHUNK_SIZE,
};
use omegasort::error::Error;
use omegasort::line::{group_lines, hash_lines, render_lines, Comment, SortableLine};
use omegasort::seen::{fingerprint, SeenLines};

const WITH_COMMENTS: &str = r#"
foo
bar
# comment 1
baz

# comment 2
quux
"#;

const WITH_REPEATED_LINES: &str = r#"
# first foo
foo
bar

# first baz
baz

# second foo
foo
quux

# second baz
baz
"#;

fn raw_lines(text: &str) -> Vec<String> {
    text.lines().map(String::from).collect()
}

#[test]
fn lines_from_reader() {
    let lines = ["foo", "bar", "baz", "quux"]
        .map(|l| format!("{l}\n"))
        .join("");
    assert_eq!(
        group_lines(None, raw_lines(lines.trim())),
        (
            [(1, "foo"), (2, "bar"), (3, "baz"), (4, "quux")]
                .into_iter()
                .map(SortableLine::from_number_and_str)
                .collect::<Vec<_>>(),
            false
        ),
    );

    let lines = ["foo", "", "bar", "", "baz", "quux"]
        .map(|l| format!("{l}\n"))
        .join("");
    assert_eq!(
        group_lines(None, raw_lines(lines.trim())),
        (
            [(1, "foo"), (3, "bar"), (5, "baz"), (6, "quux")]
                .into_iter()
                .map(SortableLine::from_number_and_str)
                .collect::<Vec<_>>(),
            true,
        ),
        "empty lines are skipped",
    );

    assert_eq!(
        group_lines(None, raw_lines(WITH_COMMENTS.trim_start())),
        (
            vec![
                SortableLine {
                    line_number: 1,
                    line: "foo".to_string(),
                    comment: None,
                },
                SortableLine {
                    line_number: 2,
                    line: "bar".to_string(),
                    comment: None,
                },
                SortableLine {
                    line_number: 3,
                    line: "# comment 1".to_string(),
                    comment: None,
                },
                SortableLine {
                    line_number: 4,
                    line: "baz".to_string(),
                    comment: None,
                },
                SortableLine {
                    line_number: 6,
                    line: "# comment 2".to_string(),
                    comment: None,
                },
                SortableLine {
                    line_number: 7,
                    line: "quux".to_string(),
                    comment: None,
                },
            ],
            true,
        ),
    );

    assert_eq!(
        group_lines(Some("#"), raw_lines(WITH_COMMENTS.trim_start())),
        (
            vec![
                SortableLine {
                    line_number: 1,
                    line: "foo".to_string(),
                    comment: None,
                },
                SortableLine {
                    line_number: 2,
                    line: "bar".to_string(),
                    comment: None,
                },
                SortableLine {
                    line_number: 4,
                    line: "baz".to_string(),
                    comment: Some(Comment {
                        lines: vec!["# comment 1".to_string()],
                        is_preceded_by_empty_line: false,
                    }),
                },
                SortableLine {
                    line_number: 7,
                    line: "quux".to_string(),
                    comment: Some(Comment {
                        lines: vec!["# comment 2".to_string()],
                        is_preceded_by_empty_line: true,
                    }),
                },
            ],
            false
        ),
    );
}

#[test]
fn write_lines_to_writer() {
    let tests = [
        (Some("#"), WITH_COMMENTS.trim_start(), WITH_COMMENTS.trim_start()),
        (
            Some("#"),
            WITH_REPEATED_LINES.trim_start(),
            WITH_REPEATED_LINES.trim_start(),
        ),
    ];

    for (comment_marker, input, expect) in tests {
        let (lines, _) = group_lines(comment_marker, raw_lines(input));
        assert_eq!(render_lines(&lines, "\n"), expect);
    }
}

#[test]
fn determine_line_ending_of_buffers() {
    let mut long_str = "Lorem ipsum dolor sit amet".repeat(100);
    long_str.push('\n');
    let tests: [(&str, Option<&str>); 5] = [
        (
            "Lorem ipsum dolor sit amet\nconsectetur adipiscing elit",
            Some("\n"),
        ),
        (
            "Lorem ipsum dolor sit amet\rconsectetur adipiscing elit",
            Some("\r"),
        ),
        (
            "Lorem ipsum dolor sit amet\r\nconsectetur adipiscing elit",
            Some("\r\n"),
        ),
        (
            "Lorem ipsum dolor sit amet\tconsectetur adipiscing elit",
            None,
        ),
        (long_str.as_str(), None),
    ];

    for (text, expect) in tests {
        let mut buf = [0u8; FIRST_CHUNK_SIZE];
        let read = text.len().min(FIRST_CHUNK_SIZE);
        buf[..read].copy_from_slice(&text.as_bytes()[..read]);
        match expect {
            Some(ending) => assert_eq!(determine_line_ending(&buf), Ok(ending)),
            None => assert_eq!(
                determine_line_ending(&buf),
                Err(could_not_determine_line_ending())
            ),
        }
    }
}

#[test]
fn no_line_ending_error_names_the_chunk_size() {
    assert_eq!(could_not_determine_line_ending(), Error::NoLineEnding(2048));
}

#[test]
fn buf_contains_str_finds_needles() {
    assert!(buf_contains_str("\n", b"foo\nbar"));
    assert!(!buf_contains_str("\n", b"foo bar"));
    assert!(buf_contains_str("\r\n", b"foo\r\nbar"));
    assert!(!buf_contains_str("\r\n", b"foo\rbar\n"));
    assert!(buf_contains_str("\r\n", b"\r\n"));
    assert!(!buf_contains_str("\r\n", b"\r"));
    assert!(!buf_contains_str("\r\n", b""));
    assert!(buf_contains_str("bar", b"foobar"));
    assert!(buf_contains_str("foo", b"foobar"));
    assert!(!buf_contains_str("baz", b"foobar"));
}

#[test]
fn comment_lines_are_found_behind_white_space() {
    let raw = raw_lines("  # indented\nfoo\n#\t\nbar\n");
    let (lines, has_empty_lines) = group_lines(Some("# "), raw);
    assert!(!has_empty_lines);
    assert_eq!(
        lines,
        vec![
            SortableLine {
                line_number: 2,
                line: "foo".to_string(),
                comment: Some(Comment {
                    lines: vec!["  # indented".to_string()],
                    is_preceded_by_empty_line: false,
                }),
            },
            SortableLine {
                line_number: 3,
                line: "#\t".to_string(),
                comment: None,
            },
            SortableLine {
                line_number: 4,
                line: "bar".to_string(),
                comment: None,
            },
        ]
    );
}

#[test]
fn first_comment_loses_its_empty_line_when_written() {
    let lines = vec![
        SortableLine {
            line_number: 3,
            line: "b".to_string(),
            comment: Some(Comment {
                lines: vec!["# one".to_string(), "# two".to_string()],
                is_preceded_by_empty_line: true,
            }),
        },
        SortableLine {
            line_number: 6,
            line: "a".to_string(),
            comment: Some(Comment {
                lines: vec!["# three".to_string()],
                is_preceded_by_empty_line: true,
            }),
        },
    ];
    assert_eq!(
        render_lines(&lines, "\r\n"),
        "# one\r\n# two\r\nb\r\n\r\n# three\r\na\r\n"
    );
    assert_eq!(render_lines(&[], "\n"), "");
}

#[test]
fn hash_tells_lines_apart() {
    let lines = [(1, "foo"), (2, "bar")]
        .into_iter()
        .map(SortableLine::from_number_and_str)
        .collect::<Vec<_>>();
    let same = lines.clone();
    let mut turned = lines.clone();
    turned.reverse();
    let renumbered = [(1, "foo"), (3, "bar")]
        .into_iter()
        .map(SortableLine::from_number_and_str)
        .collect::<Vec<_>>();
    let mut commented = lines.clone();
    commented[1].comment = Some(Comment {
        lines: vec!["# c".to_string()],
        is_preceded_by_empty_line: false,
    });
    assert_eq!(hash_lines(&lines), hash_lines(&same));
    assert_ne!(hash_lines(&lines), hash_lines(&turned));
    assert_ne!(hash_lines(&lines), hash_lines(&renumbered));
    assert_ne!(hash_lines(&lines), hash_lines(&commented));
    assert_ne!(hash_lines(&lines), hash_lines(&lines[..1]));
}

#[test]
fn seen_lines_find_the_earlier_line() {
    let lines = ["a", "b", "", "a", "c", ""]
        .into_iter()
        .enumerate()
        .map(|(i, t)| SortableLine::from_number_and_str((i + 1, t)))
        .collect::<Vec<_>>();
    assert_eq!(fingerprint("a"), fingerprint("a"));
    assert_ne!(fingerprint("a"), fingerprint("b"));
    let mut seen = SeenLines::new();
    assert_eq!(seen.find_or_add(&lines, 0), None);
    assert_eq!(seen.find_or_add(&lines, 1), None);
    assert_eq!(seen.find_or_add(&lines, 2), None);
    assert_eq!(seen.find_or_add(&lines, 3), Some(0));
}
