//! The lines that are sorted, each with its place in the text it came from
//! and the comment above it; how a text is taken apart into such lines, and
//! how lines are put together again.

use std::collections::hash_map::DefaultHasher;
use std::hash::Hasher;
use vstd::prelude::*;
use vstd::std_specs::hash::DefaultHasherAdditionalSpecFns;
use vstd::string::{StringExecFns, StringSliceAdditionalSpecFns};
use vstd::utf8::encode_utf8;

use crate::chars::{chars_of, strings};
use crate::datetime::{is_space, is_space_char};

verus! {

/// The comment lines that stand directly above a line.
#[derive(Clone, Debug, PartialEq, Eq, Hash)]
pub struct Comment {
    /// Whether an empty line stood above the comment.
    pub is_preceded_by_empty_line: bool,
    /// The lines of the comment, in order.
    pub lines: Vec<String>,
}

/// A line, the number it had in the text it came from, counted from 1, and
/// the comment above it, if any. Only the line itself counts for the order.
#[derive(Clone, Debug, PartialEq, Eq, Hash)]
pub struct SortableLine {
    pub line_number: usize,
    pub line: String,
    pub comment: Option<Comment>,
}

/// A [`Comment`], with its lines as sequences of characters.
pub struct CommentView {
    pub is_preceded_by_empty_line: bool,
    pub lines: Seq<Seq<char>>,
}

/// A [`SortableLine`], with its texts as sequences of characters.
pub struct LineView {
    pub line_number: usize,
    pub line: Seq<char>,
    pub comment: Option<CommentView>,
}

impl View for Comment {
    type V = CommentView;

    open spec fn view(&self) -> CommentView {
        CommentView {
            is_preceded_by_empty_line: self.is_preceded_by_empty_line,
            lines: strings(self.lines@),
        }
    }
}

impl View for SortableLine {
    type V = LineView;

    open spec fn view(&self) -> LineView {
        LineView {
            line_number: self.line_number,
            line: self.line@,
            comment: match self.comment {
                Some(c) => Some(c@),
                None => None,
            },
        }
    }
}

impl SortableLine {
    /// A line without a comment, from its number and its text.
    pub fn from_number_and_str(from: (usize, &str)) -> (r: Self)
        ensures
            r.line_number == from.0,
            r.line@ == from.1@,
            r.comment is None,
    {
        Self { line_number: from.0, line: from.1.to_owned(), comment: None }
    }
}

/// The texts of some lines.
pub open spec fn texts(lines: Seq<SortableLine>) -> Seq<Seq<char>> {
    Seq::new(lines.len(), |i: int| lines[i].line@)
}

/// The views of some lines.
pub open spec fn views(lines: Seq<SortableLine>) -> Seq<LineView> {
    Seq::new(lines.len(), |i: int| lines[i]@)
}

/// How many white space characters stand in `s` from `from` on, without a
/// break.
pub open spec fn space_run(s: Seq<char>, from: int) -> int
    decreases s.len() - from,
{
    if 0 <= from < s.len() && is_space(s[from]) {
        1 + space_run(s, from + 1)
    } else {
        0
    }
}

/// The length of `s` without the white space at its end.
pub open spec fn trimmed_end(s: Seq<char>) -> int
    decreases s.len(),
{
    if s.len() > 0 && is_space(s.last()) {
        trimmed_end(s.drop_last())
    } else {
        s.len() as int
    }
}

/// `s` without the white space at its start and at its end.
pub open spec fn trimmed(s: Seq<char>) -> Seq<char> {
    if space_run(s, 0) >= trimmed_end(s) {
        Seq::<char>::empty()
    } else {
        s.subrange(space_run(s, 0), trimmed_end(s))
    }
}

/// Whether `s` begins with `p`.
pub open spec fn begins_with(s: Seq<char>, p: Seq<char>) -> bool {
    p.len() <= s.len() && s.take(p.len() as int) == p
}

/// Whether `line` is a comment: whether there is a prefix for comments, and
/// the line, but for white space around it, begins with that.
pub open spec fn is_comment_line(prefix: Option<Seq<char>>, line: Seq<char>) -> bool {
    match prefix {
        Some(p) => begins_with(trimmed(line), p),
        None => false,
    }
}

/// How far a text has been taken apart.
pub struct Grouping {
    /// The lines found so far.
    pub lines: Seq<LineView>,
    /// The comment that waits for its line.
    pub comment: Option<CommentView>,
    /// Whether an empty line was seen since the last line or the start of
    /// the last comment.
    pub last_line_was_empty: bool,
    /// Whether an empty line stood directly above a line.
    pub has_empty_lines: bool,
}

/// Takes the line with the number `number` into a grouping.
///
/// An empty line is dropped and remembered. A comment line joins the comment
/// that waits, or begins one, which then remembers whether an empty line
/// stood above it. Any other line takes the waiting comment with it.
pub open spec fn group_step(
    state: Grouping,
    prefix: Option<Seq<char>>,
    number: usize,
    line: Seq<char>,
) -> Grouping {
    if line.len() == 0 {
        Grouping { last_line_was_empty: true, ..state }
    } else if is_comment_line(prefix, line) {
        match state.comment {
            Some(c) => Grouping {
                comment: Some(CommentView { lines: c.lines.push(line), ..c }),
                ..state
            },
            None => Grouping {
                comment: Some(
                    CommentView {
                        is_preceded_by_empty_line: state.last_line_was_empty,
                        lines: seq![line],
                    },
                ),
                last_line_was_empty: false,
                ..state
            },
        }
    } else {
        Grouping {
            lines: state.lines.push(LineView { line_number: number, line, comment: state.comment }),
            comment: None,
            last_line_was_empty: false,
            has_empty_lines: state.has_empty_lines || state.last_line_was_empty,
        }
    }
}

/// The lines of a text taken apart: its empty lines dropped, its comments
/// joined to the lines below them, every line with its number in the text.
pub open spec fn grouped(prefix: Option<Seq<char>>, raw: Seq<Seq<char>>) -> Grouping
    decreases raw.len(),
{
    if raw.len() == 0 {
        Grouping {
            lines: Seq::<LineView>::empty(),
            comment: None,
            last_line_was_empty: false,
            has_empty_lines: false,
        }
    } else {
        group_step(grouped(prefix, raw.drop_last()), prefix, raw.len() as usize, raw.last())
    }
}

/// The text of an optional string.
pub open spec fn text_of(s: Option<&str>) -> Option<Seq<char>> {
    match s {
        Some(t) => Some(t@),
        None => None,
    }
}

/// Tells whether `line` begins with `prefix` once the white space around it
/// is gone.
fn begins_with_trimmed(line: &Vec<char>, prefix: &Vec<char>) -> (r: bool)
    ensures
        r == begins_with(trimmed(line@), prefix@),
{
    let mut start: usize = 0;
    while start < line.len() && is_space_char(line[start])
        invariant
            start <= line.len(),
            space_run(line@, 0) == start + space_run(line@, start as int),
        decreases line.len() - start,
    {
        start += 1;
    }
    let mut end: usize = line.len();
    assert(line@.take(end as int) =~= line@);
    while end > 0 && is_space_char(line[end - 1])
        invariant
            end <= line.len(),
            trimmed_end(line@) == trimmed_end(line@.take(end as int)),
        decreases end,
    {
        assert(line@.take(end as int).drop_last() =~= line@.take(end - 1));
        end -= 1;
    }
    assert(end > 0 ==> line@.take(end as int).last() == line@[end - 1]);
    assert(start == space_run(line@, 0));
    assert(end == trimmed_end(line@));
    if start >= end {
        assert(prefix.len() == 0 ==> trimmed(line@).take(0) =~= prefix@);
        return prefix.len() == 0;
    }
    if prefix.len() > end - start {
        return false;
    }
    let ghost body = trimmed(line@);
    let mut k: usize = 0;
    while k < prefix.len()
        invariant
            k <= prefix.len() <= end - start,
            start < end <= line.len(),
            body == trimmed(line@),
            body == line@.subrange(start as int, end as int),
            forall|j: int| 0 <= j < k ==> line@[start + j] == prefix@[j],
        decreases prefix.len() - k,
    {
        if line[start + k] != prefix[k] {
            assert(body.take(prefix.len() as int)[k as int] != prefix@[k as int]);
            return false;
        }
        k += 1;
    }
    assert(body.take(prefix.len() as int) =~= prefix@);
    true
}

/// Takes the lines of a text apart.
///
/// `raw` holds the lines of the text in order, without their endings.
/// Empty lines are dropped. Where there is a prefix for comments, the lines
/// that begin with it are joined to the line below them. The answer holds
/// the lines that are left, each with its number in the text, and tells
/// whether an empty line stood directly above one of them.
pub fn group_lines(comment_prefix: Option<&str>, raw: Vec<String>) -> (r: (
    Vec<SortableLine>,
    bool,
))
    ensures
        views(r.0@) == grouped(text_of(comment_prefix), strings(raw@)).lines,
        r.1 == grouped(text_of(comment_prefix), strings(raw@)).has_empty_lines,
{
    let ghost all = strings(raw@);
    let ghost prefix = text_of(comment_prefix);
    let prefix_chars: Option<Vec<char>> = match comment_prefix {
        Some(p) => Some(chars_of(p)),
        None => None,
    };
    let mut lines: Vec<SortableLine> = Vec::new();
    let mut comment: Option<Comment> = None;
    let mut last_line_was_empty = false;
    let mut has_empty_lines = false;
    let mut n: usize = 0;
    let total = raw.len();
    assert(all.take(0) =~= Seq::<Seq<char>>::empty());
    for line in it: raw
        invariant
            it.seq() == raw@,
            it.seq().len() == total,
            all == strings(raw@),
            prefix == text_of(comment_prefix),
            match prefix_chars {
                Some(p) => prefix == Some(p@),
                None => prefix is None,
            },
            n == it.index(),
            ({
                let state = grouped(prefix, all.take(n as int));
                &&& views(lines@) == state.lines
                &&& state.comment == (match comment {
                    Some(c) => Some(c@),
                    None => None,
                })
                &&& last_line_was_empty == state.last_line_was_empty
                &&& has_empty_lines == state.has_empty_lines
            }),
    {
        assert(n < total);
        assert(all.take(n + 1).drop_last() =~= all.take(n as int));
        assert(all.take(n + 1).last() == line@);
        let chars = chars_of(line.as_str());
        let is_comment = match &prefix_chars {
            Some(p) => begins_with_trimmed(&chars, p),
            None => false,
        };
        if chars.len() == 0 {
            last_line_was_empty = true;
        } else if is_comment {
            comment = match comment {
                Some(c) => {
                    let mut c = c;
                    let ghost old_lines = strings(c.lines@);
                    c.lines.push(line);
                    assert(strings(c.lines@) =~= old_lines.push(line@));
                    Some(c)
                },
                None => {
                    let mut comment_lines: Vec<String> = Vec::new();
                    comment_lines.push(line);
                    assert(strings(comment_lines@) =~= seq![line@]);
                    let c = Comment {
                        is_preceded_by_empty_line: last_line_was_empty,
                        lines: comment_lines,
                    };
                    last_line_was_empty = false;
                    Some(c)
                },
            };
        } else {
            if last_line_was_empty {
                has_empty_lines = true;
            }
            let ghost old_views = views(lines@);
            let sortable = SortableLine { line_number: n + 1, line, comment };
            lines.push(sortable);
            assert(views(lines@) =~= old_views.push(sortable@));
            last_line_was_empty = false;
            comment = None;
        }
        n += 1;
    }
    assert(all.take(n as int) =~= all);
    (lines, has_empty_lines)
}

/// Some lines joined, each followed by `ending`.
pub open spec fn joined(lines: Seq<Seq<char>>, ending: Seq<char>) -> Seq<char>
    decreases lines.len(),
{
    if lines.len() == 0 {
        Seq::<char>::empty()
    } else {
        joined(lines.drop_last(), ending) + lines.last() + ending
    }
}

/// A line as it is written: its comment first, behind an empty line where
/// one stood above it and the line is not the first, then the line itself.
pub open spec fn rendered_line(line: LineView, first: bool, ending: Seq<char>) -> Seq<char> {
    (match line.comment {
        Some(c) => (if c.is_preceded_by_empty_line && !first {
            ending
        } else {
            Seq::<char>::empty()
        }) + joined(c.lines, ending),
        None => Seq::<char>::empty(),
    }) + line.line + ending
}

/// Some lines as they are written, one after the other.
pub open spec fn rendered(lines: Seq<LineView>, ending: Seq<char>) -> Seq<char>
    decreases lines.len(),
{
    if lines.len() == 0 {
        Seq::<char>::empty()
    } else {
        rendered(lines.drop_last(), ending) + rendered_line(
            lines.last(),
            lines.len() == 1,
            ending,
        )
    }
}

/// Puts lines together to a text, every line and every comment line
/// followed by `line_ending`.
pub fn render_lines(lines: &[SortableLine], line_ending: &str) -> (r: String)
    ensures
        r@ == rendered(views(lines@), line_ending@),
{
    let ghost all = views(lines@);
    let mut out = String::new();
    let mut i: usize = 0;
    assert(all.take(0) =~= Seq::<LineView>::empty());
    while i < lines.len()
        invariant
            i <= lines.len(),
            all == views(lines@),
            out@ == rendered(all.take(i as int), line_ending@),
        decreases lines.len() - i,
    {
        let ghost before = out@;
        assert(all.take(i + 1).drop_last() =~= all.take(i as int));
        assert(all.take(i + 1).last() == lines@[i as int]@);
        let line = &lines[i];
        match &line.comment {
            Some(c) => {
                if c.is_preceded_by_empty_line && i != 0 {
                    out.append(line_ending);
                }
                let ghost head = out@;
                let ghost comment_lines = strings(c.lines@);
                let mut k: usize = 0;
                assert(comment_lines.take(0) =~= Seq::<Seq<char>>::empty());
                while k < c.lines.len()
                    invariant
                        k <= c.lines.len(),
                        comment_lines == strings(c.lines@),
                        out@ == head + joined(comment_lines.take(k as int), line_ending@),
                    decreases c.lines.len() - k,
                {
                    assert(comment_lines.take(k + 1).drop_last() =~= comment_lines.take(k as int));
                    assert(comment_lines.take(k + 1).last() == c.lines@[k as int]@);
                    out.append(c.lines[k].as_str());
                    out.append(line_ending);
                    k += 1;
                }
                assert(comment_lines.take(k as int) =~= comment_lines);
            },
            None => {},
        }
        out.append(line.line.as_str());
        out.append(line_ending);
        assert(out@ =~= before + rendered_line(lines@[i as int]@, i == 0, line_ending@));
        i += 1;
    }
    assert(all.take(i as int) =~= all);
    out
}

/// The `count` lowest bytes of `n`, the lowest first.
pub open spec fn low_bytes(n: nat, count: nat) -> Seq<u8>
    decreases count,
{
    if count == 0 {
        Seq::<u8>::empty()
    } else {
        seq![(n % 256) as u8] + low_bytes(n / 256, (count - 1) as nat)
    }
}

/// What stands for a comment in the hash of a line: a byte that tells
/// whether there is one and whether an empty line stood above it, and then
/// the bytes of each of its lines.
pub open spec fn comment_writes(comment: Option<CommentView>) -> Seq<Seq<u8>> {
    match comment {
        None => seq![seq![0u8]],
        Some(c) => seq![
            seq![
                if c.is_preceded_by_empty_line {
                    2u8
                } else {
                    1u8
                },
            ],
        ] + Seq::new(c.lines.len(), |i: int| encode_utf8(c.lines[i])),
    }
}

/// What stands for a line in the hash of lines: the eight low bytes of its
/// number, the bytes of its text, and what stands for its comment.
pub open spec fn line_writes(line: LineView) -> Seq<Seq<u8>> {
    seq![low_bytes(line.line_number as nat, 8), encode_utf8(line.line)] + comment_writes(
        line.comment,
    )
}

/// What stands for some lines in their hash.
pub open spec fn lines_writes(lines: Seq<LineView>) -> Seq<Seq<u8>>
    decreases lines.len(),
{
    if lines.len() == 0 {
        Seq::<Seq<u8>>::empty()
    } else {
        lines_writes(lines.drop_last()) + line_writes(lines.last())
    }
}

/// The eight low bytes of `n`.
fn number_bytes(n: usize) -> (r: Vec<u8>)
    ensures
        r@ == low_bytes(n as nat, 8),
{
    let mut out: Vec<u8> = Vec::new();
    let mut rest = n;
    let mut k: usize = 0;
    while k < 8
        invariant
            k <= 8,
            out@ + low_bytes(rest as nat, (8 - k) as nat) == low_bytes(n as nat, 8),
        decreases 8 - k,
    {
        let ghost before = out@;
        out.push((rest % 256) as u8);
        assert(out@ + low_bytes((rest / 256) as nat, (8 - k - 1) as nat) =~= before + low_bytes(
            rest as nat,
            (8 - k) as nat,
        ));
        rest = rest / 256;
        k += 1;
    }
    assert(out@ + low_bytes(rest as nat, 0) =~= out@);
    out
}

/// A hash of lines, with their numbers and comments: by it one can tell
/// whether sorting changed anything. Lines that are the same give the same
/// hash.
pub fn hash_lines(lines: &[SortableLine]) -> (r: u64)
    ensures
        r == DefaultHasher::spec_finish(lines_writes(views(lines@))),
{
    let ghost all = views(lines@);
    let mut hasher = DefaultHasher::new();
    let mut i: usize = 0;
    assert(all.take(0) =~= Seq::<LineView>::empty());
    while i < lines.len()
        invariant
            i <= lines.len(),
            all == views(lines@),
            hasher@ == lines_writes(all.take(i as int)),
        decreases lines.len() - i,
    {
        let ghost before = hasher@;
        assert(all.take(i + 1).drop_last() =~= all.take(i as int));
        assert(all.take(i + 1).last() == lines@[i as int]@);
        let line = &lines[i];
        let number = number_bytes(line.line_number);
        hasher.write(number.as_slice());
        hasher.write(line.line.as_str().as_bytes());
        match &line.comment {
            None => {
                let mark: [u8; 1] = [0u8];
                hasher.write(mark.as_slice());
                assert(mark@ =~= seq![0u8]);
            },
            Some(c) => {
                let mark: [u8; 1] = [
                    if c.is_preceded_by_empty_line {
                        2u8
                    } else {
                        1u8
                    },
                ];
                hasher.write(mark.as_slice());
                assert(mark@ =~= seq![
                    if c.is_preceded_by_empty_line {
                        2u8
                    } else {
                        1u8
                    },
                ]);
                let ghost head = hasher@;
                let ghost texts = strings(c.lines@);
                let mut k: usize = 0;
                while k < c.lines.len()
                    invariant
                        k <= c.lines.len(),
                        texts == strings(c.lines@),
                        hasher@ == head + Seq::new(k as nat, |j: int| encode_utf8(texts[j])),
                    decreases c.lines.len() - k,
                {
                    let ghost so_far = hasher@;
                    hasher.write(c.lines[k].as_str().as_bytes());
                    assert(hasher@ =~= head + Seq::new(
                        (k + 1) as nat,
                        |j: int| encode_utf8(texts[j]),
                    ));
                    k += 1;
                }
            },
        }
        assert(hasher@ =~= before + line_writes(lines@[i as int]@));
        i += 1;
    }
    assert(all.take(i as int) =~= all);
    hasher.finish()
}

} // verus!
