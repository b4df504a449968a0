//! File paths, and their order: absolute paths first, then shallow paths
//! before deep ones, then by the names along the path.

use std::cmp::Ordering;
use typed_path::{
    Utf8Component,
    Utf8UnixPath,
    Utf8WindowsComponent,
    Utf8WindowsPath,
    Utf8WindowsPrefix,
};
use vstd::prelude::*;

use crate::chars::{idx, strings};
use crate::collation::{CollationView, LocaleCollator};
use crate::error::Error;
use crate::text::{collation_of, compare_two_strings, lex_order, str_order, text_order};

verus! {

/// The conventions by which a path is read.
#[derive(Clone, Copy, Debug, PartialEq, Eq)]
pub enum PathType {
    Unix,
    Windows,
}

/// What a Windows path can begin with: a drive, a server and share, or one
/// of the forms that begin with two backslashes and a question mark or dot.
#[derive(Clone, Debug, PartialEq, Eq)]
pub enum WindowsPrefix {
    Verbatim(String),
    VerbatimUnc(String, String),
    VerbatimDisk(char),
    DeviceNs(String),
    Unc(String, String),
    Disk(char),
}

/// A prefix, with its names as sequences of characters.
pub enum PrefixView {
    Verbatim(Seq<char>),
    VerbatimUnc(Seq<char>, Seq<char>),
    VerbatimDisk(char),
    DeviceNs(Seq<char>),
    Unc(Seq<char>, Seq<char>),
    Disk(char),
}

impl View for WindowsPrefix {
    type V = PrefixView;

    open spec fn view(&self) -> PrefixView {
        match self {
            WindowsPrefix::Verbatim(x) => PrefixView::Verbatim(x@),
            WindowsPrefix::VerbatimUnc(x, y) => PrefixView::VerbatimUnc(x@, y@),
            WindowsPrefix::VerbatimDisk(c) => PrefixView::VerbatimDisk(*c),
            WindowsPrefix::DeviceNs(x) => PrefixView::DeviceNs(x@),
            WindowsPrefix::Unc(x, y) => PrefixView::Unc(x@, y@),
            WindowsPrefix::Disk(c) => PrefixView::Disk(*c),
        }
    }
}

/// A path taken apart.
pub struct ParsedPath {
    /// Whether the path is absolute.
    pub absolute: bool,
    /// What a Windows path begins with, if with anything.
    pub prefix: Option<PrefixView>,
    /// The components of the path, in order: the prefix and the root, where
    /// it has them, and each name.
    pub components: Seq<Seq<char>>,
}

/// The components of `path`, read as a Unix path: the root, if it begins
/// with one, then its names. Separators leave no trace, nor does a `.` but
/// at the very start.
pub uninterp spec fn unix_components(path: Seq<char>) -> Seq<Seq<char>>;

/// The components of `path`, read as a Windows path: the prefix and the
/// root, if it begins with them, then its names.
pub uninterp spec fn windows_components(path: Seq<char>) -> Seq<Seq<char>>;

/// What `path`, read as a Windows path, begins with.
pub uninterp spec fn windows_prefix(path: Seq<char>) -> Option<PrefixView>;

/// Whether `path`, read as a Windows path, is absolute: it begins with a
/// server and a share that has a name, or with any other prefix and the root
/// behind it.
pub open spec fn windows_is_absolute(path: Seq<char>) -> bool {
    match windows_prefix(path) {
        Some(PrefixView::Unc(_, share)) => share.len() > 0,
        Some(PrefixView::VerbatimUnc(_, share)) => share.len() > 0,
        Some(_) => windows_components(path).len() >= 2 && windows_components(path)[1] == seq![
            '\\',
        ],
        None => false,
    }
}

/// `is_absolute` of a `Utf8UnixPath`: a Unix path is absolute where it
/// begins with a slash.
#[verifier::external_body]
fn unix_path_is_absolute(path: &str) -> (r: bool)
    ensures
        r == (path@.len() > 0 && path@[0] == '/'),
{
    Utf8UnixPath::new(path).is_absolute()
}

/// `components` of a `Utf8UnixPath`, each component as its text.
#[verifier::external_body]
fn unix_path_components(path: &str) -> (r: Vec<String>)
    ensures
        strings(r@) == unix_components(path@),
{
    Utf8UnixPath::new(path).components().map(|c| c.as_str().to_string()).collect()
}

/// `is_absolute` of a `Utf8WindowsPath`: whether the first component is a
/// prefix with a server and a share that has a name, or any other prefix
/// with the root as the second component. The text of the root is a
/// backslash, and that of no other component is.
#[verifier::external_body]
fn windows_path_is_absolute(path: &str) -> (r: bool)
    ensures
        r == windows_is_absolute(path@),
{
    Utf8WindowsPath::new(path).is_absolute()
}

/// `components` of a `Utf8WindowsPath`, each component as its text.
#[verifier::external_body]
fn windows_path_components(path: &str) -> (r: Vec<String>)
    ensures
        strings(r@) == windows_components(path@),
{
    Utf8WindowsPath::new(path).components().map(|c| c.as_str().to_string()).collect()
}

/// The first of the `components` of a `Utf8WindowsPath`, where it is a
/// prefix, by its `kind`.
#[verifier::external_body]
fn windows_path_prefix(path: &str) -> (r: Option<WindowsPrefix>)
    ensures
        match r {
            Some(p) => windows_prefix(path@) == Some(p@),
            None => windows_prefix(path@) is None,
        },
{
    let first = Utf8WindowsPath::new(path).components().next();
    let Some(Utf8WindowsComponent::Prefix(p)) = first else { return None };
    Some(match p.kind() {
        Utf8WindowsPrefix::Verbatim(x) => WindowsPrefix::Verbatim(x.to_string()),
        Utf8WindowsPrefix::VerbatimUNC(x, y) => WindowsPrefix::VerbatimUnc(x.to_string(), y.to_string()),
        Utf8WindowsPrefix::VerbatimDisk(c) => WindowsPrefix::VerbatimDisk(c),
        Utf8WindowsPrefix::DeviceNS(x) => WindowsPrefix::DeviceNs(x.to_string()),
        Utf8WindowsPrefix::UNC(x, y) => WindowsPrefix::Unc(x.to_string(), y.to_string()),
        Utf8WindowsPrefix::Disk(c) => WindowsPrefix::Disk(c),
    })
}

/// `path` taken apart as a Unix path.
pub open spec fn unix_path(path: Seq<char>) -> ParsedPath {
    ParsedPath {
        absolute: path.len() > 0 && path[0] == '/',
        prefix: None,
        components: unix_components(path),
    }
}

/// `path` taken apart as a Windows path.
pub open spec fn windows_path(path: Seq<char>) -> ParsedPath {
    ParsedPath {
        absolute: windows_is_absolute(path),
        prefix: windows_prefix(path),
        components: windows_components(path),
    }
}

/// The place of a kind of prefix among the kinds.
pub open spec fn prefix_rank(p: PrefixView) -> int {
    match p {
        PrefixView::Verbatim(_) => 0,
        PrefixView::VerbatimUnc(_, _) => 1,
        PrefixView::VerbatimDisk(_) => 2,
        PrefixView::DeviceNs(_) => 3,
        PrefixView::Unc(_, _) => 4,
        PrefixView::Disk(_) => 5,
    }
}

/// The first name of a prefix; a drive letter counts as a name.
pub open spec fn prefix_first(p: PrefixView) -> Seq<char> {
    match p {
        PrefixView::Verbatim(x) => x,
        PrefixView::VerbatimUnc(x, _) => x,
        PrefixView::VerbatimDisk(c) => seq![c],
        PrefixView::DeviceNs(x) => x,
        PrefixView::Unc(x, _) => x,
        PrefixView::Disk(c) => seq![c],
    }
}

/// The second name of a prefix, empty where it has none.
pub open spec fn prefix_second(p: PrefixView) -> Seq<char> {
    match p {
        PrefixView::VerbatimUnc(_, y) => y,
        PrefixView::Unc(_, y) => y,
        _ => Seq::<char>::empty(),
    }
}

/// The order of two prefixes: by their kinds, then by their names, each by
/// code points.
pub open spec fn prefix_order(p: PrefixView, q: PrefixView) -> Ordering {
    if prefix_rank(p) < prefix_rank(q) {
        Ordering::Less
    } else if prefix_rank(p) > prefix_rank(q) {
        Ordering::Greater
    } else {
        match lex_order(prefix_first(p), prefix_first(q)) {
            Ordering::Equal => lex_order(prefix_second(p), prefix_second(q)),
            o => o,
        }
    }
}

/// The order of two lists of components of one length, from position `from`
/// on: the first pair that does not compare as equal text decides.
pub open spec fn pairwise_order(
    collation: Option<CollationView>,
    case_insensitive: bool,
    x: Seq<Seq<char>>,
    y: Seq<Seq<char>>,
    from: int,
) -> Ordering
    decreases x.len() - from,
{
    if from < 0 || from >= x.len() || from >= y.len() {
        Ordering::Equal
    } else {
        match text_order(collation, case_insensitive, x[from], y[from]) {
            Ordering::Equal => pairwise_order(collation, case_insensitive, x, y, from + 1),
            o => o,
        }
    }
}

/// The order of two lists of components: the shorter list first, whatever
/// the lists hold; lists of one length by their components in turn.
pub open spec fn components_order(
    collation: Option<CollationView>,
    case_insensitive: bool,
    x: Seq<Seq<char>>,
    y: Seq<Seq<char>>,
) -> Ordering {
    if x.len() < y.len() {
        Ordering::Less
    } else if x.len() > y.len() {
        Ordering::Greater
    } else {
        pairwise_order(collation, case_insensitive, x, y, 0)
    }
}

/// The order of two paths.
///
/// An absolute path comes before a relative one. Of two paths that are both
/// absolute or both relative, one with a prefix comes before one without, and
/// two different prefixes decide. What is left is decided by the components.
pub open spec fn path_order(
    collation: Option<CollationView>,
    case_insensitive: bool,
    x: ParsedPath,
    y: ParsedPath,
) -> Ordering {
    if x.absolute && !y.absolute {
        Ordering::Less
    } else if !x.absolute && y.absolute {
        Ordering::Greater
    } else {
        match (x.prefix, y.prefix) {
            (Some(p), Some(q)) => match prefix_order(p, q) {
                Ordering::Equal => components_order(
                    collation,
                    case_insensitive,
                    x.components,
                    y.components,
                ),
                o => o,
            },
            (Some(_), None) => Ordering::Less,
            (None, Some(_)) => Ordering::Greater,
            (None, None) => components_order(
                collation,
                case_insensitive,
                x.components,
                y.components,
            ),
        }
    }
}

/// Which of two characters has the smaller code point.
fn char_order(c1: char, c2: char) -> (o: Ordering)
    ensures
        o == lex_order(seq![c1], seq![c2]),
{
    assert(seq![c1].drop_first() =~= Seq::<char>::empty());
    assert(seq![c2].drop_first() =~= Seq::<char>::empty());
    reveal_with_fuel(lex_order, 2);
    if c1 < c2 {
        Ordering::Less
    } else if c1 > c2 {
        Ordering::Greater
    } else {
        Ordering::Equal
    }
}

/// The order of two names, and where they are equal, of two further names.
fn names_order(first1: &str, first2: &str, second1: &str, second2: &str) -> (o: Ordering)
    ensures
        o == (match lex_order(first1@, first2@) {
            Ordering::Equal => lex_order(second1@, second2@),
            o => o,
        }),
{
    match str_order(first1, first2) {
        Ordering::Equal => str_order(second1, second2),
        o => o,
    }
}

/// Compares two prefixes.
pub fn compare_prefixes(p: &WindowsPrefix, q: &WindowsPrefix) -> (o: Ordering)
    ensures
        o == prefix_order(p@, q@),
{
    let rank_p: u8 = match p {
        WindowsPrefix::Verbatim(_) => 0,
        WindowsPrefix::VerbatimUnc(_, _) => 1,
        WindowsPrefix::VerbatimDisk(_) => 2,
        WindowsPrefix::DeviceNs(_) => 3,
        WindowsPrefix::Unc(_, _) => 4,
        WindowsPrefix::Disk(_) => 5,
    };
    let rank_q: u8 = match q {
        WindowsPrefix::Verbatim(_) => 0,
        WindowsPrefix::VerbatimUnc(_, _) => 1,
        WindowsPrefix::VerbatimDisk(_) => 2,
        WindowsPrefix::DeviceNs(_) => 3,
        WindowsPrefix::Unc(_, _) => 4,
        WindowsPrefix::Disk(_) => 5,
    };
    if rank_p < rank_q {
        return Ordering::Less;
    }
    if rank_p > rank_q {
        return Ordering::Greater;
    }
    proof {
        reveal_strlit("");
        assert(""@ =~= Seq::<char>::empty());
        assert(lex_order(Seq::<char>::empty(), Seq::<char>::empty()) == Ordering::Equal);
    }
    match (p, q) {
        (WindowsPrefix::Verbatim(x1), WindowsPrefix::Verbatim(x2)) => names_order(
            x1.as_str(),
            x2.as_str(),
            "",
            "",
        ),
        (WindowsPrefix::DeviceNs(x1), WindowsPrefix::DeviceNs(x2)) => names_order(
            x1.as_str(),
            x2.as_str(),
            "",
            "",
        ),
        (WindowsPrefix::VerbatimUnc(x1, y1), WindowsPrefix::VerbatimUnc(x2, y2)) => names_order(
            x1.as_str(),
            x2.as_str(),
            y1.as_str(),
            y2.as_str(),
        ),
        (WindowsPrefix::Unc(x1, y1), WindowsPrefix::Unc(x2, y2)) => names_order(
            x1.as_str(),
            x2.as_str(),
            y1.as_str(),
            y2.as_str(),
        ),
        (WindowsPrefix::VerbatimDisk(c1), WindowsPrefix::VerbatimDisk(c2)) => char_order(
            *c1,
            *c2,
        ),
        (WindowsPrefix::Disk(c1), WindowsPrefix::Disk(c2)) => char_order(*c1, *c2),
        _ => Ordering::Equal,
    }
}

/// Orders lines that each hold one path.
pub struct PathComparer {
    pub collator: Option<LocaleCollator>,
    pub case_insensitive: bool,
    pub path_type: PathType,
}

impl PathComparer {
    /// A comparer of paths read by the conventions of `path_type`, which orders
    /// their components as text with these settings.
    pub fn new(collator: Option<LocaleCollator>, case_insensitive: bool, path_type: PathType) -> (r:
        Self)
        ensures
            r.collator == collator,
            r.case_insensitive == case_insensitive,
            r.path_type == path_type,
    {
        Self { collator, case_insensitive, path_type }
    }

    /// A line taken apart by the conventions of this comparer.
    pub open spec fn parsed(&self, line: Seq<char>) -> ParsedPath {
        match self.path_type {
            PathType::Unix => unix_path(line),
            PathType::Windows => windows_path(line),
        }
    }

    /// The order of two lines under this comparer.
    pub open spec fn order(&self, a: Seq<char>, b: Seq<char>) -> Ordering {
        path_order(
            collation_of(self.collator),
            self.case_insensitive,
            self.parsed(a),
            self.parsed(b),
        )
    }

    /// Compares two lines. This never fails.
    pub fn cmp(&self, str1: &str, str2: &str) -> (r: Result<Ordering, Error>)
        ensures
            r == Ok::<Ordering, Error>(self.order(str1@, str2@)),
    {
        match self.path_type {
            PathType::Unix => self.cmp_unix(str1, str2),
            PathType::Windows => self.cmp_windows(str1, str2),
        }
    }

    /// Compares two lines as Unix paths.
    pub fn cmp_unix(&self, str1: &str, str2: &str) -> (r: Result<Ordering, Error>)
        ensures
            r == Ok::<Ordering, Error>(
                path_order(
                    collation_of(self.collator),
                    self.case_insensitive,
                    unix_path(str1@),
                    unix_path(str2@),
                ),
            ),
    {
        if let Some(o) = Self::cmp_absolute(
            unix_path_is_absolute(str1),
            unix_path_is_absolute(str2),
        ) {
            return Ok(o);
        }
        let elems1 = unix_path_components(str1);
        let elems2 = unix_path_components(str2);
        Ok(self.cmp_components(&elems1, &elems2))
    }

    /// Compares two lines as Windows paths. A path with a prefix always
    /// comes before a path without one.
    pub fn cmp_windows(&self, str1: &str, str2: &str) -> (r: Result<Ordering, Error>)
        ensures
            r == Ok::<Ordering, Error>(
                path_order(
                    collation_of(self.collator),
                    self.case_insensitive,
                    windows_path(str1@),
                    windows_path(str2@),
                ),
            ),
            windows_prefix(str1@) is Some && windows_prefix(str2@) is None ==> r == Ok::<
                Ordering,
                Error,
            >(Ordering::Less),
            windows_prefix(str1@) is None && windows_prefix(str2@) is Some ==> r == Ok::<
                Ordering,
                Error,
            >(Ordering::Greater),
    {
        if let Some(o) = Self::cmp_absolute(
            windows_path_is_absolute(str1),
            windows_path_is_absolute(str2),
        ) {
            return Ok(o);
        }
        match (windows_path_prefix(str1), windows_path_prefix(str2)) {
            (Some(pre1), Some(pre2)) => {
                match compare_prefixes(&pre1, &pre2) {
                    Ordering::Equal => {},
                    o => { return Ok(o); },
                }
            },
            (Some(_), None) => { return Ok(Ordering::Less); },
            (None, Some(_)) => { return Ok(Ordering::Greater); },
            (None, None) => {},
        }
        let elems1 = windows_path_components(str1);
        let elems2 = windows_path_components(str2);
        Ok(self.cmp_components(&elems1, &elems2))
    }

    /// Decides between an absolute and a relative path: the absolute one comes
    /// first. Two paths of one sort are left undecided.
    pub fn cmp_absolute(path1_is_abs: bool, path2_is_abs: bool) -> (r: Option<Ordering>)
        ensures
            r == (if path1_is_abs && !path2_is_abs {
                Some(Ordering::Less)
            } else if !path1_is_abs && path2_is_abs {
                Some(Ordering::Greater)
            } else {
                None
            }),
    {
        match (path1_is_abs, path2_is_abs) {
            (true, false) => Some(Ordering::Less),
            (false, true) => Some(Ordering::Greater),
            _ => None,
        }
    }

    /// Compares two paths by their components: the path with fewer comes
    /// first, and of two with equally many, the first pair of components
    /// that differs as text decides.
    pub fn cmp_components(&self, elems1: &Vec<String>, elems2: &Vec<String>) -> (o: Ordering)
        ensures
            o == components_order(
                collation_of(self.collator),
                self.case_insensitive,
                strings(elems1@),
                strings(elems2@),
            ),
    {
        if elems1.len() < elems2.len() {
            return Ordering::Less;
        }
        if elems1.len() > elems2.len() {
            return Ordering::Greater;
        }
        let ghost x = strings(elems1@);
        let ghost y = strings(elems2@);
        let ghost collation = collation_of(self.collator);
        let mut i: usize = 0;
        while i < elems1.len()
            invariant
                i <= elems1.len(),
                elems1.len() == elems2.len(),
                x == strings(elems1@),
                y == strings(elems2@),
                collation == collation_of(self.collator),
                pairwise_order(collation, self.case_insensitive, x, y, 0) == pairwise_order(
                    collation,
                    self.case_insensitive,
                    x,
                    y,
                    idx(i),
                ),
            decreases elems1.len() - i,
        {
            let ord = compare_two_strings(
                self.collator.as_ref(),
                self.case_insensitive,
                elems1[i].as_str(),
                elems2[i].as_str(),
            );
            match ord {
                Ordering::Equal => {},
                o => { return o; },
            }
            i += 1;
        }
        Ordering::Equal
    }
}

} // verus!
