use omegasort::collation::collator_for_locale;
use omegasort::datetime::DatetimeTextComparer;
use omegasort::ip_order::IpComparer;
use omegasort::network::NetworkComparer;
use omegasort::numbered::NumberedTextComparer;
use omegasort::path::{PathComparer, PathType};
use omegasort::text::TextComparer;

struct Case {
    name: &'static str,
    input: Vec<&'static str>,
    expect: Vec<&'static str>,
    case_insensitive: bool,
    locale: Option<&'static str>,
}

#[test]
fn text_comparer() {
    for mut c in cases_from(TEXT_TEST_CASES) {
        println!("# text - {}", c.name);
        let tc = TextComparer {
            collator: c
                .locale
                .map(|l| collator_for_locale(l, c.case_insensitive).unwrap()),
            case_insensitive: c.case_insensitive,
        };
        c.input.sort_by(|a, b| tc.cmp(a, b).unwrap());
        assert_eq!(c.input, c.expect);
    }
}

#[test]
fn numbered_text_comparer() {
    for mut c in cases_from(TEXT_TEST_CASES)
        .into_iter()
        .chain(cases_from(NUMBERED_TEXT_TEST_CASES))
    {
        println!("# numbered text - {}", c.name);
        let ntc = NumberedTextComparer {
            collator: c
                .locale
                .map(|l| collator_for_locale(l, c.case_insensitive).unwrap()),
            case_insensitive: c.case_insensitive,
        };
        c.input.sort_by(|a, b| ntc.cmp(a, b).unwrap());
        assert_eq!(c.input, c.expect);
    }
}

#[test]
fn datetime_text_comparer() {
    for mut c in cases_from(TEXT_TEST_CASES)
        .into_iter()
        .chain(cases_from(DATETIME_TEXT_TEST_CASES))
    {
        println!("# datetime text - {}", c.name);
        let dtc = DatetimeTextComparer {
            collator: c
                .locale
                .map(|l| collator_for_locale(l, c.case_insensitive).unwrap()),
            case_insensitive: c.case_insensitive,
        };
        c.input.sort_by(|a, b| dtc.cmp(a, b).unwrap());
        assert_eq!(c.input, c.expect);
    }
}

#[test]
fn path_comparer() {
    for mut c in cases_from(PATH_TEST_CASES) {
        println!("# path - {}", c.name);
        let pc = PathComparer {
            collator: c
                .locale
                .map(|l| collator_for_locale(l, c.case_insensitive).unwrap()),
            case_insensitive: c.case_insensitive,
            path_type: if c.name.contains("Windows") {
                PathType::Windows
            } else {
                PathType::Unix
            },
        };
        c.input.sort_by(|a, b| pc.cmp(a, b).unwrap());
        assert_eq!(c.input, c.expect);
    }
}

#[test]
fn ip_comparer() {
    for mut c in cases_from(IP_TEST_CASES) {
        println!("# ip - {}", c.name);
        let ic = IpComparer;
        c.input.sort_by(|a, b| ic.cmp(a, b).unwrap());
        assert_eq!(c.input, c.expect);
    }
}

#[test]
fn network_comparer() {
    for mut c in cases_from(NETWORK_TEST_CASES) {
        println!("# network - {}", c.name);
        let nc = NetworkComparer;
        c.input.sort_by(|a, b| nc.cmp(a, b).unwrap());
        assert_eq!(c.input, c.expect);
    }
}

fn cases_from(cases_text: &'static str) -> Vec<Case> {
    cases_text
        .split("====\n")
        .map(|case| {
            let mut elts = case.split("----\n");
            let name = elts.next().unwrap().trim();
            let input = elts.next().unwrap().trim().split('\n').collect();
            let expect = elts.next().unwrap().trim().split('\n').collect();
            let case_insensitive = match elts.next() {
                Some("false\n") | None => false,
                Some("true\n") => true,
                Some(ci) => panic!("unknown case-insensitive value: {ci}"),
            };
            let locale = elts.next().map(|l| l.trim());
            Case {
                name,
                input,
                expect,
                case_insensitive,
                locale,
            }
        })
        .collect()
}

const TEXT_TEST_CASES: &str = r#"
ASCII with no locale
----
go
bears
above
And
all
home
----
And
above
all
bears
go
home
----
false
====
ASCII with no locale, case-insensitive
----
go
bears
above
And
all
home
----
above
all
And
bears
go
home
----
true
====
ASCII with en-US locale
----
go
bears
above
And
all
home
----
above
all
And
bears
go
home
----
false
----
en-US
====
Unicode text with de-DE locale
----
zoo
foo
öoo
----
foo
öoo
zoo
----
false
----
de-DE
====
Unicode text with sv-SE locale
----
zoo
foo
öoo
----
foo
zoo
öoo
----
false
----
sv-SE
"#;

const NUMBERED_TEXT_TEST_CASES: &str = r#"
numbered ASCII with no locale
----
120001 go
0. bears
15 - above
5. And
1. all
5. act
2. home
----
0. bears
1. all
2. home
5. And
5. act
15 - above
120001 go
----
false
====
numbered ASCII with no locale, case-insensitive
----
120001 go
0. bears
15 - above
5. And
1. all
5. act
2. home
----
0. bears
1. all
2. home
5. act
5. And
15 - above
120001 go
----
true
====
numbered Unicode with de-DE locale
----
3. zoo
1. foo
2. öoo
2. zoo
----
1. foo
2. öoo
2. zoo
3. zoo
----
false
----
de-DE
====
numbered Unicode with sv-Se locale
----
3. zoo
1. foo
2. öoo
2. zoo
----
1. foo
2. zoo
2. öoo
3. zoo
----
false
----
sv-SE
====
mixed numbered and unnumbered
----
10. x
aloe
27. bar
love
1. hello
----
1. hello
10. x
27. bar
aloe
love
----
false
====
numbered text with decimal numbers
----
10.1 - x
27.2314 - bar
1.00 - hello
----
1.00 - hello
10.1 - x
27.2314 - bar
----
false
"#;

// The word that a line begins with is read as a date, whatever follows it.
// `2017-1-12` is no date to the parser, so that line comes last, with the
// undated lines. A date without a time is read with the time of day of the
// reading, so no two lines of a case hold the same date.
const DATETIME_TEXT_TEST_CASES: &str = r#"
datetime ASCII text with no locale
----
2017-1-12 hello
2014-05-07 foo
2018-12-30 bar
2014-05-06 FUN
----
2014-05-06 FUN
2014-05-07 foo
2018-12-30 bar
2017-1-12 hello
----
false
====
datetime ASCII text with no locale, case-insensitive
----
2017-1-12 hello
2014-05-07 foo
2018-12-30 bar
2014-05-06 FUN
----
2014-05-06 FUN
2014-05-07 foo
2018-12-30 bar
2017-1-12 hello
----
true
====
datetime ASCII text with de-DE locale
----
2017-1-12 hello
2014-05-07 zoo
2018-12-30 bar
2014-05-06 öoo
----
2014-05-06 öoo
2014-05-07 zoo
2018-12-30 bar
2017-1-12 hello
----
false
----
de-DE
====
datetime ASCII text with sv-SE locale
----
2017-1-12 hello
2014-05-07 zoo
2018-12-30 bar
2014-05-06 öoo
----
2014-05-06 öoo
2014-05-07 zoo
2018-12-30 bar
2017-1-12 hello
----
false
----
sv-SE
====
mixed datetime and non-datetime
----
2017-1-12 hello
no dt
also none
1973-01-01 and
----
1973-01-01 and
2017-1-12 hello
also none
no dt
----
false
====
datetime and dates
----
2017-1-12T01:00:37
1991-01-02
2017-1-12T14:01:01
----
1991-01-02
2017-1-12T01:00:37
2017-1-12T14:01:01
----
false
"#;

const PATH_TEST_CASES: &str = r#"
path with ASCII text
----
/foo
/bar
baz/quux
a/q
C:\
/X
/A
----
/A
/X
/bar
/foo
C:\
a/q
baz/quux
----
false
====
path with ASCII text, case-insensitive
----
/foo
/bar
baz/quux
a/q
C:\
/X
/A
----
/A
/bar
/foo
/X
C:\
a/q
baz/quux
----
true
====
path with ASCII text, depth sorts before path content
----
/zzz
/bbb
/xxx/a
/aaaaaa/q/r
----
/bbb
/zzz
/xxx/a
/aaaaaa/q/r
----
false
====
Windows ASCII path
----
C:\foo
\a\b
\b
C:\bar
E:\a
B:\x
C:\a\b\c
C:\a\b
----
B:\x
C:\bar
C:\foo
C:\a\b
C:\a\b\c
E:\a
\b
\a\b
----
false
====
Unix Unicode path with de-DE locale
----
/foo
/bar
baz/quux
/zoo
a/q
/öoo
C:\\
/X
/A
----
/A
/bar
/foo
/öoo
/X
/zoo
C:\\
a/q
baz/quux
----
false
----
de-DE
====
Unix Unicode path with sv-SE locale
----
/foo
/bar
baz/quux
/zoo
a/q
/öoo
C:\\
/X
/A
----
/A
/bar
/foo
/X
/zoo
/öoo
C:\\
a/q
baz/quux
----
false
----
sv-SE
"#;

const IP_TEST_CASES: &str = r#"
ip with just IPv4
----
1.1.1.1
0.1.255.255
123.100.125.242
1.255.0.0
----
0.1.255.255
1.1.1.1
1.255.0.0
123.100.125.242
====
ip with just IPv6
----
::1
::0
9876::fe01:1234:457f
1234::
----
::0
::1
1234::
9876::fe01:1234:457f
====
ip with mixed IPv4 and IPv6
----
::1
::0
255.255.255.255
::1234
9876::fe01:1234:457f
1.2.3.4
1234::
----
1.2.3.4
255.255.255.255
::0
::1
::1234
1234::
9876::fe01:1234:457f
"#;

const NETWORK_TEST_CASES: &str = r#"
network with just IPv4
----
1.1.1.1/32
0.1.255.0/24
123.100.125.0/25
1.255.0.0/17
1.255.0.0/16
----
0.1.255.0/24
1.1.1.1/32
1.255.0.0/16
1.255.0.0/17
123.100.125.0/25
====
network with just IPv6
----
::1/128
::0/127
::0/42
9876::fe01:1234:0/24
1234::/90
----
::0/42
::0/127
::1/128
1234::/90
9876::fe01:1234:0/24
====
network with mixed IPv4 and IPv6
----
::1/128
::0/127
1.2.3.0/18
::0/42
1.2.3.0/16
9876::fe01:1234:0/24
255.255.255.0/25
1234::/90
----
1.2.3.0/16
1.2.3.0/18
255.255.255.0/25
::0/42
::0/127
::1/128
1234::/90
9876::fe01:1234:0/24
"#;

