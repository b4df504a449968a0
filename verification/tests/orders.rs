use omegasort::collation::collator_for_locale;
use omegasort::comparer::Comparer;
use omegasort::datetime::{DatetimeTextComparer, Instant};
use omegasort::error::Error;
use omegasort::ip::{parse_ip_address, IpAddress};
use omegasort::ip_order::{compare_two_ip_addresses, IpComparer};
use omegasort::network::{Network, NetworkComparer};
use omegasort::numbered::NumberedTextComparer;
use omegasort::path::{compare_prefixes, PathComparer, PathType, WindowsPrefix};
use omegasort::text::{compare_two_strings, TextComparer};
use std::cmp::Ordering;

fn numbered(case_insensitive: bool) -> NumberedTextComparer {
    NumberedTextComparer::new(None, case_insensitive)
}

#[test]
fn text_is_ordered_by_code_points() {
    let tc = TextComparer::new(None, false);
    assert_eq!(tc.cmp("", ""), Ok(Ordering::Equal));
    assert_eq!(tc.cmp("", "a"), Ok(Ordering::Less));
    assert_eq!(tc.cmp("a", ""), Ok(Ordering::Greater));
    assert_eq!(tc.cmp("And", "above"), Ok(Ordering::Less));
    assert_eq!(tc.cmp("abc", "abd"), Ok(Ordering::Less));
    assert_eq!(tc.cmp("abc", "ab"), Ok(Ordering::Greater));
    assert_eq!(tc.cmp("z", "ö"), Ok(Ordering::Less));
    assert_eq!(tc.cmp("\u{ffff}", "\u{10000}"), Ok(Ordering::Less));
}

#[test]
fn text_without_case_is_ordered_by_lower_case() {
    let tc = TextComparer::new(None, true);
    assert_eq!(tc.cmp("And", "above"), Ok(Ordering::Greater));
    assert_eq!(tc.cmp("AND", "and"), Ok(Ordering::Equal));
    assert_eq!(tc.cmp("ÖL", "öl"), Ok(Ordering::Equal));
    assert_eq!(
        compare_two_strings(None, true, "Zebra", "apple"),
        Ordering::Greater
    );
    assert_eq!(
        compare_two_strings(None, false, "Zebra", "apple"),
        Ordering::Less
    );
}

#[test]
fn collator_decides_where_there_is_one() {
    let swedish = collator_for_locale("sv-SE", false).unwrap();
    let german = collator_for_locale("de-DE", false).unwrap();
    assert_eq!(swedish.compare("zoo", "öoo"), Ordering::Less);
    assert_eq!(german.compare("zoo", "öoo"), Ordering::Greater);
    assert_eq!(
        compare_two_strings(Some(&swedish), false, "zoo", "öoo"),
        Ordering::Less
    );
    let plain = collator_for_locale("en-US", false).unwrap();
    let no_case = collator_for_locale("en-US", true).unwrap();
    assert_ne!(plain.compare("and", "And"), Ordering::Equal);
    assert_eq!(no_case.compare("and", "And"), Ordering::Equal);
}

#[test]
fn malformed_locale_is_refused() {
    assert_eq!(
        collator_for_locale("not a locale", false).err(),
        Some(Error::InvalidLocale("not a locale".to_string()))
    );
    assert_eq!(
        collator_for_locale("", true).err(),
        Some(Error::InvalidLocale("".to_string()))
    );
    assert!(collator_for_locale("en", false).is_ok());
}

#[test]
fn comparison_never_fails_without_a_prefix() {
    let comparers = [
        Comparer::Text(TextComparer::new(None, false)),
        Comparer::NumberedText(NumberedTextComparer::new(None, false)),
        Comparer::DatetimeText(DatetimeTextComparer::new(None, false)),
        Comparer::Path(PathComparer::new(None, false, PathType::Unix)),
        Comparer::Path(PathComparer::new(None, false, PathType::Windows)),
    ];
    for c in comparers {
        assert_eq!(c.cmp("", ""), Ok(Ordering::Equal));
        assert!(c.cmp("", "x").is_ok());
        assert!(c.cmp("x", "").is_ok());
        assert!(c.cmp("no prefix", "none here").is_ok());
    }
    for c in [
        Comparer::Text(TextComparer::new(None, false)),
        Comparer::NumberedText(NumberedTextComparer::new(None, false)),
        Comparer::DatetimeText(DatetimeTextComparer::new(None, false)),
    ] {
        assert_eq!(c.cmp("aloe", "love"), Ok(Ordering::Less));
        assert_eq!(c.cmp("love", "aloe"), Ok(Ordering::Greater));
        assert_eq!(c.cmp("Love", "aloe"), Ok(Ordering::Less));
    }
}

#[test]
fn numbers_are_compared_by_value() {
    let ntc = numbered(false);
    assert_eq!(ntc.cmp("5", "15"), Ok(Ordering::Less));
    assert_eq!(ntc.cmp("10.1 - x", "27.2314 - bar"), Ok(Ordering::Less));
    assert_eq!(ntc.cmp("27.2314 - bar", "10.1 - x"), Ok(Ordering::Greater));
    assert_eq!(ntc.cmp("1.5", "1.25"), Ok(Ordering::Greater));
    assert_eq!(ntc.cmp("0.5", "0.25"), Ok(Ordering::Greater));
    assert_eq!(ntc.cmp("2", "1.99"), Ok(Ordering::Greater));
    assert_eq!(ntc.cmp("007 b", "8 a"), Ok(Ordering::Less));
    assert_eq!(ntc.cmp("120001 go", "15 - above"), Ok(Ordering::Greater));
    assert_eq!(
        ntc.cmp("100000000000000000000 a", "99999999999999999999 b"),
        Ok(Ordering::Greater)
    );
}

#[test]
fn numbers_written_differently_can_be_equal() {
    let ntc = numbered(false);
    assert_eq!(ntc.cmp("1.0 b", "1.00 a"), Ok(Ordering::Equal));
    assert_eq!(ntc.cmp("01 b", "1 a"), Ok(Ordering::Equal));
    assert_eq!(ntc.cmp("7 z", "7.0 a"), Ok(Ordering::Equal));
    assert_eq!(ntc.cmp("0", "000.000"), Ok(Ordering::Equal));
}

#[test]
fn same_number_falls_back_to_the_rest() {
    assert_eq!(
        numbered(false).cmp("5. act", "5. And"),
        Ok(Ordering::Greater)
    );
    assert_eq!(numbered(true).cmp("5. act", "5. And"), Ok(Ordering::Less));
    assert_eq!(numbered(false).cmp("5. act", "5. act"), Ok(Ordering::Equal));
    assert_eq!(numbered(false).cmp("5.5x", "5.5y"), Ok(Ordering::Less));
}

#[test]
fn a_point_needs_digits_on_both_sides() {
    let ntc = numbered(false);
    // The number of "5. x" is 5, and its rest ". x".
    assert_eq!(ntc.cmp("5. x", "5.x"), Ok(Ordering::Less));
    // ".5" begins with no number.
    assert_eq!(ntc.cmp(".5", "9"), Ok(Ordering::Greater));
    assert_eq!(ntc.cmp("5.", "5.0"), Ok(Ordering::Equal));
    assert_eq!(ntc.cmp("1.2.3", "1.2.4"), Ok(Ordering::Less));
}

#[test]
fn line_with_number_sorts_before_line_without() {
    let ntc = numbered(false);
    assert_eq!(ntc.cmp("27. bar", "aloe"), Ok(Ordering::Less));
    assert_eq!(ntc.cmp("aloe", "27. bar"), Ok(Ordering::Greater));
    assert_eq!(ntc.cmp("9", ""), Ok(Ordering::Less));
    assert_eq!(ntc.cmp("!", "0"), Ok(Ordering::Greater));
    assert_eq!(ntc.cmp("-1", "1"), Ok(Ordering::Greater));
}

#[test]
fn dates_are_compared_by_time() {
    let dtc = DatetimeTextComparer::new(None, false);
    assert_eq!(
        dtc.cmp("1991-01-02", "2017-1-12T01:00:37"),
        Ok(Ordering::Less)
    );
    assert_eq!(
        dtc.cmp("2017-1-12T01:00:37", "2017-1-12T14:01:01"),
        Ok(Ordering::Less)
    );
    assert_eq!(
        dtc.cmp("2021-05-01T01:17:02Z", "2021-05-01T01:17:01Z"),
        Ok(Ordering::Greater)
    );
    assert_eq!(
        dtc.cmp("2021-05-01T01:17:02.5Z", "2021-05-01T01:17:02.25Z"),
        Ok(Ordering::Greater)
    );
    assert_eq!(
        dtc.cmp("2021-05-01T01:17:02Z", "2021-05-01T03:17:02+02:00"),
        Ok(Ordering::Equal)
    );
    assert_eq!(dtc.cmp("1511648546", "1511648547"), Ok(Ordering::Less));
}

#[test]
fn date_sorts_before_other_lines() {
    let dtc = DatetimeTextComparer::new(None, false);
    assert_eq!(dtc.cmp("2021-05-01T01:17:02Z", "0"), Ok(Ordering::Less));
    assert_eq!(dtc.cmp("no dt", "2021-05-01T01:17:02Z"), Ok(Ordering::Greater));
    assert_eq!(
        dtc.cmp("2021-05-01T01:17:02Z  ", "1999 and more"),
        Ok(Ordering::Less)
    );
    // The word at the start is the date, whatever follows it.
    assert_eq!(dtc.cmp("1991-01-02 x", "#x"), Ok(Ordering::Less));
    assert_eq!(dtc.cmp("#x", "1991-01-02 x"), Ok(Ordering::Greater));
    assert_eq!(dtc.cmp("1991-01-02 x", "0 is no date"), Ok(Ordering::Less));
    assert_eq!(
        dtc.cmp("2021-05-01T01:17:02Z a", "2021-05-01T01:17:01Z z"),
        Ok(Ordering::Greater)
    );
    assert_eq!(
        dtc.cmp("2021-05-01T01:17:02Z z", "2021-05-01T03:17:02+02:00 a"),
        Ok(Ordering::Equal)
    );
    assert!(DatetimeTextComparer::datetime_from_str("2014-05-07 foo").is_some());
    assert_eq!(DatetimeTextComparer::datetime_from_str("2017-1-12 hello"), None);
    assert_eq!(DatetimeTextComparer::datetime_from_str("7"), None);
    assert_eq!(DatetimeTextComparer::datetime_from_str("7 2014-05-07"), None);
    assert_eq!(DatetimeTextComparer::datetime_from_str(" 2014-05-07"), None);
    assert_eq!(DatetimeTextComparer::datetime_from_str("x2014-05-07"), None);
    assert_eq!(
        DatetimeTextComparer::datetime_from_str("2021-05-01T01:17:02Z"),
        Some(Instant {
            seconds: 1619831822,
            nanos: 0
        })
    );
    assert_eq!(
        DatetimeTextComparer::datetime_from_str("2021-05-01T01:17:02Z tail of the line"),
        Some(Instant {
            seconds: 1619831822,
            nanos: 0
        })
    );
    assert_eq!(
        DatetimeTextComparer::datetime_from_str("2021-05-01T01:17:02.604456Z \t"),
        Some(Instant {
            seconds: 1619831822,
            nanos: 604456000
        })
    );
}

#[test]
fn offsets_of_a_day_or_more_name_no_date() {
    for word in [
        "2020-07-20+24:00",
        "2020-07-20+9900",
        "2020-07-20-24:00",
        "2020-07-20+2400",
        "2020-07-20-99:59",
        "2020-07-20+24",
        "2020-07-20+24:00:00",
    ] {
        assert_eq!(DatetimeTextComparer::datetime_from_str(word), None, "{word}");
        let line = format!("{word} and more");
        assert_eq!(DatetimeTextComparer::datetime_from_str(&line), None, "{line}");
    }
    let dtc = DatetimeTextComparer::new(None, false);
    assert_eq!(
        dtc.cmp("2020-07-20+24:00", "2020-07-20+24:01"),
        Ok(Ordering::Less)
    );
    assert_eq!(
        dtc.cmp("2020-07-20+24:00", "2021-05-01T01:17:02Z"),
        Ok(Ordering::Greater)
    );
    // Offsets of less than a day are read.
    assert_eq!(
        DatetimeTextComparer::datetime_from_str("2020-07-20T00:00:00+08:00"),
        Some(Instant {
            seconds: 1595174400,
            nanos: 0
        })
    );
    assert!(DatetimeTextComparer::datetime_from_str("2020-07-20+08:00").is_some());
    assert!(DatetimeTextComparer::datetime_from_str("2020-07-20+23:59").is_some());
    assert!(DatetimeTextComparer::datetime_from_str("2020-07-20-2359").is_some());
    assert_eq!(
        dtc.cmp("2020-07-20+08:00 x", "2020-07-21+08:00 a"),
        Ok(Ordering::Less)
    );
}

#[test]
fn readings_decide_over_text() {
    let dtc = DatetimeTextComparer::new(None, false);
    let early = Some(Instant {
        seconds: 5,
        nanos: 999,
    });
    let late = Some(Instant {
        seconds: 6,
        nanos: 0,
    });
    let later = Some(Instant {
        seconds: 6,
        nanos: 1,
    });
    assert_eq!(dtc.cmp_parsed("z", "a", early, late), Ordering::Less);
    assert_eq!(dtc.cmp_parsed("a", "z", later, late), Ordering::Greater);
    assert_eq!(dtc.cmp_parsed("a", "z", late, late), Ordering::Equal);
    assert_eq!(dtc.cmp_parsed("z", "a", early, None), Ordering::Less);
    assert_eq!(dtc.cmp_parsed("a", "z", None, early), Ordering::Greater);
    assert_eq!(dtc.cmp_parsed("a", "z", None, None), Ordering::Less);
    let negative = Some(Instant {
        seconds: -1,
        nanos: 5,
    });
    assert_eq!(dtc.cmp_parsed("a", "z", negative, early), Ordering::Less);
}

#[test]
fn depth_comes_before_content() {
    let pc = PathComparer::new(None, false, PathType::Unix);
    assert_eq!(pc.cmp("/bbb", "/zzz"), Ok(Ordering::Less));
    assert_eq!(pc.cmp("/zzz", "/xxx/a"), Ok(Ordering::Less));
    assert_eq!(pc.cmp("/xxx/a", "/aaaaaa/q/r"), Ok(Ordering::Less));
    assert_eq!(pc.cmp("/z", "/a/a"), Ok(Ordering::Less));
    assert_eq!(pc.cmp("/a/a", "/z"), Ok(Ordering::Greater));
    assert_eq!(pc.cmp("", "a"), Ok(Ordering::Less));
    assert_eq!(pc.cmp("/", "/a"), Ok(Ordering::Less));
    assert_eq!(pc.cmp("a/b", "a//b/"), Ok(Ordering::Equal));
    assert_eq!(pc.cmp("a/./b", "a/b"), Ok(Ordering::Equal));
    assert_eq!(pc.cmp("a/../b", "a/b"), Ok(Ordering::Greater));
}

#[test]
fn absolute_paths_come_first() {
    let pc = PathComparer::new(None, false, PathType::Unix);
    assert_eq!(pc.cmp("/zzz/zzz/zzz", "a"), Ok(Ordering::Less));
    assert_eq!(pc.cmp("a", "/zzz/zzz/zzz"), Ok(Ordering::Greater));
    assert_eq!(
        PathComparer::cmp_absolute(true, false),
        Some(Ordering::Less)
    );
    assert_eq!(
        PathComparer::cmp_absolute(false, true),
        Some(Ordering::Greater)
    );
    assert_eq!(PathComparer::cmp_absolute(true, true), None);
    assert_eq!(PathComparer::cmp_absolute(false, false), None);
    let windows = PathComparer::new(None, false, PathType::Windows);
    assert_eq!(windows.cmp(r"C:\z\z", r"C:a"), Ok(Ordering::Less));
    assert_eq!(windows.cmp(r"D:\a", r"C:a"), Ok(Ordering::Less));
    assert_eq!(windows.cmp(r"\\server\share\x", r"C:a"), Ok(Ordering::Less));
}

#[test]
fn windows_prefix_comes_first() {
    let pc = PathComparer::new(None, false, PathType::Windows);
    assert_eq!(pc.cmp(r"E:\a", r"\b"), Ok(Ordering::Less));
    assert_eq!(pc.cmp(r"\b", r"E:\a"), Ok(Ordering::Greater));
    assert_eq!(pc.cmp(r"C:z\z\z", r"a"), Ok(Ordering::Less));
    assert_eq!(pc.cmp(r"C:z", r"\a"), Ok(Ordering::Less));
    assert_eq!(pc.cmp(r"B:\x", r"C:\bar"), Ok(Ordering::Less));
    assert_eq!(pc.cmp(r"C:\a\b\c", r"E:\a"), Ok(Ordering::Less));
    assert_eq!(pc.cmp(r"C:\foo", r"C:\bar"), Ok(Ordering::Greater));
    assert_eq!(pc.cmp(r"C:\a\b", r"C:\foo"), Ok(Ordering::Greater));
    assert_eq!(pc.cmp(r"\\a\b\x", r"C:\x"), Ok(Ordering::Less));
    assert_eq!(pc.cmp(r"\\?\C:\x", r"\\a\b\x"), Ok(Ordering::Less));
    // Unix paths know no prefix.
    let unix = PathComparer::new(None, false, PathType::Unix);
    assert_eq!(unix.cmp(r"E:\a", r"B:\b"), Ok(Ordering::Greater));
}

#[test]
fn prefixes_are_ordered_by_kind_then_name() {
    let disk = |c| WindowsPrefix::Disk(c);
    let unc = |a: &str, b: &str| WindowsPrefix::Unc(a.to_string(), b.to_string());
    assert_eq!(compare_prefixes(&disk('C'), &disk('D')), Ordering::Less);
    assert_eq!(compare_prefixes(&disk('c'), &disk('D')), Ordering::Greater);
    assert_eq!(compare_prefixes(&disk('C'), &disk('C')), Ordering::Equal);
    assert_eq!(
        compare_prefixes(&unc("a", "z"), &unc("b", "a")),
        Ordering::Less
    );
    assert_eq!(
        compare_prefixes(&unc("a", "z"), &unc("a", "y")),
        Ordering::Greater
    );
    assert_eq!(compare_prefixes(&unc("z", "z"), &disk('A')), Ordering::Less);
    assert_eq!(
        compare_prefixes(&WindowsPrefix::Verbatim("z".to_string()), &unc("a", "a")),
        Ordering::Less
    );
    assert_eq!(
        compare_prefixes(
            &WindowsPrefix::VerbatimDisk('Z'),
            &WindowsPrefix::DeviceNs("a".to_string())
        ),
        Ordering::Less
    );
    assert_eq!(
        compare_prefixes(
            &WindowsPrefix::VerbatimUnc("a".to_string(), "b".to_string()),
            &WindowsPrefix::VerbatimDisk('A')
        ),
        Ordering::Less
    );
}

#[test]
fn ipv4_sorts_before_ipv6() {
    let ic = IpComparer::new();
    assert_eq!(ic.cmp("255.255.255.255", "::"), Ok(Ordering::Less));
    assert_eq!(ic.cmp("::", "255.255.255.255"), Ok(Ordering::Greater));
    assert_eq!(ic.cmp("0.1.255.255", "1.1.1.1"), Ok(Ordering::Less));
    assert_eq!(ic.cmp("1.1.1.1", "1.255.0.0"), Ok(Ordering::Less));
    assert_eq!(ic.cmp("1.255.0.0", "123.100.125.242"), Ok(Ordering::Less));
    assert_eq!(ic.cmp("9.0.0.0", "10.0.0.0"), Ok(Ordering::Less));
    assert_eq!(ic.cmp("::ffff", "::1:0"), Ok(Ordering::Less));
    assert_eq!(ic.cmp("1::", "::1"), Ok(Ordering::Greater));
    assert_eq!(ic.cmp("::1", "0:0:0:0:0:0:0:1"), Ok(Ordering::Equal));
    assert_eq!(ic.cmp("ABCD::", "abcd::"), Ok(Ordering::Equal));
    assert_eq!(
        compare_two_ip_addresses(
            IpAddress::V4([0, 0, 0, 1]),
            IpAddress::V6([0, 0, 0, 0, 0, 0, 0, 0, 0, 0, 0, 0, 0, 0, 0, 0])
        ),
        Ordering::Less
    );
}

#[test]
fn addresses_are_read_as_written() {
    assert_eq!(
        parse_ip_address("1.2.3.4"),
        Ok(IpAddress::V4([1, 2, 3, 4]))
    );
    assert_eq!(
        parse_ip_address("255.0.10.99"),
        Ok(IpAddress::V4([255, 0, 10, 99]))
    );
    assert_eq!(
        parse_ip_address("9876::fe01:1234:457f"),
        Ok(IpAddress::V6([
            0x98, 0x76, 0, 0, 0, 0, 0, 0, 0, 0, 0xfe, 0x01, 0x12, 0x34, 0x45, 0x7f
        ]))
    );
    assert_eq!(
        parse_ip_address("1:2:3:4:5:6:7:8"),
        Ok(IpAddress::V6([0, 1, 0, 2, 0, 3, 0, 4, 0, 5, 0, 6, 0, 7, 0, 8]))
    );
    assert_eq!(
        parse_ip_address("1:2:3:4:5:6:7::"),
        Ok(IpAddress::V6([0, 1, 0, 2, 0, 3, 0, 4, 0, 5, 0, 6, 0, 7, 0, 0]))
    );
    assert_eq!(
        parse_ip_address("::2:3:4:5:6:7:8"),
        Ok(IpAddress::V6([0, 0, 0, 2, 0, 3, 0, 4, 0, 5, 0, 6, 0, 7, 0, 8]))
    );
    assert_eq!(parse_ip_address("::"), Ok(IpAddress::V6([0; 16])));
    assert_eq!(
        parse_ip_address("aB::Cd"),
        Ok(IpAddress::V6([0, 0xab, 0, 0, 0, 0, 0, 0, 0, 0, 0, 0, 0, 0, 0, 0xcd]))
    );
}

#[test]
fn malformed_addresses_are_refused() {
    for text in [
        "",
        "1.2.3",
        "1.2.3.4.5",
        "1.2.3.256",
        "1.2.3.04",
        "01.2.3.4",
        "1.2.3.4 ",
        " 1.2.3.4",
        "1..3.4",
        "1.2.3.",
        ".1.2.3",
        "1.2.3.1000",
        "a.b.c.d",
        "1.2.3.4/8",
        "::ffff:1.2.3.4",
        ":",
        ":::",
        "1:2:3:4:5:6:7",
        "1:2:3:4:5:6:7:8:9",
        "1:2:3:4:5:6:7:8::",
        "::1:2:3:4:5:6:7:8",
        "1::2::3",
        "12345::",
        "g::",
        "1:",
        ":1",
        "1::2:",
        "::1%eth0",
        "::1/128",
        "hello",
    ] {
        assert_eq!(
            parse_ip_address(text),
            Err(Error::InvalidAddress(text.to_string())),
            "{text}"
        );
    }
    let ic = IpComparer::new();
    assert_eq!(
        ic.cmp("1.2.3.4", "nope"),
        Err(Error::InvalidAddress("nope".to_string()))
    );
    assert_eq!(
        ic.cmp("bad", "worse"),
        Err(Error::InvalidAddress("bad".to_string()))
    );
}

#[test]
fn networks_are_ordered_by_address_then_prefix() {
    let nc = NetworkComparer::new();
    assert_eq!(nc.cmp("1.2.3.0/16", "1.2.3.0/18"), Ok(Ordering::Less));
    assert_eq!(nc.cmp("1.2.3.0/18", "1.2.3.0/16"), Ok(Ordering::Greater));
    assert_eq!(nc.cmp("1.2.3.0/18", "1.2.3.0/18"), Ok(Ordering::Equal));
    assert_eq!(nc.cmp("255.255.255.0/25", "::0/42"), Ok(Ordering::Less));
    assert_eq!(nc.cmp("::0/42", "255.255.255.0/25"), Ok(Ordering::Greater));
    assert_eq!(nc.cmp("1.2.4.0/8", "1.2.3.0/24"), Ok(Ordering::Greater));
    assert_eq!(nc.cmp("::1/128", "::0/127"), Ok(Ordering::Greater));
    assert_eq!(nc.cmp("::ffff:1.2.3.4/128", "::1/128"), Ok(Ordering::Greater));
    assert_eq!(
        NetworkComparer::parse_network("10.1.2.0/24"),
        Ok(Network {
            address: IpAddress::V4([10, 1, 2, 0]),
            prefix_len: 24
        })
    );
    assert_eq!(
        NetworkComparer::parse_network("1234::/90"),
        Ok(Network {
            address: IpAddress::V6([0x12, 0x34, 0, 0, 0, 0, 0, 0, 0, 0, 0, 0, 0, 0, 0, 0]),
            prefix_len: 90
        })
    );
    assert_eq!(
        NetworkComparer::compare_networks(
            Network {
                address: IpAddress::V4([1, 2, 3, 0]),
                prefix_len: 16
            },
            Network {
                address: IpAddress::V4([1, 2, 3, 0]),
                prefix_len: 18
            }
        ),
        Ordering::Less
    );
}

#[test]
fn malformed_networks_are_refused() {
    let nc = NetworkComparer::new();
    for text in ["", "1.2.3.4", "1.2.3.0/33", "::/129", "1.2.3.0/", "/8", "x/8"] {
        assert_eq!(
            NetworkComparer::parse_network(text),
            Err(Error::InvalidNetwork(text.to_string())),
            "{text}"
        );
    }
    assert_eq!(
        nc.cmp("1.2.3.0/24", "1.2.3.0"),
        Err(Error::InvalidNetwork("1.2.3.0".to_string()))
    );
    assert_eq!(
        nc.cmp("first", "second"),
        Err(Error::InvalidNetwork("first".to_string()))
    );
}

#[test]
fn is_ordered_is_not_the_reversed_order() {
    let c = Comparer::Text(TextComparer::new(None, false));
    assert_eq!(c.is_ordered("b", "a", false), Ok(true));
    assert_eq!(c.is_ordered("a", "b", false), Ok(false));
    assert_eq!(c.is_ordered("a", "a", false), Ok(false));
    assert_eq!(c.is_ordered("b", "a", true), Ok(false));
    assert_eq!(c.is_ordered("a", "b", true), Ok(true));
    assert_eq!(c.is_ordered("a", "a", true), Ok(true));
    let ip = Comparer::Ip(IpComparer::new());
    assert_eq!(
        ip.is_ordered("1.1.1.1", "x", false),
        Err(Error::InvalidAddress("x".to_string()))
    );
    assert_eq!(ip.cmp_or_less("x", "1.1.1.1"), Ordering::Less);
    assert_eq!(ip.cmp_or_less("2.2.2.2", "1.1.1.1"), Ordering::Greater);
    assert_eq!(ip.check_line("1.1.1.1"), Ok(()));
    assert_eq!(
        ip.check_line("1.1.1"),
        Err(Error::InvalidAddress("1.1.1".to_string()))
    );
    assert_eq!(c.check_line("anything"), Ok(()));
}

struct Rng(u64);

impl Rng {
    fn next(&mut self) -> u64 {
        self.0 ^= self.0 << 13;
        self.0 ^= self.0 >> 7;
        self.0 ^= self.0 << 17;
        self.0
    }

    fn below(&mut self, n: u64) -> u64 {
        self.next() % n
    }

    fn number(&mut self) -> String {
        let mut t = String::new();
        let few = self.below(3) == 0;
        let digits = if few { 2 } else { 10 };
        let long = self.below(3) == 0;
        let int_len = 1 + self.below(if long { 25 } else { 6 });
        for _ in 0..int_len {
            let d = self.below(digits) as u8;
            t.push((b'0' + d) as char);
        }
        if self.below(2) == 0 {
            t.push('.');
            let long = self.below(3) == 0;
            let frac_len = 1 + self.below(if long { 25 } else { 6 });
            for _ in 0..frac_len {
                let d = self.below(digits) as u8;
                t.push((b'0' + d) as char);
            }
        }
        t
    }
}

#[test]
fn numbers_are_ordered_as_their_doubles_are() {
    // Whenever the doubles nearest to two numbers differ, the numbers are
    // ordered as those doubles are.
    let mut rng = Rng(0x2545f4914f6cdd1d);
    let ntc = numbered(false);
    let mut told_apart = 0;
    for _ in 0..50000 {
        let a = rng.number();
        let b = rng.number();
        let by_doubles = a
            .parse::<f64>()
            .unwrap()
            .total_cmp(&b.parse::<f64>().unwrap());
        let got = ntc.cmp(&format!("{a} x"), &format!("{b} y")).unwrap();
        if a == b {
            assert_eq!(got, Ordering::Less, "{a} {b}");
        } else if by_doubles != Ordering::Equal {
            told_apart += 1;
            assert_eq!(got, by_doubles, "{a} {b}");
        }
    }
    assert!(told_apart > 20000);
}

#[test]
fn numbers_are_told_apart_beyond_the_reach_of_doubles() {
    let ntc = numbered(false);
    assert_eq!(
        ntc.cmp("9007199254740993", "9007199254740992"),
        Ok(Ordering::Greater)
    );
    assert_eq!(
        ntc.cmp("0.1", "0.10000000000000000001"),
        Ok(Ordering::Less)
    );
}
