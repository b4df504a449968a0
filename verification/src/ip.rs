//! IP addresses: how they are written, and their order.

use vstd::prelude::*;

use crate::chars::{chars_of, code_point};
use crate::error::Error;
use crate::numbered::{count_digits, digit_run, digits_value, is_digit, lemma_digit_run};

verus! {

/// An IPv4 or IPv6 address, by its octets from the most significant on.
#[derive(Clone, Copy, Debug, PartialEq, Eq)]
pub enum IpAddress {
    V4([u8; 4]),
    V6([u8; 16]),
}

/// An address as the order sees it: its family, and sixteen octets. An IPv4
/// address fills the last four of them, behind twelve zeros.
pub struct IpView {
    pub v6: bool,
    pub octets: Seq<u8>,
}

/// Twelve zero octets followed by the four of an IPv4 address.
pub open spec fn widened(octets: Seq<u8>) -> Seq<u8> {
    Seq::new(12, |i: int| 0u8) + octets
}

impl View for IpAddress {
    type V = IpView;

    open spec fn view(&self) -> IpView {
        match *self {
            IpAddress::V4(a) => IpView { v6: false, octets: widened(a@) },
            IpAddress::V6(a) => IpView { v6: true, octets: a@ },
        }
    }
}

/// The value and the end of the decimal number at position `from` of an IPv4
/// address: one to three digits, no zero in front of another digit, at most
/// 255.
pub open spec fn octet_at(s: Seq<char>, from: int) -> Option<(int, int)> {
    let n = digit_run(s, from);
    let value = digits_value(s.subrange(from, from + n));
    if n < 1 || n > 3 || (n > 1 && s[from] == '0') || value > 255 {
        None
    } else {
        Some((value as int, from + n))
    }
}

/// The value and the end of the number behind the dot at position `from`.
pub open spec fn dotted_octet_at(s: Seq<char>, from: int) -> Option<(int, int)> {
    if 0 <= from < s.len() && s[from] == '.' {
        octet_at(s, from + 1)
    } else {
        None
    }
}

/// The four octets that `s` denotes as an IPv4 address in dotted decimal
/// form, if it is one.
pub open spec fn ipv4_literal(s: Seq<char>) -> Option<Seq<u8>> {
    match octet_at(s, 0) {
        Some((a, end_a)) => match dotted_octet_at(s, end_a) {
            Some((b, end_b)) => match dotted_octet_at(s, end_b) {
                Some((c, end_c)) => match dotted_octet_at(s, end_c) {
                    Some((d, end_d)) => if end_d == s.len() {
                        Some(seq![a as u8, b as u8, c as u8, d as u8])
                    } else {
                        None
                    },
                    None => None,
                },
                None => None,
            },
            None => None,
        },
        None => None,
    }
}

/// Whether `c` is a hexadecimal digit, in either case.
pub open spec fn is_hex_digit(c: char) -> bool {
    let p = code_point(c);
    is_digit(c) || 97 <= p <= 102 || 65 <= p <= 70
}

/// The number that the hexadecimal digit `c` stands for.
pub open spec fn hex_digit_of(c: char) -> int {
    let p = code_point(c);
    if is_digit(c) {
        p - 48
    } else if 97 <= p <= 102 {
        p - 87
    } else {
        p - 55
    }
}

/// How many hexadecimal digits stand in `s` from `from` on, without a break.
pub open spec fn hex_run(s: Seq<char>, from: int) -> int
    decreases s.len() - from,
{
    if 0 <= from < s.len() && is_hex_digit(s[from]) {
        1 + hex_run(s, from + 1)
    } else {
        0
    }
}

/// The number that a sequence of hexadecimal digits denotes.
pub open spec fn hex_value(s: Seq<char>) -> int
    decreases s.len(),
{
    if s.len() == 0 {
        0
    } else {
        hex_value(s.drop_last()) * 16 + hex_digit_of(s.last())
    }
}

/// The value and the end of the group at position `from` of an IPv6 address:
/// one to four hexadecimal digits.
pub open spec fn group_at(s: Seq<char>, from: int) -> Option<(int, int)> {
    let n = hex_run(s, from);
    if 1 <= n <= 4 {
        Some((hex_value(s.subrange(from, from + n)), from + n))
    } else {
        None
    }
}

/// The groups that stand in `s` from `from` on, each but the first behind a
/// single colon, `limit` of them at most; and where they end. `first` tells
/// whether the group at `from` is the first.
pub open spec fn groups_from(s: Seq<char>, from: int, limit: nat, first: bool) -> (Seq<int>, int)
    decreases limit,
{
    if limit == 0 {
        (Seq::<int>::empty(), from)
    } else if first || (0 <= from < s.len() && s[from] == ':') {
        let start = if first {
            from
        } else {
            from + 1
        };
        match group_at(s, start) {
            Some((group, next)) => {
                let rest = groups_from(s, next, (limit - 1) as nat, false);
                (seq![group] + rest.0, rest.1)
            },
            None => (Seq::<int>::empty(), from),
        }
    } else {
        (Seq::<int>::empty(), from)
    }
}

/// The eight groups that `s` denotes as an IPv6 address, if it is one: eight
/// groups between colons, or fewer with one `::` that stands for the missing
/// ones, all zero, of which there is at least one.
pub open spec fn ipv6_groups(s: Seq<char>) -> Option<Seq<int>> {
    let head = groups_from(s, 0, 8, true);
    if head.0.len() == 8 {
        if head.1 == s.len() {
            Some(head.0)
        } else {
            None
        }
    } else if head.1 + 1 < s.len() && s[head.1] == ':' && s[head.1 + 1] == ':' {
        let tail = groups_from(s, head.1 + 2, (7 - head.0.len()) as nat, true);
        if tail.1 == s.len() {
            Some(
                head.0 + Seq::new((8 - head.0.len() - tail.0.len()) as nat, |i: int| 0int)
                    + tail.0,
            )
        } else {
            None
        }
    } else {
        None
    }
}

/// The sixteen octets of eight groups: of each group the high octet, then
/// the low one.
pub open spec fn group_octets(groups: Seq<int>) -> Seq<u8> {
    Seq::new(
        16,
        |i: int|
            if i % 2 == 0 {
                (groups[i / 2] / 256) as u8
            } else {
                (groups[i / 2] % 256) as u8
            },
    )
}

/// The address that `s` denotes. A text with a dot in it is read as an IPv4
/// address, any other as an IPv6 address.
pub open spec fn address_literal(s: Seq<char>) -> Option<IpView> {
    if s.contains('.') {
        match ipv4_literal(s) {
            Some(octets) => Some(IpView { v6: false, octets: widened(octets) }),
            None => None,
        }
    } else {
        match ipv6_groups(s) {
            Some(groups) => Some(IpView { v6: true, octets: group_octets(groups) }),
            None => None,
        }
    }
}

/// Tells at the first octet from `from` on in which `a` and `b` differ which
/// of them holds the smaller octet: `Some(true)` for `a`, `Some(false)` for
/// `b`, `None` where they do not differ.
pub open spec fn first_difference(a: Seq<u8>, b: Seq<u8>, from: int) -> Option<bool>
    decreases a.len() - from,
{
    if from < 0 || from >= a.len() || from >= b.len() {
        None
    } else if a[from] < b[from] {
        Some(true)
    } else if a[from] > b[from] {
        Some(false)
    } else {
        first_difference(a, b, from + 1)
    }
}

/// The values of groups as integers.
pub open spec fn ints(groups: Seq<u16>) -> Seq<int> {
    Seq::new(groups.len(), |i: int| groups[i] as int)
}

/// Every position of a run of hexadecimal digits holds one.
pub proof fn lemma_hex_run(s: Seq<char>, from: int)
    requires
        0 <= from <= s.len(),
    ensures
        0 <= hex_run(s, from) <= s.len() - from,
        forall|k: int| from <= k < from + hex_run(s, from) ==> is_hex_digit(#[trigger] s[k]),
    decreases s.len() - from,
{
    if from < s.len() && is_hex_digit(s[from]) {
        lemma_hex_run(s, from + 1);
    }
}

/// Reads the decimal number at `from`.
fn read_octet(s: &Vec<char>, from: usize) -> (r: Option<(u8, usize)>)
    requires
        from <= s.len(),
    ensures
        match r {
            Some((value, end)) => octet_at(s@, from as int) == Some((value as int, end as int))
                && end <= s.len(),
            None => octet_at(s@, from as int) is None,
        },
{
    let n = count_digits(s, from);
    if n < 1 || n > 3 {
        return None;
    }
    if n > 1 && s[from] == '0' {
        return None;
    }
    proof {
        lemma_digit_run(s@, from as int);
    }
    let mut value: u32 = 0;
    let mut k: usize = 0;
    while k < n
        invariant
            k <= n <= 3,
            from + n <= s.len(),
            forall|j: int| from <= j < from + n ==> is_digit(#[trigger] s@[j]),
            value == digits_value(s@.subrange(from as int, from + k)),
            k == 0 ==> value == 0,
            k == 1 ==> value <= 9,
            k == 2 ==> value <= 99,
            k == 3 ==> value <= 999,
        decreases n - k,
    {
        let c = s[from + k];
        assert(is_digit(s@[from + k]));
        assert(s@.subrange(from as int, from + k + 1).drop_last() =~= s@.subrange(
            from as int,
            from + k,
        ));
        value = value * 10 + (c as u32 - 48);
        k += 1;
    }
    if value > 255 {
        None
    } else {
        Some((value as u8, from + n))
    }
}

/// Reads the four octets of an IPv4 address.
pub fn parse_ipv4(s: &Vec<char>) -> (r: Option<[u8; 4]>)
    ensures
        match r {
            Some(octets) => ipv4_literal(s@) == Some(octets@),
            None => ipv4_literal(s@) is None,
        },
{
    let (a, end_a) = match read_octet(s, 0) {
        Some(found) => found,
        None => { return None; },
    };
    if !(end_a < s.len() && s[end_a] == '.') {
        return None;
    }
    let (b, end_b) = match read_octet(s, end_a + 1) {
        Some(found) => found,
        None => { return None; },
    };
    if !(end_b < s.len() && s[end_b] == '.') {
        return None;
    }
    let (c, end_c) = match read_octet(s, end_b + 1) {
        Some(found) => found,
        None => { return None; },
    };
    if !(end_c < s.len() && s[end_c] == '.') {
        return None;
    }
    let (d, end_d) = match read_octet(s, end_c + 1) {
        Some(found) => found,
        None => { return None; },
    };
    if end_d != s.len() {
        return None;
    }
    let octets = [a, b, c, d];
    assert(octets@ =~= seq![a, b, c, d]);
    Some(octets)
}

/// Tells whether `c` is a hexadecimal digit.
fn is_hex_digit_char(c: char) -> (b: bool)
    ensures
        b == is_hex_digit(c),
{
    (c >= '0' && c <= '9') || (c >= 'a' && c <= 'f') || (c >= 'A' && c <= 'F')
}

/// The number that the hexadecimal digit `c` stands for.
fn hex_digit_value(c: char) -> (v: u32)
    requires
        is_hex_digit(c),
    ensures
        v == hex_digit_of(c),
        v < 16,
{
    if c >= '0' && c <= '9' {
        c as u32 - 48
    } else if c >= 'a' && c <= 'f' {
        c as u32 - 87
    } else {
        c as u32 - 55
    }
}

/// Reads the group at `from`.
fn read_group(s: &Vec<char>, from: usize) -> (r: Option<(u16, usize)>)
    requires
        from <= s.len(),
    ensures
        match r {
            Some((value, end)) => group_at(s@, from as int) == Some((value as int, end as int))
                && end <= s.len(),
            None => group_at(s@, from as int) is None,
        },
{
    proof {
        lemma_hex_run(s@, from as int);
    }
    let mut end = from;
    while end < s.len() && is_hex_digit_char(s[end])
        invariant
            from <= end <= s.len(),
            hex_run(s@, from as int) == (end - from) + hex_run(s@, end as int),
        decreases s.len() - end,
    {
        end += 1;
    }
    let n = end - from;
    if n < 1 || n > 4 {
        return None;
    }
    let mut value: u32 = 0;
    let mut k: usize = 0;
    while k < n
        invariant
            k <= n <= 4,
            from + n <= s.len(),
            forall|j: int| from <= j < from + n ==> is_hex_digit(#[trigger] s@[j]),
            value == hex_value(s@.subrange(from as int, from + k)),
            k == 0 ==> value == 0,
            k == 1 ==> value < 0x10,
            k == 2 ==> value < 0x100,
            k == 3 ==> value < 0x1000,
            k == 4 ==> value < 0x10000,
        decreases n - k,
    {
        let c = s[from + k];
        assert(is_hex_digit(s@[from + k]));
        assert(s@.subrange(from as int, from + k + 1).drop_last() =~= s@.subrange(
            from as int,
            from + k,
        ));
        value = value * 16 + hex_digit_value(c);
        k += 1;
    }
    Some((value as u16, end))
}

/// Reads groups from `from` on, `limit` at most.
fn read_groups(s: &Vec<char>, from: usize, limit: usize) -> (r: (Vec<u16>, usize))
    requires
        from <= s.len(),
        limit <= 8,
    ensures
        (ints(r.0@), r.1 as int) == groups_from(s@, from as int, limit as nat, true),
        r.0.len() <= limit,
        r.1 <= s.len(),
{
    let mut out: Vec<u16> = Vec::new();
    let mut pos = from;
    let mut done = false;
    assert(ints(out@) + groups_from(s@, from as int, limit as nat, true).0 =~= groups_from(
        s@,
        from as int,
        limit as nat,
        true,
    ).0);
    while !done && out.len() < limit
        invariant
            pos <= s.len(),
            out.len() <= limit <= 8,
            ({
                let rest = groups_from(s@, pos as int, (limit - out.len()) as nat, out.len() == 0);
                &&& groups_from(s@, from as int, limit as nat, true).0 == ints(out@) + rest.0
                &&& groups_from(s@, from as int, limit as nat, true).1 == rest.1
                &&& done ==> rest == (Seq::<int>::empty(), pos as int)
            }),
        decreases (if done { 0int } else { 1int }), limit - out.len(),
    {
        let first = out.len() == 0;
        if first || (pos < s.len() && s[pos] == ':') {
            let start = if first {
                pos
            } else {
                pos + 1
            };
            match read_group(s, start) {
                Some((group, next)) => {
                    let ghost before = out@;
                    let ghost rest = groups_from(s@, next as int, (limit - out.len() - 1) as nat, false);
                    out.push(group);
                    pos = next;
                    assert(ints(out@) + rest.0 =~= ints(before) + (seq![group as int] + rest.0));
                },
                None => {
                    done = true;
                },
            }
        } else {
            done = true;
        }
    }
    proof {
        let rest = groups_from(s@, pos as int, (limit - out.len()) as nat, out.len() == 0);
        assert(rest.0 =~= Seq::<int>::empty());
        assert(ints(out@) + rest.0 =~= ints(out@));
    }
    (out, pos)
}

/// Writes the octets of `groups` into `octets`, from the group numbered `at`
/// on.
fn store_groups(octets: &mut [u8; 16], groups: &Vec<u16>, at: usize)
    requires
        at + groups.len() <= 8,
    ensures
        forall|i: int|
            0 <= i < 16 ==> #[trigger] final(octets)@[i] == (if 2 * at <= i < 2 * (at
                + groups.len()) {
                if i % 2 == 0 {
                    (groups@[i / 2 - at] / 256) as u8
                } else {
                    (groups@[i / 2 - at] % 256) as u8
                }
            } else {
                old(octets)@[i]
            }),
{
    let mut k: usize = 0;
    while k < groups.len()
        invariant
            k <= groups.len(),
            at + groups.len() <= 8,
            forall|i: int|
                0 <= i < 16 ==> #[trigger] octets@[i] == (if 2 * at <= i < 2 * (at + k) {
                    if i % 2 == 0 {
                        (groups@[i / 2 - at] / 256) as u8
                    } else {
                        (groups@[i / 2 - at] % 256) as u8
                    }
                } else {
                    old(octets)@[i]
                }),
        decreases groups.len() - k,
    {
        let group = groups[k];
        octets[2 * (at + k)] = (group / 256) as u8;
        octets[2 * (at + k) + 1] = (group % 256) as u8;
        k += 1;
    }
}

/// Reads the sixteen octets of an IPv6 address.
pub fn parse_ipv6(s: &Vec<char>) -> (r: Option<[u8; 16]>)
    ensures
        match r {
            Some(octets) => ipv6_groups(s@) is Some && octets@ == group_octets(
                ipv6_groups(s@)->Some_0,
            ),
            None => ipv6_groups(s@) is None,
        },
{
    let (head, pos) = read_groups(s, 0, 8);
    let mut octets = [0u8;16];
    if head.len() == 8 {
        if pos != s.len() {
            return None;
        }
        store_groups(&mut octets, &head, 0);
        assert(octets@ =~= group_octets(ints(head@)));
        return Some(octets);
    }
    if !(pos < s.len() && pos + 1 < s.len() && s[pos] == ':' && s[pos + 1] == ':') {
        return None;
    }
    let (tail, end) = read_groups(s, pos + 2, 7 - head.len());
    if end != s.len() {
        return None;
    }
    store_groups(&mut octets, &head, 0);
    store_groups(&mut octets, &tail, 8 - tail.len());
    proof {
        let gap = Seq::new((8 - head.len() - tail.len()) as nat, |i: int| 0int);
        let groups = ints(head@) + gap + ints(tail@);
        assert(ipv6_groups(s@) == Some(groups));
        assert forall|i: int| 0 <= i < 16 implies octets@[i] == group_octets(groups)[i] by {
            let g = i / 2;
            if g < head.len() {
                assert(groups[g] == head@[g] as int);
            } else if g < 8 - tail.len() {
                assert(groups[g] == 0);
            } else {
                assert(groups[g] == tail@[g - (8 - tail.len())] as int);
            }
        }
        assert(octets@ =~= group_octets(groups));
    }
    Some(octets)
}

/// Whether a dot stands in `s`.
fn has_dot(s: &Vec<char>) -> (b: bool)
    ensures
        b == s@.contains('.'),
{
    let mut k: usize = 0;
    while k < s.len()
        invariant
            k <= s.len(),
            forall|j: int| 0 <= j < k ==> s@[j] != '.',
        decreases s.len() - k,
    {
        if s[k] == '.' {
            return true;
        }
        k += 1;
    }
    false
}

/// Reads `addr` as an IP address: as an IPv4 address where it holds a dot, as
/// an IPv6 address where it holds none.
pub fn parse_ip_address(addr: &str) -> (r: Result<IpAddress, Error>)
    ensures
        match r {
            Ok(ip) => address_literal(addr@) == Some(ip@),
            Err(e) => address_literal(addr@) is None && (e matches Error::InvalidAddress(t)
                && t@ == addr@),
        },
{
    let chars = chars_of(addr);
    if has_dot(&chars) {
        match parse_ipv4(&chars) {
            Some(octets) => Ok(IpAddress::V4(octets)),
            None => Err(Error::InvalidAddress(addr.to_owned())),
        }
    } else {
        match parse_ipv6(&chars) {
            Some(octets) => Ok(IpAddress::V6(octets)),
            None => Err(Error::InvalidAddress(addr.to_owned())),
        }
    }
}

/// The sixteen octets by which an address is ordered within its family.
pub fn octets_for_ip_address(ip: IpAddress) -> (r: [u8; 16])
    ensures
        r@ == ip@.octets,
{
    match ip {
        IpAddress::V4(a) => {
            let mut octets = [0u8;16];
            octets[12] = a[0];
            octets[13] = a[1];
            octets[14] = a[2];
            octets[15] = a[3];
            assert(octets@ =~= widened(a@));
            octets
        },
        IpAddress::V6(a) => a,
    }
}

/// Finds the first octet in which `a` and `b` differ.
pub fn first_differing_octet(a: &[u8; 16], b: &[u8; 16]) -> (r: Option<bool>)
    ensures
        r == first_difference(a@, b@, 0),
{
    let mut k: usize = 0;
    while k < 16
        invariant
            k <= 16,
            first_difference(a@, b@, 0) == first_difference(a@, b@, k as int),
        decreases 16 - k,
    {
        if a[k] < b[k] {
            return Some(true);
        }
        if a[k] > b[k] {
            return Some(false);
        }
        k += 1;
    }
    None
}

} // verus!
