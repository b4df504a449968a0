//! The order of IP addresses: IPv4 before IPv6, and within a family by the
//! octets.

use std::cmp::Ordering;
use vstd::prelude::*;

use crate::error::Error;
use crate::ip::{
    address_literal,
    first_difference,
    first_differing_octet,
    octets_for_ip_address,
    parse_ip_address,
    IpAddress,
    IpView,
};

verus! {

/// The order of two addresses. Every IPv4 address comes before every IPv6
/// address; two addresses of one family are ordered by the first octet in
/// which they differ.
pub open spec fn ip_order(x: IpView, y: IpView) -> Ordering {
    if !x.v6 && y.v6 {
        Ordering::Less
    } else if x.v6 && !y.v6 {
        Ordering::Greater
    } else {
        match first_difference(x.octets, y.octets, 0) {
            Some(true) => Ordering::Less,
            Some(false) => Ordering::Greater,
            None => Ordering::Equal,
        }
    }
}

/// Compares two addresses.
pub fn compare_two_ip_addresses(ip1: IpAddress, ip2: IpAddress) -> (o: Ordering)
    ensures
        o == ip_order(ip1@, ip2@),
{
    match (ip1, ip2) {
        (IpAddress::V4(_), IpAddress::V6(_)) => { return Ordering::Less; },
        (IpAddress::V6(_), IpAddress::V4(_)) => { return Ordering::Greater; },
        _ => {},
    }
    let octets1 = octets_for_ip_address(ip1);
    let octets2 = octets_for_ip_address(ip2);
    match first_differing_octet(&octets1, &octets2) {
        Some(true) => Ordering::Less,
        Some(false) => Ordering::Greater,
        None => Ordering::Equal,
    }
}

/// Orders lines that each hold one IP address.
pub struct IpComparer;

impl IpComparer {
    /// A comparer of IP addresses.
    pub fn new() -> Self {
        IpComparer
    }

    /// Whether a line can be compared: whether it is an IP address.
    pub open spec fn accepts(line: Seq<char>) -> bool {
        address_literal(line) is Some
    }

    /// The order of two lines that are both IP addresses.
    pub open spec fn order(a: Seq<char>, b: Seq<char>) -> Ordering {
        ip_order(address_literal(a)->Some_0, address_literal(b)->Some_0)
    }

    /// Compares two lines. This fails where one of them is no IP address,
    /// with the first such line in the error.
    pub fn cmp(&self, str1: &str, str2: &str) -> (r: Result<Ordering, Error>)
        ensures
            match r {
                Ok(o) => Self::accepts(str1@) && Self::accepts(str2@) && o == Self::order(
                    str1@,
                    str2@,
                ),
                Err(Error::InvalidAddress(t)) => if Self::accepts(str1@) {
                    !Self::accepts(str2@) && t@ == str2@
                } else {
                    t@ == str1@
                },
                Err(_) => false,
            },
    {
        let ip1 = match parse_ip_address(str1) {
            Ok(ip) => ip,
            Err(e) => { return Err(e); },
        };
        let ip2 = match parse_ip_address(str2) {
            Ok(ip) => ip,
            Err(e) => { return Err(e); },
        };
        Ok(compare_two_ip_addresses(ip1, ip2))
    }
}

} // verus!
