//! IP networks in CIDR notation, and their order.

use ipnet::IpNet;
use std::cmp::Ordering;
use vstd::prelude::*;

use crate::error::Error;
use crate::ip::IpAddress;
use crate::ip_order::{compare_two_ip_addresses, ip_order};

verus! {

/// A network: its base address and the length of its prefix in bits.
#[derive(Clone, Copy, Debug, PartialEq, Eq)]
pub struct Network {
    pub address: IpAddress,
    pub prefix_len: u8,
}

/// The network that `s` denotes in CIDR notation, an address, a slash and a
/// prefix length, if it denotes one.
pub uninterp spec fn network_literal(s: Seq<char>) -> Option<Network>;

/// `str::parse` for `IpNet`, with the address of the network that it found
/// taken apart into its octets.
#[verifier::external_body]
fn read_network(text: &str) -> (r: Option<Network>)
    ensures
        r == network_literal(text@),
{
    match text.parse::<IpNet>() {
        Ok(IpNet::V4(n)) => Some(
            Network { address: IpAddress::V4(n.addr().octets()), prefix_len: n.prefix_len() },
        ),
        Ok(IpNet::V6(n)) => Some(
            Network { address: IpAddress::V6(n.addr().octets()), prefix_len: n.prefix_len() },
        ),
        Err(_) => None,
    }
}

/// The order of two networks: by their addresses, and for one address the
/// shorter prefix, which is the larger network, first.
pub open spec fn network_order(x: Network, y: Network) -> Ordering {
    match ip_order(x.address@, y.address@) {
        Ordering::Less => Ordering::Less,
        Ordering::Greater => Ordering::Greater,
        Ordering::Equal => if x.prefix_len < y.prefix_len {
            Ordering::Less
        } else if x.prefix_len > y.prefix_len {
            Ordering::Greater
        } else {
            Ordering::Equal
        },
    }
}

/// Orders lines that each hold one network in CIDR notation.
pub struct NetworkComparer;

impl NetworkComparer {
    /// A comparer of networks.
    pub fn new() -> Self {
        NetworkComparer
    }

    /// Whether a line can be compared: whether it is a network.
    pub open spec fn accepts(line: Seq<char>) -> bool {
        network_literal(line) is Some
    }

    /// The order of two lines that are both networks.
    pub open spec fn order(a: Seq<char>, b: Seq<char>) -> Ordering {
        network_order(network_literal(a)->Some_0, network_literal(b)->Some_0)
    }

    /// Reads a line as a network.
    pub fn parse_network(addr: &str) -> (r: Result<Network, Error>)
        ensures
            match r {
                Ok(n) => network_literal(addr@) == Some(n),
                Err(Error::InvalidNetwork(t)) => network_literal(addr@) is None && t@ == addr@,
                Err(_) => false,
            },
    {
        match read_network(addr) {
            Some(n) => Ok(n),
            None => Err(Error::InvalidNetwork(addr.to_owned())),
        }
    }

    /// Compares two networks that have been read.
    pub fn compare_networks(net1: Network, net2: Network) -> (o: Ordering)
        ensures
            o == network_order(net1, net2),
    {
        match compare_two_ip_addresses(net1.address, net2.address) {
            Ordering::Less => Ordering::Less,
            Ordering::Greater => Ordering::Greater,
            Ordering::Equal => {
                if net1.prefix_len < net2.prefix_len {
                    Ordering::Less
                } else if net1.prefix_len > net2.prefix_len {
                    Ordering::Greater
                } else {
                    Ordering::Equal
                }
            },
        }
    }

    /// Compares two lines. This fails where one of them is no network, with
    /// the first such line in the error.
    pub fn cmp(&self, str1: &str, str2: &str) -> (r: Result<Ordering, Error>)
        ensures
            match r {
                Ok(o) => Self::accepts(str1@) && Self::accepts(str2@) && o == Self::order(
                    str1@,
                    str2@,
                ),
                Err(Error::InvalidNetwork(t)) => if Self::accepts(str1@) {
                    !Self::accepts(str2@) && t@ == str2@
                } else {
                    t@ == str1@
                },
                Err(_) => false,
            },
    {
        let net1 = match Self::parse_network(str1) {
            Ok(n) => n,
            Err(e) => { return Err(e); },
        };
        let net2 = match Self::parse_network(str2) {
            Ok(n) => n,
            Err(e) => { return Err(e); },
        };
        Ok(Self::compare_networks(net1, net2))
    }
}

} // verus!
