//! A network: a base address and the number of its leading bits that are
//! fixed.

use crate::address::{lemma_of_segments, Address};
use crate::error::Error;
use vstd::prelude::*;

verus! {

/// An IPv6 network in prefix notation.
#[derive(Clone, Copy, Debug, PartialEq, Eq)]
pub struct Network {
    /// The base address.
    pub address: Address,
    /// How many leading bits of the base address are fixed.
    pub prefix: u8,
}

impl Network {
    /// A prefix cannot be longer than the address.
    pub open spec fn wf(self) -> bool {
        self.prefix <= 128
    }

    /// How many of the 32 digits are fixed: one for every four whole bits of
    /// the prefix.
    pub open spec fn network_len(self) -> int {
        self.prefix as int / 4
    }

    /// How many of the 32 digits are generated.
    pub open spec fn host_len(self) -> int {
        32 - self.network_len()
    }

    /// How many bytes of digest it takes to cover the generated digits, two
    /// digits to the byte.
    pub open spec fn digest_len(self) -> int {
        (self.host_len() + 1) / 2
    }

    /// The fixed digits: the leading digits of the base address.
    pub open spec fn network_digits(self) -> Seq<char> {
        self.address.digits().take(self.network_len())
    }

    /// What a text in prefix notation reads as: a network, or nothing where
    /// the text is none.
    pub open spec fn read(cidr: Seq<char>) -> Option<Network> {
        match cidr_network(cidr) {
            Some((segments, prefix)) => Some(
                Network { address: Address::of_segments(segments), prefix },
            ),
            None => None,
        }
    }

    /// Reads a network in prefix notation, such as `fd52:f6b0:3162::/64`.
    /// A text that is no IPv6 network is refused as an invalid network.
    pub fn parse(cidr: &str) -> (r: Result<Network, Error>)
        ensures
            match Network::read(cidr@) {
                Some(net) => r == Ok::<Network, Error>(net) && net.wf(),
                None => r matches Err(e) && e is InvalidNetwork,
            },
    {
        match parse_network(cidr) {
            Ok(net) => {
                proof {
                    lemma_of_segments(net.address.segments@);
                    assert(Address::of_segments(net.address.segments@).segments
                        =~= net.address.segments);
                }
                Ok(net)
            },
            Err(e) => Err(Error::InvalidNetwork(diagnostic(&e))),
        }
    }
}

/// The error of `ipnetwork`'s parser. Nothing is known of what it holds.
#[verifier::external_type_specification]
#[verifier::external_body]
pub struct ExIpNetworkError(ipnetwork::IpNetworkError);

/// What `ipnetwork` reads in a text as an IPv6 network: the eight groups of
/// the address and the prefix length, or nothing where the text is no such
/// network.
pub uninterp spec fn cidr_network(cidr: Seq<char>) -> Option<(Seq<u16>, u8)>;

/// Reads a network with `ipnetwork::Ipv6Network::from_str`, and takes the
/// groups of the address and the prefix out of what it gives. Taken on trust:
/// what the parser reads depends on the text alone, and it admits no prefix
/// above 128.
#[verifier::external_body]
fn parse_network(cidr: &str) -> (r: Result<Network, ipnetwork::IpNetworkError>)
    ensures
        r is Ok <==> cidr_network(cidr@) is Some,
        r matches Ok(net) ==> cidr_network(cidr@) == Some((net.address.segments@, net.prefix)),
        r matches Ok(net) ==> net.prefix <= 128,
{
    match cidr.parse::<ipnetwork::Ipv6Network>() {
        Ok(net) => Ok(
            Network { address: Address { segments: net.ip().segments() }, prefix: net.prefix() },
        ),
        Err(e) => Err(e),
    }
}

/// What an `ipnetwork::IpNetworkError` says, in its `Debug` form. Nothing is
/// claimed of the text.
#[verifier::external_body]
fn diagnostic(e: &ipnetwork::IpNetworkError) -> (text: String) {
    format!("{:?}", e)
}

} // verus!
