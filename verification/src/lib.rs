//! Deterministic IPv6 addresses: a name and a network give one address
//! inside that network, the same one every time.
//!
//! The leading digits of the network stay as they are; the rest of the 32
//! hexadecimal digits of the address are taken from a digest of the name.

pub mod address;
pub mod digest;
pub mod error;
pub mod hex;
pub mod network;
pub mod text;

use crate::address::{
    is_expanded, lemma_digit_values, lemma_grouped_is_expanded, lemma_nibbles_determine,
    lemma_spelled_nibbles, lemma_text_reads_back, Address,
};
use crate::digest::{blake2b, hash};
use crate::error::Error;
use crate::hex::{
    all_hex, all_lower_hex, hex_values, is_hex, lemma_lower_hex_digits, lemma_lower_hex_value,
    lower_hex,
};
use crate::network::Network;
use crate::text::{group, grouped};
use vstd::prelude::*;
use vstd::string::{StrSliceExecFns, StringExecFns};

verus! {

/// As much of a digest's text as goes into an address of `net`: its leading
/// characters, as many as there are digits to generate, or all of it where
/// it has fewer.
pub open spec fn host_digits(net: Network, hash: Seq<char>) -> Seq<char> {
    if hash.len() < net.host_len() {
        hash
    } else {
        hash.take(net.host_len())
    }
}

/// The digits of an address put together: the fixed digits of the network,
/// then those taken from the digest's text.
pub open spec fn joined_digits(net: Network, hash: Seq<char>) -> Seq<char> {
    net.network_digits() + host_digits(net, hash)
}

/// Whether a digest's text can fill the generated part of an address of
/// `net`: it has hexadecimal digits in all the places that are taken from it.
pub open spec fn fills(net: Network, hash: Seq<char>) -> bool {
    hash.len() >= net.host_len() && all_hex(hash.take(net.host_len()))
}

/// Puts an address together from a network and the text of a digest.
///
/// The fixed digits of the network come first, then the leading characters of
/// `hash` for the remaining places. The result is the address that these 32
/// digits spell. Where `hash` is too short or holds anything but hexadecimal
/// digits in those places, the text that was put together is returned as an
/// assembly error.
pub fn assemble(net: Network, hash: &str) -> (r: Result<Address, Error>)
    requires
        net.wf(),
    ensures
        fills(net, hash@) ==> r == Ok::<Address, Error>(
            Address::spelled(joined_digits(net, hash@)),
        ),
        !fills(net, hash@) ==> (r matches Err(e) && e.is_assembly_error(
            grouped(joined_digits(net, hash@)),
        )),
{
    let network_len: usize = net.prefix as usize / 4;
    let address_len: usize = 32 - network_len;
    // Written out in full and without colons, the address splits by position
    // into the digits that stay and those that are replaced.
    let ip_hash = net.address.expand();
    let network_hash = ip_hash.as_str().substring_char(0, network_len);
    let available: usize = hash.unicode_len();
    let kept: usize = if available < address_len {
        available
    } else {
        address_len
    };
    let address_hash = hash.substring_char(0, kept);
    let mut joined = network_hash.to_owned();
    joined.append(address_hash);
    let text = group(joined.as_str());
    proof {
        let digits = joined_digits(net, hash@);
        assert(joined@ == digits);
        lemma_grouped_is_expanded(digits);
        lemma_digit_values(net.address);
        if digits.len() == 32 && all_hex(digits) {
            assert forall|i: int| 0 <= i < net.host_len() implies is_hex(
                #[trigger] hash@.take(net.host_len())[i],
            ) by {
                assert(digits[net.network_len() + i] == hash@[i]);
            }
        }
    }
    match Address::parse(text.as_str()) {
        Some(address) => Ok(address),
        None => Err(Error::AssemblyError(text)),
    }
}

/// An address put together keeps the fixed digits of its network, and has
/// the leading digits of the digest's text in the remaining places where
/// these are lowercase.
pub proof fn lemma_assembled_digits(net: Network, hash: Seq<char>)
    requires
        net.wf(),
        fills(net, hash),
    ensures
        Address::spelled(joined_digits(net, hash)).digits().take(net.network_len())
            == net.network_digits(),
        all_lower_hex(hash.take(net.host_len())) ==> Address::spelled(
            joined_digits(net, hash),
        ).digits() == joined_digits(net, hash),
{
    let digits = joined_digits(net, hash);
    let address = Address::spelled(digits);
    lemma_digit_values(net.address);
    assert(all_hex(digits));
    lemma_spelled_nibbles(digits);
    assert forall|i: int| 0 <= i < net.network_len() implies address.digits()[i]
        == net.network_digits()[i] by {
        assert(address.nibbles()[i] == hex_values(digits)[i]);
        lemma_lower_hex_value(net.network_digits()[i]);
    }
    assert(address.digits().take(net.network_len()) == net.network_digits());
    if all_lower_hex(hash.take(net.host_len())) {
        assert(all_lower_hex(digits));
    }
}

/// Two digest texts give the same address in a network exactly when the
/// digits taken from them have the same values, place by place.
pub proof fn lemma_assembled_same(net: Network, first: Seq<char>, second: Seq<char>)
    requires
        net.wf(),
        fills(net, first),
        fills(net, second),
    ensures
        Address::spelled(joined_digits(net, first)) == Address::spelled(
            joined_digits(net, second),
        ) <==> hex_values(first.take(net.host_len())) == hex_values(second.take(net.host_len())),
{
    let a = joined_digits(net, first);
    let b = joined_digits(net, second);
    let kept_a = first.take(net.host_len());
    let kept_b = second.take(net.host_len());
    lemma_digit_values(net.address);
    assert(all_hex(a));
    assert(all_hex(b));
    lemma_spelled_nibbles(a);
    lemma_spelled_nibbles(b);
    if hex_values(kept_a) == hex_values(kept_b) {
        assert forall|i: int| 0 <= i < 32 implies hex_values(a)[i] == hex_values(b)[i] by {
            if i >= net.network_len() {
                assert(hex_values(kept_a)[i - net.network_len()] == hex_values(kept_b)[i
                    - net.network_len()]);
            }
        }
        assert(hex_values(a) == hex_values(b));
        lemma_nibbles_determine(Address::spelled(a), Address::spelled(b));
    }
    if Address::spelled(a) == Address::spelled(b) {
        assert forall|i: int| 0 <= i < net.host_len() implies hex_values(kept_a)[i] == hex_values(
            kept_b,
        )[i] by {
            assert(hex_values(a)[net.network_len() + i] == hex_values(b)[net.network_len() + i]);
        }
        assert(hex_values(kept_a) == hex_values(kept_b));
    }
}

/// The digits of the address generated for `name` in `net`: the fixed digits
/// of the network, then the leading digits of the digest of `name`.
pub open spec fn generated_digits(net: Network, name: Seq<char>) -> Seq<char> {
    net.network_digits() + lower_hex(blake2b(name, net.digest_len() as nat)).take(net.host_len())
}

/// The address generated for `name` in `net`.
pub open spec fn generated(net: Network, name: Seq<char>) -> Address {
    Address::spelled(generated_digits(net, name))
}

/// Generates the address for `name` in a network that leaves room for one.
///
/// The address keeps the fixed digits of the network. The digits after them
/// are the leading digits of the BLAKE2b digest of `name`, taken at the
/// shortest length in whole bytes that covers them.
pub fn ip6(name: &str, net: Network) -> (r: Result<Address, Error>)
    requires
        net.prefix < 128,
    ensures
        r == Ok::<Address, Error>(generated(net, name@)),
        generated(net, name@).digits() == generated_digits(net, name@),
        generated(net, name@).digits().take(net.network_len()) == net.address.digits().take(
            net.network_len(),
        ),
        is_expanded(grouped(generated(net, name@).digits())),
{
    // One digit stands for four bits, so a quarter of the prefix is the
    // number of digits that must stay as they are.
    let network_len: usize = net.prefix as usize / 4;
    // An address has 32 digits; those that are not fixed are generated.
    let address_len: usize = 32 - network_len;
    // The digest comes in whole bytes, two digits each: an odd number of
    // digits takes one byte more, and the last digit of it is left out.
    let hash_is_bigger = address_len % 2 != 0;
    let mut blake_len: usize = address_len / 2;
    if hash_is_bigger {
        blake_len += 1;
    }
    let hash = hash(name, blake_len);
    proof {
        lemma_lower_hex_digits(blake2b(name@, blake_len as nat));
        assert(all_lower_hex(hash@.take(net.host_len())));
        assert(all_hex(hash@.take(net.host_len())));
        assert(joined_digits(net, hash@) == generated_digits(net, name@));
        lemma_assembled_digits(net, hash@);
        lemma_text_reads_back(generated(net, name@));
    }
    assemble(net, hash.as_str())
}

/// Generates the address for `name` in the network that `cidr` denotes, such
/// as `fd52:f6b0:3162::/64`.
///
/// A text that is no IPv6 network is refused as an invalid network, and a
/// network whose prefix covers all 128 bits as an address that is already
/// full. Every other network gives its address for `name`, which keeps the
/// fixed digits of the network.
pub fn ip(name: &str, cidr: &str) -> (r: Result<Address, Error>)
    ensures
        match Network::read(cidr@) {
            None => r matches Err(e) && e is InvalidNetwork,
            Some(net) => if net.prefix == 128 {
                r == Err::<Address, Error>(
                    Error::AlreadyFullAddress { address: net.address, prefix: net.prefix },
                )
            } else {
                &&& r == Ok::<Address, Error>(generated(net, name@))
                &&& generated(net, name@).digits() == generated_digits(net, name@)
                &&& generated(net, name@).digits().take(net.network_len())
                    == net.address.digits().take(net.network_len())
                &&& is_expanded(grouped(generated(net, name@).digits()))
            },
        },
{
    let net = match Network::parse(cidr) {
        Ok(net) => {
            if net.prefix == 128 {
                return Err(Error::AlreadyFullAddress { address: net.address, prefix: net.prefix });
            } else {
                net
            }
        },
        Err(e) => {
            return Err(e);
        },
    };
    ip6(name, net)
}

/// A tag of four hexadecimal digits for a subnet, derived from its name.
pub fn subnet(name: &str) -> (tag: String)
    ensures
        tag@ == lower_hex(blake2b(name@, 2)),
        tag@.len() == 4,
        all_lower_hex(tag@),
{
    proof {
        lemma_lower_hex_digits(blake2b(name@, 2));
    }
    hash(name, 2)
}

} // verus!
