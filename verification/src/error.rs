//! What can go wrong while an address is generated.

use crate::address::Address;
use crate::text::{decimal, decimal_of, grouped};
use vstd::prelude::*;
use vstd::string::StringExecFns;

verus! {

/// The ways in which generating an address fails.
#[derive(Clone, Debug, PartialEq, Eq)]
pub enum Error {
    /// The text is not an IPv6 network in prefix notation. Holds what the
    /// parser said of it.
    InvalidNetwork(String),
    /// The prefix covers all 128 bits, so the network is one address and
    /// leaves nothing to generate.
    AlreadyFullAddress { address: Address, prefix: u8 },
    /// The digits put together are not an address. Holds the text that was
    /// put together.
    AssemblyError(String),
}

impl Error {
    /// The words of `message`.
    pub open spec fn message_text(self) -> Seq<char> {
        match self {
            Error::InvalidNetwork(said) => said@,
            Error::AlreadyFullAddress { address, prefix } => grouped(address.digits()) + seq!['/']
                + decimal(prefix as nat) + " is already a full IPv6 address"@,
            Error::AssemblyError(held) => "generated IPv6 address ("@ + held@
                + ") has invalid IPv6 address syntax"@,
        }
    }

    /// The error in words, with the values that it is about: what the parser
    /// said of the text; the address, written out in full, and the prefix;
    /// or the text that was put together.
    pub fn message(&self) -> (text: String)
        ensures
            text@ == self.message_text(),
    {
        match self {
            Error::InvalidNetwork(said) => said.clone(),
            Error::AlreadyFullAddress { address, prefix } => {
                let mut text = address.text();
                text.push('/');
                let number = decimal_of(*prefix);
                text.append(number.as_str());
                text.append(" is already a full IPv6 address");
                text
            },
            Error::AssemblyError(held) => {
                let mut text = "generated IPv6 address (".to_owned();
                text.append(held.as_str());
                text.append(") has invalid IPv6 address syntax");
                text
            },
        }
    }

    /// Whether this is the assembly error that holds `text`.
    pub open spec fn is_assembly_error(self, text: Seq<char>) -> bool {
        self matches Error::AssemblyError(held) && held@ == text
    }
}

} // verus!
