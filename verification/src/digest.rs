//! The digest that supplies the generated digits.

use crate::hex::lower_hex;
use crypto::digest::Digest;
use vstd::prelude::*;

verus! {

/// The BLAKE2b digest of the UTF-8 bytes of `name`, unkeyed, with an output
/// of `len` bytes.
pub uninterp spec fn blake2b(name: Seq<char>, len: nat) -> Seq<u8>;

/// The digest of `name` at a length of `len` bytes, as text.
///
/// Makes a hasher with `crypto::blake2b::Blake2b::new`, feeds it the bytes of
/// `name` with `input_str` and takes what `result_str` gives. Taken on trust:
/// the text is the digest in lowercase hexadecimal, two digits for each of
/// its `len` bytes, the high half of a byte first. `new` accepts lengths from
/// 1 to 64 and no others.
#[verifier::external_body]
pub(crate) fn hash(name: &str, len: usize) -> (text: String)
    requires
        1 <= len <= 64,
    ensures
        text@ == lower_hex(blake2b(name@, len as nat)),
        text@.len() == 2 * len,
{
    let mut state = crypto::blake2b::Blake2b::new(len);
    state.input_str(name);
    state.result_str()
}

} // verus!
