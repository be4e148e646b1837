//! The digest under which passwords are stored.

use crypto::digest::Digest;
use vstd::prelude::*;

verus! {

/// The SHA-256 digest of the UTF-8 bytes of `s`, in lower-case hexadecimal.
pub uninterp spec fn sha256_hex_of(s: Seq<char>) -> Seq<char>;

/// Relies on rust-crypto's `Sha256` (`input_str`, then `result_str`): the
/// digest depends on the characters alone, and `result_str` writes the 32
/// bytes of a SHA-256 digest as two hexadecimal digits each.
#[verifier::external_body]
fn sha256_hex(s: &str) -> (r: String)
    ensures
        r@ == sha256_hex_of(s@),
        r@.len() == 64,
{
    let mut sha = crypto::sha2::Sha256::new();
    sha.input_str(s);
    sha.result_str()
}

/// The stored form of a password: its SHA-256 digest in hexadecimal.
pub fn hash_string(input: &str) -> (r: String)
    ensures
        r@ == sha256_hex_of(input@),
        r@.len() == 64,
{
    sha256_hex(input)
}

} // verus!
