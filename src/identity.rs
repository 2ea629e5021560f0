//! Pseudonymous visitor identity: a one-way digest of the client address. The
//! raw address is never kept.

use vstd::prelude::*;
use sha2::Digest;

verus! {

/// SHA-256 of the UTF-8 bytes of a text.
pub uninterp spec fn sha256_of(text: Seq<char>) -> Seq<u8>;

/// Relies on sha2::Sha256::digest: the digest depends on the input bytes alone
/// and its output size is 32 bytes.
#[verifier::external_body]
fn sha256(text: &str) -> (r: Vec<u8>)
    ensures
        r@ == sha256_of(text@),
        r@.len() == 32,
{
    sha2::Sha256::digest(text.as_bytes()).to_vec()
}

/// The visitor digest of a raw client address; the same address always gives
/// the same digest.
pub fn hash_address(address: &str) -> (r: Vec<u8>)
    ensures
        r@ == sha256_of(address@),
        r@.len() == 32,
{
    sha256(address)
}

} // verus!
