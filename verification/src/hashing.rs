//! SHA-256 digests, as used for prefix fingerprints, cache keys and rendezvous scores.
use vstd::prelude::*;

use sha2::Digest;

use crate::text::{hex_lower, is_lower_hex, lemma_hex_lower, to_hex_lower};

verus! {

/// The SHA-256 digest of a byte string.
pub uninterp spec fn sha256_digest(bytes: Seq<u8>) -> Seq<u8>;

/// Calls `sha2::Sha256::digest`. Trusted: the digest is the named SHA-256 value of
/// the input, and it is 32 bytes long (the hash's fixed output size).
#[verifier::external_body]
pub(crate) fn sha256(bytes: &[u8]) -> (d: Vec<u8>)
    ensures
        d@ == sha256_digest(bytes@),
        d@.len() == 32,
{
    sha2::Sha256::digest(bytes).to_vec()
}

/// Lowercase hexadecimal SHA-256 digest of `bytes`.
pub fn sha256_hex(bytes: &[u8]) -> (s: String)
    ensures
        s@ == hex_lower(sha256_digest(bytes@)),
        s@.len() == 64,
        forall|i: int| 0 <= i < s@.len() ==> is_lower_hex(#[trigger] s@[i]),
{
    let d = sha256(bytes);
    proof {
        lemma_hex_lower(d@);
    }
    to_hex_lower(d.as_slice())
}

} // verus!
