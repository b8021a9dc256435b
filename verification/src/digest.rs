//! The SHA-1 digest, from the `sha1` crate.

use vstd::prelude::*;
use sha1::Digest;

verus! {

/// The SHA-1 digest of a byte string.
pub uninterp spec fn sha1_digest(data: Seq<u8>) -> Seq<u8>;

/// `sha1::Sha1::digest` (through the `Digest` trait). Claimed: the result is the
/// digest of `data` and of nothing else, and it is 20 bytes long (the hash's
/// fixed output size).
#[verifier::external_body]
pub(crate) fn sha1_of(data: &[u8]) -> (d: Vec<u8>)
    ensures
        d@ == sha1_digest(data@),
        d@.len() == 20,
{
    sha1::Sha1::digest(data).to_vec()
}

} // verus!
