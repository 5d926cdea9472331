//! SHA-256 as the tree sees it: one digest per block, one per pair of digests.

use sha2::Digest;
use vstd::prelude::*;

use crate::Data;

verus! {

/// Number of bytes in every SHA-256 digest.
pub const DIGEST_LEN: usize = 32;

/// The SHA-256 digest of `data`.
///
/// Nothing is stated of its bytes, only that there are thirty-two of them;
/// contracts speak of the digest by this name.
pub uninterp spec fn sha256(data: Seq<u8>) -> [u8; 32];

/// The digest of `data` as a byte sequence.
pub open spec fn digest(data: Seq<u8>) -> Seq<u8> {
    sha256(data)@
}

/// The digest of a pair: SHA-256 over the bytes of `left` followed by the
/// bytes of `right`, with nothing in between.
pub open spec fn combine(left: Seq<u8>, right: Seq<u8>) -> Seq<u8> {
    digest(left + right)
}

/// Hashes one block.
///
/// Trusted: the body calls `sha2::Sha256::digest`, which Verus does not read.
/// The contract claims that the bytes returned depend on the bytes hashed and
/// on nothing else. That there are always `DIGEST_LEN` of them is the output
/// size that `sha2` fixes for `Sha256` in its type, and here the type of
/// `sha256` repeats it.
#[verifier::external_body]
pub(crate) fn hash_data(data: &Data) -> (hash: crate::Hash)
    ensures
        hash@ == sha256(data@)@,
        hash@.len() == DIGEST_LEN,
{
    sha2::Sha256::digest(data).to_vec()
}

/// Hashes two digests into their parent: `h1` first, then `h2`.
pub fn hash_concat(h1: &crate::Hash, h2: &crate::Hash) -> (h3: crate::Hash)
    ensures
        h3@ == combine(h1@, h2@),
        h3@.len() == DIGEST_LEN,
{
    let mut joined: Vec<u8> = h1.clone();
    joined.extend_from_slice(h2.as_slice());
    assert(joined@ =~= h1@ + h2@);
    hash_data(&joined)
}

} // verus!
