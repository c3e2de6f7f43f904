//! The hash primitive and the two ways the tree applies it: to a block
//! (leaf hash) and to two concatenated child digests (pair hash).
use sha2::Digest;
use vstd::prelude::*;

verus! {

/// The SHA-256 digest of a byte string.
pub uninterp spec fn sha256_of(bytes: Seq<u8>) -> [u8; 32];

/// Width in bytes of every digest.
pub const DIGEST_LEN: usize = 32;

/// The leaf digest of one block.
pub open spec fn leaf_hash(block: Seq<u8>) -> Seq<u8> {
    sha256_of(block)@
}

/// The digest of an inner node: the hash of the left child's bytes followed
/// directly by the right child's bytes.
pub open spec fn pair_hash(left: Seq<u8>, right: Seq<u8>) -> Seq<u8> {
    sha256_of(left + right)@
}

/// Relies on sha2::Sha256::digest: the 32-byte SHA-256 digest of the input.
#[verifier::external_body]
pub(crate) fn hash_data(data: &Vec<u8>) -> (r: Vec<u8>)
    ensures
        r@ == sha256_of(data@)@,
{
    sha2::Sha256::digest(data).to_vec()
}

/// Hashes the concatenation of two digests, left one first.
pub fn hash_concat(h1: &Vec<u8>, h2: &Vec<u8>) -> (r: Vec<u8>)
    ensures
        r@ == pair_hash(h1@, h2@),
        r@.len() == DIGEST_LEN,
{
    let mut h3: Vec<u8> = Vec::new();
    let mut i: usize = 0;
    while i < h1.len()
        invariant
            i <= h1@.len(),
            h3@ == h1@.subrange(0, i as int),
        decreases h1@.len() - i,
    {
        h3.push(h1[i]);
        i += 1;
    }
    let mut j: usize = 0;
    while j < h2.len()
        invariant
            j <= h2@.len(),
            h3@ == h1@ + h2@.subrange(0, j as int),
        decreases h2@.len() - j,
    {
        h3.push(h2[j]);
        j += 1;
    }
    assert(h1@.subrange(0, h1@.len() as int) == h1@);
    assert(h2@.subrange(0, h2@.len() as int) == h2@);
    hash_data(&h3)
}

} // verus!
