//! Hashing primitives.
use vstd::prelude::*;

use sha2::{Digest, Sha256};

verus! {

/// Width in bytes of every digest in this crate.
pub const HASH_SIZE: usize = 32;

/// The SHA-256 digest of a byte sequence.
pub uninterp spec fn sha256_digest(data: Seq<u8>) -> Seq<u8>;

/// `SHA256(SHA256(data))`.
pub open spec fn double_sha256_spec(data: Seq<u8>) -> Seq<u8> {
    sha256_digest(sha256_digest(data))
}

/// Relies on `sha2::Sha256::digest`: the 32-byte SHA-256 digest of `data`,
/// a function of the bytes alone.
#[verifier::external_body]
fn sha256(data: &[u8]) -> (r: [u8; 32])
    ensures
        r@ == sha256_digest(data@),
{
    Sha256::digest(data).into()
}

/// Double SHA-256 of a byte string.
pub fn double_sha256(data: &[u8]) -> (r: [u8; 32])
    ensures
        r@ == double_sha256_spec(data@),
{
    let first = sha256(data);
    sha256(&first)
}


/// Values whose identity is the double SHA-256 of some canonical bytes.
pub trait Hashable {
    /// The bytes whose digest identifies the value.
    spec fn hash_preimage(&self) -> Seq<u8>;

    fn double_sha256(&self) -> (r: [u8; 32])
        ensures
            r@ == double_sha256_spec(self.hash_preimage()),
    ;
}


/// Compares two digests byte by byte.
pub fn hashes_equal(a: &[u8; 32], b: &[u8; 32]) -> (r: bool)
    ensures
        r == (a@ == b@),
{
    let mut i: usize = 0;
    while i < 32
        invariant
            0 <= i <= 32,
            forall|j: int| 0 <= j < i ==> a@[j] == b@[j],
        decreases 32 - i,
    {
        if a[i] != b[i] {
            return false;
        }
        i += 1;
    }
    assert(a@ =~= b@);
    true
}

} // verus!
