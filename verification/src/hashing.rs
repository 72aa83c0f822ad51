//! Content hashes.
use crate::text::{hex, hex_spec};
use sha2::Digest;
use vstd::prelude::*;

verus! {

/// Bytes that are being hashed: a `sha2::Sha256`, whose generic type cannot be
/// declared by itself.
#[verifier::external_body]
pub struct ContentHasher {
    inner: sha2::Sha256,
}

/// The bytes that a hasher has taken.
pub uninterp spec fn hashed(hasher: ContentHasher) -> Seq<u8>;

/// The SHA-256 digest of some bytes.
pub uninterp spec fn sha256(bytes: Seq<u8>) -> Seq<u8>;

/// `Sha256::new`: no bytes are taken yet.
#[verifier::external_body]
pub(crate) fn new_hasher() -> (hasher: ContentHasher)
    ensures
        hashed(hasher) == Seq::<u8>::empty(),
{
    ContentHasher { inner: sha2::Sha256::new() }
}

/// `Sha256::update`: takes bytes behind those it has taken.
#[verifier::external_body]
pub(crate) fn update_hasher(hasher: &mut ContentHasher, bytes: &[u8])
    ensures
        hashed(*final(hasher)) == hashed(*old(hasher)) + bytes@,
{
    hasher.inner.update(bytes);
}

/// `Sha256::finalize`: the digest of all the bytes taken, which is 32 bytes
/// long.
#[verifier::external_body]
fn finish_hasher(hasher: ContentHasher) -> (digest: Vec<u8>)
    ensures
        digest@ == sha256(hashed(hasher)),
        digest@.len() == 32,
{
    hasher.inner.finalize().to_vec()
}

/// The digest of all the bytes taken, as lower-case hexadecimal digits.
pub(crate) fn content_hash(hasher: ContentHasher) -> (text: String)
    ensures
        text@ == hex_spec(sha256(hashed(hasher))),
{
    hex(finish_hasher(hasher).as_slice())
}

} // verus!
