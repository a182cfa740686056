//! The digest primitive the tree is built on: SHA-256, supplied by openssl.
//!
//! The tree-building logic never looks inside a digest; it only concatenates
//! digests and hashes them again. So the digest function itself is left
//! uninterpreted here: `sha256_of` names its result, and the one trusted
//! wrapper below ties that name to the real computation.

use vstd::prelude::*;

verus! {

/// The 32-byte digest that SHA-256 assigns to `data`.
///
/// Left uninterpreted: the library states *which* bytes are hashed where,
/// never what the digest of given bytes is.
pub uninterp spec fn sha256_of(data: Seq<u8>) -> Seq<u8>;

/// Relies on `openssl::hash::hash` with `MessageDigest::sha256()`: a
/// deterministic digest of exactly 32 bytes, computed from the input bytes
/// alone. A fault inside the primitive is propagated unchanged as a panic.
#[verifier::external_body]
pub(crate) fn sha256(data: &[u8]) -> (r: Vec<u8>)
    ensures
        r@ == sha256_of(data@),
        r@.len() == 32,
{
    openssl::hash::hash(openssl::hash::MessageDigest::sha256(), data)
        .unwrap()
        .to_vec()
}

} // verus!
