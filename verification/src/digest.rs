//! The message digest: SHA-512 over `nonce ++ timestamp ++ payload`.
//!
//! The three fields are fed to the hash in order with no separators, so
//! field boundaries are not part of the digest; that ambiguity is part of
//! the wire-compatible behaviour and is preserved, not fixed.
use vstd::prelude::*;
use vstd::string::StringSliceAdditionalSpecFns;
use sha2::{Digest, Sha512};

verus! {

/// The SHA-512 digest of a byte sequence: 64 bytes, a function of the
/// input alone.
pub uninterp spec fn sha512_of(data: Seq<u8>) -> Seq<u8>;

/// Relies on sha2's `Sha512` (RustCrypto): `update` streams, so feeding
/// the three fields in order digests their concatenation, and `finalize`
/// returns the 64-byte digest.
#[verifier::external_body]
pub fn get_hash(nonce: &str, timestamp: &str, payload: &str) -> (r: Vec<u8>)
    ensures
        r@ == sha512_of(nonce.spec_bytes() + timestamp.spec_bytes() + payload.spec_bytes()),
        r@.len() == 64,
{
    let mut hasher = Sha512::new();
    hasher.update(nonce.as_bytes());
    hasher.update(timestamp.as_bytes());
    hasher.update(payload.as_bytes());
    hasher.finalize().to_vec()
}

} // verus!
