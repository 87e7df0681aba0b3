//! Key derivation: HKDF extract-then-expand with SHA-256.

use vstd::prelude::*;
use crypto::sha2::Sha256;

verus! {

/// What HKDF extract-then-expand yields: 64 bytes derived from salt and
/// input keying material; a function of both alone.
pub uninterp spec fn spec_hkdf(salt: Seq<u8>, input: Seq<u8>) -> Seq<u8>;

/// Relies on crypto::hkdf (rust-crypto): extract with the salt, then expand
/// with an empty info string to 64 bytes.
#[verifier::external_body]
pub fn expand_extract(salt: &[u8], input: &[u8]) -> (r: Vec<u8>)
    ensures
        r@ == spec_hkdf(salt@, input@),
        r@.len() == 64,
{
    let mut prk = [0u8; 32];
    let mut output = [0u8; 64];
    crypto::hkdf::hkdf_extract(Sha256::new(), salt, input, prk.as_mut_slice());
    crypto::hkdf::hkdf_expand(Sha256::new(), prk.as_slice(), &[], output.as_mut_slice());
    output.to_vec()
}

} // verus!
