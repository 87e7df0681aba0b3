//! Digest primitives: SHA-256 over a two-part input, HMAC-SHA256, and MD5.

use vstd::prelude::*;
use crypto::digest::Digest;
use crypto::mac::Mac;

verus! {

/// What SHA-256 yields on an input; a function of the bytes alone.
pub uninterp spec fn spec_sha256(data: Seq<u8>) -> Seq<u8>;

/// What HMAC-SHA256 yields under a key; a function of key and message alone.
pub uninterp spec fn spec_hmac_sha256(key: Seq<u8>, data: Seq<u8>) -> Seq<u8>;

/// What MD5 yields on an input; a function of the bytes alone.
pub uninterp spec fn spec_md5(data: Seq<u8>) -> Seq<u8>;

/// Relies on crypto::sha2::Sha256 (rust-crypto): the 32-byte digest of the
/// two inputs concatenated.
#[verifier::external_body]
pub fn sha256(first: &[u8], second: &[u8]) -> (r: Vec<u8>)
    ensures
        r@ == spec_sha256(first@ + second@),
        r@.len() == 32,
{
    let mut hasher = crypto::sha2::Sha256::new();
    hasher.input(first);
    hasher.input(second);
    let mut output = [0u8; 32];
    hasher.result(output.as_mut_slice());
    output.to_vec()
}

/// Relies on crypto::hmac::Hmac with SHA-256 (rust-crypto): the 32-byte
/// authentication code of the message under the key.
#[verifier::external_body]
pub fn mac_sha256(first: &[u8], second: &[u8]) -> (r: Vec<u8>)
    ensures
        r@ == spec_hmac_sha256(first@, second@),
        r@.len() == 32,
{
    let mut hmac = crypto::hmac::Hmac::new(crypto::sha2::Sha256::new(), first);
    hmac.input(second);
    hmac.result().code().to_vec()
}

/// Relies on md5::compute: the 16-byte digest of the input.
#[verifier::external_body]
pub fn md5(input: &[u8]) -> (r: Vec<u8>)
    ensures
        r@ == spec_md5(input@),
        r@.len() == 16,
{
    md5::compute(input).0.to_vec()
}

} // verus!
