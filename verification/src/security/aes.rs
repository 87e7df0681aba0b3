//! Authenticated encryption: AES-256-GCM with a 96-bit nonce, with or
//! without associated data.

use vstd::prelude::*;
use aes_gcm::aead::{Aead, NewAead, Payload};
use crate::error::Error;

verus! {

/// Largest plaintext or associated data the AES-GCM mode accepts.
pub const AEAD_P_MAX: u64 = 0x1000000000;

/// What AES-256-GCM encryption yields: ciphertext and tag, a function of
/// key, nonce, associated data and plaintext alone.
pub uninterp spec fn spec_aes_encrypt(
    key: Seq<u8>,
    nonce: Seq<u8>,
    aad: Seq<u8>,
    msg: Seq<u8>,
) -> Seq<u8>;

/// What AES-256-GCM decryption yields: the plaintext when the tag verifies,
/// nothing otherwise; a function of its inputs alone.
pub uninterp spec fn spec_aes_decrypt(
    key: Seq<u8>,
    nonce: Seq<u8>,
    aad: Seq<u8>,
    ct: Seq<u8>,
) -> Option<Seq<u8>>;

/// Relies on aes_gcm::Aes256Gcm::encrypt with associated data: the
/// ciphertext carries a 16-byte tag, and encryption fails exactly when the
/// plaintext or the associated data exceed the mode's 2^36-byte bound.
#[verifier::external_body]
pub fn encrypt(key: &[u8], hash: &[u8], nonce: &[u8], input: &[u8]) -> (r: Result<Vec<u8>, Error>)
    requires
        key@.len() == 32,
        nonce@.len() == 12,
    ensures
        match r {
            Ok(ct) => input@.len() <= AEAD_P_MAX && hash@.len() <= AEAD_P_MAX && ct@
                == spec_aes_encrypt(key@, nonce@, hash@, input@) && ct@.len() == input@.len()
                + 16,
            Err(e) => (input@.len() > AEAD_P_MAX || hash@.len() > AEAD_P_MAX) && e
                == Error::AesCipherFail,
        },
{
    let cipher = aes_gcm::Aes256Gcm::new(aes_gcm::Key::from_slice(key));
    let payload = Payload { msg: input, aad: hash };
    cipher.encrypt(aes_gcm::Nonce::from_slice(nonce), payload).map_err(|_| Error::AesCipherFail)
}

/// Relies on aes_gcm::Aes256Gcm::decrypt with associated data; fails exactly
/// when the authentication tag does not verify.
#[verifier::external_body]
pub fn decrypt(key: &[u8], hash: &[u8], nonce: &[u8], input: &[u8]) -> (r: Result<Vec<u8>, Error>)
    requires
        key@.len() == 32,
        nonce@.len() == 12,
    ensures
        match r {
            Ok(msg) => spec_aes_decrypt(key@, nonce@, hash@, input@) == Some(msg@),
            Err(e) => spec_aes_decrypt(key@, nonce@, hash@, input@) is None && e
                == Error::AesCipherFail,
        },
{
    let cipher = aes_gcm::Aes256Gcm::new(aes_gcm::Key::from_slice(key));
    let payload = Payload { msg: input, aad: hash };
    cipher.decrypt(aes_gcm::Nonce::from_slice(nonce), payload).map_err(|_| Error::AesCipherFail)
}

/// Encryption with no associated data; succeeds exactly when the plaintext
/// fits the mode's bound.
pub fn encrypt_no_hash(key: &[u8], nonce: &[u8], input: &[u8]) -> (r: Result<Vec<u8>, Error>)
    requires
        key@.len() == 32,
        nonce@.len() == 12,
    ensures
        match r {
            Ok(ct) => input@.len() <= AEAD_P_MAX && ct@ == spec_aes_encrypt(
                key@,
                nonce@,
                Seq::empty(),
                input@,
            ) && ct@.len() == input@.len() + 16,
            Err(e) => input@.len() > AEAD_P_MAX && e == Error::AesCipherFail,
        },
{
    let empty: Vec<u8> = Vec::new();
    encrypt(key, empty.as_slice(), nonce, input)
}

/// Decryption with no associated data.
pub fn decrypt_no_hash(key: &[u8], nonce: &[u8], input: &[u8]) -> (r: Result<Vec<u8>, Error>)
    requires
        key@.len() == 32,
        nonce@.len() == 12,
    ensures
        match r {
            Ok(msg) => spec_aes_decrypt(key@, nonce@, Seq::empty(), input@) == Some(msg@),
            Err(e) => spec_aes_decrypt(key@, nonce@, Seq::empty(), input@) is None && e
                == Error::AesCipherFail,
        },
{
    let empty: Vec<u8> = Vec::new();
    decrypt(key, empty.as_slice(), nonce, input)
}

} // verus!
