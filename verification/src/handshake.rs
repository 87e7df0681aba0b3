//! The one-time key-agreement protocol: a running transcript hash over every
//! byte exchanged, Diffie-Hellman mixes into the chained key, and the final
//! derivation of the steady-state session keys.

use vstd::prelude::*;
use crate::error::Error;
use crate::credentials::Credentials;
use crate::security::{spec_nonce, AsNonce};
use crate::security::aes::{spec_aes_decrypt, spec_aes_encrypt};
use crate::security::hash::{spec_md5, spec_sha256, sha256, md5};
use crate::security::hkdf::spec_hkdf;
use crate::session_store::SessionStore;
use crate::spec_protocol;
use crate::spec_prologue;

verus! {

/// The transcript hash after the fixed initialization: the protocol name
/// rehashed with the prologue, then with the client ephemeral public key.
pub open spec fn spec_initial_hash(ephemeral_public: Seq<u8>) -> Seq<u8> {
    spec_sha256(spec_sha256(spec_protocol() + spec_prologue()) + ephemeral_public)
}

/// Salt and key after one Diffie-Hellman mix: the 64-byte expansion of the
/// shared secret under the old salt, split in half.
pub open spec fn spec_mixed_salt(salt: Seq<u8>, shared: Seq<u8>) -> Seq<u8> {
    spec_hkdf(salt, shared).subrange(0, 32)
}

pub open spec fn spec_mixed_key(salt: Seq<u8>, shared: Seq<u8>) -> Seq<u8> {
    spec_hkdf(salt, shared).subrange(32, 64)
}

pub struct Handshake {
    /// Running transcript hash; both peers must replay it identically.
    pub hash: Vec<u8>,
    /// Chained AEAD key of the handshake phase.
    pub crypto_key: Vec<u8>,
    /// Chained HKDF salt.
    pub salt: Vec<u8>,
    /// Handshake nonce counter.
    pub iv: u64,
}

impl Handshake {
    pub open spec fn wf(&self) -> bool {
        self.hash@.len() == 32 && self.crypto_key@.len() == 32 && self.salt@.len() == 32
    }

    /// A handshake initialized from the protocol constant, bound to the
    /// prologue and the client's ephemeral public key.
    pub fn new(ephemeral_public: &[u8]) -> (r: Handshake)
        ensures
            r.wf(),
            r.hash@ == spec_initial_hash(ephemeral_public@),
            r.crypto_key@ == spec_protocol(),
            r.salt@ == spec_protocol(),
            r.iv == 0,
    {
        let auth = Handshake {
            hash: crate::protocol(),
            crypto_key: crate::protocol(),
            salt: crate::protocol(),
            iv: 0,
        };
        let prologue = crate::prologue();
        auth.rehash(prologue.as_slice()).rehash(ephemeral_public)
    }

    /// Folds more exchanged bytes into the transcript hash.
    pub fn rehash(self, input: &[u8]) -> (r: Handshake)
        ensures
            r.hash@ == spec_sha256(self.hash@ + input@),
            r.hash@.len() == 32,
            r.crypto_key == self.crypto_key,
            r.salt == self.salt,
            r.iv == self.iv,
    {
        let hash = sha256(self.hash.as_slice(), input);
        Handshake { hash, crypto_key: self.crypto_key, salt: self.salt, iv: self.iv }
    }

    /// Folds more exchanged bytes into the transcript hash, in place.
    pub fn rehash_mut(&mut self, input: &[u8])
        ensures
            final(self).hash@ == spec_sha256(old(self).hash@ + input@),
            final(self).hash@.len() == 32,
            final(self).crypto_key == old(self).crypto_key,
            final(self).salt == old(self).salt,
            final(self).iv == old(self).iv,
    {
        self.hash = sha256(self.hash.as_slice(), input);
    }

    /// Mixes a Diffie-Hellman shared secret into the chain: the expansion
    /// under the old salt renews salt and key, and the nonce counter
    /// restarts.
    pub fn mix(&mut self, input: &[u8])
        requires
            old(self).wf(),
        ensures
            final(self).wf(),
            final(self).hash == old(self).hash,
            final(self).salt@ == spec_mixed_salt(old(self).salt@, input@),
            final(self).crypto_key@ == spec_mixed_key(old(self).salt@, input@),
            final(self).iv == 0,
    {
        let expanded = crate::security::hkdf::expand_extract(self.salt.as_slice(), input);
        self.salt = crate::session_store::copy_range(&expanded, 0, 32);
        self.crypto_key = crate::session_store::copy_range(&expanded, 32, 64);
        self.iv = 0;
    }

    /// Decrypts a handshake ciphertext under the current key, with the
    /// transcript hash as associated data and the next handshake nonce, then
    /// folds the ciphertext as received into the transcript. Fails exactly
    /// when authentication fails, leaving the state unchanged.
    pub fn decrypt(&mut self, input: &[u8]) -> (r: Result<Vec<u8>, Error>)
        requires
            old(self).wf(),
            old(self).iv < u64::MAX,
        ensures
            final(self).wf(),
            final(self).salt == old(self).salt,
            final(self).crypto_key == old(self).crypto_key,
            match r {
                Ok(msg) => spec_aes_decrypt(
                    old(self).crypto_key@,
                    spec_nonce(old(self).iv),
                    old(self).hash@,
                    input@,
                ) == Some(msg@) && final(self).iv == old(self).iv + 1 && final(self).hash@
                    == spec_sha256(old(self).hash@ + input@),
                Err(e) => spec_aes_decrypt(
                    old(self).crypto_key@,
                    spec_nonce(old(self).iv),
                    old(self).hash@,
                    input@,
                ) is None && e == Error::AesCipherFail && final(self).iv == old(self).iv && final(self).hash == old(self).hash,
            },
    {
        let nonce = self.iv.nonce();
        let decrypted = crate::security::aes::decrypt(
            self.crypto_key.as_slice(),
            self.hash.as_slice(),
            nonce.as_slice(),
            input,
        )?;
        self.iv = self.iv + 1;
        self.rehash_mut(input);
        Ok(decrypted)
    }

    /// Encrypts a handshake payload under the current key, with the
    /// transcript hash as associated data and the next handshake nonce, then
    /// folds the produced ciphertext into the transcript. Succeeds exactly
    /// when the payload fits the AEAD bound.
    pub fn encrypt(&mut self, input: &[u8]) -> (r: Result<Vec<u8>, Error>)
        requires
            old(self).wf(),
            old(self).iv < u64::MAX,
        ensures
            final(self).wf(),
            final(self).salt == old(self).salt,
            final(self).crypto_key == old(self).crypto_key,
            match r {
                Ok(ct) => input@.len() <= crate::security::aes::AEAD_P_MAX && ct@
                    == spec_aes_encrypt(
                    old(self).crypto_key@,
                    spec_nonce(old(self).iv),
                    old(self).hash@,
                    input@,
                ) && ct@.len() == input@.len() + 16 && final(self).iv == old(self).iv + 1 && final(self).hash@ == spec_sha256(old(self).hash@ + ct@),
                Err(e) => input@.len() > crate::security::aes::AEAD_P_MAX && e
                    == Error::AesCipherFail && final(self).iv == old(self).iv && final(self).hash
                    == old(self).hash,
            },
    {
        let nonce = self.iv.nonce();
        let encrypted = crate::security::aes::encrypt(
            self.crypto_key.as_slice(),
            self.hash.as_slice(),
            nonce.as_slice(),
            input,
        )?;
        self.iv = self.iv + 1;
        self.rehash_mut(encrypted.as_slice());
        Ok(encrypted)
    }

    /// Derives the steady-state session keys from the final salt and resets
    /// both direction counters; the transient handshake state is done.
    pub fn finish(&mut self, store: &mut SessionStore) -> (r: Result<(), Error>)
        ensures
            r is Ok,
            final(store).wf(),
            final(store).encode_key@ == spec_hkdf(old(self).salt@, Seq::empty()).subrange(0, 32),
            final(store).decode_key@ == spec_hkdf(old(self).salt@, Seq::empty()).subrange(32, 64),
            final(store).read_cnt == 0,
            final(store).write_cnt == 0,
            final(store).companion == old(store).companion,
            final(store).companion_identity == old(store).companion_identity,
            *final(self) == *old(self),
    {
        store.update(self.salt.as_slice())
    }

    /// The big-endian bytes of a number, truncated or padded to a length.
    pub fn int_to_bytes(input: u32, length: usize) -> (r: Vec<u8>)
        ensures
            r@ == spec_int_bytes(input as int, length as nat),
        decreases length,
    {
        if length == 0 {
            Vec::new()
        } else {
            let mut r = Handshake::int_to_bytes(input / 0x100, length - 1);
            r.push((input % 0x100) as u8);
            proof {
                assert(r@ =~= spec_int_bytes(input as int, length as nat));
            }
            r
        }
    }

    /// The plain fields of the client registration payload; the surrounding
    /// structured record schema serializes them elsewhere.
    pub fn create_user_payload(credentials: &Credentials) -> (r: UserPayload)
        requires
            credentials.wf(),
        ensures
            r.e_regid@ == spec_int_bytes(credentials.registration_id as int, 4),
            r.e_keytype@ == seq![5u8],
            r.e_ident@ == credentials.identity_keypair.public@,
            r.e_skey_id@ == spec_int_bytes(credentials.registration_id as int, 3),
            r.e_skey_val@ == credentials.signed_keypair.key_pair.public@,
            r.e_skey_sig@ == credentials.signed_keypair.signature@,
            r.build_hash@ == spec_md5("2.2228.14"@.map_values(|c: char| c as u8)),
            r.passive == true,
    {
        let version: &str = "2.2228.14";
        let vb = version.as_bytes_vec();
        proof {
            vstd::string::is_ascii_spec_bytes(version);
            reveal_strlit("2.2228.14");
            assert(vstd::string::is_ascii(version)) by {
                assert(vstd::utf8::is_ascii_chars(version@));
            }
            assert(vb@ =~= "2.2228.14"@.map_values(|c: char| c as u8));
        }
        let mut e_keytype: Vec<u8> = Vec::new();
        e_keytype.push(5);
        proof {
            assert(e_keytype@ =~= seq![5u8]);
        }
        UserPayload {
            e_regid: Handshake::int_to_bytes(credentials.registration_id, 4),
            e_keytype,
            e_ident: crate::clone_bytes(&credentials.identity_keypair.public),
            e_skey_id: Handshake::int_to_bytes(credentials.registration_id, 3),
            e_skey_val: crate::clone_bytes(&credentials.signed_keypair.key_pair.public),
            e_skey_sig: crate::clone_bytes(&credentials.signed_keypair.signature),
            build_hash: md5(vb.as_slice()),
            passive: true,
        }
    }
}

/// The value a big-endian byte string of the given length carries, reading
/// the number's low bytes.
pub open spec fn spec_int_bytes(x: int, length: nat) -> Seq<u8>
    decreases length,
{
    if length == 0 {
        Seq::empty()
    } else {
        spec_int_bytes(x / 0x100, (length - 1) as nat) + seq![(x % 0x100) as u8]
    }
}


/// The plain values of the client registration payload: registration
/// number, key type, identity key, and the signed prekey material.
pub struct UserPayload {
    pub e_regid: Vec<u8>,
    pub e_keytype: Vec<u8>,
    pub e_ident: Vec<u8>,
    pub e_skey_id: Vec<u8>,
    pub e_skey_val: Vec<u8>,
    pub e_skey_sig: Vec<u8>,
    pub build_hash: Vec<u8>,
    pub passive: bool,
}

} // verus!
