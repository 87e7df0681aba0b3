//! The client side of the key agreement: drives the handshake over a parsed
//! server hello and derives the steady-state session keys.

use vstd::prelude::*;
use crate::error::Error;
use crate::credentials::Credentials;
use crate::handshake::{spec_initial_hash, spec_mixed_key, spec_mixed_salt, Handshake};
use crate::security::spec_nonce;
use crate::security::aes::{spec_aes_decrypt, spec_aes_encrypt};
use crate::security::hash::spec_sha256;
use crate::security::hkdf::spec_hkdf;
use crate::security::keypair::{spec_x25519_dh, Keypair};
use crate::session_store::SessionStore;

verus! {

/// The fields of a parsed server hello: the server's ephemeral public key,
/// its AEAD-encrypted static key, and an AEAD-encrypted payload.
pub struct ServerHello {
    pub ephemeral: Vec<u8>,
    pub server_static: Vec<u8>,
    pub payload: Vec<u8>,
}

/// The fields of the client's finishing message: the encrypted noise public
/// key and the encrypted registration payload.
pub struct ClientFinish {
    pub static_key: Vec<u8>,
    pub payload: Vec<u8>,
}

/// What one complete login run yields as a function of the credentials, the
/// server hello fields, and the serialized registration payload: the two
/// finish ciphertexts and the derived session keys. Nothing when an AEAD
/// decryption fails or a key has the wrong length.
pub open spec fn spec_login(
    eph_pub: Seq<u8>,
    eph_sec: Seq<u8>,
    noise_pub: Seq<u8>,
    noise_sec: Seq<u8>,
    hello_eph: Seq<u8>,
    hello_static: Seq<u8>,
    hello_payload: Seq<u8>,
    user_payload: Seq<u8>,
) -> Option<(Seq<u8>, Seq<u8>, Seq<u8>, Seq<u8>)> {
    if hello_eph.len() != 32 {
        None
    } else {
        let h1 = spec_sha256(spec_initial_hash(eph_pub) + hello_eph);
        let shared1 = spec_x25519_dh(eph_sec, hello_eph);
        let salt1 = spec_mixed_salt(crate::spec_protocol(), shared1);
        let key1 = spec_mixed_key(crate::spec_protocol(), shared1);
        match spec_aes_decrypt(key1, spec_nonce(0), h1, hello_static) {
            None => None,
            Some(decoded_static) => if decoded_static.len() != 32 {
                None
            } else {
                let h2 = spec_sha256(h1 + hello_static);
                let shared2 = spec_x25519_dh(eph_sec, decoded_static);
                let salt2 = spec_mixed_salt(salt1, shared2);
                let key2 = spec_mixed_key(salt1, shared2);
                match spec_aes_decrypt(key2, spec_nonce(0), h2, hello_payload) {
                    None => None,
                    Some(_) => {
                        let h3 = spec_sha256(h2 + hello_payload);
                        let finish_static = spec_aes_encrypt(key2, spec_nonce(1), h3, noise_pub);
                        let h4 = spec_sha256(h3 + finish_static);
                        let shared3 = spec_x25519_dh(noise_sec, hello_eph);
                        let salt3 = spec_mixed_salt(salt2, shared3);
                        let key3 = spec_mixed_key(salt2, shared3);
                        let finish_payload = spec_aes_encrypt(
                            key3,
                            spec_nonce(0),
                            h4,
                            user_payload,
                        );
                        let session = spec_hkdf(salt3, Seq::empty());
                        Some(
                            (
                                finish_static,
                                finish_payload,
                                session.subrange(0, 32),
                                session.subrange(32, 64),
                            ),
                        )
                    },
                }
            },
        }
    }
}

/// Two login runs over the same keys and the same bytes derive the same
/// finish message and the same session keys: the run is a function of its
/// inputs, with no hidden state.
pub proof fn lemma_handshake_deterministic(
    eph_pub: Seq<u8>,
    eph_sec: Seq<u8>,
    noise_pub: Seq<u8>,
    noise_sec: Seq<u8>,
    hello_eph: Seq<u8>,
    hello_static: Seq<u8>,
    hello_payload: Seq<u8>,
    user_payload: Seq<u8>,
    first: Option<(Seq<u8>, Seq<u8>, Seq<u8>, Seq<u8>)>,
    second: Option<(Seq<u8>, Seq<u8>, Seq<u8>, Seq<u8>)>,
)
    requires
        first == spec_login(
            eph_pub,
            eph_sec,
            noise_pub,
            noise_sec,
            hello_eph,
            hello_static,
            hello_payload,
            user_payload,
        ),
        second == spec_login(
            eph_pub,
            eph_sec,
            noise_pub,
            noise_sec,
            hello_eph,
            hello_static,
            hello_payload,
            user_payload,
        ),
    ensures
        first == second,
{
}

pub struct AuthHandler;

impl AuthHandler {
    /// Runs the whole key agreement against a parsed server hello: replays
    /// the transcript, mixes the three Diffie-Hellman exchanges, checks both
    /// server ciphertexts, encrypts the noise key and the serialized
    /// registration payload, and installs the derived keys in the store.
    ///
    /// Succeeds exactly when the server's ciphertexts authenticate, the keys
    /// have their wire lengths, and the registration payload fits the AEAD
    /// bound.
    pub fn create_login(
        credentials: &Credentials,
        hello: &ServerHello,
        user_payload: &[u8],
        store: &mut SessionStore,
    ) -> (r: Result<ClientFinish, Error>)
        requires
            credentials.wf(),
        ensures
            match r {
                Ok(cf) => ({
                    &&& spec_login(
                        credentials.ephemeral_keypair.public@,
                        credentials.ephemeral_keypair.secret@,
                        credentials.noise_keypair.public@,
                        credentials.noise_keypair.secret@,
                        hello.ephemeral@,
                        hello.server_static@,
                        hello.payload@,
                        user_payload@,
                    ) matches Some(out)
                    &&& out.0 == cf.static_key@
                    &&& out.1 == cf.payload@
                    &&& out.2 == final(store).encode_key@
                    &&& out.3 == final(store).decode_key@
                    &&& final(store).read_cnt == 0
                    &&& final(store).write_cnt == 0
                    &&& final(store).companion == old(store).companion
                    &&& final(store).companion_identity == old(store).companion_identity
                }),
                Err(e) => spec_login(
                    credentials.ephemeral_keypair.public@,
                    credentials.ephemeral_keypair.secret@,
                    credentials.noise_keypair.public@,
                    credentials.noise_keypair.secret@,
                    hello.ephemeral@,
                    hello.server_static@,
                    hello.payload@,
                    user_payload@,
                ) is None || user_payload@.len() > crate::security::aes::AEAD_P_MAX,
            },
    {
        let mut handshake_auth = Handshake::new(credentials.ephemeral_keypair.public.as_slice());
        handshake_auth.rehash_mut(hello.ephemeral.as_slice());
        AuthHandler::mix_ephemeral_shared(
            &mut handshake_auth,
            &credentials.ephemeral_keypair,
            hello.ephemeral.as_slice(),
        )?;
        AuthHandler::mix_static(
            &mut handshake_auth,
            &credentials.ephemeral_keypair,
            hello.server_static.as_slice(),
        )?;
        AuthHandler::process_payload(&mut handshake_auth, hello.payload.as_slice())?;
        let encrypted_key = handshake_auth.encrypt(credentials.noise_keypair.public.as_slice())?;
        AuthHandler::mix_noise_shared(
            &mut handshake_auth,
            &credentials.noise_keypair,
            hello.ephemeral.as_slice(),
        )?;
        let encrypted_payload = handshake_auth.encrypt(user_payload)?;
        handshake_auth.finish(store)?;
        Ok(ClientFinish { static_key: encrypted_key, payload: encrypted_payload })
    }

    /// Mixes the ephemeral-to-ephemeral shared secret.
    fn mix_ephemeral_shared(
        handshake: &mut Handshake,
        ephemeral: &Keypair,
        their_ephemeral: &[u8],
    ) -> (r: Result<(), Error>)
        requires
            old(handshake).wf(),
            ephemeral.wf(),
        ensures
            final(handshake).wf(),
            final(handshake).hash == old(handshake).hash,
            match r {
                Ok(_) => ({
                    let shared = spec_x25519_dh(ephemeral.secret@, their_ephemeral@);
                    &&& their_ephemeral@.len() == 32
                    &&& final(handshake).salt@ == spec_mixed_salt(old(handshake).salt@, shared)
                    &&& final(handshake).crypto_key@ == spec_mixed_key(
                        old(handshake).salt@,
                        shared,
                    )
                    &&& final(handshake).iv == 0
                }),
                Err(e) => their_ephemeral@.len() != 32 && e == Error::IntoError,
            },
    {
        let shared = ephemeral.exchange(their_ephemeral)?;
        handshake.mix(shared.as_slice());
        Ok(())
    }

    /// Mixes the shared secret against the noise static key.
    fn mix_noise_shared(handshake: &mut Handshake, noise: &Keypair, their_ephemeral: &[u8]) -> (r:
        Result<(), Error>)
        requires
            old(handshake).wf(),
            noise.wf(),
        ensures
            final(handshake).wf(),
            final(handshake).hash == old(handshake).hash,
            match r {
                Ok(_) => ({
                    let shared = spec_x25519_dh(noise.secret@, their_ephemeral@);
                    &&& their_ephemeral@.len() == 32
                    &&& final(handshake).salt@ == spec_mixed_salt(old(handshake).salt@, shared)
                    &&& final(handshake).crypto_key@ == spec_mixed_key(
                        old(handshake).salt@,
                        shared,
                    )
                    &&& final(handshake).iv == 0
                }),
                Err(e) => their_ephemeral@.len() != 32 && e == Error::IntoError,
            },
    {
        let shared = noise.exchange(their_ephemeral)?;
        handshake.mix(shared.as_slice());
        Ok(())
    }

    /// Decrypts the server's encrypted static key and mixes the exchange
    /// against it.
    fn mix_static(handshake: &mut Handshake, ephemeral: &Keypair, their_static: &[u8]) -> (r:
        Result<(), Error>)
        requires
            old(handshake).wf(),
            old(handshake).iv < u64::MAX,
            ephemeral.wf(),
        ensures
            final(handshake).wf(),
            match r {
                Ok(_) => ({
                    let decoded = spec_aes_decrypt(
                        old(handshake).crypto_key@,
                        spec_nonce(old(handshake).iv),
                        old(handshake).hash@,
                        their_static@,
                    );
                    &&& decoded matches Some(ds)
                    &&& ds.len() == 32
                    &&& ({
                        let shared = spec_x25519_dh(ephemeral.secret@, ds);
                        &&& final(handshake).hash@ == spec_sha256(
                            old(handshake).hash@ + their_static@,
                        )
                        &&& final(handshake).salt@ == spec_mixed_salt(
                            old(handshake).salt@,
                            shared,
                        )
                        &&& final(handshake).crypto_key@ == spec_mixed_key(
                            old(handshake).salt@,
                            shared,
                        )
                        &&& final(handshake).iv == 0
                    })
                }),
                Err(e) => ({
                    ||| (spec_aes_decrypt(
                        old(handshake).crypto_key@,
                        spec_nonce(old(handshake).iv),
                        old(handshake).hash@,
                        their_static@,
                    ) is None && e == Error::AesCipherFail)
                    ||| (e == Error::IntoError && (spec_aes_decrypt(
                        old(handshake).crypto_key@,
                        spec_nonce(old(handshake).iv),
                        old(handshake).hash@,
                        their_static@,
                    ) matches Some(ds) && ds.len() != 32))
                }),
            },
    {
        let decoded_static = handshake.decrypt(their_static)?;
        let shared = ephemeral.exchange(decoded_static.as_slice())?;
        handshake.mix(shared.as_slice());
        Ok(())
    }

    /// Decrypts and discards the server's hello payload, folding its bytes
    /// into the transcript.
    fn process_payload(handshake: &mut Handshake, their_payload: &[u8]) -> (r: Result<(), Error>)
        requires
            old(handshake).wf(),
            old(handshake).iv < u64::MAX,
        ensures
            final(handshake).wf(),
            final(handshake).salt == old(handshake).salt,
            final(handshake).crypto_key == old(handshake).crypto_key,
            match r {
                Ok(_) => spec_aes_decrypt(
                    old(handshake).crypto_key@,
                    spec_nonce(old(handshake).iv),
                    old(handshake).hash@,
                    their_payload@,
                ) is Some && final(handshake).hash@ == spec_sha256(
                    old(handshake).hash@ + their_payload@,
                ) && final(handshake).iv == old(handshake).iv + 1,
                Err(e) => spec_aes_decrypt(
                    old(handshake).crypto_key@,
                    spec_nonce(old(handshake).iv),
                    old(handshake).hash@,
                    their_payload@,
                ) is None && e == Error::AesCipherFail,
            },
    {
        let _ = handshake.decrypt(their_payload)?;
        Ok(())
    }
}

} // verus!
