//! Curve25519 key agreement and the signed prekey: key generation and
//! Diffie-Hellman behind contracts, signatures over the prefixed public-key
//! blob.

use vstd::prelude::*;
use ed25519_dalek::Verifier;
use crate::error::Error;

verus! {

/// The public key a Curve25519 secret determines.
pub uninterp spec fn spec_x25519_public(secret: Seq<u8>) -> Seq<u8>;

/// The shared secret a Curve25519 exchange yields; a function of the secret
/// and the peer public key alone.
pub uninterp spec fn spec_x25519_dh(secret: Seq<u8>, their_public: Seq<u8>) -> Seq<u8>;

/// What signing a message under a key yields; the signature is deterministic
/// in key and message.
pub uninterp spec fn spec_sign(secret: Seq<u8>, message: Seq<u8>) -> Seq<u8>;

/// Whether a signature verifies for a key and message.
pub uninterp spec fn spec_sig_valid(public: Seq<u8>, message: Seq<u8>, signature: Seq<u8>) -> bool;

/// Relies on x25519_dalek::StaticSecret::new with the operating system's
/// random number generator; each call draws a fresh 32-byte secret.
#[verifier::external_body]
fn generate_secret() -> (r: Vec<u8>)
    ensures
        r@.len() == 32,
{
    x25519_dalek::StaticSecret::new(rand_core::OsRng).to_bytes().to_vec()
}

/// Relies on x25519_dalek::PublicKey::from a static secret.
#[verifier::external_body]
fn x25519_public(secret: &[u8]) -> (r: Vec<u8>)
    requires
        secret@.len() == 32,
    ensures
        r@ == spec_x25519_public(secret@),
        r@.len() == 32,
{
    let mut raw = [0u8; 32];
    raw.copy_from_slice(secret);
    let sk = x25519_dalek::StaticSecret::from(raw);
    x25519_dalek::PublicKey::from(&sk).to_bytes().to_vec()
}

/// Relies on x25519_dalek::StaticSecret::diffie_hellman.
#[verifier::external_body]
fn x25519_dh(secret: &[u8], their_public: &[u8]) -> (r: Vec<u8>)
    requires
        secret@.len() == 32,
        their_public@.len() == 32,
    ensures
        r@ == spec_x25519_dh(secret@, their_public@),
        r@.len() == 32,
{
    let mut raw = [0u8; 32];
    raw.copy_from_slice(secret);
    let sk = x25519_dalek::StaticSecret::from(raw);
    let mut praw = [0u8; 32];
    praw.copy_from_slice(their_public);
    let pk = x25519_dalek::PublicKey::from(praw);
    sk.diffie_hellman(&pk).to_bytes().to_vec()
}

/// Relies on ed25519_dalek: the deterministic 64-byte signature of the
/// message under the 32-byte signing key; fails exactly on a key of the
/// wrong length.
#[verifier::external_body]
pub fn sign(key: &[u8], message: &[u8]) -> (r: Result<Vec<u8>, Error>)
    ensures
        match r {
            Ok(sig) => key@.len() == 32 && sig@ == spec_sign(key@, message@) && sig@.len() == 64,
            Err(e) => key@.len() != 32 && e == Error::IntoError,
        },
{
    let secret = match ed25519_dalek::SecretKey::from_bytes(key) {
        Ok(s) => s,
        Err(_) => {
            return Err(Error::IntoError);
        },
    };
    let public = ed25519_dalek::PublicKey::from(&secret);
    let expanded = ed25519_dalek::ExpandedSecretKey::from(&secret);
    Ok(expanded.sign(message, &public).to_bytes().to_vec())
}

/// Relies on ed25519_dalek::PublicKey::verify; fails when the key or the
/// signature does not parse (a wrong length, a key off the curve, stray
/// bits in the signature's last byte), and otherwise reports whether the
/// signature verifies.
#[verifier::external_body]
pub fn verify_signature(their_key: &[u8], message: &[u8], signature: &[u8]) -> (r: Result<
    bool,
    Error,
>)
    ensures
        match r {
            Ok(b) => their_key@.len() == 32 && signature@.len() == 64 && b == spec_sig_valid(
                their_key@,
                message@,
                signature@,
            ),
            Err(e) => e == Error::IntoError,
        },
{
    match (
        ed25519_dalek::PublicKey::from_bytes(their_key),
        ed25519_dalek::Signature::try_from(signature),
    ) {
        (Ok(public), Ok(sig)) => Ok(public.verify(message, &sig).is_ok()),
        _ => Err(Error::IntoError),
    }
}

pub struct Keypair {
    pub public: Vec<u8>,
    pub secret: Vec<u8>,
}

impl Keypair {
    /// Both halves are 32 bytes and belong together.
    pub open spec fn wf(&self) -> bool {
        self.public@.len() == 32 && self.secret@.len() == 32 && self.public@
            == spec_x25519_public(self.secret@)
    }

    /// A fresh random keypair.
    pub fn generate() -> (r: Keypair)
        ensures
            r.wf(),
    {
        let secret = generate_secret();
        let public = x25519_public(secret.as_slice());
        Keypair { public, secret }
    }

    /// The shared secret against a peer public key; fails exactly when the
    /// peer key is not 32 bytes.
    pub fn exchange(&self, their_key: &[u8]) -> (r: Result<Vec<u8>, Error>)
        requires
            self.wf(),
        ensures
            match r {
                Ok(shared) => their_key@.len() == 32 && shared@ == spec_x25519_dh(
                    self.secret@,
                    their_key@,
                ),
                Err(e) => their_key@.len() != 32 && e == Error::IntoError,
            },
    {
        if their_key.len() != 32 {
            return Err(Error::IntoError);
        }
        Ok(x25519_dh(self.secret.as_slice(), their_key))
    }

    /// An identical copy of this keypair.
    pub fn duplicate(&self) -> (r: Keypair)
        ensures
            r.public@ == self.public@,
            r.secret@ == self.secret@,
    {
        Keypair {
            public: crate::clone_bytes(&self.public),
            secret: crate::clone_bytes(&self.secret),
        }
    }
}

impl Default for Keypair {
    /// A fresh random keypair.
    fn default() -> (r: Keypair)
        ensures
            r.wf(),
    {
        Keypair::generate()
    }
}

pub struct SignedKeypair {
    pub key_pair: Keypair,
    pub signature: Vec<u8>,
    pub key_id: u32,
}

/// The blob whose signature a signed prekey carries: a type byte, then the
/// public key.
pub open spec fn spec_signal_blob(public: Seq<u8>) -> Seq<u8> {
    seq![5u8] + public
}

impl SignedKeypair {
    pub open spec fn wf(&self) -> bool {
        self.key_pair.wf()
    }

    /// A fresh signing pair whose public half is signed by the long-lived
    /// identity key over the type-prefixed blob.
    pub fn new(identity: &Keypair, key_id: u32) -> (r: SignedKeypair)
        requires
            identity.wf(),
        ensures
            r.wf(),
            r.key_id == key_id,
            r.signature@ == spec_sign(identity.secret@, spec_signal_blob(r.key_pair.public@)),
    {
        let key_pair = Keypair::generate();
        let mut blob: Vec<u8> = Vec::new();
        blob.push(5);
        crate::encoder::push_all(&mut blob, key_pair.public.as_slice());
        proof {
            assert(blob@ =~= spec_signal_blob(key_pair.public@));
        }
        match sign(identity.secret.as_slice(), blob.as_slice()) {
            Ok(signature) => SignedKeypair { key_pair, signature, key_id },
            Err(_) => vstd::pervasive::unreached(),
        }
    }

    /// An identical copy of this signed keypair.
    pub fn duplicate(&self) -> (r: SignedKeypair)
        ensures
            r.key_pair.public@ == self.key_pair.public@,
            r.key_pair.secret@ == self.key_pair.secret@,
            r.signature@ == self.signature@,
            r.key_id == self.key_id,
    {
        SignedKeypair {
            key_pair: self.key_pair.duplicate(),
            signature: crate::clone_bytes(&self.signature),
            key_id: self.key_id,
        }
    }
}

} // verus!
