//! The signed companion identity records exchanged during pairing. The
//! records travel as an opaque structured codec; this module holds their
//! fields as plain values and the byte blobs whose digests and signatures
//! the pairing flow checks.

use vstd::prelude::*;
use crate::credentials::Credentials;
use crate::error::Error;
use crate::security::keypair::{spec_sign, sign};

verus! {

/// Header of the blob whose account signature binds the record.
pub open spec fn spec_message_header() -> Seq<u8> {
    seq![6u8, 0u8]
}

/// Header of the blob whose device signature binds the record.
pub open spec fn spec_signature_header() -> Seq<u8> {
    seq![6u8, 1u8]
}

/// An HMAC-wrapped signed identity record as it arrives from the wire.
pub struct SignedDeviceIdentityHmac {
    pub details: Vec<u8>,
    pub hmac: Vec<u8>,
}

/// The parsed pieces of a pairing-success identity: the HMAC-wrapped
/// details, the inner signed record, and the key index the reply carries.
pub struct AdvIdentity {
    pub hmac_details: Vec<u8>,
    pub hmac: Vec<u8>,
    pub account: SignedDeviceIdentity,
    pub key_index: u32,
}

/// A signed identity record: serialized inner details, the account's signing
/// key and signature, and the device signature this client contributes.
pub struct SignedDeviceIdentity {
    pub details: Vec<u8>,
    pub account_signature_key: Vec<u8>,
    pub account_signature: Vec<u8>,
    pub device_signature: Vec<u8>,
}

/// The blob the account signature covers: header, details, and the local
/// identity public key.
pub open spec fn spec_account_message(details: Seq<u8>, identity_public: Seq<u8>) -> Seq<u8> {
    spec_message_header() + details + identity_public
}

/// The blob the device signature covers: header, details, local identity
/// public key, and the account signing key.
pub open spec fn spec_device_message(
    details: Seq<u8>,
    identity_public: Seq<u8>,
    account_key: Seq<u8>,
) -> Seq<u8> {
    spec_signature_header() + details + identity_public + account_key
}

impl SignedDeviceIdentity {
    /// The blob whose account signature the pairing flow verifies.
    pub fn form_message(&self, credentials: &Credentials) -> (r: Vec<u8>)
        ensures
            r@ == spec_account_message(self.details@, credentials.identity_keypair.public@),
    {
        let mut out: Vec<u8> = Vec::new();
        out.push(6);
        out.push(0);
        crate::encoder::push_all(&mut out, self.details.as_slice());
        crate::encoder::push_all(&mut out, credentials.identity_keypair.public.as_slice());
        proof {
            assert(out@ =~= spec_account_message(
                self.details@,
                credentials.identity_keypair.public@,
            ));
        }
        out
    }

    /// Re-signs the record with the local long-lived identity key, filling
    /// the device signature.
    pub fn sign(&mut self, credentials: &Credentials) -> (r: Result<(), Error>)
        requires
            credentials.wf(),
        ensures
            r is Ok,
            final(self).details@ == old(self).details@,
            final(self).account_signature_key@ == old(self).account_signature_key@,
            final(self).account_signature@ == old(self).account_signature@,
            final(self).device_signature@ == spec_sign(
                credentials.identity_keypair.secret@,
                spec_device_message(
                    old(self).details@,
                    credentials.identity_keypair.public@,
                    old(self).account_signature_key@,
                ),
            ),
    {
        let mut message: Vec<u8> = Vec::new();
        message.push(6);
        message.push(1);
        crate::encoder::push_all(&mut message, self.details.as_slice());
        crate::encoder::push_all(&mut message, credentials.identity_keypair.public.as_slice());
        crate::encoder::push_all(&mut message, self.account_signature_key.as_slice());
        proof {
            assert(message@ =~= spec_device_message(
                self.details@,
                credentials.identity_keypair.public@,
                self.account_signature_key@,
            ));
        }
        match sign(credentials.identity_keypair.secret.as_slice(), message.as_slice()) {
            Ok(signature) => {
                self.device_signature = signature;
                Ok(())
            },
            Err(_) => vstd::pervasive::unreached(),
        }
    }

    /// The record with its account signing key stripped, as the reply to the
    /// companion carries it.
    pub fn without_key(&self) -> (r: SignedDeviceIdentity)
        ensures
            r.details@ == self.details@,
            r.account_signature_key@.len() == 0,
            r.account_signature@ == self.account_signature@,
            r.device_signature@ == self.device_signature@,
    {
        SignedDeviceIdentity {
            details: crate::clone_bytes(&self.details),
            account_signature_key: Vec::new(),
            account_signature: crate::clone_bytes(&self.account_signature),
            device_signature: crate::clone_bytes(&self.device_signature),
        }
    }

    /// An identical copy of the record.
    pub fn duplicate(&self) -> (r: SignedDeviceIdentity)
        ensures
            r.details@ == self.details@,
            r.account_signature_key@ == self.account_signature_key@,
            r.account_signature@ == self.account_signature@,
            r.device_signature@ == self.device_signature@,
    {
        SignedDeviceIdentity {
            details: crate::clone_bytes(&self.details),
            account_signature_key: crate::clone_bytes(&self.account_signature_key),
            account_signature: crate::clone_bytes(&self.account_signature),
            device_signature: crate::clone_bytes(&self.device_signature),
        }
    }
}

} // verus!
