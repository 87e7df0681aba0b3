//! The client's long-lived and per-connection key material.

use vstd::prelude::*;
use rand::Rng;
use crate::security::keypair::{Keypair, SignedKeypair};

verus! {

/// Relies on rand::thread_rng().gen_range: a number drawn below the bound.
#[verifier::external_body]
fn random_below(bound: u32) -> (r: u32)
    requires
        bound > 0,
    ensures
        r < bound,
{
    rand::thread_rng().gen_range(0..bound)
}

pub struct Credentials {
    /// Long-lived static key of the encrypted channel.
    pub noise_keypair: Keypair,
    /// Regenerated for every connection attempt.
    pub ephemeral_keypair: Keypair,
    /// Long-lived identity key that signs pairing material.
    pub identity_keypair: Keypair,
    /// Signed prekey material advertised at registration.
    pub signed_keypair: SignedKeypair,
    /// Secret shared with the companion during pairing.
    pub companion_secret: Vec<u8>,
    /// Random, stable registration number.
    pub registration_id: u32,
}

impl Credentials {
    pub open spec fn wf(&self) -> bool {
        &&& self.noise_keypair.wf()
        &&& self.ephemeral_keypair.wf()
        &&& self.identity_keypair.wf()
        &&& self.signed_keypair.wf()
        &&& self.companion_secret@.len() == 32
    }

    pub fn noise_public(&self) -> (r: Vec<u8>)
        ensures
            r@ == self.noise_keypair.public@,
    {
        crate::clone_bytes(&self.noise_keypair.public)
    }

    pub fn noise_private(&self) -> (r: Vec<u8>)
        ensures
            r@ == self.noise_keypair.secret@,
    {
        crate::clone_bytes(&self.noise_keypair.secret)
    }

    pub fn identity_public(&self) -> (r: Vec<u8>)
        ensures
            r@ == self.identity_keypair.public@,
    {
        crate::clone_bytes(&self.identity_keypair.public)
    }

    pub fn identity_private(&self) -> (r: Vec<u8>)
        ensures
            r@ == self.identity_keypair.secret@,
    {
        crate::clone_bytes(&self.identity_keypair.secret)
    }

    pub fn ephemeral_public(&self) -> (r: Vec<u8>)
        ensures
            r@ == self.ephemeral_keypair.public@,
    {
        crate::clone_bytes(&self.ephemeral_keypair.public)
    }

    pub fn ephemeral_private(&self) -> (r: Vec<u8>)
        ensures
            r@ == self.ephemeral_keypair.secret@,
    {
        crate::clone_bytes(&self.ephemeral_keypair.secret)
    }

    /// A fresh ephemeral keypair for a new connection attempt; the long-lived
    /// material stays as it is.
    pub fn regenerate_ephemeral(&mut self)
        ensures
            final(self).ephemeral_keypair.wf(),
            final(self).noise_keypair == old(self).noise_keypair,
            final(self).identity_keypair == old(self).identity_keypair,
            final(self).signed_keypair == old(self).signed_keypair,
            final(self).companion_secret == old(self).companion_secret,
            final(self).registration_id == old(self).registration_id,
    {
        self.ephemeral_keypair = Keypair::generate();
    }
}

impl Default for Credentials {
    /// Fresh credentials: random keypairs, a signed prekey under the new
    /// identity key, and a small random registration number.
    fn default() -> (r: Credentials)
        ensures
            r.wf(),
            1 <= r.registration_id <= 16380,
    {
        let identity_keypair = Keypair::generate();
        let signed_keypair = SignedKeypair::new(&identity_keypair, 1);
        let registration_id = random_below(16380) + 1;
        let companion_secret = Keypair::generate().public;
        Credentials {
            noise_keypair: Keypair::generate(),
            ephemeral_keypair: Keypair::generate(),
            identity_keypair,
            signed_keypair,
            companion_secret,
            registration_id,
        }
    }
}

} // verus!
