//! The steady-state symmetric session: one key and one nonce counter per
//! direction, and the companion identity once pairing has completed.

use vstd::prelude::*;
use crate::adv::SignedDeviceIdentity;
use crate::error::Error;
use crate::jid::ContactJid;
use crate::security::{spec_nonce, AsNonce};
use crate::security::aes::{spec_aes_decrypt, spec_aes_encrypt};
use crate::security::hkdf::spec_hkdf;

verus! {

pub enum TrafficType {
    Ingoing,
    Outgoing,
}

pub struct SessionStore {
    pub decode_key: Vec<u8>,
    pub encode_key: Vec<u8>,
    pub read_cnt: u64,
    pub write_cnt: u64,
    pub companion: Option<ContactJid>,
    pub companion_identity: Option<SignedDeviceIdentity>,
}

impl SessionStore {
    pub open spec fn wf(&self) -> bool {
        self.decode_key@.len() == 32 && self.encode_key@.len() == 32
    }

    /// A store with zeroed keys and counters and no companion.
    pub fn new() -> (r: SessionStore)
        ensures
            r.wf(),
            r.decode_key@ == crate::spec_zeros(32),
            r.encode_key@ == crate::spec_zeros(32),
            r.read_cnt == 0,
            r.write_cnt == 0,
            r.companion is None,
            r.companion_identity is None,
    {
        SessionStore {
            decode_key: crate::zeros(32),
            encode_key: crate::zeros(32),
            read_cnt: 0,
            write_cnt: 0,
            companion: None,
            companion_identity: None,
        }
    }

    /// The next nonce of the chosen direction; the counter steps by one and
    /// the nonce carries its value before the step.
    pub fn count_nonce(&mut self, traffic: TrafficType) -> (r: Vec<u8>)
        requires
            old(self).write_cnt < u64::MAX,
            old(self).read_cnt < u64::MAX,
        ensures
            final(self).decode_key == old(self).decode_key,
            final(self).encode_key == old(self).encode_key,
            final(self).companion == old(self).companion,
            final(self).companion_identity == old(self).companion_identity,
            match traffic {
                TrafficType::Ingoing => final(self).read_cnt == old(self).read_cnt + 1 && final(self).write_cnt == old(self).write_cnt && r@ == spec_nonce(old(self).read_cnt),
                TrafficType::Outgoing => final(self).write_cnt == old(self).write_cnt + 1 && final(self).read_cnt == old(self).read_cnt && r@ == spec_nonce(old(self).write_cnt),
            },
    {
        match traffic {
            TrafficType::Ingoing => self.read_cnt.get_increment_nonce_mut(),
            TrafficType::Outgoing => self.write_cnt.get_increment_nonce_mut(),
        }
    }

    /// Encrypts an outbound payload under the outbound key with the next
    /// send nonce and no associated data; the send counter steps by one, and
    /// the call succeeds exactly when the payload fits the AEAD bound.
    pub fn encrypt(&mut self, input: &[u8]) -> (r: Result<Vec<u8>, Error>)
        requires
            old(self).wf(),
            old(self).write_cnt < u64::MAX,
            old(self).read_cnt < u64::MAX,
        ensures
            final(self).wf(),
            final(self).decode_key == old(self).decode_key,
            final(self).encode_key == old(self).encode_key,
            final(self).companion == old(self).companion,
            final(self).companion_identity == old(self).companion_identity,
            final(self).read_cnt == old(self).read_cnt,
            final(self).write_cnt == old(self).write_cnt + 1,
            match r {
                Ok(ct) => input@.len() <= crate::security::aes::AEAD_P_MAX && ct@
                    == spec_aes_encrypt(
                    old(self).encode_key@,
                    spec_nonce(old(self).write_cnt),
                    Seq::empty(),
                    input@,
                ) && ct@.len() == input@.len() + 16,
                Err(e) => input@.len() > crate::security::aes::AEAD_P_MAX && e
                    == Error::AesCipherFail,
            },
    {
        let nonce = self.count_nonce(TrafficType::Outgoing);
        crate::security::aes::encrypt_no_hash(self.encode_key.as_slice(), nonce.as_slice(), input)
    }

    /// Decrypts an inbound payload under the inbound key with the next
    /// receive nonce and no associated data; the receive counter steps by
    /// one, and an authentication failure is exactly a tag mismatch.
    pub fn decrypt(&mut self, input: &[u8]) -> (r: Result<Vec<u8>, Error>)
        requires
            old(self).wf(),
            old(self).write_cnt < u64::MAX,
            old(self).read_cnt < u64::MAX,
        ensures
            final(self).wf(),
            final(self).decode_key == old(self).decode_key,
            final(self).encode_key == old(self).encode_key,
            final(self).companion == old(self).companion,
            final(self).companion_identity == old(self).companion_identity,
            final(self).write_cnt == old(self).write_cnt,
            final(self).read_cnt == old(self).read_cnt + 1,
            match r {
                Ok(msg) => spec_aes_decrypt(
                    old(self).decode_key@,
                    spec_nonce(old(self).read_cnt),
                    Seq::empty(),
                    input@,
                ) == Some(msg@),
                Err(e) => spec_aes_decrypt(
                    old(self).decode_key@,
                    spec_nonce(old(self).read_cnt),
                    Seq::empty(),
                    input@,
                ) is None && e == Error::AesCipherFail,
            },
    {
        let nonce = self.count_nonce(TrafficType::Ingoing);
        crate::security::aes::decrypt_no_hash(self.decode_key.as_slice(), nonce.as_slice(), input)
    }

    /// Derives fresh session keys from the handshake salt: the first half of
    /// the expansion keys the outbound direction, the second the inbound,
    /// and both counters restart at zero.
    pub fn update(&mut self, salt: &[u8]) -> (r: Result<(), Error>)
        ensures
            r is Ok,
            final(self).wf(),
            final(self).encode_key@ == spec_hkdf(salt@, Seq::empty()).subrange(0, 32),
            final(self).decode_key@ == spec_hkdf(salt@, Seq::empty()).subrange(32, 64),
            final(self).read_cnt == 0,
            final(self).write_cnt == 0,
            final(self).companion == old(self).companion,
            final(self).companion_identity == old(self).companion_identity,
    {
        let empty: Vec<u8> = Vec::new();
        let expanded = crate::security::hkdf::expand_extract(salt, empty.as_slice());
        self.encode_key = copy_range(&expanded, 0, 32);
        self.decode_key = copy_range(&expanded, 32, 64);
        self.read_cnt = 0;
        self.write_cnt = 0;
        Ok(())
    }

    /// Zeroes both keys and both counters, as a disconnect or forced
    /// reconnect demands; the companion identity survives.
    pub fn reset(&mut self)
        ensures
            final(self).wf(),
            final(self).encode_key@ == crate::spec_zeros(32),
            final(self).decode_key@ == crate::spec_zeros(32),
            final(self).read_cnt == 0,
            final(self).write_cnt == 0,
            final(self).companion == old(self).companion,
            final(self).companion_identity == old(self).companion_identity,
    {
        self.encode_key = crate::zeros(32);
        self.decode_key = crate::zeros(32);
        self.read_cnt = 0;
        self.write_cnt = 0;
    }
}

/// The bytes of `b` from `from` to `to`.
pub fn copy_range(b: &Vec<u8>, from: usize, to: usize) -> (r: Vec<u8>)
    requires
        from <= to <= b@.len(),
    ensures
        r@ == b@.subrange(from as int, to as int),
{
    let mut out: Vec<u8> = Vec::new();
    let mut i: usize = from;
    while i < to
        invariant
            from <= i <= to <= b@.len(),
            out@ == b@.subrange(from as int, i as int),
        decreases to - i,
    {
        out.push(b[i]);
        proof {
            assert(out@ =~= b@.subrange(from as int, i + 1));
        }
        i += 1;
    }
    out
}

} // verus!
