//! Crypto primitives the protocol relies on, each behind a contract, and the
//! nonce discipline shared by the handshake and the steady-state session.

pub mod aes;
pub mod hash;
pub mod hkdf;
pub mod keypair;

use vstd::prelude::*;

verus! {

/// The 96-bit AEAD nonce a 64-bit counter yields: four zero bytes, then the
/// counter big-endian.
pub open spec fn spec_nonce(counter: u64) -> Seq<u8> {
    seq![0u8, 0u8, 0u8, 0u8] + spec_u64_be(counter)
}

/// The eight big-endian bytes of a 64-bit number.
pub open spec fn spec_u64_be(x: u64) -> Seq<u8> {
    seq![
        ((x as int) / 0x100000000000000 % 0x100) as u8,
        ((x as int) / 0x1000000000000 % 0x100) as u8,
        ((x as int) / 0x10000000000 % 0x100) as u8,
        ((x as int) / 0x100000000 % 0x100) as u8,
        ((x as int) / 0x1000000 % 0x100) as u8,
        ((x as int) / 0x10000 % 0x100) as u8,
        ((x as int) / 0x100 % 0x100) as u8,
        ((x as int) % 0x100) as u8,
    ]
}

/// The big-endian bytes of a 64-bit number.
pub fn u64_be(x: u64) -> (r: Vec<u8>)
    ensures
        r@ == spec_u64_be(x),
{
    let mut v: Vec<u8> = Vec::new();
    v.push((x / 0x100000000000000 % 0x100) as u8);
    v.push((x / 0x1000000000000 % 0x100) as u8);
    v.push((x / 0x10000000000 % 0x100) as u8);
    v.push((x / 0x100000000 % 0x100) as u8);
    v.push((x / 0x1000000 % 0x100) as u8);
    v.push((x / 0x10000 % 0x100) as u8);
    v.push((x / 0x100 % 0x100) as u8);
    v.push((x % 0x100) as u8);
    proof {
        assert(v@ =~= spec_u64_be(x));
    }
    v
}

/// Counters that turn into AEAD nonces.
pub trait AsNonce: Sized {
    /// The nonce this counter stands for.
    spec fn spec_nonce_of(self) -> Seq<u8>;

    /// The counter one step on.
    spec fn spec_stepped(self) -> Self;

    /// Whether the counter has room to step.
    spec fn spec_can_step(self) -> bool;

    fn nonce(self) -> (r: Vec<u8>)
        ensures
            r@ == self.spec_nonce_of(),
    ;

    fn get_increment_nonce_mut(&mut self) -> (r: Vec<u8>)
        requires
            old(self).spec_can_step(),
        ensures
            *final(self) == old(self).spec_stepped(),
            r@ == old(self).spec_nonce_of(),
    ;
}

impl AsNonce for u64 {
    open spec fn spec_nonce_of(self) -> Seq<u8> {
        spec_nonce(self)
    }

    open spec fn spec_stepped(self) -> u64 {
        (self + 1) as u64
    }

    open spec fn spec_can_step(self) -> bool {
        self < u64::MAX
    }

    fn nonce(self) -> (r: Vec<u8>) {
        let mut v: Vec<u8> = Vec::new();
        v.push(0);
        v.push(0);
        v.push(0);
        v.push(0);
        let be = u64_be(self);
        crate::encoder::push_all(&mut v, be.as_slice());
        proof {
            assert(v@ =~= spec_nonce(self));
        }
        v
    }

    fn get_increment_nonce_mut(&mut self) -> (r: Vec<u8>) {
        let previous = *self;
        *self += 1;
        previous.nonce()
    }
}

/// What base64 encoding yields; standard alphabet with padding, a function
/// of the bytes alone.
pub uninterp spec fn spec_base64(data: Seq<u8>) -> Seq<char>;

/// Relies on base64::encode with the standard alphabet.
#[verifier::external_body]
pub fn base64_encode(data: &[u8]) -> (r: String)
    ensures
        r@ == spec_base64(data@),
{
    base64::encode(data)
}

} // verus!
