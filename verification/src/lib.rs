//! Client core for a multi-device messaging wire protocol: binary tree codec,
//! length-prefixed frame codec, Noise-style handshake, ratcheting symmetric
//! session, and the connection-phase dispatcher.

pub mod codec;
pub mod jid;
pub mod node;
pub mod tokens;
pub mod encoder;
pub mod decoder;
pub mod security;
pub mod adv;
pub mod credentials;
pub mod session_store;
pub mod handshake;
pub mod auth;
pub mod state;
pub mod message;
pub mod version;
pub mod session;
pub mod stream;
pub mod media_connection;
pub mod error;
pub mod tag;
pub mod text;

use vstd::prelude::*;

verus! {

/// Fixed protocol-name constant identifying the cipher suite; the initial
/// value of the handshake transcript hash, salt and key: the ASCII bytes of
/// `Noise_XX_25519_AESGCM_SHA256` padded with four zero bytes.
pub open spec fn spec_protocol() -> Seq<u8> {
    seq![
        78u8, 111, 105, 115, 101, 95, 88, 88, 95, 50, 53, 53, 49, 57, 95, 65, 69, 83, 71, 67, 77,
        95, 83, 72, 65, 50, 53, 54, 0, 0, 0, 0,
    ]
}

/// The protocol-name constant as a byte vector.
pub fn protocol() -> (r: Vec<u8>)
    ensures
        r@ == spec_protocol(),
        r@.len() == 32,
{
    let mut v: Vec<u8> = Vec::new();
    v.push(78);
    v.push(111);
    v.push(105);
    v.push(115);
    v.push(101);
    v.push(95);
    v.push(88);
    v.push(88);
    v.push(95);
    v.push(50);
    v.push(53);
    v.push(53);
    v.push(49);
    v.push(57);
    v.push(95);
    v.push(65);
    v.push(69);
    v.push(83);
    v.push(71);
    v.push(67);
    v.push(77);
    v.push(95);
    v.push(83);
    v.push(72);
    v.push(65);
    v.push(50);
    v.push(53);
    v.push(54);
    v.push(0);
    v.push(0);
    v.push(0);
    v.push(0);
    assert(v@ =~= spec_protocol());
    v
}

/// A sequence of `n` zero bytes.
pub open spec fn spec_zeros(n: nat) -> Seq<u8> {
    Seq::new(n, |i: int| 0u8)
}

/// A zeroed byte vector of the given length.
pub fn zeros(n: usize) -> (r: Vec<u8>)
    ensures
        r@ == spec_zeros(n as nat),
{
    let mut v: Vec<u8> = Vec::new();
    let mut i: usize = 0;
    while i < n
        invariant
            i <= n,
            v@ == spec_zeros(i as nat),
        decreases n - i,
    {
        v.push(0);
        proof {
            assert(v@ =~= spec_zeros((i + 1) as nat));
        }
        i += 1;
    }
    v
}

/// An identical copy of a byte vector.
pub fn clone_bytes(b: &Vec<u8>) -> (r: Vec<u8>)
    ensures
        r@ == b@,
{
    let mut out: Vec<u8> = Vec::new();
    let n = b.len();
    let mut i: usize = 0;
    while i < n
        invariant
            i <= n,
            n == b@.len(),
            out@ == b@.subrange(0, i as int),
        decreases n - i,
    {
        out.push(b[i]);
        proof {
            assert(out@ =~= b@.subrange(0, i + 1));
        }
        i += 1;
    }
    proof {
        assert(out@ =~= b@);
    }
    out
}

/// Fixed 4-byte magic prologue sent once at connection start.
pub open spec fn spec_prologue() -> Seq<u8> {
    seq![87u8, 65u8, 5u8, 2u8]
}

/// The 4-byte magic prologue as a byte vector.
pub fn prologue() -> (r: Vec<u8>)
    ensures
        r@ == spec_prologue(),
{
    let mut v: Vec<u8> = Vec::new();
    v.push(87);
    v.push(65);
    v.push(5);
    v.push(2);
    assert(v@ =~= spec_prologue());
    v
}

} // verus!
