//! Frame codec: wraps a byte payload with a 3-byte big-endian length prefix
//! (and, for the first frame of a connection, the fixed magic prologue), and
//! splits a received buffer back into payloads.

use vstd::prelude::*;
use crate::spec_prologue;
use crate::error::Error;

verus! {

/// Largest payload that fits the 3-byte length prefix.
pub const MAX_FRAME_LEN: usize = 0xFFFFFF;

/// The 3-byte big-endian length prefix for a payload of length `len`.
pub open spec fn spec_length_prefix(len: int) -> Seq<u8> {
    seq![
        ((len / 0x10000) % 0x100) as u8,
        ((len / 0x100) % 0x100) as u8,
        (len % 0x100) as u8,
    ]
}

/// The framed form of one payload: optional prologue, length prefix, payload.
pub open spec fn spec_encode_frame(intro: bool, data: Seq<u8>) -> Seq<u8> {
    (if intro {
        spec_prologue()
    } else {
        Seq::<u8>::empty()
    }) + spec_length_prefix(data.len() as int) + data
}

/// The payloads framed in a buffer: repeatedly read a 3-byte length prefix
/// while at least three bytes remain, then exactly that many payload bytes;
/// a truncated trailing frame is dropped.
pub open spec fn spec_decode_frames(s: Seq<u8>) -> Seq<Seq<u8>>
    decreases s.len(),
{
    if s.len() < 3 {
        Seq::empty()
    } else {
        let n = (s[0] as int) * 0x10000 + (s[1] as int) * 0x100 + (s[2] as int);
        if s.len() - 3 < n {
            Seq::empty()
        } else {
            seq![s.subrange(3, 3 + n)] + spec_decode_frames(s.skip(3 + n))
        }
    }
}

/// Wraps a payload with the 3-byte big-endian length prefix, preceded by the
/// magic prologue when this is the first frame of a connection. Fails exactly
/// when the payload cannot fit the prefix.
pub fn encode_frame(intro: bool, data: &[u8]) -> (r: Result<Vec<u8>, Error>)
    ensures
        match r {
            Ok(out) => data@.len() <= MAX_FRAME_LEN && out@ == spec_encode_frame(intro, data@),
            Err(e) => data@.len() > MAX_FRAME_LEN && e == Error::FrameTooLong,
        },
{
    let len = data.len();
    if len > MAX_FRAME_LEN {
        return Err(Error::FrameTooLong);
    }
    let mut out: Vec<u8> = if intro {
        crate::prologue()
    } else {
        Vec::new()
    };
    out.push((len / 0x10000) as u8);
    out.push(((len / 0x100) % 0x100) as u8);
    out.push((len % 0x100) as u8);
    let ghost mid = out@;
    let mut i: usize = 0;
    while i < len
        invariant
            i <= len,
            len == data@.len(),
            out@ == mid + data@.subrange(0, i as int),
        decreases len - i,
    {
        out.push(data[i]);
        proof {
            assert(out@ =~= mid + data@.subrange(0, i + 1));
        }
        i += 1;
    }
    proof {
        assert(data@.subrange(0, len as int) =~= data@);
        assert(out@ =~= spec_encode_frame(intro, data@));
    }
    Ok(out)
}

/// Splits a received buffer into the payloads framed in it.
pub fn decode_frame(input: &[u8]) -> (r: Vec<Vec<u8>>)
    ensures
        r.deep_view() == spec_decode_frames(input@),
{
    let total = input.len();
    let mut out: Vec<Vec<u8>> = Vec::new();
    let mut pos: usize = 0;
    proof {
        assert(input@.skip(0) =~= input@);
    }
    while total - pos >= 3
        invariant
            pos <= total,
            total == input@.len(),
            spec_decode_frames(input@) == out.deep_view() + spec_decode_frames(
                input@.skip(pos as int),
            ),
        decreases total - pos,
    {
        let ghost rest = input@.skip(pos as int);
        let n: usize = (input[pos] as usize) * 0x10000 + (input[pos + 1] as usize) * 0x100 + (
        input[pos + 2] as usize);
        proof {
            assert(rest[0] == input@[pos as int]);
            assert(rest[1] == input@[pos + 1]);
            assert(rest[2] == input@[pos + 2]);
        }
        if total - pos - 3 < n {
            proof {
                assert(spec_decode_frames(rest) =~= Seq::<Seq<u8>>::empty());
                assert(out.deep_view() + Seq::<Seq<u8>>::empty() =~= out.deep_view());
            }
            return out;
        }
        let mut frame: Vec<u8> = Vec::new();
        let start = pos + 3;
        let mut i: usize = 0;
        while i < n
            invariant
                i <= n,
                start + n <= total,
                total == input@.len(),
                frame@ == input@.subrange(start as int, start + i),
            decreases n - i,
        {
            frame.push(input[start + i]);
            proof {
                assert(frame@ =~= input@.subrange(start as int, start + i + 1));
            }
            i += 1;
        }
        proof {
            assert(frame@ =~= rest.subrange(3, 3 + n));
            assert(rest.skip(3 + n) =~= input@.skip(start + n));
        }
        let ghost dv0 = out.deep_view();
        let ghost framev = frame@;
        out.push(frame);
        pos = start + n;
        proof {
            assert(out.deep_view() =~~= dv0.push(framev));
            assert(dv0 + spec_decode_frames(rest) =~= dv0.push(framev) + spec_decode_frames(
                input@.skip(pos as int),
            ));
        }
    }
    proof {
        assert(spec_decode_frames(input@.skip(pos as int)) =~= Seq::<Seq<u8>>::empty());
        assert(out.deep_view() + Seq::<Seq<u8>>::empty() =~= out.deep_view());
    }
    out
}

/// One framed payload decodes back to exactly that payload: the frame
/// codec is a round trip for every length the prefix can carry. The
/// prologue of a connection's first frame is consumed before decoding.
pub proof fn lemma_frame_round_trip(data: Seq<u8>)
    requires
        data.len() <= MAX_FRAME_LEN,
    ensures
        spec_decode_frames(spec_encode_frame(false, data)) == seq![data],
{
    let len = data.len() as int;
    let s = spec_encode_frame(false, data);
    assert(s =~= spec_length_prefix(len) + data);
    assert(s.len() == 3 + len);
    assert(s[0] as int == (len / 0x10000) % 0x100);
    assert(s[1] as int == (len / 0x100) % 0x100);
    assert(s[2] as int == len % 0x100);
    vstd::arithmetic::div_mod::lemma_fundamental_div_mod(len, 0x100);
    vstd::arithmetic::div_mod::lemma_fundamental_div_mod(len / 0x100, 0x100);
    vstd::arithmetic::div_mod::lemma_div_denominator(len, 0x100, 0x100);
    assert(len / 0x10000 < 0x100);
    assert((len / 0x10000) % 0x100 == len / 0x10000) by {
        vstd::arithmetic::div_mod::lemma_small_mod((len / 0x10000) as nat, 0x100);
    }
    let n = (s[0] as int) * 0x10000 + (s[1] as int) * 0x100 + (s[2] as int);
    assert(n == len);
    assert(s.subrange(3, 3 + n) =~= data);
    assert(s.skip(3 + n) =~= Seq::<u8>::empty());
    assert(spec_decode_frames(s.skip(3 + n)) =~= Seq::<Seq<u8>>::empty());
    assert(spec_decode_frames(s) =~= seq![data]);
}

} // verus!
