//! Frame-level view of a received buffer: the payloads it carries.

use vstd::prelude::*;
use crate::codec::{decode_frame, encode_frame, spec_decode_frames, spec_encode_frame};
use crate::error::Error;

verus! {

pub struct BinaryMessage {
    pub decoded: Vec<Vec<u8>>,
}

impl BinaryMessage {
    /// Splits a buffer into the frames it carries.
    pub fn new(raw: &[u8]) -> (r: BinaryMessage)
        ensures
            r.decoded.deep_view() == spec_decode_frames(raw@),
    {
        BinaryMessage { decoded: decode_frame(raw) }
    }
}

/// Frames one payload for the wire.
pub fn encode(intro: bool, data: &[u8]) -> (r: Result<Vec<u8>, Error>)
    ensures
        match r {
            Ok(out) => data@.len() <= crate::codec::MAX_FRAME_LEN && out@ == spec_encode_frame(
                intro,
                data@,
            ),
            Err(e) => data@.len() > crate::codec::MAX_FRAME_LEN && e == Error::FrameTooLong,
        },
{
    encode_frame(intro, data)
}

/// The payloads framed in a buffer.
pub fn decode(input: &[u8]) -> (r: Vec<Vec<u8>>)
    ensures
        r.deep_view() == spec_decode_frames(input@),
{
    decode_frame(input)
}

} // verus!
