//! Stream errors: the forced-reconnect code restarts the connection with a
//! zeroed session, the unauthorized code ends it with no retry.

use vstd::prelude::*;
use crate::error::Error;
use crate::node::{Node, ValueV};
use crate::state::State;
use crate::stream::Stream;
use crate::stream::digest::Digested;
use crate::text::spec_parse_u32;

verus! {

/// The numeric code a stream error node carries, when its `code` attribute
/// is a parseable decimal text.
pub open spec fn spec_stream_error_code(n: crate::node::NodeV) -> Option<u32> {
    if n.description == "stream:error"@ && (crate::node::spec_attribute(
        n.attributes,
        "code"@,
    ) matches Some(ValueV::Text(t)) && spec_parse_u32(t) is Some) {
        spec_parse_u32(
            crate::node::spec_attribute(n.attributes, "code"@)->Some_0->Text_0,
        )
    } else {
        None
    }
}

pub enum StreamError {
    ForceReconnect,
    Unauthorized,
}

impl StreamError {
    /// The stream error a numeric code names; an unknown code is a protocol
    /// error.
    pub fn from_code(input: u32) -> (r: Result<StreamError, Error>)
        ensures
            match r {
                Ok(StreamError::ForceReconnect) => input == 515,
                Ok(StreamError::Unauthorized) => input == 401,
                Err(e) => input != 515 && input != 401 && e == Error::UnknownErrorCode,
            },
    {
        if input == 515 {
            Ok(StreamError::ForceReconnect)
        } else if input == 401 {
            Ok(StreamError::Unauthorized)
        } else {
            Err(Error::UnknownErrorCode)
        }
    }
}

impl Stream {
    /// Handles a stream error node. Exactly one of: code 515 zeroes the
    /// session keys and counters and reinitiates the hello phase; code 401
    /// is terminal, with state and session untouched and no retry; a
    /// missing, unparseable or unknown code is a protocol error, also with
    /// state and session untouched.
    pub fn handle_error(&mut self, node: &Node) -> (r: Result<Digested, Error>)
        ensures
            final(self).session.credentials == old(self).session.credentials,
            old(self).session.store.wf() ==> final(self).session.store.wf(),
            match r {
                Ok(out) => out is Reconnect && spec_stream_error_code(node@) == Some(515u32)
                    && final(self).state is Hello && final(self).session.store.encode_key@
                    == crate::spec_zeros(32) && final(self).session.store.decode_key@
                    == crate::spec_zeros(32) && final(self).session.store.read_cnt == 0 && final(self).session.store.write_cnt == 0 && final(self).session.store.companion == old(self).session.store.companion && final(self).session.store.companion_identity == old(self).session.store.companion_identity,
                Err(e) => final(self).state == old(self).state && final(self).session.store == old(self).session.store && ({
                    ||| (e == Error::Unauthorized && spec_stream_error_code(node@) == Some(
                        401u32,
                    ))
                    ||| (e == Error::UnknownErrorCode && spec_stream_error_code(node@) != Some(
                        515u32,
                    ) && spec_stream_error_code(node@) != Some(401u32))
                }),
            },
    {
        let code = match node.error_code() {
            Some(code) => code,
            None => {
                return Err(Error::UnknownErrorCode);
            },
        };
        match StreamError::from_code(code)? {
            StreamError::ForceReconnect => {
                self.session.store.reset();
                self.state = State::Hello;
                Ok(Digested::Reconnect)
            },
            StreamError::Unauthorized => Err(Error::Unauthorized),
        }
    }
}

} // verus!
