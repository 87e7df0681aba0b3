//! Error taxonomy of the protocol core.
//!
//! Decode errors are fatal to the frame at hand, crypto errors to the current
//! handshake or pairing attempt, protocol errors to the connection.

use vstd::prelude::*;

verus! {

#[derive(Clone, Copy, Debug, PartialEq, Eq, Structural)]
pub enum Error {
    /// AEAD authentication failed while decrypting.
    AesCipherFail,
    /// A value could not be converted to the requested form.
    IntoError,
    /// The stream has not been initialized yet.
    StreamNotInitialized,
    /// The stream has already been initialized.
    StreamAlreadyInitialized,
    /// A frame arrived in a state that does not accept it.
    WrongState,
    /// The device node was missing during pairing.
    IqMissingDevice,
    /// The HMAC over the signed identity record did not match.
    IqInvalidSignature,
    /// The embedded account signature did not verify.
    IqInvalidMessageSignature,
    /// The node is not known by the protocol.
    UnknownNode,
    /// The connection to the remote endpoint could not be made.
    WebSocketConnectError,
    /// The stream received or transmitted an unexpected message.
    UnexpectedMessage,
    /// The input node could not be encoded.
    EncodeNodeError,
    /// The input binary could not be encoded.
    EncodeBinaryError,
    /// The connection has been closed remotely.
    WsClose,
    /// A stream error with the unauthorized code arrived; no retry follows.
    Unauthorized,
    /// A stream error carried a code this client does not know.
    UnknownErrorCode,
    /// The payload exceeds what the frame length prefix can carry.
    FrameTooLong,
    /// The node's size field exceeds what the wire format can carry.
    NodeTooLarge,
    /// A string or byte blob exceeds what its length field can carry.
    StringTooLong,
    /// A companion device or agent number exceeds the single wire byte.
    JidOutOfRange,
    /// The buffer ended before the structure it promised.
    Truncated,
    /// A size field of zero where a node was required.
    NoNode,
    /// A token or dictionary index outside the tables.
    InvalidToken,
    /// Bytes in a text position that are not valid UTF-8.
    InvalidString,
    /// A JID could not be parsed from its textual form.
    InvalidJid,
    /// A packed digit outside its alphabet.
    InvalidNibble,
    /// The compressed remainder of a buffer could not be inflated.
    BadCompression,
}

/// The errors that frame decryption and tree decoding produce; the state
/// machine itself never raises these.
pub open spec fn spec_frame_error(e: Error) -> bool {
    ||| e == Error::AesCipherFail
    ||| e == Error::Truncated
    ||| e == Error::NoNode
    ||| e == Error::InvalidToken
    ||| e == Error::InvalidString
    ||| e == Error::InvalidJid
    ||| e == Error::InvalidNibble
    ||| e == Error::BadCompression
    ||| e == Error::UnknownNode
}

impl Error {
    /// A short stable name for the error, for callers that log or display.
    pub fn name(&self) -> (r: &'static str) {
        match self {
            Error::AesCipherFail => "failed to cipher",
            Error::IntoError => "failed to transform",
            Error::StreamNotInitialized => "the stream has not been initialized yet",
            Error::StreamAlreadyInitialized => "the stream has already been initialized",
            Error::WrongState => "the stream has been called in a wrong state",
            Error::IqMissingDevice => "the device was missing during iq authentication",
            Error::IqInvalidSignature => "the signature during the iq authentication was invalid",
            Error::IqInvalidMessageSignature => "the message signature during the iq authentication was invalid",
            Error::UnknownNode => "the node is not known by the protocol",
            Error::WebSocketConnectError => "failed to connect to the websocket",
            Error::UnexpectedMessage => "the stream received or transmitted an unexpected message",
            Error::EncodeNodeError => "could not encode the input node",
            Error::EncodeBinaryError => "could not encode the input binary",
            Error::WsClose => "the connection has been closed remotely",
            Error::Unauthorized => "the stream reported an unauthorized condition",
            Error::UnknownErrorCode => "the stream reported an unknown error code",
            Error::FrameTooLong => "the payload does not fit a frame",
            Error::NodeTooLarge => "the node is unexpectedly too large",
            Error::StringTooLong => "the string is too long for its length field",
            Error::JidOutOfRange => "the companion device or agent does not fit a byte",
            Error::Truncated => "the buffer ended early",
            Error::NoNode => "no node available",
            Error::InvalidToken => "invalid token",
            Error::InvalidString => "not able to read string",
            Error::InvalidJid => "could not parse jid",
            Error::InvalidNibble => "invalid codepoint for packed encoding",
            Error::BadCompression => "could not inflate the buffer",
        }
    }
}

} // verus!
