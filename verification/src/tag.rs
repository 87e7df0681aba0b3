//! Control bytes of the binary tree format.

use vstd::prelude::*;

verus! {

pub const LIST_EMPTY: u8 = 0;
pub const STREAM_END: u8 = 2;
pub const DICTIONARY_ZERO: u8 = 236;
pub const DICTIONARY_ONE: u8 = 237;
pub const DICTIONARY_TWO: u8 = 238;
pub const DICTIONARY_THREE: u8 = 239;
pub const COMPANION_JID: u8 = 247;
pub const LIST_EIGHT: u8 = 248;
pub const LIST_SIXTEEN: u8 = 249;
pub const JID_PAIR: u8 = 250;
pub const HEX_EIGHT: u8 = 251;
pub const BINARY_EIGHT: u8 = 252;
pub const BINARY_TWENTY: u8 = 253;
pub const BINARY_THIRTY_TWO: u8 = 254;
pub const NIBBLE_EIGHT: u8 = 255;

/// Largest value a token byte may take: bytes above it are control tags.
pub const SINGLE_BYTE_MAX: u8 = 235;

/// Number of entries in each word dictionary.
pub const DICTIONARY_SIZE: usize = 64;

} // verus!
