//! Shared error and protocol-state types.

use vstd::prelude::*;

verus! {

/// A protocol error carrying a human-readable reason.
pub struct BasaltError {
    reason: String,
}

impl View for BasaltError {
    type V = Seq<char>;

    closed spec fn view(&self) -> Seq<char> {
        self.reason@
    }
}

impl BasaltError {
    pub fn new(reason: String) -> (r: Self)
        ensures
            r@ == reason@,
    {
        Self { reason }
    }

    /// The human-readable reason this error was raised with.
    pub fn reason(&self) -> (r: &String)
        ensures
            r@ == self@,
    {
        &self.reason
    }
}

/// Why a decode failed: the typed error channel for malformed input.
#[derive(Clone, Copy, Debug, PartialEq, Eq, Structural)]
pub enum DecodeError {
    /// A variable-length integer ran past its byte cap.
    TooLarge,
    /// The input ended before the value was complete.
    Eof,
    /// A string field held bytes that are not valid text.
    InvalidText,
    /// A declared length was negative.
    InvalidLength,
    /// A packet arrived with an ID that is not legal in the current state.
    UnexpectedPacket,
}

impl DecodeError {
    /// A human-readable form of the error, mirroring the reason strings
    /// the wire layer reports.
    pub fn into_basalt(self) -> (r: BasaltError)
        ensures
            r@ == match self {
                DecodeError::TooLarge => "VarInt is too big!"@,
                DecodeError::Eof => "Unexpected end of stream"@,
                DecodeError::InvalidText => "Invalid text encoding"@,
                DecodeError::InvalidLength => "Invalid length"@,
                DecodeError::UnexpectedPacket => "Invalid packet ID"@,
            },
    {
        match self {
            DecodeError::TooLarge => BasaltError::new("VarInt is too big!".to_owned()),
            DecodeError::Eof => BasaltError::new("Unexpected end of stream".to_owned()),
            DecodeError::InvalidText => BasaltError::new("Invalid text encoding".to_owned()),
            DecodeError::InvalidLength => BasaltError::new("Invalid length".to_owned()),
            DecodeError::UnexpectedPacket => BasaltError::new("Invalid packet ID".to_owned()),
        }
    }
}

/// The per-connection protocol state a kick packet is encoded for.
#[derive(Clone, Copy, Debug, PartialEq, Eq, Structural)]
pub enum ProtocolState {
    Login,
    Play,
}

} // verus!
