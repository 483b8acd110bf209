//! The library's error type and the texts it shows.
use vstd::prelude::*;
use crate::protocol::FrameError;
use crate::protocol::PROTOCOL_HEADER_SIZE;
use crate::text::decimal_text_of;
use crate::text::hex_text_of;
use crate::text::push_decimal;
use crate::text::push_hex;

verus! {

/// `std::io::Error`, carried through as it is.
#[verifier::external_type_specification]
#[verifier::external_body]
pub struct ExIoError(std::io::Error);

/// Errors of discovery.
#[derive(Debug)]
pub enum DiscoverError {
    /// An I/O error.
    Io(std::io::Error),
    /// None of the configured ports could be bound.
    NoAvailablePort,
    /// A datagram that breaks the protocol.
    Protocol(String),
    /// Any other error.
    Other(String),
}

impl From<std::io::Error> for DiscoverError {
    fn from(err: std::io::Error) -> (res: Self) {
        DiscoverError::Io(err)
    }
}

impl vstd::std_specs::convert::FromSpecImpl<std::io::Error> for DiscoverError {
    open spec fn obeys_from_spec() -> bool {
        true
    }

    open spec fn from_spec(err: std::io::Error) -> Self {
        DiscoverError::Io(err)
    }
}

/// The text that describes a malformed datagram.
pub open spec fn frame_error_text(e: FrameError) -> Seq<char> {
    match e {
        FrameError::TooShort { len } => "Buffer too short: "@ + decimal_text_of(len as nat)
            + " bytes, expected at least "@ + decimal_text_of(PROTOCOL_HEADER_SIZE as nat),
        FrameError::BadMagic { magic } => "Invalid magic: 0x"@ + hex_text_of(magic as nat, 8),
        FrameError::Incomplete { available, needed } => "Incomplete message: buffer has "@
            + decimal_text_of(available as nat) + " bytes, payload needs "@ + decimal_text_of(
            needed as nat,
        ) + " bytes"@,
        FrameError::CrcMismatch { expected, actual } => "CRC32 mismatch: expected 0x"@
            + hex_text_of(expected as nat, 8) + ", got 0x"@ + hex_text_of(actual as nat, 8),
    }
}

impl FrameError {
    /// The text that describes this error.
    pub fn describe(&self) -> (s: String)
        ensures
            s@ == frame_error_text(*self),
    {
        let mut s = String::new();
        match self {
            FrameError::TooShort { len } => {
                s.append("Buffer too short: ");
                push_decimal(&mut s, *len as u64);
                s.append(" bytes, expected at least ");
                push_decimal(&mut s, PROTOCOL_HEADER_SIZE as u64);
            },
            FrameError::BadMagic { magic } => {
                s.append("Invalid magic: 0x");
                push_hex(&mut s, *magic as u64, 8);
            },
            FrameError::Incomplete { available, needed } => {
                s.append("Incomplete message: buffer has ");
                push_decimal(&mut s, *available as u64);
                s.append(" bytes, payload needs ");
                push_decimal(&mut s, *needed as u64);
                s.append(" bytes");
            },
            FrameError::CrcMismatch { expected, actual } => {
                s.append("CRC32 mismatch: expected 0x");
                push_hex(&mut s, *expected as u64, 8);
                s.append(", got 0x");
                push_hex(&mut s, *actual as u64, 8);
            },
        }
        s
    }
}

impl DiscoverError {
    /// The text of the error, as it is displayed.
    pub fn message(&self) -> (s: String)
        ensures
            match self {
                DiscoverError::Io(e) => vstd::string::to_string_from_display_ensures::<std::io::Error>(e, s),
                DiscoverError::NoAvailablePort => s@ == "No available port"@,
                DiscoverError::Protocol(m) => s@ == "Protocol error: "@ + m@,
                DiscoverError::Other(m) => s@ == "Error: "@ + m@,
            },
    {
        match self {
            DiscoverError::Io(err) => err.to_string(),
            DiscoverError::NoAvailablePort => {
                let mut s = String::new();
                s.append("No available port");
                s
            },
            DiscoverError::Protocol(m) => {
                let mut s = String::new();
                s.append("Protocol error: ");
                s.append(m.as_str());
                s
            },
            DiscoverError::Other(m) => {
                let mut s = String::new();
                s.append("Error: ");
                s.append(m.as_str());
                s
            },
        }
    }
}

} // verus!
