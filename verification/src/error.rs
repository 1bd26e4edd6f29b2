//! The errors that the protocol reports.

use vstd::prelude::*;

verus! {

/// Everything that can go wrong between two peers.
#[derive(Debug)]
#[allow(inconsistent_fields)]
pub enum VstpError {
    /// The socket or a buffer failed; the text is the system's message.
    Io(String),
    /// The peer broke the protocol; the text names the rule.
    Protocol(String),
    /// The version byte is not the one this library speaks.
    InvalidVersion { expected: u8, got: u8 },
    /// The type byte names no frame type.
    InvalidFrameType(u8),
    /// The first two bytes are not the magic.
    InvalidMagic([u8; 2]),
    /// The checksum stored in the frame (`expected`) is not the one computed
    /// over its bytes (`got`).
    CrcMismatch { expected: u32, got: u32 },
    /// More bytes are needed.
    Incomplete { needed: usize },
    /// The frame is longer than the limit allows.
    FrameTooLarge { size: usize, limit: usize },
    /// As many messages are being reassembled as the limit allows.
    TooManySessions { limit: usize },
    /// No acknowledgement came within the retry budget.
    Timeout,
    /// The address cannot be used.
    InvalidAddress,
    /// A value could not be turned into a payload.
    SerializationError,
    /// A payload could not be turned into a value.
    DeserializationError,
    /// A frame of another type was expected.
    UnexpectedFrameType,
    /// The connection is closed.
    ConnectionClosed,
    /// An observer refused a frame and the session was ended.
    SessionTerminated,
    /// The server reported an error.
    ServerError(String),
}

/// The kinds into which the errors fall.
#[derive(Debug, Clone, Copy, PartialEq, Eq, Structural)]
pub enum ErrorKind {
    /// Failure of a socket or buffer.
    Io,
    /// Violation of the protocol.
    Protocol,
    /// A checksum that does not match.
    Integrity,
    /// A size limit was exceeded.
    SizeLimit,
    /// A deadline passed.
    Timeout,
    /// The connection or session has ended.
    Closed,
}

impl VstpError {
    /// The kind of this error.
    pub open spec fn spec_kind(&self) -> ErrorKind {
        match self {
            VstpError::Io(_) => ErrorKind::Io,
            VstpError::Protocol(_) => ErrorKind::Protocol,
            VstpError::InvalidVersion { .. } => ErrorKind::Protocol,
            VstpError::InvalidFrameType(_) => ErrorKind::Protocol,
            VstpError::InvalidMagic(_) => ErrorKind::Protocol,
            VstpError::CrcMismatch { .. } => ErrorKind::Integrity,
            VstpError::Incomplete { .. } => ErrorKind::Protocol,
            VstpError::FrameTooLarge { .. } => ErrorKind::SizeLimit,
            VstpError::TooManySessions { .. } => ErrorKind::SizeLimit,
            VstpError::Timeout => ErrorKind::Timeout,
            VstpError::InvalidAddress => ErrorKind::Io,
            VstpError::SerializationError => ErrorKind::Protocol,
            VstpError::DeserializationError => ErrorKind::Protocol,
            VstpError::UnexpectedFrameType => ErrorKind::Protocol,
            VstpError::ConnectionClosed => ErrorKind::Closed,
            VstpError::SessionTerminated => ErrorKind::Closed,
            VstpError::ServerError(_) => ErrorKind::Protocol,
        }
    }

    /// The kind of this error.
    #[verifier::when_used_as_spec(spec_kind)]
    pub fn kind(&self) -> (r: ErrorKind)
        ensures
            r == self.spec_kind(),
    {
        match self {
            VstpError::Io(_) => ErrorKind::Io,
            VstpError::Protocol(_) => ErrorKind::Protocol,
            VstpError::InvalidVersion { .. } => ErrorKind::Protocol,
            VstpError::InvalidFrameType(_) => ErrorKind::Protocol,
            VstpError::InvalidMagic(_) => ErrorKind::Protocol,
            VstpError::CrcMismatch { .. } => ErrorKind::Integrity,
            VstpError::Incomplete { .. } => ErrorKind::Protocol,
            VstpError::FrameTooLarge { .. } => ErrorKind::SizeLimit,
            VstpError::TooManySessions { .. } => ErrorKind::SizeLimit,
            VstpError::Timeout => ErrorKind::Timeout,
            VstpError::InvalidAddress => ErrorKind::Io,
            VstpError::SerializationError => ErrorKind::Protocol,
            VstpError::DeserializationError => ErrorKind::Protocol,
            VstpError::UnexpectedFrameType => ErrorKind::Protocol,
            VstpError::ConnectionClosed => ErrorKind::Closed,
            VstpError::SessionTerminated => ErrorKind::Closed,
            VstpError::ServerError(_) => ErrorKind::Protocol,
        }
    }

    /// Whether this is a protocol error with the given text.
    pub open spec fn is_protocol(&self, text: Seq<char>) -> bool {
        match self {
            VstpError::Protocol(s) => s@ == text,
            _ => false,
        }
    }
}

} // verus!
