use vstd::prelude::*;

verus! {

/// The reason a decode attempt failed.
#[derive(Clone, Copy, Debug, PartialEq, Eq, Structural)]
pub enum EncodingIssue {
    /// A declared length exceeds the bytes that remain in the buffer.
    Incomplete,
    /// Tag or descriptor bytes are not valid UTF-8.
    InvalidUtf8,
    /// The frame type byte names no known frame type.
    UnknownFrameType,
}

/// Error taxonomy of the protocol engine.
#[derive(Debug)]
pub enum RSocketError {
    /// Transport read/write failure; fatal to the connection.
    IO,
    /// Malformed wire data: truncated buffer, invalid UTF-8, unknown frame type.
    Encoding(EncodingIssue),
    /// A frame that the current state of its stream does not allow.
    ProtocolViolation,
    /// The acceptor declined the setup; carries its description.
    SetupRejected(String),
    /// Local cancellation, or connection close while an operation was pending.
    Cancelled,
}

impl RSocketError {
    /// A short description of the error, for callers that report it.
    pub fn describe(&self) -> (r: String)
        ensures
            self matches RSocketError::SetupRejected(m) ==> r@ == m@,
    {
        match self {
            RSocketError::IO => "transport failure".to_owned(),
            RSocketError::Encoding(EncodingIssue::Incomplete) => "require more bytes!".to_owned(),
            RSocketError::Encoding(EncodingIssue::InvalidUtf8) => "invalid utf-8!".to_owned(),
            RSocketError::Encoding(EncodingIssue::UnknownFrameType) => {
                "unknown frame type!".to_owned()
            },
            RSocketError::ProtocolViolation => "protocol violation".to_owned(),
            RSocketError::SetupRejected(m) => m.clone(),
            RSocketError::Cancelled => "cancelled".to_owned(),
        }
    }
}

} // verus!
