//! What can go wrong between the host and the device.

use vstd::prelude::*;

verus! {

/// A failure that the device reports.
#[derive(Debug, Clone, Copy, PartialEq, Eq)]
pub struct LokeError {
    /// What the device said, a negative number as a rule.
    pub status: i32,
}

impl LokeError {
    /// The failure that `status` stands for.
    pub fn from_status(status: i32) -> (error: LokeError)
        ensures
            error.status == status,
    {
        LokeError { status }
    }
}

/// Why an operation on the device failed.
#[allow(inconsistent_fields)]
#[derive(Debug)]
pub enum OdinError {
    /// The greeting could not be sent.
    HandshakeSendFailed,
    /// The greeting was not answered.
    HandshakeReceiveFailed,
    /// The greeting was answered with something else.
    HandshakeMismatch {
        /// What should have come.
        expected: String,
        /// What came.
        received: String,
    },
    /// A command or a chunk could not be sent.
    SendCommandFailed,
    /// Nothing could be received.
    ReceivePacketFailed,
    /// The device does not say what it is.
    DeviceInfoUnavailable,
    /// The device reports a failure.
    Loke(LokeError),
    /// An answer could not be read.
    ParseError(String),
    /// Another command was answered.
    ResponseTypeMismatch {
        /// Number of the command that was sent.
        expected: u32,
        /// Number of the command that was answered.
        received: u32,
    },
    /// Not a sales code.
    InvalidSalesCode(String),
    /// Another chunk was answered.
    ChunkIndexMismatch {
        /// Number of the chunk that was sent.
        expected: usize,
        /// Number of the chunk that was answered.
        received: u32,
    },
    /// A chunk was not answered.
    ChunkResponseReceiveFailed,
    /// The serial port failed.
    SerialError(String),
}

/// The contents of an error.
#[allow(inconsistent_fields)]
pub enum OdinFault {
    /// See [`OdinError::HandshakeSendFailed`].
    HandshakeSendFailed,
    /// See [`OdinError::HandshakeReceiveFailed`].
    HandshakeReceiveFailed,
    /// See [`OdinError::HandshakeMismatch`].
    HandshakeMismatch {
        /// What should have come.
        expected: Seq<char>,
        /// What came.
        received: Seq<char>,
    },
    /// See [`OdinError::SendCommandFailed`].
    SendCommandFailed,
    /// See [`OdinError::ReceivePacketFailed`].
    ReceivePacketFailed,
    /// See [`OdinError::DeviceInfoUnavailable`].
    DeviceInfoUnavailable,
    /// See [`OdinError::Loke`].
    Loke(i32),
    /// See [`OdinError::ParseError`].
    ParseError(Seq<char>),
    /// See [`OdinError::ResponseTypeMismatch`].
    ResponseTypeMismatch {
        /// Number of the command that was sent.
        expected: u32,
        /// Number of the command that was answered.
        received: u32,
    },
    /// See [`OdinError::InvalidSalesCode`].
    InvalidSalesCode(Seq<char>),
    /// See [`OdinError::ChunkIndexMismatch`].
    ChunkIndexMismatch {
        /// Number of the chunk that was sent.
        expected: nat,
        /// Number of the chunk that was answered.
        received: u32,
    },
    /// See [`OdinError::ChunkResponseReceiveFailed`].
    ChunkResponseReceiveFailed,
    /// See [`OdinError::SerialError`].
    SerialError(Seq<char>),
}

impl View for OdinError {
    type V = OdinFault;

    open spec fn view(&self) -> OdinFault {
        match self {
            OdinError::HandshakeSendFailed => OdinFault::HandshakeSendFailed,
            OdinError::HandshakeReceiveFailed => OdinFault::HandshakeReceiveFailed,
            OdinError::HandshakeMismatch { expected, received } => OdinFault::HandshakeMismatch {
                expected: expected@,
                received: received@,
            },
            OdinError::SendCommandFailed => OdinFault::SendCommandFailed,
            OdinError::ReceivePacketFailed => OdinFault::ReceivePacketFailed,
            OdinError::DeviceInfoUnavailable => OdinFault::DeviceInfoUnavailable,
            OdinError::Loke(error) => OdinFault::Loke(error.status),
            OdinError::ParseError(message) => OdinFault::ParseError(message@),
            OdinError::ResponseTypeMismatch {
                expected,
                received,
            } => OdinFault::ResponseTypeMismatch { expected: *expected, received: *received },
            OdinError::InvalidSalesCode(code) => OdinFault::InvalidSalesCode(code@),
            OdinError::ChunkIndexMismatch { expected, received } => OdinFault::ChunkIndexMismatch {
                expected: *expected as nat,
                received: *received,
            },
            OdinError::ChunkResponseReceiveFailed => OdinFault::ChunkResponseReceiveFailed,
            OdinError::SerialError(message) => OdinFault::SerialError(message@),
        }
    }
}

/// The outcome of an operation that gives nothing.
pub open spec fn outcome(result: Result<(), OdinError>) -> Result<(), OdinFault> {
    match result {
        Ok(()) => Ok(()),
        Err(error) => Err(error@),
    }
}

/// The outcome of an operation that gives a value.
pub open spec fn outcome_of<T>(result: Result<T, OdinError>) -> Result<T, OdinFault> {
    match result {
        Ok(value) => Ok(value),
        Err(error) => Err(error@),
    }
}

} // verus!
