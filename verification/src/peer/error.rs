//! Why a connection with a peer fails.

use crate::bitfield::BitfieldError;
use crate::text::{joined, number, number_text};
use vstd::prelude::*;
use vstd::string::*;

verus! {

/// What kind of failure an I/O error is, as far as it matters here.
#[derive(Debug, Clone, Copy, PartialEq, Eq, Structural)]
pub enum IoKind {
    TimedOut,
    ConnectionReset,
    ConnectionRefused,
    ConnectionAborted,
    WouldBlock,
    Other,
}

/// Why a connection fails.
#[derive(Debug)]
pub enum ConnectionError {
    /// I/O error: what kind it is, and what it reads like
    Io(IoKind, String),
    /// Handshake timed out
    HandshakeTimeout,
    /// Write stalled
    WriteStalled,
    /// Handshake failed
    Handshake(HandshakeError),
    /// Protocol violation
    Protocol(ProtocolViolation),
    /// Bitfield error
    Bitfield(BitfieldError),
    /// Self-connection detected
    SelfConnection,
    /// Idle timeout
    Idle,
}

/// Why a handshake fails.
#[derive(Debug, Clone, Copy, PartialEq, Eq, Structural)]
pub enum HandshakeError {
    /// Parse failure: incomplete or malformed bytes
    ParseFailure,
    /// Info hash mismatch
    InfoHashMismatch,
}

/// How a peer breaks the protocol.
#[derive(Debug)]
pub enum ProtocolViolation {
    /// Duplicate bitfield
    DuplicateBitfield,
    /// HAVE piece index out of range
    InvalidPieceIndex { index: u32, total: u32 },
    /// Unknown metadata msg_type
    UnknownMetadataMsgType(i64),
    /// Bad metadata bencode
    BadMetadataBencode(String),
    /// Missing field in metadata message
    MissingMetadataField(&'static str),
}

impl ConnectionError {
    /// Whether trying again may help.
    pub open spec fn transient(&self) -> bool {
        match self {
            ConnectionError::Io(k, _) => *k != IoKind::Other,
            ConnectionError::HandshakeTimeout => true,
            ConnectionError::WriteStalled => true,
            ConnectionError::Idle => true,
            ConnectionError::Handshake(_) => false,
            ConnectionError::Protocol(_) => false,
            ConnectionError::Bitfield(_) => false,
            ConnectionError::SelfConnection => false,
        }
    }

    /// Whether this error is transient (worth retrying) or permanent.
    ///
    /// Transient errors are typically network-level issues that may resolve
    /// on a subsequent attempt. Permanent errors indicate protocol violations,
    /// identity mismatches, or logical errors that won't change on retry.
    pub fn is_transient(&self) -> (r: bool)
        ensures
            r == self.transient(),
    {
        match self {
            ConnectionError::Io(kind, _) => match kind {
                IoKind::TimedOut
                | IoKind::ConnectionReset
                | IoKind::ConnectionRefused
                | IoKind::ConnectionAborted
                | IoKind::WouldBlock => true,
                IoKind::Other => false,
            },
            ConnectionError::HandshakeTimeout
            | ConnectionError::WriteStalled
            | ConnectionError::Idle => true,
            ConnectionError::Handshake(_)
            | ConnectionError::Protocol(_)
            | ConnectionError::Bitfield(_)
            | ConnectionError::SelfConnection => false,
        }
    }

    /// What the error reads like
    pub fn message(&self) -> (r: String)
        ensures
            r@ == match self {
                ConnectionError::Io(_, m) => "I/O error: "@ + m@,
                ConnectionError::HandshakeTimeout => "Handshake timed out"@,
                ConnectionError::WriteStalled => "Write stalled"@,
                ConnectionError::Handshake(e) => "Handshake failed: "@ + e.reads(),
                ConnectionError::Protocol(e) => "Protocol violation: "@ + e.reads(),
                ConnectionError::Bitfield(e) => "Bitfield error: "@ + e.reads(),
                ConnectionError::SelfConnection => "Self-connection detected"@,
                ConnectionError::Idle => "Idle timeout"@,
            },
    {
        match self {
            ConnectionError::Io(_, m) => joined("I/O error: ", m.as_str()),
            ConnectionError::HandshakeTimeout => String::from_str("Handshake timed out"),
            ConnectionError::WriteStalled => String::from_str("Write stalled"),
            ConnectionError::Handshake(e) => joined("Handshake failed: ", e.message().as_str()),
            ConnectionError::Protocol(e) => joined("Protocol violation: ", e.message().as_str()),
            ConnectionError::Bitfield(e) => joined("Bitfield error: ", e.message().as_str()),
            ConnectionError::SelfConnection => String::from_str("Self-connection detected"),
            ConnectionError::Idle => String::from_str("Idle timeout"),
        }
    }
}

impl HandshakeError {
    /// What the error reads like.
    pub open spec fn reads(self) -> Seq<char> {
        match self {
            HandshakeError::ParseFailure => "Parse failure: incomplete or malformed bytes"@,
            HandshakeError::InfoHashMismatch => "Info hash mismatch"@,
        }
    }

    /// What the error reads like
    pub fn message(&self) -> (r: String)
        ensures
            r@ == self.reads(),
    {
        match self {
            HandshakeError::ParseFailure => String::from_str(
                "Parse failure: incomplete or malformed bytes",
            ),
            HandshakeError::InfoHashMismatch => String::from_str("Info hash mismatch"),
        }
    }
}

/// The decimal form of an integer, as a text.
pub open spec fn signed_text(n: int) -> Seq<char> {
    if n < 0 {
        "-"@ + number_text((-n) as nat)
    } else {
        number_text(n as nat)
    }
}

/// The decimal form of an integer
pub fn signed_number(n: i64) -> (r: String)
    ensures
        r@ == signed_text(n as int),
{
    if n < 0 {
        joined("-", number((-(n as i128)) as u64).as_str())
    } else {
        number(n as u64)
    }
}

impl ProtocolViolation {
    /// What the error reads like.
    pub open spec fn reads(self) -> Seq<char> {
        match self {
            ProtocolViolation::DuplicateBitfield => "Duplicate bitfield"@,
            ProtocolViolation::InvalidPieceIndex { index, total } => "HAVE piece index "@
                + number_text(index as nat) + " out of range (have "@ + number_text(total as nat)
                + " pieces)"@,
            ProtocolViolation::UnknownMetadataMsgType(n) => "Unknown metadata msg_type: "@
                + signed_text(n as int),
            ProtocolViolation::BadMetadataBencode(m) => "Bad metadata bencode: "@ + m@,
            ProtocolViolation::MissingMetadataField(f) => "Missing field in metadata message: "@
                + f@,
        }
    }

    /// What the error reads like
    pub fn message(&self) -> (r: String)
        ensures
            r@ == self.reads(),
    {
        match self {
            ProtocolViolation::DuplicateBitfield => String::from_str("Duplicate bitfield"),
            ProtocolViolation::InvalidPieceIndex { index, total } => joined(
                "HAVE piece index ",
                number(*index as u64).as_str(),
            ).concat(" out of range (have ").concat(number(*total as u64).as_str()).concat(
                " pieces)",
            ),
            ProtocolViolation::UnknownMetadataMsgType(n) => joined(
                "Unknown metadata msg_type: ",
                signed_number(*n).as_str(),
            ),
            ProtocolViolation::BadMetadataBencode(m) => joined("Bad metadata bencode: ", m.as_str()),
            ProtocolViolation::MissingMetadataField(f) => joined(
                "Missing field in metadata message: ",
                f,
            ),
        }
    }
}

} // verus!
