//! Trackers, which know the peers of a torrent.

pub mod http;
pub mod udp;

use crate::bencode::BencodeError;
use crate::metadata::bencode_message;
use crate::net::SocketAddr;
use crate::text::joined;
use crate::types::{InfoHash, PeerID};
use vstd::prelude::*;
use vstd::string::*;

verus! {

/// What a tracker is told besides the numbers.
#[derive(Debug, Clone, Copy, PartialEq, Eq, Structural)]
pub enum Events {
    /// Nothing: the announcement is one of those made at intervals
    Regular,
    Completed,
    Started,
    Stopped,
}

impl Events {
    /// The event's name, where it has one
    pub fn as_str(&self) -> (r: Option<&'static str>)
        ensures
            match *self {
                Events::Regular => r is None,
                Events::Completed => r matches Some(s) && s@ == "completed"@,
                Events::Started => r matches Some(s) && s@ == "started"@,
                Events::Stopped => r matches Some(s) && s@ == "stopped"@,
            },
    {
        match self {
            Events::Regular => None,
            Events::Completed => Some("completed"),
            Events::Started => Some("started"),
            Events::Stopped => Some("stopped"),
        }
    }

    /// The event's number.
    pub open spec fn number(self) -> u32 {
        match self {
            Events::Regular => 0,
            Events::Completed => 1,
            Events::Started => 2,
            Events::Stopped => 3,
        }
    }

    /// The event's number
    pub fn as_int(&self) -> (r: u32)
        ensures
            r == self.number(),
    {
        match self {
            Events::Regular => 0,
            Events::Completed => 1,
            Events::Started => 2,
            Events::Stopped => 3,
        }
    }
}

/// What a tracker is told.
#[derive(Debug, Clone, Copy)]
pub struct AnnounceData {
    pub info_hash: InfoHash,
    pub peer_id: PeerID,
    pub port: u16,
    pub uploaded: i64,
    pub downloaded: i64,
    pub left: i64,
    pub event: Events,
}

/// What a tracker answers.
#[derive(Debug)]
pub struct AnnounceResponse {
    /// A list of peer addresses (IP and port) obtained from the tracker.
    /// These are potential peers for the client to connect to for downloading/uploading data.
    pub peers: Vec<SocketAddr>,
    /// The recommended interval (in seconds) that the client should wait
    /// before sending its next regular announce request to the tracker.
    pub interval: i32,
    /// The number of "leechers" (incomplete peers) currently in the swarm for this torrent.
    pub leechers: i32,
    /// The number of "seeders" (complete peers) currently in the swarm for this torrent.
    pub seeders: i32,
}

/// What a tracker answers.
#[verifier::ext_equal]
pub struct ResponseView {
    pub peers: Seq<SocketAddr>,
    pub interval: i32,
    pub leechers: i32,
    pub seeders: i32,
}

impl View for AnnounceResponse {
    type V = ResponseView;

    open spec fn view(&self) -> ResponseView {
        ResponseView {
            peers: self.peers@,
            interval: self.interval,
            leechers: self.leechers,
            seeders: self.seeders,
        }
    }
}

/// Which way a tracker is spoken to.
#[derive(Debug)]
pub enum TrackerUrl {
    Udp(String),
    Http(String),
}

/// Why a tracker gives no answer.
#[derive(Debug)]
pub enum TrackerError {
    Network(String),
    Http(String),
    UrlParse(String),
    InvalidResponse(String),
    Timeout,
    InvalidScheme(String),
    TrackerError(String),
    UdpConnectionFailed,
    TransactionMismatch,
    BencodeError(BencodeError),
    InvalidString,
    InvalidUrl(String),
    TooShort,
    UnableToConnect,
}

/// Why a tracker gives no answer.
#[verifier::ext_equal]
pub enum TrackerFault {
    Network(Seq<char>),
    Http(Seq<char>),
    UrlParse(Seq<char>),
    InvalidResponse(Seq<char>),
    Timeout,
    InvalidScheme(Seq<char>),
    TrackerError(Seq<char>),
    UdpConnectionFailed,
    TransactionMismatch,
    BencodeError(BencodeError),
    InvalidString,
    InvalidUrl(Seq<char>),
    TooShort,
    UnableToConnect,
}

impl View for TrackerError {
    type V = TrackerFault;

    open spec fn view(&self) -> TrackerFault {
        match self {
            TrackerError::Network(m) => TrackerFault::Network(m@),
            TrackerError::Http(m) => TrackerFault::Http(m@),
            TrackerError::UrlParse(m) => TrackerFault::UrlParse(m@),
            TrackerError::InvalidResponse(m) => TrackerFault::InvalidResponse(m@),
            TrackerError::Timeout => TrackerFault::Timeout,
            TrackerError::InvalidScheme(m) => TrackerFault::InvalidScheme(m@),
            TrackerError::TrackerError(m) => TrackerFault::TrackerError(m@),
            TrackerError::UdpConnectionFailed => TrackerFault::UdpConnectionFailed,
            TrackerError::TransactionMismatch => TrackerFault::TransactionMismatch,
            TrackerError::BencodeError(e) => TrackerFault::BencodeError(*e),
            TrackerError::InvalidString => TrackerFault::InvalidString,
            TrackerError::InvalidUrl(m) => TrackerFault::InvalidUrl(m@),
            TrackerError::TooShort => TrackerFault::TooShort,
            TrackerError::UnableToConnect => TrackerFault::UnableToConnect,
        }
    }
}

impl TrackerFault {
    /// What an error reads like.
    pub open spec fn message(self) -> Seq<char> {
        match self {
            TrackerFault::Network(m) => "Network error: "@ + m,
            TrackerFault::Http(m) => "HTTP error: "@ + m,
            TrackerFault::UrlParse(m) => "URL parse error: "@ + m,
            TrackerFault::InvalidResponse(m) => "Invalid tracker response: "@ + m,
            TrackerFault::Timeout => "Connection timeout"@,
            TrackerFault::InvalidScheme(m) => "Invalid announce URL scheme: "@ + m,
            TrackerFault::TrackerError(m) => "Tracker returned error: "@ + m,
            TrackerFault::UdpConnectionFailed => "UDP connection failed"@,
            TrackerFault::TransactionMismatch => "Transaction ID mismatch"@,
            TrackerFault::BencodeError(e) => "BencodeError "@ + bencode_message(e),
            TrackerFault::InvalidString => "Invalid string"@,
            TrackerFault::InvalidUrl(m) => "Invalid Url "@ + m,
            TrackerFault::TooShort => "Packet is too short"@,
            TrackerFault::UnableToConnect => "could not establish connection to a tracker"@,
        }
    }

    /// Whether asking again is of no use.
    pub open spec fn permanent(self) -> bool {
        self is InvalidScheme || self is InvalidUrl || self is UrlParse
    }
}

impl TrackerError {
    /// What the error reads like
    pub fn message(&self) -> (r: String)
        ensures
            r@ == self@.message(),
    {
        match self {
            TrackerError::Network(m) => joined("Network error: ", m.as_str()),
            TrackerError::Http(m) => joined("HTTP error: ", m.as_str()),
            TrackerError::UrlParse(m) => joined("URL parse error: ", m.as_str()),
            TrackerError::InvalidResponse(m) => joined("Invalid tracker response: ", m.as_str()),
            TrackerError::Timeout => String::from_str("Connection timeout"),
            TrackerError::InvalidScheme(m) => joined("Invalid announce URL scheme: ", m.as_str()),
            TrackerError::TrackerError(m) => joined("Tracker returned error: ", m.as_str()),
            TrackerError::UdpConnectionFailed => String::from_str("UDP connection failed"),
            TrackerError::TransactionMismatch => String::from_str("Transaction ID mismatch"),
            TrackerError::BencodeError(e) => joined("BencodeError ", e.message().as_str()),
            TrackerError::InvalidString => String::from_str("Invalid string"),
            TrackerError::InvalidUrl(m) => joined("Invalid Url ", m.as_str()),
            TrackerError::TooShort => String::from_str("Packet is too short"),
            TrackerError::UnableToConnect => String::from_str(
                "could not establish connection to a tracker",
            ),
        }
    }

    /// Whether asking again is of no use
    pub fn is_permanent(&self) -> (r: bool)
        ensures
            r == self@.permanent(),
    {
        match self {
            TrackerError::InvalidScheme(_) => true,
            TrackerError::InvalidUrl(_) => true,
            TrackerError::UrlParse(_) => true,
            _ => false,
        }
    }
}

/// What comes of a question to a tracker.
pub open spec fn answer<T: View>(r: Result<T, TrackerError>) -> Result<T::V, TrackerFault> {
    match r {
        Ok(v) => Ok(v@),
        Err(e) => Err(e@),
    }
}

/// An answer that makes no sense
pub fn invalid_response(m: &str) -> (r: TrackerError)
    ensures
        r@ == TrackerFault::InvalidResponse(m@),
{
    TrackerError::InvalidResponse(String::from_str(m))
}

} // verus!
