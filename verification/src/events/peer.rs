//! What happens to the connections with peers.

use crate::net::SocketAddr;
use vstd::prelude::*;

verus! {

/// Something that has happened to a connection.
#[derive(Debug)]
pub enum PeerEvent {
    Connected { addr: SocketAddr, direction: Direction },
    Disconnected { addr: SocketAddr, reason: DisconnectReason },
    Choked { addr: SocketAddr },
    Unchoked { addr: SocketAddr },
    Snubbed { addr: SocketAddr },
    Banned { addr: SocketAddr },
}

/// Connection direction for a peer.
#[derive(Debug, Clone, Copy, PartialEq, Eq, Structural)]
pub enum Direction {
    /// We connected to this peer
    Outbound,
    /// This peer connected to us
    Inbound,
}

/// Why a connection has ended.
#[derive(Debug)]
pub enum DisconnectReason {
    Timeout,
    ProtocolError,
    Banned,
    SessionShutdown,
    Other(String),
}

/// Why a connection has ended.
#[verifier::ext_equal]
pub enum ReasonView {
    Timeout,
    ProtocolError,
    Banned,
    SessionShutdown,
    Other(Seq<char>),
}

impl View for DisconnectReason {
    type V = ReasonView;

    open spec fn view(&self) -> ReasonView {
        match self {
            DisconnectReason::Timeout => ReasonView::Timeout,
            DisconnectReason::ProtocolError => ReasonView::ProtocolError,
            DisconnectReason::Banned => ReasonView::Banned,
            DisconnectReason::SessionShutdown => ReasonView::SessionShutdown,
            DisconnectReason::Other(m) => ReasonView::Other(m@),
        }
    }
}

/// What an event says.
#[verifier::ext_equal]
pub enum PeerEventView {
    Connected(SocketAddr, Direction),
    Disconnected(SocketAddr, ReasonView),
    Choked(SocketAddr),
    Unchoked(SocketAddr),
    Snubbed(SocketAddr),
    Banned(SocketAddr),
}

impl View for PeerEvent {
    type V = PeerEventView;

    open spec fn view(&self) -> PeerEventView {
        match self {
            PeerEvent::Connected { addr, direction } => PeerEventView::Connected(*addr, *direction),
            PeerEvent::Disconnected { addr, reason } => PeerEventView::Disconnected(*addr, reason@),
            PeerEvent::Choked { addr } => PeerEventView::Choked(*addr),
            PeerEvent::Unchoked { addr } => PeerEventView::Unchoked(*addr),
            PeerEvent::Snubbed { addr } => PeerEventView::Snubbed(*addr),
            PeerEvent::Banned { addr } => PeerEventView::Banned(*addr),
        }
    }
}

} // verus!
