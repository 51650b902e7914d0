//! What happens to the session as a whole.

use crate::net::{IpAddr, SocketAddr};
use crate::types::InfoHash;
use vstd::prelude::*;

verus! {

/// Something that has happened to the session.
#[derive(Debug)]
pub enum SessionEvent {
    TorrentAdded(InfoHash),
    TorrentRemoved(InfoHash),
    TorrentCompleted(InfoHash),
    MetadataFetched(InfoHash),
    TorrentError(InfoHash, String),
    ListenSucceeded { addr: SocketAddr },
    ListenFailed { addr: SocketAddr, error: String },
    ExternalIpDiscovered { addr: IpAddr },
}

/// What an event says.
#[verifier::ext_equal]
pub enum SessionEventView {
    TorrentAdded(InfoHash),
    TorrentRemoved(InfoHash),
    TorrentCompleted(InfoHash),
    MetadataFetched(InfoHash),
    TorrentError(InfoHash, Seq<char>),
    ListenSucceeded(SocketAddr),
    ListenFailed(SocketAddr, Seq<char>),
    ExternalIpDiscovered(IpAddr),
}

impl View for SessionEvent {
    type V = SessionEventView;

    open spec fn view(&self) -> SessionEventView {
        match self {
            SessionEvent::TorrentAdded(h) => SessionEventView::TorrentAdded(*h),
            SessionEvent::TorrentRemoved(h) => SessionEventView::TorrentRemoved(*h),
            SessionEvent::TorrentCompleted(h) => SessionEventView::TorrentCompleted(*h),
            SessionEvent::MetadataFetched(h) => SessionEventView::MetadataFetched(*h),
            SessionEvent::TorrentError(h, m) => SessionEventView::TorrentError(*h, m@),
            SessionEvent::ListenSucceeded { addr } => SessionEventView::ListenSucceeded(*addr),
            SessionEvent::ListenFailed { addr, error } => SessionEventView::ListenFailed(
                *addr,
                error@,
            ),
            SessionEvent::ExternalIpDiscovered { addr } => SessionEventView::ExternalIpDiscovered(
                *addr,
            ),
        }
    }
}

} // verus!
