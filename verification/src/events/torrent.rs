//! What happens to a torrent.

use crate::metrics::progress::{StateView, TorrentState};
use vstd::prelude::*;

verus! {

/// Something that has happened to a torrent.
#[derive(Debug)]
pub enum TorrentEvent {
    StateChanged { prev: TorrentState, next: TorrentState },
    TorrentFinished,
    TorrentPaused,
    TorrentResumed,
    FileCompleted { file_index: u32 },
    TrackerAnnounced { url: String, peers_received: u32 },
    TrackerError { url: String, error: String, times_in_row: u32 },
    HashFailed { piece_index: u32 },
    MetadataReceived,
}

/// What an event says.
#[verifier::ext_equal]
pub enum TorrentEventView {
    StateChanged(StateView, StateView),
    TorrentFinished,
    TorrentPaused,
    TorrentResumed,
    FileCompleted(u32),
    TrackerAnnounced(Seq<char>, u32),
    TrackerError(Seq<char>, Seq<char>, u32),
    HashFailed(u32),
    MetadataReceived,
}

impl View for TorrentEvent {
    type V = TorrentEventView;

    open spec fn view(&self) -> TorrentEventView {
        match self {
            TorrentEvent::StateChanged { prev, next } => TorrentEventView::StateChanged(
                prev@,
                next@,
            ),
            TorrentEvent::TorrentFinished => TorrentEventView::TorrentFinished,
            TorrentEvent::TorrentPaused => TorrentEventView::TorrentPaused,
            TorrentEvent::TorrentResumed => TorrentEventView::TorrentResumed,
            TorrentEvent::FileCompleted { file_index } => TorrentEventView::FileCompleted(
                *file_index,
            ),
            TorrentEvent::TrackerAnnounced { url, peers_received } =>
                TorrentEventView::TrackerAnnounced(url@, *peers_received),
            TorrentEvent::TrackerError { url, error, times_in_row } =>
                TorrentEventView::TrackerError(url@, error@, *times_in_row),
            TorrentEvent::HashFailed { piece_index } => TorrentEventView::HashFailed(*piece_index),
            TorrentEvent::MetadataReceived => TorrentEventView::MetadataReceived,
        }
    }
}

} // verus!
