//! How far a torrent has come.

use vstd::prelude::*;
use vstd::string::*;

verus! {

/// How far a torrent has come, but for the rates.
#[derive(Debug)]
pub struct TorrentProgress {
    pub name: String,
    pub total_pieces: u32,
    pub verified_pieces: u32,
    pub failed_pieces: u32,
    pub total_bytes: u64,
    pub downloaded_bytes: u64,
    pub uploaded_bytes: u64,
    pub connected_peers: u32,
    pub state: TorrentState,
    pub eta_seconds: Option<u64>,
}

/// What a torrent is doing.
#[derive(Debug, PartialEq, Eq)]
pub enum TorrentState {
    FetchingMetadata,
    Checking,
    Downloading,
    Seeding,
    Paused,
    Error(String),
    Finished,
}

/// What a torrent state says.
#[verifier::ext_equal]
pub enum StateView {
    FetchingMetadata,
    Checking,
    Downloading,
    Seeding,
    Paused,
    Error(Seq<char>),
    Finished,
}

impl View for TorrentState {
    type V = StateView;

    open spec fn view(&self) -> StateView {
        match self {
            TorrentState::FetchingMetadata => StateView::FetchingMetadata,
            TorrentState::Checking => StateView::Checking,
            TorrentState::Downloading => StateView::Downloading,
            TorrentState::Seeding => StateView::Seeding,
            TorrentState::Paused => StateView::Paused,
            TorrentState::Error(m) => StateView::Error(m@),
            TorrentState::Finished => StateView::Finished,
        }
    }
}

impl TorrentState {
    /// A copy of the state
    pub fn copy(&self) -> (r: Self)
        ensures
            r@ == self@,
    {
        match self {
            TorrentState::FetchingMetadata => TorrentState::FetchingMetadata,
            TorrentState::Checking => TorrentState::Checking,
            TorrentState::Downloading => TorrentState::Downloading,
            TorrentState::Seeding => TorrentState::Seeding,
            TorrentState::Paused => TorrentState::Paused,
            TorrentState::Error(m) => TorrentState::Error(m.clone()),
            TorrentState::Finished => TorrentState::Finished,
        }
    }

    /// Whether the torrent is seeding
    pub fn is_seeding(&self) -> (r: bool)
        ensures
            r == (self@ == StateView::Seeding),
    {
        matches!(self, TorrentState::Seeding)
    }

    /// Whether the torrent is downloading
    pub fn is_downloading(&self) -> (r: bool)
        ensures
            r == (self@ == StateView::Downloading),
    {
        matches!(self, TorrentState::Downloading)
    }
}

impl Default for TorrentProgress {
    /// A torrent that nothing is known of
    fn default() -> (r: Self)
        ensures
            r.name@ == Seq::<char>::empty(),
            r.total_pieces == 0 && r.verified_pieces == 0 && r.failed_pieces == 0,
            r.total_bytes == 0 && r.downloaded_bytes == 0 && r.uploaded_bytes == 0,
            r.connected_peers == 0,
            r.state@ == StateView::Checking,
            r.eta_seconds is None,
    {
        TorrentProgress {
            name: String::new(),
            total_pieces: 0,
            verified_pieces: 0,
            failed_pieces: 0,
            total_bytes: 0,
            downloaded_bytes: 0,
            uploaded_bytes: 0,
            connected_peers: 0,
            state: TorrentState::Checking,
            eta_seconds: None,
        }
    }
}

} // verus!
