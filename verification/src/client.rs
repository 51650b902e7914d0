//! A client of its own: its name, its port, its torrents.

use crate::tracker::TrackerHandler;
use crate::trackers::TrackerError;
use crate::types::{InfoHash, PeerID};
use vstd::prelude::*;

verus! {

/// The port that a client listens on
pub const PORT: u16 = 6881;

/// A torrent that a client is busy with.
#[derive(Debug, Clone, Copy)]
pub struct TorrentSession {}

/// A client.
#[derive(Debug)]
pub struct BittorentClient {
    pub peer_id: PeerID,
    pub port: u16,
    pub torrents: Vec<(InfoHash, TorrentSession)>,
}

impl BittorentClient {
    /// A client with a new name and no torrents
    pub fn new() -> (r: Self)
        ensures
            r.port == 6881,
            r.torrents@ == Seq::<(InfoHash, TorrentSession)>::empty(),
            r.peer_id@.subrange(0, 8) == seq![45u8, 82, 83, 48, 48, 48, 48, 45],
    {
        BittorentClient { peer_id: PeerID::generate(), port: PORT, torrents: Vec::new() }
    }

    /// What the client speaks to trackers through
    pub fn start(&self) -> (r: TrackerHandler)
        ensures
            r.manager.client_id == self.peer_id,
    {
        TrackerHandler::new(self.peer_id)
    }
}

/// What a client can be asked to do.
#[derive(Debug, Clone, Copy, PartialEq, Eq, Structural)]
pub enum ClientCommand {
    AddTorrent,
}

/// Why a client fails.
#[derive(Debug)]
pub enum Error {
    DiskError,
    TrackerError(TrackerError),
}

} // verus!
