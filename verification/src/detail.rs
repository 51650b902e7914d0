//! What there is to tell of a torrent to those who look at it.

use crate::metainfo::{file_views, FileView, Info, InfoView, TorrentInfo};
use crate::net::SocketAddr;
use crate::path::FilePath;
use crate::text::{copy_opt_text, opt_text};
use crate::types::InfoHash;
use vstd::prelude::*;
use vstd::string::*;

verus! {

/// Static torrent metadata that doesn't change after the torrent is added.
///
/// Set once when metadata is fetched, never changes after that.
#[derive(Debug)]
pub struct TorrentMeta {
    /// SHA1 hash of the info dictionary
    pub info_hash: InfoHash,
    /// Display name from torrent metadata
    pub name: String,
    /// Total size in bytes
    pub total_bytes: u64,
    /// Piece length in bytes
    pub piece_length: u32,
    /// Number of pieces
    pub num_pieces: u32,
    /// Number of files (1 for single-file torrents)
    pub num_files: usize,
    /// Whether this is a private torrent
    pub is_private: bool,
    /// Optional comment from .torrent file
    pub comment: Option<String>,
    /// Optional creator from .torrent file
    pub created_by: Option<String>,
}

impl TorrentMeta {
    /// Whether this is what an info dictionary says, with the given remarks.
    pub open spec fn tells(
        &self,
        info_hash: InfoHash,
        info: InfoView,
        comment: Option<Seq<char>>,
        created_by: Option<Seq<char>>,
    ) -> bool {
        &&& self.info_hash == info_hash
        &&& self.name@ == info.mode.name()
        &&& self.total_bytes == info.mode.total() as u64
        &&& self.piece_length == info.piece_length as u32
        &&& self.num_pieces == info.pieces.len() as u32
        &&& self.num_files == info.mode.files().len()
        &&& self.is_private == (info.private == Some(1int))
        &&& opt_text(self.comment) == comment
        &&& opt_text(self.created_by) == created_by
    }

    /// Create from a parsed TorrentInfo
    pub fn from_torrent_info(info_hash: InfoHash, torrent_info: &TorrentInfo) -> (r: Self)
        requires
            torrent_info.info.says().mode.size_fits(),
        ensures
            r.tells(
                info_hash,
                torrent_info.info.says(),
                opt_text(torrent_info.comment),
                opt_text(torrent_info.created_by),
            ),
    {
        let mut r = Self::from_info(info_hash, &torrent_info.info);
        r.comment = copy_opt_text(&torrent_info.comment);
        r.created_by = copy_opt_text(&torrent_info.created_by);
        r
    }

    /// Create from Info hash and Info struct (for magnet links after metadata fetched)
    pub fn from_info(info_hash: InfoHash, info: &Info) -> (r: Self)
        requires
            info.says().mode.size_fits(),
        ensures
            r.tells(info_hash, info.says(), None, None),
    {
        let files = info.mode.files();
        assert(files@.len() == file_views(files@).len());
        Self {
            info_hash,
            name: String::from_str(info.mode.name()),
            total_bytes: info.total_size() as u64,
            piece_length: info.piece_length as u32,
            num_pieces: info.pieces.len() as u32,
            num_files: files.len(),
            is_private: match info.private {
                Some(p) => p == 1,
                None => false,
            },
            comment: None,
            created_by: None,
        }
    }
}

/// File information with download progress.
#[derive(Debug)]
pub struct FileInfo {
    /// File index in the torrent
    pub index: usize,
    /// Path relative to the torrent root
    pub path: FilePath,
    /// Total file size in bytes
    pub size_bytes: u64,
    /// Bytes downloaded (verified pieces covering this file)
    pub downloaded_bytes: u64,
}

/// Whether a list tells of the files of a torrent, in order.
pub open spec fn tells_files(l: Seq<FileInfo>, files: Seq<FileView>) -> bool {
    &&& l.len() == files.len()
    &&& forall|i: int|
        0 <= i < l.len() ==> (#[trigger] l[i]).index == i && l[i].path@ == files[i].path
            && l[i].size_bytes == files[i].length as u64 && l[i].downloaded_bytes == 0
}

/// The files of a torrent, in order
pub fn list_files(info: &Info) -> (r: Vec<FileInfo>)
    ensures
        tells_files(r@, info.says().mode.files()),
{
    let files = info.files();
    let ghost views = file_views(files@);
    let mut r: Vec<FileInfo> = Vec::new();
    let mut i: usize = 0;
    while i < files.len()
        invariant
            i <= files.len(),
            views == file_views(files@),
            r.len() == i,
            forall|k: int|
                0 <= k < i ==> (#[trigger] r@[k]).index == k && r@[k].path@ == views[k].path
                    && r@[k].size_bytes == views[k].length as u64 && r@[k].downloaded_bytes == 0,
        decreases files.len() - i,
    {
        assert(views[i as int] == files[i as int].says());
        r.push(
            FileInfo {
                index: i,
                path: FilePath::from_text(files[i].path.as_str()),
                size_bytes: files[i].length as u64,
                downloaded_bytes: 0,
            },
        );
        i = i + 1;
    }
    r
}

/// Extension flags indicating peer protocol support.
#[derive(Debug, Clone, Copy, PartialEq, Eq, Structural)]
pub struct ExtensionFlags {
    /// DHT support
    pub dht: bool,
    /// Extension protocol support (BEP 10)
    pub extension_protocol: bool,
    /// Metadata exchange support (BEP 9)
    pub metadata: bool,
    /// Peer exchange support (BEP 11)
    pub pex: bool,
}

impl Default for ExtensionFlags {
    /// No extension at all
    fn default() -> (r: Self)
        ensures
            r == (ExtensionFlags {
                dht: false,
                extension_protocol: false,
                metadata: false,
                pex: false,
            }),
    {
        ExtensionFlags { dht: false, extension_protocol: false, metadata: false, pex: false }
    }
}

/// Detailed peer connection state for the UI, but for the rates.
#[derive(Debug)]
pub struct PeerInfoSnapshot {
    /// Whether the peer is choking us (we can't download)
    pub remote_choking: bool,
    /// Whether the peer is interested in us (wants data)
    pub remote_interested: bool,
    /// Whether we are choking the peer (they can't download)
    pub am_choking: bool,
    /// Whether we are interested in the peer (want data)
    pub am_interested: bool,
    /// Connection direction
    pub source: Direction,
    /// Peer client identification string
    pub client_name: String,
    /// Extension flags
    pub extension_flags: ExtensionFlags,
}

/// Snapshot of a connected peer's state for the UI.
#[derive(Debug)]
pub struct PeerSnapshot {
    /// Peer address and port
    pub addr: SocketAddr,
    /// Detailed peer info
    pub info: PeerInfoSnapshot,
}

/// Status of a tracker for a torrent.
#[derive(Debug)]
pub struct TrackerStatus {
    /// Tracker announce URL
    pub url: String,
    /// Tracker tier (lower = higher priority, None if unknown)
    pub tier: Option<usize>,
    /// Number of seeders reported by tracker (if known)
    pub seeder_count: Option<u32>,
    /// Number of leechers reported by tracker (if known)
    pub leecher_count: Option<u32>,
    /// Number of peers received from last announce
    pub peers_received: u32,
    /// Current tracker state
    pub status: TrackerState,
    /// Last error message (if any)
    pub last_error: Option<String>,
}

/// What a tracker's status says.
#[verifier::ext_equal]
pub struct TrackerView {
    pub url: Seq<char>,
    pub tier: Option<usize>,
    pub seeder_count: Option<u32>,
    pub leecher_count: Option<u32>,
    pub peers_received: u32,
    pub status: TrackerState,
    pub last_error: Option<Seq<char>>,
}

impl View for TrackerStatus {
    type V = TrackerView;

    open spec fn view(&self) -> TrackerView {
        TrackerView {
            url: self.url@,
            tier: self.tier,
            seeder_count: self.seeder_count,
            leecher_count: self.leecher_count,
            peers_received: self.peers_received,
            status: self.status,
            last_error: opt_text(self.last_error),
        }
    }
}

impl TrackerView {
    /// A tracker that has not been contacted.
    pub open spec fn idle(url: Seq<char>) -> TrackerView {
        TrackerView {
            url,
            tier: None,
            seeder_count: None,
            leecher_count: None,
            peers_received: 0,
            status: TrackerState::Idle,
            last_error: None,
        }
    }
}

impl TrackerStatus {
    /// A tracker that has not been contacted
    pub fn idle(url: String) -> (r: Self)
        ensures
            r@ == TrackerView::idle(url@),
    {
        TrackerStatus {
            url,
            tier: None,
            seeder_count: None,
            leecher_count: None,
            peers_received: 0,
            status: TrackerState::Idle,
            last_error: None,
        }
    }

    /// A copy of the status
    pub fn copy(&self) -> (r: Self)
        ensures
            r@ == self@,
    {
        TrackerStatus {
            url: self.url.clone(),
            tier: self.tier,
            seeder_count: self.seeder_count,
            leecher_count: self.leecher_count,
            peers_received: self.peers_received,
            status: self.status,
            last_error: copy_opt_text(&self.last_error),
        }
    }
}

/// Connection direction for a peer.
#[derive(Debug, Clone, Copy, PartialEq, Eq, Structural)]
pub enum Direction {
    /// We connected to this peer
    Outbound,
    /// This peer connected to us
    Inbound,
}

/// Tracker connection state.
#[derive(Debug, Clone, Copy, PartialEq, Eq, Structural)]
pub enum TrackerState {
    /// Not yet contacted
    Idle,
    /// Currently announcing
    Announcing,
    /// Successfully announced
    Announced,
    /// Last announce failed
    Error,
}

/// Complete torrent detail for the TUI detail view.
///
/// Contains all information needed to render the detail tabs:
/// overview, files, peers, and trackers.
#[derive(Debug)]
pub struct TorrentDetail {
    /// Static metadata
    pub meta: TorrentMeta,
    /// List of files with progress
    pub files: Vec<FileInfo>,
    /// Connected peers
    pub peers: Vec<PeerSnapshot>,
    /// Tracker statuses
    pub trackers: Vec<TrackerStatus>,
}

} // verus!
