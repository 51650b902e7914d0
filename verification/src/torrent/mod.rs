//! One torrent: what it knows, what happens to it, and what is to be done about it.

pub mod announce;
pub mod books;
pub mod control;
pub mod laws;
pub mod messages;
pub mod roster;

use crate::bitfield::Bitfield;
use crate::detail::{PeerSnapshot, TorrentDetail, TrackerState, TrackerStatus};
use crate::events::peer::{PeerEvent, PeerEventView};
use crate::events::session::{SessionEvent, SessionEventView};
use crate::events::torrent::{TorrentEvent, TorrentEventView};
use crate::magnet::Magnet;
use crate::metainfo::{Info, TorrentInfo};
use crate::metrics::counters::{MetricOp, MetricUpdate};
use crate::net::SocketAddr;
use crate::path::FilePath;
use crate::peer::{PeerMessage, PeerMessageView};
use crate::protocol::{Block, BlockInfo};
use crate::text::joined;
use crate::trackers::TrackerError;
use crate::types::PeerID;
use bytes::Bytes;
use std::sync::Arc;
use vstd::prelude::*;
use vstd::string::*;

verus! {

/// How many connections are made at the same time
pub const MAX_CONCURRENT_PEERS: usize = 50;

/// The number that a session gives a peer.
#[derive(Debug, Clone, Copy, PartialEq, Eq, Hash, PartialOrd, Ord, Structural)]
pub struct Pid(pub usize);

/// Session-level context shared across all torrents.
#[derive(Debug)]
pub struct TorrentContext {
    /// The name of the session
    pub peer_id: PeerID,
    /// The name of the client, under which a peer is listed until it has told its own
    pub client_id: PeerID,
    pub torrents_dir: FilePath,
    pub unchoke_slots: usize,
    /// Whether there is a DHT to ask for peers
    pub has_dht: bool,
}

/// Source material for creating a torrent.
/// Determines the initial state and metadata source.
#[derive(Debug)]
pub enum TorrentSource {
    /// Download from a .torrent file (complete metadata, start downloading)
    Torrent(TorrentInfo),
    /// Download from a magnet link (fetch metadata from peers first)
    Magnet(Magnet),
    /// Seed existing content (all pieces available, start seeding)
    Seed { torrent_info: TorrentInfo, content_dir: FilePath },
}

/// Where a peer comes from.
#[derive(Debug, Clone, Copy)]
pub enum PeerOrigin {
    /// It has connected to us
    Inbound { remote_addr: SocketAddr, supports_ext: bool, peer_id: PeerID, dht_enabled: bool },
    /// We connect to it
    Outbound(SocketAddr),
}

impl PeerOrigin {
    /// The peer's address
    pub fn get_addr(&self) -> (r: &SocketAddr)
        ensures
            *r == match *self {
                PeerOrigin::Inbound { remote_addr, .. } => remote_addr,
                PeerOrigin::Outbound(remote_addr) => remote_addr,
            },
    {
        match self {
            PeerOrigin::Inbound { remote_addr, .. } => remote_addr,
            PeerOrigin::Outbound(remote_addr) => remote_addr,
        }
    }
}

/// Why a torrent fails.
#[derive(Debug)]
pub enum TorrentError {
    Tracker(TrackerError),
    InvalidMagnet(String),
    Io(String),
}

impl TorrentError {
    /// What the error reads like
    pub fn message(&self) -> (r: String)
        ensures
            r@ == match self {
                TorrentError::Tracker(e) => "Failed "@ + e@.message(),
                TorrentError::InvalidMagnet(m) => "Invalid Magnet URI: "@ + m@,
                TorrentError::Io(m) => "I/O error: "@ + m@,
            },
    {
        match self {
            TorrentError::Tracker(e) => joined("Failed ", e.message().as_str()),
            TorrentError::InvalidMagnet(m) => joined("Invalid Magnet URI: ", m.as_str()),
            TorrentError::Io(m) => joined("I/O error: ", m.as_str()),
        }
    }
}

/// What a torrent is told.
#[derive(Debug)]
pub enum TorrentMessage {
    /// A connection asks whether the metadata is there
    ValidMetadata,
    DhtAddNode { node_addr: SocketAddr },
    Have { pid: Pid, piece_idx: u32 },
    ReceiveBlock(Pid, Block),
    /// A connection asks whether its peer is of interest
    ShouldBeInterested { pid: Pid, bitfield: Bitfield },
    Interest(Pid),
    NotInterest(Pid),
    /// A connection asks for blocks to request
    RequestBlock { pid: Pid, max_requests: usize, bitfield: Bitfield },
    ClearPeerRequest { pid: Pid },
    /// A peer asks for a block
    RemoteBlockRequest { pid: Pid, block_info: BlockInfo },
    PeerWithMetadata { pid: Pid, metadata_size: usize },
    /// A connection asks for a piece of the metadata to request
    FillMetadataRequest { pid: Pid },
    ReceiveMetadata { pid: Pid, piece_idx: u32, metadata: Bytes },
    RejectedMetadataRequest { pid: Pid, rejected_piece: u32 },
    /// A peer found us and wants to connect; it is to get this number
    InboundPeer {
        pid: Pid,
        remote_addr: SocketAddr,
        supports_ext: bool,
        peer_id: PeerID,
        dht_enabled: bool,
    },
    /// A peer is to be connected to; it is to get this number
    ConnectPeer { pid: Pid, addr: SocketAddr },
    /// Query peer snapshots
    GetPeerSnapshots,
    /// Query tracker statuses
    GetTrackerStatuses,
    /// Update tracker status (from announce task)
    TrackerUpdate {
        url: String,
        status: TrackerState,
        seeder_count: Option<u32>,
        leecher_count: Option<u32>,
        peers_received: u32,
        error: Option<String>,
    },
    /// Query torrent detail (files, metadata)
    GetTorrentDetail,
}

/// What a torrent answers.
#[derive(Debug)]
pub enum TorrentReply {
    /// Nothing was asked, or there is no answer
    Nothing,
    Metadata(Option<Arc<Info>>),
    Interest(bool),
    Blocks(Vec<BlockInfo>),
    MetadataPiece(u32),
    PeerSnapshots(Vec<PeerSnapshot>),
    TrackerStatuses(Vec<TrackerStatus>),
    Detail(TorrentDetail),
}

/// What a torrent asks to be done.
#[derive(Debug)]
pub enum TorrentAction {
    /// Give a connection a command
    ToPeer(Pid, PeerMessage),
    /// Read a block that a peer has asked for
    ReadBlock(Pid, BlockInfo),
    /// Hold a piece against its hash
    VerifyPiece { piece_index: u32, piece: Vec<u8> },
    /// Write a piece to disk
    WritePiece { piece_index: u32, piece: Vec<u8> },
    /// Register the torrent with the storage
    Register(Arc<Info>),
    /// Register the torrent with the storage, the content being there already
    RegisterSeed(Arc<Info>, FilePath),
    /// Keep the metadata under a path
    Persist(FilePath, Arc<Info>),
    /// Tell the DHT of a node
    AddNode(SocketAddr),
    /// Connect to a peer
    Connect(Pid, SocketAddr),
    /// Tell those who listen what has happened
    Torrent(TorrentEvent),
    Session(SessionEvent),
    Peer(PeerEvent),
    /// Count something
    Count(MetricUpdate),
}

/// What a torrent asks to be done.
#[verifier::ext_equal]
pub enum ActionView {
    ToPeer(Pid, PeerMessageView),
    ReadBlock(Pid, BlockInfo),
    VerifyPiece(u32, Seq<u8>),
    WritePiece(u32, Seq<u8>),
    Register(Arc<Info>),
    RegisterSeed(Arc<Info>, Seq<char>),
    Persist(Seq<char>, Arc<Info>),
    AddNode(SocketAddr),
    Connect(Pid, SocketAddr),
    Torrent(TorrentEventView),
    Session(SessionEventView),
    Peer(PeerEventView),
    Count(Seq<char>, MetricOp),
}

impl View for TorrentAction {
    type V = ActionView;

    open spec fn view(&self) -> ActionView {
        match self {
            TorrentAction::ToPeer(pid, m) => ActionView::ToPeer(*pid, m@),
            TorrentAction::ReadBlock(pid, b) => ActionView::ReadBlock(*pid, *b),
            TorrentAction::VerifyPiece { piece_index, piece } => ActionView::VerifyPiece(
                *piece_index,
                piece@,
            ),
            TorrentAction::WritePiece { piece_index, piece } => ActionView::WritePiece(
                *piece_index,
                piece@,
            ),
            TorrentAction::Register(info) => ActionView::Register(*info),
            TorrentAction::RegisterSeed(info, dir) => ActionView::RegisterSeed(*info, dir@),
            TorrentAction::Persist(path, info) => ActionView::Persist(path@, *info),
            TorrentAction::AddNode(a) => ActionView::AddNode(*a),
            TorrentAction::Connect(pid, a) => ActionView::Connect(*pid, *a),
            TorrentAction::Torrent(e) => ActionView::Torrent(e@),
            TorrentAction::Session(e) => ActionView::Session(e@),
            TorrentAction::Peer(e) => ActionView::Peer(e@),
            TorrentAction::Count(m) => ActionView::Count(m.name@, m.op),
        }
    }
}

/// What a list of actions asks for.
pub open spec fn asked(s: Seq<TorrentAction>) -> Seq<ActionView> {
    Seq::new(s.len(), |i: int| s[i]@)
}

} // verus!
