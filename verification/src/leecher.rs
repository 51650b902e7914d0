//! A torrent that fetches and does no more: it has few peers, and picks no pieces.

use crate::buffers::{bytes_content, bytes_mut_with_capacity};
use crate::metadata::{FetchState, Known, Metadata, MetadataFetch, MetadataState};
use crate::metainfo::{texts, TorrentInfo};
use crate::magnet::Magnet;
use crate::net::SocketAddr;
use crate::peer::{PeerMessage, PeerMessageView};
use crate::protocol::{Block, BlockInfo, Message};
use crate::shared::share;
use crate::torrent::announce::ClientState;
use crate::torrent::control::read_urls;
use crate::torrent::Pid;
use crate::trackers::{AnnounceResponse, Events, TrackerError};
use crate::types::InfoHash;
use crate::urls::{read_url, url_view, ParsedUrl, UrlView};
use bytes::Bytes;
use std::sync::Arc;
use vstd::prelude::*;
use vstd::string::*;

verus! {

/// How many peers there are at most
pub const MAX_PEERS: usize = 15;

/// Where a peer comes from.
#[derive(Debug, Clone, Copy)]
pub enum PeerSource {
    /// It has connected to us
    Inbound { remote_addr: SocketAddr, supports_ext: bool },
    /// We connect to it
    Outbound(SocketAddr),
}

impl PeerSource {
    /// The peer's address
    pub fn get_addr(&self) -> (r: &SocketAddr)
        ensures
            *r == match *self {
                PeerSource::Inbound { remote_addr, .. } => remote_addr,
                PeerSource::Outbound(remote_addr) => remote_addr,
            },
    {
        match self {
            PeerSource::Inbound { remote_addr, .. } => remote_addr,
            PeerSource::Outbound(remote_addr) => remote_addr,
        }
    }
}

/// What a torrent is told.
#[derive(Debug)]
pub enum TorrentMessage {
    PeerDisconnected(Pid),
    PeerError(Pid),
    Have { pid: Pid, piece_idx: u32 },
    Bitfield(Pid, Vec<u8>),
    BlockRequest(Pid, BlockInfo),
    AddBlock(Pid, Block),
    Interest(Pid),
    NotInterest(Pid),
    NeedTask(Pid),
    /// A connection asks whether the metadata is there
    ValidMetadata,
    PeerWithMetadata { pid: Pid, metadata_size: usize },
    /// A connection asks for a piece of the metadata to request
    FillMetadataRequest { pid: Pid },
    ReceiveMetadata { pid: Pid, piece_idx: u32, metadata: Bytes },
}

/// What a torrent answers.
#[derive(Debug, Clone, Copy, PartialEq, Eq, Structural)]
pub enum TorrentReply {
    /// Nothing was asked, or there is no answer
    Nothing,
    HasMetadata(bool),
    MetadataPiece(u32),
}

/// What a torrent is doing.
#[derive(Debug, Clone, Copy, Eq, PartialEq, Structural)]
pub enum TorrentState {
    Seeding,
    Paused,
    Leeching,
}

/// One torrent.
#[derive(Debug)]
pub struct Torrent {
    pub info_hash: InfoHash,
    /// metadata and metadata state of the torrent
    pub metadata: Metadata,
    pub state: TorrentState,
    pub trackers: Vec<String>,
    pub peers: Vec<(Pid, SocketAddr)>,
}

/// What a torrent knows.
#[verifier::ext_equal]
pub struct LeechView {
    pub hash: InfoHash,
    pub metadata: Known,
    pub state: TorrentState,
    pub trackers: Seq<Seq<char>>,
    pub peers: Seq<(Pid, SocketAddr)>,
}

impl View for Torrent {
    type V = LeechView;

    open spec fn view(&self) -> LeechView {
        LeechView {
            hash: self.info_hash,
            metadata: self.metadata@,
            state: self.state,
            trackers: texts(self.trackers@),
            peers: self.peers@,
        }
    }
}

/// Those of the first `n` texts that are urls, in their normal form.
pub open spec fn good_urls(l: Seq<(Seq<char>, Result<UrlView, Seq<char>>)>, n: int) -> Seq<Seq<char>>
    decreases n,
{
    if n <= 0 {
        Seq::empty()
    } else {
        match l[n - 1].1 {
            Ok(u) => good_urls(l, n - 1).push(u.text),
            Err(_) => good_urls(l, n - 1),
        }
    }
}

/// Whether a number is that of a peer.
pub open spec fn has_peer(s: Seq<(Pid, SocketAddr)>, pid: Pid) -> bool {
    exists|i: int| 0 <= i < s.len() && (#[trigger] s[i]).0 == pid
}

impl LeechView {
    /// The bytes of the pieces, all taken to be of the same length.
    pub open spec fn bytes_left(self) -> int {
        match self.metadata.info() {
            Some(info) => info.piece_length * info.pieces.len(),
            None => 0,
        }
    }

    /// Whether a message can be dealt with: a piece of the metadata must be one that is wanted.
    pub open spec fn admits(self, m: TorrentMessage) -> bool {
        match m {
            TorrentMessage::PeerWithMetadata { metadata_size, .. } => metadata_size <= isize::MAX,
            TorrentMessage::FillMetadataRequest { .. } => self.metadata.has_room(),
            TorrentMessage::ReceiveMetadata { piece_idx, metadata, .. } => self.metadata is Fetching
                ==> self.metadata.after_put(bytes_content(metadata), piece_idx).1 is Ok,
            _ => true,
        }
    }

    /// What a message brings about.
    pub open spec fn after(self, m: TorrentMessage, now: u64) -> (LeechView, TorrentReply) {
        match m {
            TorrentMessage::ValidMetadata => (
                self,
                TorrentReply::HasMetadata(self.metadata.info() is Some),
            ),
            TorrentMessage::PeerWithMetadata { metadata_size, .. } => (
                match self.metadata {
                    Known::Pending(m) => LeechView {
                        metadata: Known::Fetching(
                            m,
                            FetchState::reserved(metadata_size as int, now),
                        ),
                        ..self
                    },
                    _ => self,
                },
                TorrentReply::Nothing,
            ),
            TorrentMessage::FillMetadataRequest { .. } => {
                let (metadata, piece) = self.metadata.after_get_piece(now);
                (
                    LeechView { metadata, ..self },
                    match piece {
                        Some(i) => TorrentReply::MetadataPiece(i),
                        None => TorrentReply::Nothing,
                    },
                )
            },
            TorrentMessage::ReceiveMetadata { piece_idx, metadata, .. } => (
                LeechView {
                    metadata: self.metadata.after_put(bytes_content(metadata), piece_idx).0,
                    ..self
                },
                TorrentReply::Nothing,
            ),
            _ => (self, TorrentReply::Nothing),
        }
    }
}

/// Those of the texts that are urls, in their normal form, given what was made of each
pub fn keep_urls(l: &Vec<(String, Result<ParsedUrl, String>)>) -> (r: Vec<String>)
    ensures
        texts(r@) == good_urls(crate::torrent::control::parsed_views(l@), l.len() as int),
{
    let ghost views = crate::torrent::control::parsed_views(l@);
    let mut r: Vec<String> = Vec::new();
    let mut i: usize = 0;
    assert(texts(r@) =~= good_urls(views, 0));
    while i < l.len()
        invariant
            i <= l.len(),
            views == crate::torrent::control::parsed_views(l@),
            texts(r@) == good_urls(views, i as int),
        decreases l.len() - i,
    {
        assert(views[i as int] == (l@[i as int].0@, url_view(l@[i as int].1)));
        match &l[i].1 {
            Ok(u) => {
                let ghost before = r@;
                r.push(u.text.clone());
                assert(texts(r@) =~= texts(before).push(u.text@));
            },
            Err(_) => {},
        }
        i = i + 1;
    }
    r
}

impl Torrent {
    /// The metadata agrees with itself, and there are not too many peers.
    pub open spec fn wf(&self) -> bool {
        self@.metadata.wf() && self@.peers.len() <= MAX_PEERS
    }

    /// Create a new Torrent from a .torrent file (with complete metadata)
    pub fn from_torrent_info(torrent_info: TorrentInfo) -> (r: Self)
        ensures
            r.wf(),
            r@.metadata matches Known::File(t) && *t == torrent_info,
            r@ == (LeechView {
                hash: torrent_info.info_hash,
                metadata: r@.metadata,
                state: TorrentState::Leeching,
                trackers: good_urls(
                    read_urls(torrent_info.says().trackers()),
                    torrent_info.says().trackers().len() as int,
                ),
                peers: Seq::empty(),
            }),
    {
        let urls = torrent_info.all_trackers();
        let ghost all = texts(urls@);
        let mut l: Vec<(String, Result<ParsedUrl, String>)> = Vec::new();
        let mut i: usize = 0;
        while i < urls.len()
            invariant
                i <= urls.len(),
                all == texts(urls@),
                l.len() == i,
                forall|k: int|
                    0 <= k < i ==> (#[trigger] l@[k]).0@ == all[k] && url_view(l@[k].1)
                        == crate::urls::url_read(all[k]),
            decreases urls.len() - i,
        {
            assert(all[i as int] == urls@[i as int]@);
            let parsed = read_url(urls[i].as_str());
            l.push((urls[i].clone(), parsed));
            i = i + 1;
        }
        proof {
            assert(all.len() == urls@.len());
            assert(crate::torrent::control::parsed_views(l@) =~= read_urls(all));
        }
        let trackers = keep_urls(&l);
        let r = Torrent {
            info_hash: torrent_info.info_hash,
            metadata: Metadata::TorrentFile(Arc::new(torrent_info)),
            state: TorrentState::Leeching,
            trackers,
            peers: Vec::new(),
        };
        assert(r@.peers =~= Seq::<(Pid, SocketAddr)>::empty());
        r
    }

    /// Create a new Torrent from a magnet URI (metadata needs to be fetched)
    pub fn from_magnet(magnet: Magnet) -> (r: Self)
        requires
            magnet.hash is Some,
        ensures
            r.wf(),
            r@ == (LeechView {
                hash: magnet.hash->0,
                metadata: Known::Pending(magnet),
                state: TorrentState::Leeching,
                trackers: texts(magnet.trackers@),
                peers: Seq::empty(),
            }),
    {
        let info_hash = match magnet.info_hash() {
            Some(h) => h,
            None => InfoHash::new([0u8; 20]),
        };
        let mut trackers: Vec<String> = Vec::new();
        let mut i: usize = 0;
        while i < magnet.trackers.len()
            invariant
                i <= magnet.trackers.len(),
                trackers.len() == i,
                forall|k: int| 0 <= k < i ==> (#[trigger] trackers@[k])@ == magnet.trackers@[k]@,
            decreases magnet.trackers.len() - i,
        {
            trackers.push(magnet.trackers[i].clone());
            i = i + 1;
        }
        assert(texts(trackers@) =~= texts(magnet.trackers@));
        let r = Torrent {
            info_hash,
            metadata: Metadata::MagnetUri { magnet, metadata_state: MetadataState::Pending },
            state: TorrentState::Leeching,
            trackers,
            peers: Vec::new(),
        };
        assert(r@.peers =~= Seq::<(Pid, SocketAddr)>::empty());
        r
    }

    /// The torrent that is to be registered with the storage at the start, where there is one
    pub fn start_session(&self) -> (r: Option<Arc<TorrentInfo>>)
        ensures
            r == match self@.metadata {
                Known::File(t) => Some(t),
                _ => None,
            },
    {
        match &self.metadata {
            Metadata::TorrentFile(file) => Some(share(file)),
            Metadata::MagnetUri { .. } => None,
        }
    }

    /// A peer is to be connected to, unless there are enough; gives whether it is
    pub fn add_peer(&mut self, pid: Pid, peer: PeerSource) -> (r: bool)
        requires
            old(self).wf(),
            old(self)@.peers.len() < MAX_PEERS ==> peer is Outbound,
        ensures
            final(self).wf(),
            r == (old(self)@.peers.len() < MAX_PEERS),
            final(self)@ == if r {
                LeechView { peers: old(self)@.peers.push((pid, peer->Outbound_0)), ..old(self)@ }
            } else {
                old(self)@
            },
    {
        if self.peers.len() >= MAX_PEERS {
            return false;
        }
        self.peers.push((pid, *peer.get_addr()));
        true
    }

    /// The size of the metadata is known: unless that was so before, its pieces are to be fetched.
    fn begin_fetch(&mut self, metadata_size: usize, now: u64)
        requires
            old(self).wf(),
            metadata_size <= isize::MAX,
        ensures
            final(self).wf(),
            final(self)@ == match old(self)@.metadata {
                Known::Pending(m) => LeechView {
                    metadata: Known::Fetching(m, FetchState::reserved(metadata_size as int, now)),
                    ..old(self)@
                },
                _ => old(self)@,
            },
    {
        match &mut self.metadata {
            Metadata::MagnetUri { metadata_state, .. } => match metadata_state {
                MetadataState::Pending => {
                    let buf = bytes_mut_with_capacity(metadata_size);
                    *metadata_state = MetadataState::Fetching(
                        MetadataFetch::start(metadata_size, buf, now),
                    );
                },
                _ => {},
            },
            Metadata::TorrentFile(_) => {},
        }
    }

    /// A message has come
    pub fn handle_message(&mut self, msg: TorrentMessage, now: u64) -> (r: TorrentReply)
        requires
            old(self).wf(),
            old(self)@.admits(msg),
        ensures
            final(self).wf(),
            (final(self)@, r) == old(self)@.after(msg, now),
    {
        match msg {
            TorrentMessage::ValidMetadata => {
                TorrentReply::HasMetadata(self.metadata.has_metadata())
            },
            TorrentMessage::PeerWithMetadata { pid: _, metadata_size } => {
                self.begin_fetch(metadata_size, now);
                TorrentReply::Nothing
            },
            TorrentMessage::FillMetadataRequest { pid: _ } => match self.metadata.get_piece(now) {
                Some(piece) => TorrentReply::MetadataPiece(piece),
                None => TorrentReply::Nothing,
            },
            TorrentMessage::ReceiveMetadata { pid: _, piece_idx, metadata } => {
                let _ = self.metadata.put_metadata_piece(metadata, piece_idx);
                TorrentReply::Nothing
            },
            _ => TorrentReply::Nothing,
        }
    }

    /// A message for a peer, where the peer is there
    pub fn send_to_peer(&self, pid: Pid, message: PeerMessage) -> (r: Option<PeerMessage>)
        ensures
            match r {
                Some(m) => has_peer(self@.peers, pid) && m == message,
                None => !has_peer(self@.peers, pid),
            },
    {
        let mut i: usize = 0;
        while i < self.peers.len()
            invariant
                i <= self.peers.len(),
                forall|k: int| 0 <= k < i ==> (#[trigger] self@.peers[k]).0 != pid,
            decreases self.peers.len() - i,
        {
            if self.peers[i].0.0 == pid.0 {
                assert(self@.peers[i as int].0 == pid);
                return Some(message);
            }
            i = i + 1;
        }
        None
    }

    /// What is said to a peer, where the peer is there
    pub fn send_message_to_peer(&self, pid: Pid, message: Message) -> (r: Option<PeerMessage>)
        ensures
            match r {
                Some(m) => has_peer(self@.peers, pid) && m@ == PeerMessageView::SendMessage(
                    message@,
                ),
                None => !has_peer(self@.peers, pid),
            },
    {
        self.send_to_peer(pid, PeerMessage::SendMessage(message))
    }

    /// What trackers are told
    pub fn announce(&self) -> (r: ClientState)
        requires
            i64::MIN <= self@.bytes_left() <= i64::MAX,
        ensures
            r == (ClientState {
                downloaded: 0,
                left: self@.bytes_left() as i64,
                uploaded: 0,
                event: Events::Started,
            }),
    {
        match self.metadata.info() {
            Some(info) => {
                let left: i128 = info.piece_length as i128 * info.pieces.len() as i128;
                ClientState::new(0, left as i64, 0, Events::Started)
            },
            None => ClientState::new(0, 0, 0, Events::Started),
        }
    }
}

/// After how many seconds a tracker is asked again; never, where it has failed.
pub open spec fn next_round(r: Result<AnnounceResponse, TrackerError>) -> Option<u64> {
    match r {
        Ok(response) => Some(response.interval as u64),
        Err(_) => None,
    }
}

/// After how many seconds a tracker is asked again; never, where it has failed
pub fn announce_again(r: &Result<AnnounceResponse, TrackerError>) -> (s: Option<u64>)
    ensures
        s == next_round(*r),
{
    match r {
        Ok(response) => Some(response.interval as u64),
        Err(_) => None,
    }
}

} // verus!
