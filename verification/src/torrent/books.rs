//! The states of a torrent, and what leads from one to another.

use crate::bitfield::{bytes_needed, Bitfield};
use crate::choker::ChokerState;
use crate::detail::TrackerView;
use crate::events::peer::{PeerEventView, ReasonView};
use crate::events::session::SessionEventView;
use crate::events::torrent::TorrentEventView;
use crate::metadata::Known;
use crate::metrics::counters::MetricOp;
use crate::metrics::progress::StateView;
use crate::metrics::rate::RateWindow;
use crate::net::SocketAddr;
use crate::peer::peer_connection::PeerInfo;
use crate::peer::PeerMessageView;
use crate::piece_picker::{request_of, AvailabilityUpdate, BlockRequest, PickerState, PieceState};
use crate::protocol::{BlockInfo, MessageView};
use crate::torrent::{ActionView, Pid};
use crate::types::{InfoHash, PeerID};
use crate::path::pushed;
use crate::peer::bitfield_state::no_bits;
use crate::types::hex_text;
use vstd::prelude::*;

verus! {

/// What a torrent knows of a peer.
#[verifier::ext_equal]
pub struct PeerView {
    pub pid: Pid,
    pub addr: SocketAddr,
    pub info: PeerInfo,
    pub extended: bool,
    pub dht: bool,
    /// What was asked of the peer and has not come
    pub pending: Seq<BlockInfo>,
}

/// What a torrent knows.
#[verifier::ext_equal]
pub struct Books {
    pub hash: InfoHash,
    pub peer_id: PeerID,
    pub client_id: PeerID,
    pub metadata: Known,
    pub state: StateView,
    pub trackers: Seq<(Seq<char>, TrackerView)>,
    pub peers: Seq<PeerView>,
    pub picker: Option<PickerState>,
    pub choker: ChokerState,
    /// Which pieces are there: all bits, and how many of them stand for pieces
    pub bits: Seq<bool>,
    pub size: int,
    pub downloaded: u64,
    pub uploaded: u64,
    /// How many peers were connected to
    pub contacted: int,
    /// The addresses that were ever heard of
    pub discovered: Seq<SocketAddr>,
    /// The addresses that are still to be connected to, the last of them first
    pub waiting: Seq<SocketAddr>,
    pub torrents_dir: Seq<char>,
    pub content_dir: Option<Seq<char>>,
    pub has_dht: bool,
    pub down: RateWindow,
    pub up: RateWindow,
}

/// The commands that give all peers the same message.
pub open spec fn all_told(s: Seq<PeerView>, m: PeerMessageView) -> Seq<ActionView> {
    Seq::new(s.len(), |i: int| ActionView::ToPeer(s[i].pid, m))
}

/// The position at or behind `i` of a peer.
pub open spec fn peer_position(s: Seq<PeerView>, pid: Pid, i: int) -> Option<int>
    decreases s.len() - i,
{
    if i < 0 || i >= s.len() {
        None
    } else if s[i].pid == pid {
        Some(i)
    } else {
        peer_position(s, pid, i + 1)
    }
}

/// Whether no two peers have the same number.
pub open spec fn pids_differ(s: Seq<PeerView>) -> bool {
    forall|i: int, j: int| 0 <= i < j < s.len() ==> (#[trigger] s[i]).pid != (#[trigger] s[j]).pid
}

/// The requests for blocks.
pub open spec fn requests_of(s: Seq<BlockInfo>) -> Seq<BlockRequest> {
    Seq::new(s.len(), |i: int| request_of(s[i]))
}

/// The first `n` blocks of a list but one.
pub open spec fn others(s: Seq<BlockInfo>, b: BlockInfo, n: int) -> Seq<BlockInfo>
    decreases n,
{
    if n <= 0 {
        Seq::empty()
    } else if s[n - 1] == b {
        others(s, b, n - 1)
    } else {
        others(s, b, n - 1).push(s[n - 1])
    }
}

/// The commands to those of the first `n` peers that were asked for a block, to cancel the request.
pub open spec fn cancels(s: Seq<PeerView>, b: BlockInfo, n: int) -> Seq<ActionView>
    decreases n,
{
    if n <= 0 {
        Seq::empty()
    } else if s[n - 1].pending.contains(b) {
        cancels(s, b, n - 1).push(
            ActionView::ToPeer(
                s[n - 1].pid,
                PeerMessageView::SendMessage(MessageView::Cancel(b)),
            ),
        )
    } else {
        cancels(s, b, n - 1)
    }
}

/// The addresses among the first `n` that are new, and all that were heard of.
pub open spec fn heard(
    known: Seq<SocketAddr>,
    waiting: Seq<SocketAddr>,
    l: Seq<SocketAddr>,
    n: int,
) -> (Seq<SocketAddr>, Seq<SocketAddr>)
    decreases n,
{
    if n <= 0 {
        (known, waiting)
    } else {
        let (k, w) = heard(known, waiting, l, n - 1);
        if k.contains(l[n - 1]) {
            (k, w)
        } else {
            (k.push(l[n - 1]), w.push(l[n - 1]))
        }
    }
}

/// The position at or behind `i` of a tracker.
pub open spec fn url_position(s: Seq<(Seq<char>, TrackerView)>, url: Seq<char>, i: int) -> Option<int>
    decreases s.len() - i,
{
    if i < 0 || i >= s.len() {
        None
    } else if s[i].0 == url {
        Some(i)
    } else {
        url_position(s, url, i + 1)
    }
}

/// The trackers with one more; an earlier one under the same url gives way.
pub open spec fn with_tracker(
    s: Seq<(Seq<char>, TrackerView)>,
    url: Seq<char>,
    t: TrackerView,
) -> Seq<(Seq<char>, TrackerView)> {
    match url_position(s, url, 0) {
        Some(k) => s.update(k, (url, t)),
        None => s.push((url, t)),
    }
}

/// Whether a bitfield speaks of piece `i`.
pub open spec fn owns(b: Bitfield, i: int) -> bool {
    0 <= i < b.num_pieces && b.holds(i)
}

/// Whether each piece that is still to be put together has a place among the first `n`.
pub open spec fn fetched_within(p: PickerState, n: int) -> bool {
    forall|i: int| 0 <= i < p.pieces.len() && (#[trigger] p.pieces[i]).buffer is Some ==> i < n
}

impl Books {
    /// The choker and the picker agree with themselves, there are bits for all pieces and for all
    /// that are still to come, and no two peers have the same number.
    pub open spec fn wf(self) -> bool {
        &&& self.choker.wf()
        &&& self.metadata.wf()
        &&& self.picker matches Some(p) ==> p.wf() && fetched_within(p, self.bits.len() as int)
        &&& 8 * bytes_needed(self.size) <= self.bits.len()
        &&& pids_differ(self.peers)
    }

    /// The command for a peer, where the peer is there.
    pub open spec fn to_peer(self, pid: Pid, m: PeerMessageView) -> Seq<ActionView> {
        if peer_position(self.peers, pid, 0) is Some {
            seq![ActionView::ToPeer(pid, m)]
        } else {
            Seq::empty()
        }
    }

    /// The command for all peers.
    pub open spec fn to_all(self, m: PeerMessageView) -> Seq<ActionView> {
        all_told(self.peers, m)
    }

    /// A peer asks for a block.
    pub open spec fn block_wanted(self, pid: Pid, b: BlockInfo) -> Seq<ActionView> {
        if peer_position(self.peers, pid, 0) is Some {
            seq![ActionView::ReadBlock(pid, b)]
        } else {
            Seq::empty()
        }
    }

    /// A peer has got a piece.
    pub open spec fn after_have(self, i: u32) -> Books {
        match self.picker {
            Some(p) => Books {
                picker: Some(p.more_peers(AvailabilityUpdate::Have(i))),
                ..self
            },
            None => self,
        }
    }

    /// A peer is interested.
    pub open spec fn after_interest(self, pid: Pid) -> (Books, Seq<ActionView>) {
        let s = Books { choker: self.choker.with_interest(pid.0), ..self };
        (
            s,
            if s.choker.unchoked.contains(pid.0) {
                s.to_peer(pid, PeerMessageView::SendUnchoke)
            } else {
                Seq::empty()
            },
        )
    }

    /// A peer is not interested.
    pub open spec fn after_not_interest(self, pid: Pid) -> (Books, Seq<ActionView>) {
        let s = Books { choker: self.choker.without_peer(pid.0), ..self };
        (
            s,
            if self.choker.unchoked.contains(pid.0) {
                s.to_peer(pid, PeerMessageView::SendChoke)
            } else {
                Seq::empty()
            },
        )
    }

    /// A peer with these pieces is there.
    pub open spec fn after_bitfield(self, b: Bitfield) -> Books {
        match self.picker {
            Some(p) => Books {
                picker: Some(p.more_peers(AvailabilityUpdate::Bitfield(&b))),
                ..self
            },
            None => self,
        }
    }

    /// Whether a peer with these pieces has one that is not there.
    pub open spec fn interesting(self, b: Bitfield) -> bool {
        exists|i: int| #[trigger] owns(b, i) && !self.bits[i]
    }

    /// Blocks are asked of a peer.
    pub open spec fn after_request(self, pid: Pid, blocks: Seq<BlockInfo>) -> Books {
        match (self.picker, peer_position(self.peers, pid, 0)) {
            (Some(p), Some(k)) => Books {
                picker: Some(p.with_requests(requests_of(blocks), blocks.len() as int)),
                peers: self.peers.update(
                    k,
                    PeerView { pending: self.peers[k].pending + blocks, ..self.peers[k] },
                ),
                ..self
            },
            _ => self,
        }
    }

    /// What was asked of a peer will not come.
    pub open spec fn after_clear(self, pid: Pid) -> Books {
        match (self.picker, peer_position(self.peers, pid, 0)) {
            (Some(p), Some(k)) => {
                let l = requests_of(self.peers[k].pending);
                Books {
                    picker: Some(p.without_requests(l, l.len() as int)),
                    peers: self.peers.update(
                        k,
                        PeerView { pending: Seq::empty(), ..self.peers[k] },
                    ),
                    ..self
                }
            },
            _ => self,
        }
    }

    /// The peers after a block has come from one of them.
    pub open spec fn without_pending(self, pid: Pid, b: BlockInfo) -> Seq<PeerView> {
        match peer_position(self.peers, pid, 0) {
            Some(k) => {
                let old = self.peers[k].pending;
                self.peers.update(
                    k,
                    PeerView { pending: others(old, b, old.len() as int), ..self.peers[k] },
                )
            },
            None => self.peers,
        }
    }

    /// A block has come: it is counted, others that were asked for it are told, and it is put in
    /// its place; a piece that is complete is to be held against its hash.
    pub open spec fn after_block(self, pid: Pid, index: u32, begin: u32, data: Seq<u8>) -> (
        Books,
        Seq<ActionView>,
    ) {
        let b = BlockInfo { index, begin, length: data.len() as u32 };
        let peers = self.without_pending(pid, b);
        let told = cancels(peers, b, peers.len() as int);
        let down = RateWindow {
            window_bytes: (self.down.window_bytes + data.len()) as u64,
            ..self.down
        };
        match self.picker {
            None => (Books { peers, down, ..self }, told),
            Some(p) => {
                let (q, done) = p.without_request(request_of(b)).with_block(index, begin, data);
                match done {
                    Some(piece) => (
                        Books {
                            peers,
                            down,
                            picker: Some(q.told(index as int, PieceState::Downloaded)),
                            ..self
                        },
                        told.push(ActionView::VerifyPiece(index, piece)),
                    ),
                    None => (Books { peers, down, picker: Some(q), ..self }, told),
                }
            },
        }
    }

    /// A piece was held against its hash: it was right, it was wrong, or there was no telling.
    pub open spec fn after_verified(self, index: u32, piece: Seq<u8>, verdict: Option<bool>) -> (
        Books,
        Seq<ActionView>,
    ) {
        let p = self.picker->0;
        let failed = ActionView::Torrent(TorrentEventView::HashFailed(index));
        match verdict {
            None => (
                Books { picker: Some(p.reset(index as int)), ..self },
                seq![failed],
            ),
            Some(false) => (
                Books { picker: Some(p.reset(index as int)), ..self },
                seq![
                    ActionView::Count("bt.piece_failed"@, MetricOp::IncrementCounter(1)),
                    failed,
                ],
            ),
            Some(true) => (
                Books {
                    picker: Some(p.told(index as int, PieceState::Have)),
                    bits: self.bits.update(index as int, true),
                    downloaded: ((self.downloaded + piece.len()) % 0x1_0000_0000_0000_0000) as u64,
                    ..self
                },
                seq![ActionView::Count("bt.piece_passed"@, MetricOp::IncrementCounter(1))]
                    + self.to_all(PeerMessageView::SendHave(index)) + seq![
                    ActionView::WritePiece(index, piece),
                ],
            ),
        }
    }

    /// Whether all pieces are there.
    pub open spec fn complete(self) -> bool {
        self.picker matches Some(p) && forall|i: int|
            0 <= i < p.pieces.len() ==> (#[trigger] p.pieces[i]).state == PieceState::Have
    }

    /// A piece was written, or could not be; where it was the last one, the torrent is seeding.
    pub open spec fn after_written(self, index: u32, written: bool) -> (Books, Seq<ActionView>) {
        let s = if written {
            self
        } else {
            Books { picker: Some((self.picker->0).reset(index as int)), ..self }
        };
        if s.complete() {
            (
                Books { state: StateView::Seeding, ..s },
                seq![
                    ActionView::Torrent(
                        TorrentEventView::StateChanged(s.state, StateView::Seeding),
                    ),
                    ActionView::Torrent(TorrentEventView::TorrentFinished),
                    ActionView::Session(SessionEventView::TorrentCompleted(s.hash)),
                ],
            )
        } else {
            (s, Seq::empty())
        }
    }

    /// A peer is gone: its slot passes on, and what it had and was asked for is forgotten.
    pub open spec fn after_gone(self, pid: Pid, field: Option<Bitfield>) -> (
        Books,
        Seq<ActionView>,
    ) {
        let first = if self.choker.unchoked.contains(pid.0) && self.choker.queue.len() > 0 {
            self.to_peer(Pid(self.choker.queue[0]), PeerMessageView::SendUnchoke)
        } else {
            Seq::empty()
        };
        let at = peer_position(self.peers, pid, 0);
        let requests = match at {
            Some(k) => requests_of(self.peers[k].pending),
            None => Seq::empty(),
        };
        let told = match at {
            Some(k) => seq![
                ActionView::Peer(
                    PeerEventView::Disconnected(
                        self.peers[k].addr,
                        ReasonView::Other("Clean up"@),
                    ),
                ),
            ],
            None => Seq::empty(),
        };
        (
            Books {
                choker: self.choker.without_peer(pid.0),
                peers: match at {
                    Some(k) => self.peers.remove(k),
                    None => self.peers,
                },
                picker: match (self.picker, field) {
                    (Some(p), Some(b)) => Some(
                        p.fewer_peers(AvailabilityUpdate::Bitfield(&b)).without_requests(
                            requests,
                            requests.len() as int,
                        ),
                    ),
                    _ => self.picker,
                },
                ..self
            },
            first + told + seq![
                ActionView::Count("net.peers_connected"@, MetricOp::DecrementGauge(1)),
            ],
        )
    }

    /// What the choker has decided for one peer: the command, and the news of it.
    pub open spec fn choked(self, pid: Pid, choke: bool) -> Seq<ActionView> {
        match peer_position(self.peers, pid, 0) {
            Some(k) => if choke {
                seq![
                    ActionView::ToPeer(pid, PeerMessageView::SendChoke),
                    ActionView::Peer(PeerEventView::Choked(self.peers[k].addr)),
                ]
            } else {
                seq![
                    ActionView::ToPeer(pid, PeerMessageView::SendUnchoke),
                    ActionView::Peer(PeerEventView::Unchoked(self.peers[k].addr)),
                ]
            },
            None => Seq::empty(),
        }
    }

    /// What the choker has decided for the first `n` peers of a list.
    pub open spec fn all_choked(self, l: Seq<Pid>, choke: bool, n: int) -> Seq<ActionView>
        decreases n,
    {
        if n <= 0 {
            Seq::empty()
        } else {
            self.all_choked(l, choke, n - 1) + self.choked(l[n - 1], choke)
        }
    }

    /// A connection is made.
    pub open spec fn after_connect(self, pid: Pid, addr: SocketAddr, client: PeerID) -> (
        Books,
        Seq<ActionView>,
    ) {
        (
            Books {
                contacted: (self.contacted + 1) % (usize::MAX + 1),
                peers: self.peers.push(
                    PeerView {
                        pid,
                        addr,
                        info: PeerInfo {
                            peer_id: client,
                            source: crate::events::peer::Direction::Outbound,
                            remote_choking: true,
                            remote_interested: false,
                            am_choking: true,
                            am_interested: false,
                            snubbed: false,
                        },
                        extended: false,
                        dht: false,
                        pending: Seq::empty(),
                    },
                ),
                ..self
            },
            seq![ActionView::Connect(pid, addr)],
        )
    }

    /// A peer has connected.
    pub open spec fn after_inbound(
        self,
        pid: Pid,
        addr: SocketAddr,
        extended: bool,
        peer_id: PeerID,
        dht: bool,
    ) -> Books {
        Books {
            peers: self.peers.push(
                PeerView {
                    pid,
                    addr,
                    info: PeerInfo {
                        peer_id,
                        source: crate::events::peer::Direction::Inbound,
                        remote_choking: true,
                        remote_interested: false,
                        am_choking: true,
                        am_interested: false,
                        snubbed: false,
                    },
                    extended,
                    dht,
                    pending: Seq::empty(),
                },
            ),
            ..self
        }
    }

    /// As many connections are made as there is room for.
    pub open spec fn after_connects(self, first: int, n: int) -> (Books, Seq<ActionView>)
        decreases n,
    {
        if n <= 0 || self.waiting.len() == 0 {
            (self, Seq::empty())
        } else {
            let (s, told) = (Books {
                waiting: self.waiting.drop_last(),
                ..self
            }).after_connect(Pid(first as usize), self.waiting.last(), self.client_id);
            let (t, more) = s.after_connects(first + 1, n - 1);
            (t, told + more)
        }
    }

    /// Addresses of peers have been heard of.
    pub open spec fn after_discovered(self, l: Seq<SocketAddr>) -> Books {
        let (k, w) = heard(self.discovered, self.waiting, l, l.len() as int);
        Books { discovered: k, waiting: w, ..self }
    }

    /// A tracker's status has changed.
    pub open spec fn after_tracker(self, url: Seq<char>, t: TrackerView) -> Books {
        match url_position(self.trackers, url, 0) {
            Some(k) => Books {
                trackers: self.trackers.update(
                    k,
                    (
                        self.trackers[k].0,
                        TrackerView {
                            url: self.trackers[k].1.url,
                            tier: self.trackers[k].1.tier,
                            ..t
                        },
                    ),
                ),
                ..self
            },
            None => self,
        }
    }

    /// What is done first.
    pub open spec fn beginning(self) -> Seq<ActionView> {
        match self.state {
            StateView::Downloading => self.registration(),
            StateView::Checking => self.registration(),
            StateView::FetchingMetadata => self.registration(),
            StateView::Seeding => match (self.content_dir, self.metadata) {
                (Some(dir), Known::File(t)) => seq![ActionView::RegisterSeed(t.info, dir)],
                _ => Seq::empty(),
            },
            _ => Seq::empty(),
        }
    }

    /// The registration with the storage, where the metadata is there.
    pub open spec fn registration(self) -> Seq<ActionView> {
        match self.metadata.info() {
            Some(info) => seq![ActionView::Register(info)],
            None => Seq::empty(),
        }
    }

    /// The name to show.
    pub open spec fn name(self) -> Seq<char> {
        match self.metadata.name() {
            Some(n) => n,
            None => hex_text(self.hash@),
        }
    }
}

impl Books {
    /// Whether a verdict on a piece can be dealt with: there is such a piece, and a bit for it.
    pub open spec fn expects(self, index: u32) -> bool {
        self.picker matches Some(p) && index < p.pieces.len() && index < self.bits.len()
    }

    /// The torrent was registered with the storage, or could not be; where the metadata was
    /// fetched, the peers and the session are told of it in either case.
    pub open spec fn after_registered(self, registered: bool, fetched: bool) -> (
        Books,
        Seq<ActionView>,
    ) {
        match self.metadata.info() {
            None => (self, Seq::empty()),
            Some(info) => {
                let n = info.pieces.len() as int;
                let s = if registered {
                    Books {
                        picker: Some(PickerState::fresh(info.says())),
                        bits: no_bits(n),
                        size: n,
                        ..self
                    }
                } else {
                    self
                };
                let kept = if registered && self.metadata is Complete {
                    seq![
                        ActionView::Persist(
                            pushed(self.torrents_dir, hex_text(self.hash@) + ".torrent"@),
                            info,
                        ),
                    ]
                } else {
                    Seq::empty()
                };
                let news = if fetched {
                    self.to_all(PeerMessageView::HaveMetadata(info)).push(
                        ActionView::Session(SessionEventView::MetadataFetched(self.hash)),
                    )
                } else {
                    Seq::empty()
                };
                (s, kept + news)
            },
        }
    }

    /// The torrent was registered with the storage as one that is there as a whole.
    pub open spec fn after_seed_registered(self, registered: bool) -> Books {
        match self.metadata {
            Known::File(t) => if registered {
                Books { picker: Some(PickerState::held(t.info.says())), ..self }
            } else {
                self
            },
            _ => self,
        }
    }

    /// A peer has told more of itself.
    pub open spec fn after_info(self, pid: Pid, info: PeerInfo, extended: bool, dht: bool) -> Books {
        match peer_position(self.peers, pid, 0) {
            Some(k) => Books {
                peers: self.peers.update(k, PeerView { info, extended, dht, ..self.peers[k] }),
                ..self
            },
            None => self,
        }
    }
}

/// A peer that is not found is not there.
pub proof fn absent_peer(s: Seq<PeerView>, pid: Pid, i: int)
    requires
        0 <= i,
        peer_position(s, pid, i) is None,
    ensures
        forall|j: int| i <= j < s.len() ==> (#[trigger] s[j]).pid != pid,
    decreases s.len() - i,
{
    if i < s.len() {
        absent_peer(s, pid, i + 1);
    }
}

/// A peer is found where it is.
pub proof fn present_peer(s: Seq<PeerView>, pid: Pid, i: int)
    requires
        0 <= i,
        peer_position(s, pid, i) is Some,
    ensures
        ({
            let k = peer_position(s, pid, i)->0;
            i <= k < s.len() && s[k].pid == pid
        }),
    decreases s.len() - i,
{
    if i < s.len() && s[i].pid != pid {
        present_peer(s, pid, i + 1);
    }
}

/// Requests leave what has come of the pieces as it is.
pub proof fn requests_keep_buffers(p: PickerState, l: Seq<BlockRequest>, n: int)
    ensures
        p.with_requests(l, n).pieces.len() == p.pieces.len(),
        p.without_requests(l, n).pieces.len() == p.pieces.len(),
        forall|i: int|
            0 <= i < p.pieces.len() ==> (#[trigger] p.with_requests(l, n).pieces[i]).buffer
                == p.pieces[i].buffer,
        forall|i: int|
            0 <= i < p.pieces.len() ==> (#[trigger] p.without_requests(l, n).pieces[i]).buffer
                == p.pieces[i].buffer,
    decreases n,
{
    if n > 0 && n <= l.len() {
        requests_keep_buffers(p, l, n - 1);
    }
}

} // verus!
