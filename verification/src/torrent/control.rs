//! The torrent itself.

use crate::bitfield::{bytes_needed, div_ceil_8, Bitfield};
use crate::buffers::{bytes_as_slice, bytes_content};
use crate::choker::{Choker, ChokerState};
use crate::detail::{list_files, TorrentDetail, TorrentMeta, TrackerState, TrackerStatus};
use crate::detail::TrackerView;
use crate::events::peer::{Direction, DisconnectReason, PeerEvent};
use crate::events::session::SessionEvent;
use crate::events::torrent::TorrentEvent;
use crate::metadata::{Known, Metadata, MetadataState};
use crate::metainfo::{piece_count, texts, TorrentInfo};
use crate::metrics::counters::{dec_connected, piece_failed, piece_passed};
use crate::metrics::progress::{StateView, TorrentProgress, TorrentState};
use crate::metrics::rate::{flushed, RateWindow};
use crate::net::SocketAddr;
use crate::path::FilePath;
use crate::peer::{PeerMessage, PeerMessageView};
use crate::peer::bitfield_state::no_bits;
use crate::peer::peer_connection::PeerInfo;
use crate::piece_picker::{picked_blocks_are_cool, request_of, requests_raise_heat};
use crate::piece_picker::{AvailabilityUpdate, BlockRequest, PickerState, PieceManager, PieceState};
use crate::protocol::{Block, BlockInfo, Message, MessageView};
use crate::shared::share;
use crate::text::{joined, opt_text, same_text};
use crate::torrent::{asked, ActionView, PeerOrigin, Pid, TorrentAction, TorrentContext};
use crate::torrent::{TorrentMessage, TorrentReply, TorrentSource, MAX_CONCURRENT_PEERS};
use crate::torrent::announce::{announces, Announcement, Announcer, ClientState, DhtSearch};
use crate::torrent::books::{absent_peer, cancels, heard, others, owns, peer_position, present_peer};
use crate::torrent::books::{requests_keep_buffers, requests_of, url_position, with_tracker, Books};
use crate::torrent::books::PeerView;
use crate::torrent::messages::{heat_steps, status_views, tells_detail};
use crate::torrent::roster::{cancel_block, find_peer, peer_views, requests_from, snapshots};
use crate::torrent::roster::{tell_have, tell_metadata, without_block, PeerEntry};
use crate::trackers::Events;
use crate::types::{InfoHash, PeerID};
use crate::urls::{read_url, url_read, url_view, ParsedUrl, UrlView};
use bytes::Bytes;
use std::sync::Arc;
use vstd::prelude::*;
use vstd::string::*;

verus! {

/// What a torrent counts.
#[derive(Debug, Clone, Copy, PartialEq, Eq, Structural)]
pub struct Metrics {
    pub downloaded_bytes: u64,
    pub uploaded_bytes: u64,
    /// How many peers were connected to, never fewer
    pub peers_discovered: usize,
}

/// One torrent.
#[derive(Debug)]
pub struct Torrent {
    info_hash: InfoHash,
    peer_id: PeerID,
    client_id: PeerID,
    metadata: Metadata,
    state: TorrentState,
    trackers: Vec<(String, TrackerStatus)>,
    metrics: Metrics,
    peers: Vec<PeerEntry>,
    discovered_peers: Vec<SocketAddr>,
    pending_peers: Vec<SocketAddr>,
    piece_manager: Option<PieceManager>,
    choker: Choker,
    bitfield: Bitfield,
    torrents_dir: FilePath,
    content_dir: Option<FilePath>,
    has_dht: bool,
    dl_window: RateWindow,
    ul_window: RateWindow,
}

/// What trackers are.
pub open spec fn tracker_views(s: Seq<(String, TrackerStatus)>) -> Seq<(Seq<char>, TrackerView)> {
    Seq::new(s.len(), |i: int| (s[i].0@, s[i].1@))
}

/// What the picker knows, where there is one.
pub open spec fn picker_view(p: Option<PieceManager>) -> Option<PickerState> {
    match p {
        Some(m) => Some(m@),
        None => None,
    }
}

/// What a path is, where there is one.
pub open spec fn path_view(p: Option<FilePath>) -> Option<Seq<char>> {
    match p {
        Some(d) => Some(d@),
        None => None,
    }
}

impl View for Torrent {
    type V = Books;

    closed spec fn view(&self) -> Books {
        Books {
            hash: self.info_hash,
            peer_id: self.peer_id,
            client_id: self.client_id,
            metadata: self.metadata@,
            state: self.state@,
            trackers: tracker_views(self.trackers@),
            peers: peer_views(self.peers@),
            picker: picker_view(self.piece_manager),
            choker: self.choker@,
            bits: self.bitfield.bits(),
            size: self.bitfield.num_pieces as int,
            downloaded: self.metrics.downloaded_bytes,
            uploaded: self.metrics.uploaded_bytes,
            contacted: self.metrics.peers_discovered as int,
            discovered: self.discovered_peers@,
            waiting: self.pending_peers@,
            torrents_dir: self.torrents_dir@,
            content_dir: path_view(self.content_dir),
            has_dht: self.has_dht,
            down: self.dl_window,
            up: self.ul_window,
        }
    }
}

fn no_actions() -> (r: Vec<TorrentAction>)
    ensures
        asked(r@) == Seq::<ActionView>::empty(),
{
    let v: Vec<TorrentAction> = Vec::new();
    assert(asked(v@) =~= Seq::<ActionView>::empty());
    v
}

fn one_action(a: TorrentAction) -> (r: Vec<TorrentAction>)
    ensures
        asked(r@) == seq![a@],
{
    let mut v: Vec<TorrentAction> = Vec::new();
    v.push(a);
    assert(asked(v@) =~= seq![a@]);
    v
}

fn push_action(v: &mut Vec<TorrentAction>, a: TorrentAction)
    ensures
        asked(final(v)@) == asked(old(v)@).push(a@),
{
    let ghost before = v@;
    v.push(a);
    assert(asked(v@) =~= asked(before).push(a@));
}

fn append_actions(v: &mut Vec<TorrentAction>, more: Vec<TorrentAction>)
    ensures
        asked(final(v)@) == asked(old(v)@) + asked(more@),
{
    let ghost before = v@;
    let ghost tail = more@;
    let mut more = more;
    v.append(&mut more);
    assert(asked(v@) =~= asked(before) + asked(tail));
}

// ---------------------------------------------------------------------------------------------
// The beginning

/// The trackers among the first `n` urls that are urls, each under its normal form.
pub open spec fn trackers_of(l: Seq<(Seq<char>, Result<UrlView, Seq<char>>)>, n: int) -> Seq<
    (Seq<char>, TrackerView),
>
    decreases n,
{
    if n <= 0 {
        Seq::empty()
    } else {
        match l[n - 1].1 {
            Ok(u) => with_tracker(trackers_of(l, n - 1), u.text, TrackerView::idle(l[n - 1].0)),
            Err(_) => trackers_of(l, n - 1),
        }
    }
}

/// What was made of urls.
pub open spec fn parsed_views(l: Seq<(String, Result<ParsedUrl, String>)>) -> Seq<
    (Seq<char>, Result<UrlView, Seq<char>>),
> {
    Seq::new(l.len(), |i: int| (l[i].0@, url_view(l[i].1)))
}

/// Urls, and what comes of reading them.
pub open spec fn read_urls(l: Seq<Seq<char>>) -> Seq<(Seq<char>, Result<UrlView, Seq<char>>)> {
    Seq::new(l.len(), |i: int| (l[i], url_read(l[i])))
}

/// Magnet links hold urls in their normal form.
pub open spec fn magnet_trackers(l: Seq<Seq<char>>, n: int) -> Seq<(Seq<char>, TrackerView)>
    decreases n,
{
    if n <= 0 {
        Seq::empty()
    } else {
        with_tracker(magnet_trackers(l, n - 1), l[n - 1], TrackerView::idle(l[n - 1]))
    }
}

fn find_url(trackers: &Vec<(String, TrackerStatus)>, url: &str) -> (r: Option<usize>)
    ensures
        match r {
            Some(k) => k < trackers.len() && url_position(tracker_views(trackers@), url@, 0) == Some(
                k as int,
            ),
            None => url_position(tracker_views(trackers@), url@, 0) is None,
        },
{
    let ghost s = tracker_views(trackers@);
    let mut i: usize = 0;
    while i < trackers.len()
        invariant
            i <= trackers.len(),
            s == tracker_views(trackers@),
            url_position(s, url@, 0) == url_position(s, url@, i as int),
        decreases trackers.len() - i,
    {
        assert(s[i as int].0 == trackers@[i as int].0@);
        if same_text(trackers[i].0.as_str(), url) {
            return Some(i);
        }
        i = i + 1;
    }
    None
}

fn put_tracker(trackers: &mut Vec<(String, TrackerStatus)>, url: String, status: TrackerStatus)
    ensures
        tracker_views(final(trackers)@) == with_tracker(
            tracker_views(old(trackers)@),
            url@,
            status@,
        ),
{
    let ghost before = tracker_views(trackers@);
    match find_url(trackers, url.as_str()) {
        Some(k) => {
            trackers.set(k, (url, status));
            assert(tracker_views(trackers@) =~= before.update(k as int, (url@, status@)));
        },
        None => {
            trackers.push((url, status));
            assert(tracker_views(trackers@) =~= before.push((url@, status@)));
        },
    }
}

/// The trackers among urls that are urls, given what was made of each
pub fn collect_trackers(l: Vec<(String, Result<ParsedUrl, String>)>) -> (r: Vec<
    (String, TrackerStatus),
>)
    ensures
        tracker_views(r@) == trackers_of(parsed_views(l@), l.len() as int),
{
    let ghost views = parsed_views(l@);
    let mut out: Vec<(String, TrackerStatus)> = Vec::new();
    let mut i: usize = 0;
    assert(tracker_views(out@) =~= trackers_of(views, 0));
    while i < l.len()
        invariant
            i <= l.len(),
            views == parsed_views(l@),
            tracker_views(out@) == trackers_of(views, i as int),
        decreases l.len() - i,
    {
        assert(views[i as int] == (l@[i as int].0@, url_view(l@[i as int].1)));
        match &l[i].1 {
            Ok(u) => {
                put_tracker(&mut out, u.text.clone(), TrackerStatus::idle(l[i].0.clone()));
            },
            Err(_) => {},
        }
        i = i + 1;
    }
    out
}

/// The trackers of a torrent that are urls
fn parse_trackers(torrent_info: &TorrentInfo) -> (r: Vec<(String, TrackerStatus)>)
    ensures
        tracker_views(r@) == trackers_of(
            read_urls(torrent_info.says().trackers()),
            torrent_info.says().trackers().len() as int,
        ),
{
    let urls = torrent_info.all_trackers();
    let ghost all = texts(urls@);
    let mut l: Vec<(String, Result<ParsedUrl, String>)> = Vec::new();
    let mut i: usize = 0;
    while i < urls.len()
        invariant
            i <= urls.len(),
            all == texts(urls@),
            l.len() == i,
            forall|k: int|
                0 <= k < i ==> (#[trigger] l@[k]).0@ == all[k] && url_view(l@[k].1) == url_read(
                    all[k],
                ),
        decreases urls.len() - i,
    {
        assert(all[i as int] == urls@[i as int]@);
        let parsed = read_url(urls[i].as_str());
        l.push((urls[i].clone(), parsed));
        i = i + 1;
    }
    proof {
        assert(all.len() == urls@.len());
        assert(parsed_views(l@) =~= read_urls(all));
    }
    collect_trackers(l)
}

/// The bits of a torrent of `n` pieces that is there as a whole.
pub open spec fn all_bits(n: int) -> Seq<bool> {
    Seq::new((8 * bytes_needed(n)) as nat, |i: int| i < n)
}

/// What a torrent begins with.
pub open spec fn first_books(
    ctx: TorrentContext,
    hash: InfoHash,
    metadata: Known,
    trackers: Seq<(Seq<char>, TrackerView)>,
    bits: Seq<bool>,
    size: int,
    state: StateView,
    content_dir: Option<Seq<char>>,
    now: u64,
) -> Books {
    Books {
        hash,
        peer_id: ctx.peer_id,
        client_id: ctx.client_id,
        metadata,
        state,
        trackers,
        peers: Seq::empty(),
        picker: None,
        choker: ChokerState {
            slots: ctx.unchoke_slots as int,
            unchoked: Set::empty(),
            queue: Seq::empty(),
        },
        bits,
        size,
        downloaded: 0,
        uploaded: 0,
        contacted: 0,
        discovered: Seq::empty(),
        waiting: Seq::empty(),
        torrents_dir: ctx.torrents_dir@,
        content_dir,
        has_dht: ctx.has_dht,
        down: RateWindow { window_bytes: 0, last_update_ms: now },
        up: RateWindow { window_bytes: 0, last_update_ms: now },
    }
}

/// What a torrent that is made of a source begins with, given what it knows of its metadata.
pub open spec fn made_of(
    ctx: TorrentContext,
    source: TorrentSource,
    metadata: Known,
    now: u64,
) -> Books {
    match source {
        TorrentSource::Torrent(t) => {
            let n = piece_count(t.says().info.mode.total(), t.info.piece_length as int);
            first_books(
                ctx,
                t.info_hash,
                metadata,
                trackers_of(read_urls(t.says().trackers()), t.says().trackers().len() as int),
                no_bits(n),
                n,
                StateView::Downloading,
                None,
                now,
            )
        },
        TorrentSource::Magnet(m) => first_books(
            ctx,
            m.hash->0,
            metadata,
            magnet_trackers(texts(m.trackers@), m.trackers.len() as int),
            Seq::empty(),
            0,
            StateView::Downloading,
            None,
            now,
        ),
        TorrentSource::Seed { torrent_info: t, content_dir } => {
            let n = piece_count(t.says().info.mode.total(), t.info.piece_length as int);
            first_books(
                ctx,
                t.info_hash,
                metadata,
                trackers_of(read_urls(t.says().trackers()), t.says().trackers().len() as int),
                all_bits(n),
                n,
                StateView::Seeding,
                Some(content_dir@),
                now,
            )
        },
    }
}

/// Whether metadata is what a source gives.
pub open spec fn known_from(source: TorrentSource, metadata: Known) -> bool {
    match source {
        TorrentSource::Torrent(t) => metadata matches Known::File(f) && *f == t,
        TorrentSource::Magnet(m) => metadata == Known::Pending(m),
        TorrentSource::Seed { torrent_info: t, .. } => metadata matches Known::File(f) && *f == t,
    }
}

/// Whether a torrent can be made of a source: its size can be counted, and its hash is known.
pub open spec fn source_fits(source: TorrentSource) -> bool {
    match source {
        TorrentSource::Torrent(t) => t.says().info.mode.size_fits(),
        TorrentSource::Magnet(m) => m.hash is Some,
        TorrentSource::Seed { torrent_info, .. } => torrent_info.says().info.mode.size_fits(),
    }
}

/// Whether a report of how far a torrent has come is the first one.
pub open spec fn first_progress(p: TorrentProgress, b: Books, state: StateView) -> bool {
    &&& p.name@ == b.name()
    &&& p.total_pieces == match b.metadata.info() {
        Some(i) => i.pieces.len() as u32,
        None => 0,
    }
    &&& p.total_bytes == match b.metadata.info() {
        Some(i) => i.says().mode.total() as u64,
        None => 0,
    }
    &&& p.verified_pieces == if b.state == StateView::Seeding {
        p.total_pieces
    } else {
        0
    }
    &&& p.downloaded_bytes == if b.state == StateView::Seeding {
        p.total_bytes
    } else {
        0
    }
    &&& p.failed_pieces == 0
    &&& p.uploaded_bytes == 0
    &&& p.connected_peers == 0
    &&& p.eta_seconds is None
    &&& p.state@ == state
}

/// The state that is shown first of a torrent that is made of a source.
pub open spec fn shown_first(source: TorrentSource) -> StateView {
    match source {
        TorrentSource::Torrent(_) => StateView::Downloading,
        TorrentSource::Magnet(_) => StateView::FetchingMetadata,
        TorrentSource::Seed { .. } => StateView::Seeding,
    }
}

impl Torrent {
    /// The parts agree with themselves.
    pub closed spec fn parts_wf(&self) -> bool {
        &&& self.choker.wf()
        &&& self.piece_manager matches Some(p) ==> p.wf()
    }

    /// What the torrent knows agrees with itself, and so do its parts.
    pub open spec fn wf(&self) -> bool {
        self@.wf() && self.parts_wf()
    }

    /// Create a new Torrent from the given source.
    ///
    /// The `ctx` provides session-level configuration shared across all torrents.
    /// The `source` determines the torrent type and initial state.
    pub fn new(ctx: TorrentContext, source: TorrentSource, now: u64) -> (r: (Self, TorrentProgress))
        requires
            source_fits(source),
        ensures
            r.0.wf(),
            known_from(source, r.0@.metadata),
            r.0@ == made_of(ctx, source, r.0@.metadata, now),
            first_progress(r.1, r.0@, shown_first(source)),
    {
        match source {
            TorrentSource::Torrent(torrent_info) => {
                let info_hash = torrent_info.info_hash;
                let trackers = parse_trackers(&torrent_info);
                let bitfield = Bitfield::with_size(torrent_info.num_pieces());
                let ghost b = bitfield;
                assert(b.bits() =~= no_bits(b.num_pieces as int)) by {
                    assert forall|i: int| 0 <= i < b.bits().len() implies !#[trigger] b.bits()[i] by {
                        assert(!b.holds(i));
                    }
                }
                let metadata = Metadata::TorrentFile(Arc::new(torrent_info));
                let r = Self::build_with_progress(
                    ctx,
                    info_hash,
                    metadata,
                    trackers,
                    bitfield,
                    TorrentState::Downloading,
                    None,
                    TorrentState::Downloading,
                    now,
                );
                r
            },
            TorrentSource::Magnet(magnet) => {
                let info_hash = match magnet.info_hash() {
                    Some(h) => h,
                    None => InfoHash::new([0u8; 20]),
                };
                let ghost urls = texts(magnet.trackers@);
                let mut trackers: Vec<(String, TrackerStatus)> = Vec::new();
                let mut i: usize = 0;
                assert(tracker_views(trackers@) =~= magnet_trackers(urls, 0));
                while i < magnet.trackers.len()
                    invariant
                        i <= magnet.trackers.len(),
                        urls == texts(magnet.trackers@),
                        tracker_views(trackers@) == magnet_trackers(urls, i as int),
                    decreases magnet.trackers.len() - i,
                {
                    assert(urls[i as int] == magnet.trackers@[i as int]@);
                    let url = magnet.trackers[i].clone();
                    put_tracker(&mut trackers, url.clone(), TrackerStatus::idle(url));
                    i = i + 1;
                }
                let metadata = Metadata::MagnetUri { magnet, metadata_state: MetadataState::Pending };
                let bitfield = Bitfield::new();
                assert(bitfield.bits() =~= Seq::<bool>::empty());
                let r = Self::build_with_progress(
                    ctx,
                    info_hash,
                    metadata,
                    trackers,
                    bitfield,
                    TorrentState::Downloading,
                    None,
                    TorrentState::FetchingMetadata,
                    now,
                );
                r
            },
            TorrentSource::Seed { torrent_info, content_dir } => {
                let info_hash = torrent_info.info_hash;
                let trackers = parse_trackers(&torrent_info);
                let bitfield = Bitfield::with_all_set(torrent_info.num_pieces());
                let ghost b = bitfield;
                assert(b.bits() =~= all_bits(b.num_pieces as int)) by {
                    assert forall|i: int| 0 <= i < b.bits().len() implies #[trigger] b.bits()[i]
                        == (i < b.num_pieces) by {
                        assert(b.bits()[i] == b.holds(i));
                    }
                }
                let metadata = Metadata::TorrentFile(Arc::new(torrent_info));
                let r = Self::build_with_progress(
                    ctx,
                    info_hash,
                    metadata,
                    trackers,
                    bitfield,
                    TorrentState::Seeding,
                    Some(content_dir),
                    TorrentState::Seeding,
                    now,
                );
                r
            },
        }
    }

    /// Build the Torrent instance with progress metrics computed from state
    fn build_with_progress(
        ctx: TorrentContext,
        info_hash: InfoHash,
        metadata: Metadata,
        trackers: Vec<(String, TrackerStatus)>,
        bitfield: Bitfield,
        state: TorrentState,
        content_dir: Option<FilePath>,
        progress_state: TorrentState,
        now: u64,
    ) -> (r: (Self, TorrentProgress))
        requires
            metadata@.wf(),
            metadata@.info() matches Some(i) ==> i.says().mode.size_fits(),
            bitfield.inner.len() >= bytes_needed(bitfield.num_pieces as int),
        ensures
            r.0.wf(),
            r.0@ == first_books(
                ctx,
                info_hash,
                metadata@,
                tracker_views(trackers@),
                bitfield.bits(),
                bitfield.num_pieces as int,
                state@,
                path_view(content_dir),
                now,
            ),
            first_progress(r.1, r.0@, progress_state@),
    {
        let name = match metadata.display_name() {
            Some(s) => String::from_str(s),
            None => info_hash.to_hex(),
        };
        let (total_pieces, total_bytes): (u32, u64) = match metadata.info() {
            Some(i) => (i.num_pieces() as u32, i.total_size() as u64),
            None => (0, 0),
        };
        let (verified_pieces, downloaded_bytes): (u32, u64) = if state.is_seeding() {
            (total_pieces, total_bytes)
        } else {
            (0, 0)
        };
        let mut progress = TorrentProgress::default();
        progress.name = name;
        progress.total_pieces = total_pieces;
        progress.verified_pieces = verified_pieces;
        progress.total_bytes = total_bytes;
        progress.downloaded_bytes = downloaded_bytes;
        progress.state = progress_state;
        let torrent = Torrent {
            info_hash,
            peer_id: ctx.peer_id,
            client_id: ctx.client_id,
            metadata,
            state,
            trackers,
            metrics: Metrics { downloaded_bytes: 0, uploaded_bytes: 0, peers_discovered: 0 },
            peers: Vec::new(),
            discovered_peers: Vec::new(),
            pending_peers: Vec::new(),
            piece_manager: None,
            choker: Choker::new(ctx.unchoke_slots),
            bitfield,
            torrents_dir: ctx.torrents_dir,
            content_dir,
            has_dht: ctx.has_dht,
            dl_window: RateWindow::new(now),
            ul_window: RateWindow::new(now),
        };
        assert(torrent@.peers =~= Seq::<PeerView>::empty());
        (torrent, progress)
    }
}

// ---------------------------------------------------------------------------------------------
// Messages

impl Torrent {
    /// The command for a peer, where the peer is there
    fn send_to_peer(&self, pid: Pid, message: PeerMessage) -> (r: Vec<TorrentAction>)
        ensures
            asked(r@) == self@.to_peer(pid, message@),
    {
        match find_peer(&self.peers, pid) {
            Some(_) => one_action(TorrentAction::ToPeer(pid, message)),
            None => no_actions(),
        }
    }

    fn on_have(&mut self, piece_idx: u32)
        requires
            old(self).wf(),
            old(self)@.picker matches Some(p) && p.can_count(AvailabilityUpdate::Have(piece_idx)),
        ensures
            final(self).wf(),
            final(self)@ == old(self)@.after_have(piece_idx),
    {
        match &mut self.piece_manager {
            Some(p) => p.increment_availability(AvailabilityUpdate::Have(piece_idx)),
            None => {},
        }
        assert(self@ =~= old(self)@.after_have(piece_idx));
    }

    /// A block has come: it is counted, others that were asked for it are told, and it is put in
    /// its place; a piece that is complete is to be held against its hash
    fn incoming_block(&mut self, pid: Pid, block: Block) -> (r: Vec<TorrentAction>)
        requires
            old(self).wf(),
            old(self)@.admits(TorrentMessage::ReceiveBlock(pid, block)),
        ensures
            final(self).wf(),
            (final(self)@, asked(r@)) == old(self)@.after_block(
                pid,
                block.index,
                block.begin,
                bytes_content(block.data),
            ),
            forall|i: u32, piece: Seq<u8>|
                #[trigger] asked(r@).contains(ActionView::VerifyPiece(i, piece))
                    ==> final(self)@.expects(i),
    {
        let ghost before = self@;
        let ghost data = bytes_content(block.data);
        let index: u32 = block.index;
        let begin: u32 = block.begin;
        let len: usize = bytes_as_slice(&block.data).len();
        self.dl_window.record(len as u64);
        let info = BlockInfo { index, begin, length: len as u32 };
        match &mut self.piece_manager {
            Some(p) => p.delete_request(BlockRequest::from(info)),
            None => {},
        }
        match find_peer(&self.peers, pid) {
            Some(k) => {
                let rest = without_block(&self.peers[k].pending_requests, info);
                self.peers[k].pending_requests = rest;
                proof {
                    let old_pending = before.peers[k as int].pending;
                    assert(peer_views(self.peers@) =~= before.peers.update(
                        k as int,
                        PeerView {
                            pending: others(old_pending, info, old_pending.len() as int),
                            ..before.peers[k as int]
                        },
                    ));
                }
            },
            None => {},
        }
        let ghost peers = peer_views(self.peers@);
        assert(peers == before.without_pending(pid, info));
        let mut r = cancel_block(&self.peers, info);
        let ghost told = asked(r@);
        let ghost p = (before.picker->0).without_request(request_of(info));
        proof {
            requests_keep_buffers(before.picker->0, seq![request_of(info)], 1);
            reveal_with_fuel(PickerState::without_requests, 2);
            no_verdict_asked(peers, info, peers.len() as int);
        }
        match &mut self.piece_manager {
            Some(m) => {
                match m.add_block(block) {
                    Some(piece) => {
                        m.set_piece_as(index as usize, PieceState::Downloaded);
                        push_action(
                            &mut r,
                            TorrentAction::VerifyPiece { piece_index: index, piece },
                        );
                    },
                    None => {},
                }
            },
            None => {},
        }
        proof {
            assert(self@ =~= before.after_block(pid, index, begin, data).0);
            assert forall|i: u32, piece: Seq<u8>| #[trigger]
                asked(r@).contains(ActionView::VerifyPiece(i, piece)) implies self@.expects(i) by {
                let l = asked(r@);
                let k = choose|k: int| 0 <= k < l.len() && l[k] == ActionView::VerifyPiece(i, piece);
                if k < told.len() {
                    assert(told[k] == l[k]);
                    assert(told.contains(ActionView::VerifyPiece(i, piece)));
                }
            }
        }
        r
    }
}

/// No command to cancel a request asks for a verdict.
proof fn no_verdict_asked(s: Seq<PeerView>, b: BlockInfo, n: int)
    requires
        0 <= n <= s.len(),
    ensures
        forall|i: u32, piece: Seq<u8>|
            !#[trigger] cancels(s, b, n).contains(ActionView::VerifyPiece(i, piece)),
    decreases n,
{
    if n > 0 {
        no_verdict_asked(s, b, n - 1);
        assert forall|i: u32, piece: Seq<u8>| !#[trigger] cancels(s, b, n).contains(
            ActionView::VerifyPiece(i, piece),
        ) by {
            if cancels(s, b, n).contains(ActionView::VerifyPiece(i, piece)) {
                let l = cancels(s, b, n);
                let k = choose|k: int| 0 <= k < l.len() && l[k] == ActionView::VerifyPiece(i, piece);
                if k < cancels(s, b, n - 1).len() {
                    assert(cancels(s, b, n - 1).contains(l[k]));
                }
            }
        }
    }
}

impl Torrent {
    /// Whether a peer with these pieces has one that is not there
    fn is_interesting(&self, bitfield: &Bitfield) -> (r: bool)
        requires
            bitfield.inner.len() >= bytes_needed(bitfield.num_pieces as int),
            forall|i: int| #[trigger] owns(*bitfield, i) ==> i < self@.bits.len(),
        ensures
            r == self@.interesting(*bitfield),
    {
        let set = bitfield.iter_set();
        let mut k: usize = 0;
        while k < set.len()
            invariant
                k <= set.len(),
                forall|a: int|
                    0 <= a < set.len() ==> set[a] < bitfield.num_pieces && bitfield.holds(
                        #[trigger] set[a] as int,
                    ),
                forall|i: int| #[trigger] owns(*bitfield, i) ==> i < self@.bits.len(),
                forall|a: int| 0 <= a < k ==> self@.bits[#[trigger] set[a] as int],
            decreases set.len() - k,
        {
            let i: usize = set[k];
            assert(owns(*bitfield, i as int));
            assert(self.bitfield.bits()[i as int] == self.bitfield.holds(i as int));
            if !self.bitfield.has(i) {
                assert(owns(*bitfield, i as int) && !self@.bits[i as int]);
                return true;
            }
            k = k + 1;
        }
        assert forall|i: int| #[trigger] owns(*bitfield, i) implies self@.bits[i] by {
            assert(bitfield.holds(i));
            let a = choose|a: int| 0 <= a < set.len() && set@[a] == i as usize;
            assert(self@.bits[set[a] as int]);
        }
        false
    }

    /// A peer with these pieces is there; gives whether it has one that is not
    fn on_bitfield(&mut self, bitfield: &Bitfield) -> (r: bool)
        requires
            old(self).wf(),
            bitfield.inner.len() >= bytes_needed(bitfield.num_pieces as int),
            old(self)@.picker matches Some(p) && p.can_count(AvailabilityUpdate::Bitfield(bitfield)),
            forall|i: int| #[trigger] owns(*bitfield, i) ==> i < old(self)@.bits.len(),
        ensures
            final(self).wf(),
            final(self)@ == old(self)@.after_bitfield(*bitfield),
            r == old(self)@.interesting(*bitfield),
    {
        let interest: bool = self.is_interesting(bitfield);
        match &mut self.piece_manager {
            Some(p) => p.increment_availability(AvailabilityUpdate::Bitfield(bitfield)),
            None => {},
        }
        assert(self@ =~= old(self)@.after_bitfield(*bitfield));
        interest
    }

    fn on_interest(&mut self, pid: Pid) -> (r: Vec<TorrentAction>)
        requires
            old(self).wf(),
        ensures
            final(self).wf(),
            (final(self)@, asked(r@)) == old(self)@.after_interest(pid),
    {
        let should_unchoke: bool = self.choker.on_peer_interested(pid);
        assert(self@ =~= old(self)@.after_interest(pid).0);
        if should_unchoke {
            self.send_to_peer(pid, PeerMessage::SendUnchoke)
        } else {
            no_actions()
        }
    }

    fn on_not_interest(&mut self, pid: Pid) -> (r: Vec<TorrentAction>)
        requires
            old(self).wf(),
        ensures
            final(self).wf(),
            (final(self)@, asked(r@)) == old(self)@.after_not_interest(pid),
    {
        let was_unchoked: bool = self.choker.on_peer_not_interested(pid);
        assert(self@ =~= old(self)@.after_not_interest(pid).0);
        if was_unchoked {
            self.send_to_peer(pid, PeerMessage::SendChoke)
        } else {
            no_actions()
        }
    }

    /// The blocks to ask a peer for, each registered as asked for
    fn on_request_block(&mut self, pid: Pid, max_requests: usize, bitfield: &Bitfield) -> (r: Vec<
        BlockInfo,
    >)
        requires
            old(self).wf(),
            old(self)@.picker matches Some(p) && p.in_reach(bitfield.inner.len() as int),
            peer_position(old(self)@.peers, pid, 0) is Some,
            max_requests + 100 <= usize::MAX,
        ensures
            final(self).wf(),
            (old(self)@.picker->0).picked(*bitfield, max_requests as int, heat_steps(), r@),
            final(self)@ == old(self)@.after_request(pid, r@),
    {
        let ghost before = self@;
        let ghost p0 = self@.picker->0;
        let blocks: Vec<BlockInfo> = match &mut self.piece_manager {
            None => Vec::new(),
            Some(p) => {
                let blocks = p.pick_piece(bitfield, max_requests);
                let ghost l = requests_of(blocks@);
                let mut i: usize = 0;
                while i < blocks.len()
                    invariant
                        i <= blocks.len(),
                        blocks.len() <= max_requests,
                        max_requests + 100 <= usize::MAX,
                        l == requests_of(blocks@),
                        p0.picked(*bitfield, max_requests as int, heat_steps(), blocks@),
                        p.wf(),
                        p@.wf(),
                        p@ == p0.with_requests(l, i as int),
                    decreases blocks.len() - i,
                {
                    proof {
                        picked_blocks_are_cool(
                            p0,
                            *bitfield,
                            max_requests as int,
                            heat_steps(),
                            blocks@,
                            100,
                            i as int,
                        );
                        requests_raise_heat(p0, l, i as int, l[i as int]);
                    }
                    p.add_request(BlockRequest::from(blocks[i]));
                    i = i + 1;
                }
                blocks
            },
        };
        proof {
            requests_keep_buffers(p0, requests_of(blocks@), blocks.len() as int);
        }
        match find_peer(&self.peers, pid) {
            Some(k) => {
                let mut more = blocks.clone();
                self.peers[k].pending_requests.append(&mut more);
                proof {
                    assert(peer_views(self.peers@) =~= before.peers.update(
                        k as int,
                        PeerView {
                            pending: before.peers[k as int].pending + blocks@,
                            ..before.peers[k as int]
                        },
                    ));
                }
            },
            None => {},
        }
        assert(self@ =~= before.after_request(pid, blocks@));
        blocks
    }

    /// What was asked of a peer will not come
    fn on_clear(&mut self, pid: Pid)
        requires
            old(self).wf(),
        ensures
            final(self).wf(),
            final(self)@ == old(self)@.after_clear(pid),
    {
        let ghost before = self@;
        match (&mut self.piece_manager, find_peer(&self.peers, pid)) {
            (Some(m), Some(k)) => {
                let requests = requests_from(&self.peers[k].pending_requests);
                self.peers[k].pending_requests = Vec::new();
                m.cancel_peer_requests(requests.as_slice());
                proof {
                    requests_keep_buffers(before.picker->0, requests@, requests.len() as int);
                    assert(peer_views(self.peers@) =~= before.peers.update(
                        k as int,
                        PeerView { pending: Seq::empty(), ..before.peers[k as int] },
                    ));
                }
            },
            _ => {},
        }
        assert(self@ =~= before.after_clear(pid));
    }
}

impl Torrent {
    /// A peer has told the size of the metadata
    fn on_metadata_size(&mut self, metadata_size: usize, now: u64)
        requires
            old(self).wf(),
            metadata_size <= isize::MAX,
        ensures
            final(self).wf(),
            final(self)@ == (Books {
                metadata: old(self)@.metadata.after_size(metadata_size, now).0,
                ..old(self)@
            }),
    {
        let _ = self.metadata.set_metadata_size(metadata_size, now);
    }

    /// The piece of the metadata that is to be asked for
    fn on_fill_metadata(&mut self, now: u64) -> (r: Option<u32>)
        requires
            old(self).wf(),
            old(self)@.metadata.has_room(),
        ensures
            final(self).wf(),
            final(self)@ == (Books {
                metadata: old(self)@.metadata.after_get_piece(now).0,
                ..old(self)@
            }),
            r == old(self)@.metadata.after_get_piece(now).1,
    {
        self.metadata.get_piece(now)
    }

    /// A peer has refused a piece of the metadata
    fn on_metadata_rejected(&mut self, rejected_piece: u32, now: u64)
        requires
            old(self).wf(),
        ensures
            final(self).wf(),
            final(self)@ == (Books {
                metadata: old(self)@.metadata.after_reject(rejected_piece, now).0,
                ..old(self)@
            }),
    {
        let _ = self.metadata.metadata_request_reject(rejected_piece, now);
    }

    /// A piece of the metadata has come
    fn on_metadata_piece(&mut self, piece_idx: u32, metadata: Bytes) -> (r: Vec<TorrentAction>)
        requires
            old(self).wf(),
        ensures
            final(self).wf(),
            old(self)@.received_metadata(
                piece_idx,
                bytes_content(metadata),
                final(self)@,
                asked(r@),
            ),
    {
        let ghost before = self@;
        match self.metadata.put_metadata_piece(metadata, piece_idx) {
            Err(_) => {
                return no_actions();
            },
            Ok(_) => {},
        }
        let all: bool = match self.metadata.mark_metadata_piece(piece_idx) {
            Ok(all) => all,
            Err(_) => false,
        };
        if all {
            self.on_complete_metadata()
        } else {
            no_actions()
        }
    }

    /// All pieces of the metadata have come
    fn on_complete_metadata(&mut self) -> (r: Vec<TorrentAction>)
        requires
            old(self).wf(),
            old(self)@.metadata matches Known::Fetching(_, f) && f.received == f.total,
        ensures
            final(self).wf(),
            old(self)@.metadata_complete(old(self)@.metadata, final(self)@, asked(r@)),
    {
        match self.metadata.construct_info() {
            Err(_) => no_actions(),
            Ok(_) => match self.metadata.info() {
                Some(info) => one_action(TorrentAction::Register(info)),
                None => no_actions(),
            },
        }
    }

    /// A peer is to be known: one that has connected, or one to connect to
    pub fn add_peer(&mut self, pid: Pid, peer: PeerOrigin) -> (r: Vec<TorrentAction>)
        requires
            old(self).wf(),
            peer_position(old(self)@.peers, pid, 0) is None,
        ensures
            final(self).wf(),
            match peer {
                PeerOrigin::Inbound { remote_addr, supports_ext, peer_id, dht_enabled } => {
                    &&& final(self)@ == old(self)@.after_inbound(
                        pid,
                        remote_addr,
                        supports_ext,
                        peer_id,
                        dht_enabled,
                    )
                    &&& asked(r@) == Seq::<ActionView>::empty()
                },
                PeerOrigin::Outbound(addr) => (final(self)@, asked(r@)) == old(self)@.after_connect(
                    pid,
                    addr,
                    old(self)@.client_id,
                ),
            },
    {
        match peer {
            PeerOrigin::Inbound { remote_addr, supports_ext, peer_id, dht_enabled } => {
                self.note_peer(
                    PeerEntry {
                        pid,
                        peer_addr: remote_addr,
                        info: PeerInfo::new(peer_id, Direction::Inbound),
                        supports_extended: supports_ext,
                        dht_enabled,
                        pending_requests: Vec::new(),
                    },
                );
                no_actions()
            },
            PeerOrigin::Outbound(addr) => self.try_connect(pid, addr),
        }
    }

    fn note_peer(&mut self, peer: PeerEntry)
        requires
            old(self).wf(),
            peer_position(old(self)@.peers, peer.pid, 0) is None,
        ensures
            final(self).wf(),
            final(self)@ == (Books { peers: old(self)@.peers.push(peer@), ..old(self)@ }),
    {
        proof {
            absent_peer(self@.peers, peer.pid, 0);
        }
        self.peers.push(peer);
        assert(self@ =~= (Books { peers: old(self)@.peers.push(peer@), ..old(self)@ }));
    }

    /// A connection is to be made
    fn try_connect(&mut self, pid: Pid, peer_addr: SocketAddr) -> (r: Vec<TorrentAction>)
        requires
            old(self).wf(),
            peer_position(old(self)@.peers, pid, 0) is None,
        ensures
            final(self).wf(),
            (final(self)@, asked(r@)) == old(self)@.after_connect(
                pid,
                peer_addr,
                old(self)@.client_id,
            ),
    {
        let n: usize = self.metrics.peers_discovered;
        self.metrics.peers_discovered = if n == usize::MAX {
            0
        } else {
            n + 1
        };
        assert((n + 1) % (usize::MAX + 1) == self.metrics.peers_discovered) by (nonlinear_arith)
            requires
                self.metrics.peers_discovered == if n == usize::MAX {
                    0int
                } else {
                    n + 1
                },
        ;
        self.note_peer(
            PeerEntry {
                pid,
                peer_addr,
                info: PeerInfo::new(self.client_id, Direction::Outbound),
                supports_extended: false,
                dht_enabled: false,
                pending_requests: Vec::new(),
            },
        );
        assert(self@ =~= old(self)@.after_connect(pid, peer_addr, old(self)@.client_id).0);
        one_action(TorrentAction::Connect(pid, peer_addr))
    }

    /// A tracker's status has changed
    fn on_tracker_update(
        &mut self,
        url: &str,
        status: TrackerState,
        seeder_count: Option<u32>,
        leecher_count: Option<u32>,
        peers_received: u32,
        error: Option<String>,
    )
        requires
            old(self).wf(),
        ensures
            final(self).wf(),
            final(self)@ == old(self)@.after_tracker(
                url@,
                TrackerView {
                    url: url@,
                    tier: None,
                    seeder_count,
                    leecher_count,
                    peers_received,
                    status,
                    last_error: opt_text(error),
                },
            ),
    {
        let ghost before = self@;
        match find_url(&self.trackers, url) {
            Some(k) => {
                let mut t = self.trackers[k].1.copy();
                let key = self.trackers[k].0.clone();
                t.status = status;
                t.seeder_count = seeder_count;
                t.leecher_count = leecher_count;
                t.peers_received = peers_received;
                t.last_error = error;
                self.trackers.set(k, (key, t));
                assert(tracker_views(self.trackers@) =~= before.trackers.update(
                    k as int,
                    (key@, t@),
                ));
            },
            None => {},
        }
    }

    fn tracker_statuses(&self) -> (r: Vec<TrackerStatus>)
        ensures
            status_views(r@) == self@.statuses(),
    {
        let mut r: Vec<TrackerStatus> = Vec::new();
        let mut i: usize = 0;
        while i < self.trackers.len()
            invariant
                i <= self.trackers.len(),
                r.len() == i,
                forall|k: int| 0 <= k < i ==> (#[trigger] r@[k])@ == self.trackers@[k].1@,
            decreases self.trackers.len() - i,
        {
            r.push(self.trackers[i].1.copy());
            i = i + 1;
        }
        assert(status_views(r@) =~= self@.statuses());
        r
    }

    /// The details of the torrent, once its metadata is there
    fn detail(&self) -> (r: Option<TorrentDetail>)
        requires
            self@.metadata.info() matches Some(info) ==> info.says().mode.size_fits(),
        ensures
            match self@.metadata.info() {
                Some(info) => r matches Some(d) && tells_detail(d, self@, info),
                None => r is None,
            },
    {
        let info = match self.metadata.info() {
            Some(info) => info,
            None => {
                return None;
            },
        };
        let meta = match &self.metadata {
            Metadata::TorrentFile(t) => TorrentMeta::from_torrent_info(self.info_hash, t),
            Metadata::MagnetUri { .. } => TorrentMeta::from_info(self.info_hash, &info),
        };
        Some(
            TorrentDetail {
                meta,
                files: list_files(&info),
                peers: snapshots(&self.peers),
                trackers: self.tracker_statuses(),
            },
        )
    }

    /// Whether the torrent is ready for a message, and the counts have room for it
    pub fn accepts(&self, msg: &TorrentMessage) -> (r: bool)
        ensures
            r == self@.admits(*msg),
    {
        match msg {
            TorrentMessage::Have { piece_idx, .. } => match &self.piece_manager {
                Some(p) => p.can_count(AvailabilityUpdate::Have(*piece_idx)),
                None => false,
            },
            TorrentMessage::ReceiveBlock(_, block) => {
                let len: usize = bytes_as_slice(&block.data).len();
                self.piece_manager.is_some() && len as u64 <= u32::MAX as u64
                    && self.dl_window.window_bytes.checked_add(len as u64).is_some()
            },
            TorrentMessage::ShouldBeInterested { bitfield, .. } => {
                if bitfield.inner.len() < div_ceil_8(bitfield.num_pieces) {
                    return false;
                }
                match &self.piece_manager {
                    Some(p) => p.can_count(AvailabilityUpdate::Bitfield(bitfield))
                        && self.covers(bitfield),
                    None => false,
                }
            },
            TorrentMessage::RequestBlock { pid, max_requests, bitfield } => match &self.piece_manager {
                Some(p) => p.in_reach(bitfield.inner.len()) && find_peer(&self.peers, *pid).is_some()
                    && *max_requests <= usize::MAX - 100,
                None => false,
            },
            TorrentMessage::PeerWithMetadata { metadata_size, .. } => *metadata_size
                <= isize::MAX as usize,
            TorrentMessage::FillMetadataRequest { .. } => self.metadata.has_room(),
            TorrentMessage::InboundPeer { pid, .. } => find_peer(&self.peers, *pid).is_none(),
            TorrentMessage::ConnectPeer { pid, .. } => find_peer(&self.peers, *pid).is_none(),
            TorrentMessage::GetTorrentDetail => match self.metadata.info() {
                Some(info) => info.mode.size_fits(),
                None => true,
            },
            _ => true,
        }
    }

    /// Whether there is a bit for each piece of a peer
    fn covers(&self, bitfield: &Bitfield) -> (r: bool)
        requires
            bitfield.inner.len() >= bytes_needed(bitfield.num_pieces as int),
        ensures
            r == (forall|i: int| #[trigger] owns(*bitfield, i) ==> i < self@.bits.len()),
    {
        let set = bitfield.iter_set();
        let mut k: usize = 0;
        while k < set.len()
            invariant
                k <= set.len(),
                forall|a: int|
                    0 <= a < set.len() ==> set[a] < bitfield.num_pieces && bitfield.holds(
                        #[trigger] set[a] as int,
                    ),
                forall|a: int| 0 <= a < k ==> (#[trigger] set[a]) < self@.bits.len(),
            decreases set.len() - k,
        {
            assert(owns(*bitfield, set[k as int] as int));
            if set[k] / 8 >= self.bitfield.inner.len() {
                return false;
            }
            k = k + 1;
        }
        assert forall|i: int| #[trigger] owns(*bitfield, i) implies i < self@.bits.len() by {
            assert(bitfield.holds(i));
            let a = choose|a: int| 0 <= a < set.len() && set@[a] == i as usize;
            assert(set[a] < self@.bits.len());
        }
        true
    }

    /// A message has come; gives what is to be done and the answer
    pub fn handle_message(&mut self, msg: TorrentMessage, now: u64) -> (r: (
        Vec<TorrentAction>,
        TorrentReply,
    ))
        requires
            old(self).wf(),
            old(self)@.admits(msg),
        ensures
            final(self).wf(),
            old(self)@.handled(msg, now, final(self)@, asked(r.0@), r.1),
    {
        match msg {
            TorrentMessage::RemoteBlockRequest { pid, block_info } => match find_peer(
                &self.peers,
                pid,
            ) {
                Some(_) => (
                    one_action(TorrentAction::ReadBlock(pid, block_info)),
                    TorrentReply::Nothing,
                ),
                None => (no_actions(), TorrentReply::Nothing),
            },
            TorrentMessage::Have { pid: _, piece_idx } => {
                self.on_have(piece_idx);
                (no_actions(), TorrentReply::Nothing)
            },
            TorrentMessage::ReceiveBlock(pid, block) => {
                (self.incoming_block(pid, block), TorrentReply::Nothing)
            },
            TorrentMessage::Interest(pid) => (self.on_interest(pid), TorrentReply::Nothing),
            TorrentMessage::NotInterest(pid) => (self.on_not_interest(pid), TorrentReply::Nothing),
            TorrentMessage::ShouldBeInterested { pid: _, bitfield } => {
                let interest: bool = self.on_bitfield(&bitfield);
                (no_actions(), TorrentReply::Interest(interest))
            },
            TorrentMessage::RequestBlock { pid, max_requests, bitfield } => {
                let blocks = self.on_request_block(pid, max_requests, &bitfield);
                (no_actions(), TorrentReply::Blocks(blocks))
            },
            TorrentMessage::ClearPeerRequest { pid } => {
                self.on_clear(pid);
                (no_actions(), TorrentReply::Nothing)
            },
            TorrentMessage::ValidMetadata => {
                (no_actions(), TorrentReply::Metadata(self.metadata.info()))
            },
            TorrentMessage::PeerWithMetadata { pid: _, metadata_size } => {
                self.on_metadata_size(metadata_size, now);
                (no_actions(), TorrentReply::Nothing)
            },
            TorrentMessage::FillMetadataRequest { pid: _ } => match self.on_fill_metadata(now) {
                Some(piece) => (no_actions(), TorrentReply::MetadataPiece(piece)),
                None => (no_actions(), TorrentReply::Nothing),
            },
            TorrentMessage::ReceiveMetadata { pid: _, piece_idx, metadata } => {
                (self.on_metadata_piece(piece_idx, metadata), TorrentReply::Nothing)
            },
            TorrentMessage::RejectedMetadataRequest { pid: _, rejected_piece } => {
                self.on_metadata_rejected(rejected_piece, now);
                (no_actions(), TorrentReply::Nothing)
            },
            TorrentMessage::DhtAddNode { node_addr } => if self.has_dht {
                (one_action(TorrentAction::AddNode(node_addr)), TorrentReply::Nothing)
            } else {
                (no_actions(), TorrentReply::Nothing)
            },
            TorrentMessage::InboundPeer { pid, remote_addr, supports_ext, peer_id, dht_enabled } => {
                let r = self.add_peer(
                    pid,
                    PeerOrigin::Inbound { remote_addr, supports_ext, peer_id, dht_enabled },
                );
                (r, TorrentReply::Nothing)
            },
            TorrentMessage::ConnectPeer { pid, addr } => {
                (self.add_peer(pid, PeerOrigin::Outbound(addr)), TorrentReply::Nothing)
            },
            TorrentMessage::GetPeerSnapshots => {
                (no_actions(), TorrentReply::PeerSnapshots(snapshots(&self.peers)))
            },
            TorrentMessage::GetTrackerStatuses => {
                (no_actions(), TorrentReply::TrackerStatuses(self.tracker_statuses()))
            },
            TorrentMessage::TrackerUpdate {
                url,
                status,
                seeder_count,
                leecher_count,
                peers_received,
                error,
            } => {
                self.on_tracker_update(
                    url.as_str(),
                    status,
                    seeder_count,
                    leecher_count,
                    peers_received,
                    error,
                );
                (no_actions(), TorrentReply::Nothing)
            },
            TorrentMessage::GetTorrentDetail => match self.detail() {
                Some(d) => (no_actions(), TorrentReply::Detail(d)),
                None => (no_actions(), TorrentReply::Nothing),
            },
        }
    }
}

// ---------------------------------------------------------------------------------------------
// What comes of actions

/// Whether a report tells how far a torrent has come.
pub open spec fn tells_progress(p: TorrentProgress, b: Books) -> bool {
    &&& p.name@ == b.name()
    &&& p.total_pieces == match b.metadata.info() {
        Some(i) => i.pieces.len() as u32,
        None => 0,
    }
    &&& p.verified_pieces == match b.picker {
        Some(k) => k.count(PieceState::Have, k.pieces.len() as int) as u32,
        None => 0,
    }
    &&& p.failed_pieces == 0
    &&& p.total_bytes == match b.metadata.info() {
        Some(i) => i.says().mode.total() as u64,
        None => 0,
    }
    &&& p.downloaded_bytes == b.downloaded
    &&& p.uploaded_bytes == b.uploaded
    &&& p.connected_peers == b.peers.len() as u32
    &&& p.state@ == b.state
    &&& p.eta_seconds is None
}

impl Torrent {
    /// What the torrent's file says, where it has come from one
    pub fn torrent_info(&self) -> (r: Option<Arc<TorrentInfo>>)
        ensures
            r == match self@.metadata {
                Known::File(t) => Some(t),
                _ => None,
            },
    {
        match &self.metadata {
            Metadata::TorrentFile(t) => Some(share(t)),
            Metadata::MagnetUri { .. } => None,
        }
    }

    /// What is done first: the torrent is registered with the storage
    pub fn start_session(&self) -> (r: Vec<TorrentAction>)
        ensures
            asked(r@) == self@.beginning(),
    {
        match &self.state {
            TorrentState::Downloading | TorrentState::Checking | TorrentState::FetchingMetadata => {
                match self.metadata.info() {
                    Some(info) => one_action(TorrentAction::Register(info)),
                    None => no_actions(),
                }
            },
            TorrentState::Seeding => match (&self.content_dir, &self.metadata) {
                (Some(dir), Metadata::TorrentFile(t)) => one_action(
                    TorrentAction::RegisterSeed(share(&t.info), FilePath::from_text(dir.as_str())),
                ),
                _ => no_actions(),
            },
            _ => no_actions(),
        }
    }

    /// Whether the metadata, as far as it is there, is of a torrent whose bytes can be counted
    pub fn size_fits(&self) -> (r: bool)
        ensures
            r == (self@.metadata.info() matches Some(info) ==> info.says().mode.size_fits()),
    {
        match self.metadata.info() {
            Some(info) => info.mode.size_fits(),
            None => true,
        }
    }

    /// The torrent was registered with the storage, or could not be
    pub fn on_registered(&mut self, registered: bool, fetched: bool) -> (r: Vec<TorrentAction>)
        requires
            old(self).wf(),
            old(self)@.metadata.info() matches Some(info) ==> info.says().mode.size_fits(),
        ensures
            final(self).wf(),
            (final(self)@, asked(r@)) == old(self)@.after_registered(registered, fetched),
    {
        let ghost before = self@;
        let mut r = no_actions();
        let info = match self.metadata.info() {
            Some(info) => info,
            None => {
                return r;
            },
        };
        if registered {
            self.bitfield = Bitfield::with_size(info.pieces.len());
            self.piece_manager = Some(PieceManager::new(share(&info)));
            proof {
                let b = self.bitfield;
                assert(b.bits() =~= no_bits(b.num_pieces as int)) by {
                    assert forall|i: int| 0 <= i < b.bits().len() implies !#[trigger] b.bits()[i] by {
                        assert(!b.holds(i));
                    }
                }
            }
            match &self.metadata {
                Metadata::MagnetUri { .. } => {
                    let name = joined(self.info_hash.to_hex().as_str(), ".torrent");
                    let path = self.torrents_dir.join(name.as_str());
                    push_action(&mut r, TorrentAction::Persist(path, share(&info)));
                },
                Metadata::TorrentFile(_) => {},
            }
        }
        let ghost kept = asked(r@);
        if fetched {
            append_actions(&mut r, tell_metadata(&self.peers, &info));
            push_action(
                &mut r,
                TorrentAction::Session(SessionEvent::MetadataFetched(self.info_hash)),
            );
        }
        proof {
            let (after, told) = before.after_registered(registered, fetched);
            assert(self@ =~= after);
            assert(asked(r@) =~= told);
        }
        r
    }

    /// The torrent was registered as one that is there as a whole, or could not be
    pub fn on_seed_registered(&mut self, registered: bool)
        requires
            old(self).wf(),
            old(self)@.metadata.info() matches Some(info) ==> info.says().mode.size_fits(),
        ensures
            final(self).wf(),
            final(self)@ == old(self)@.after_seed_registered(registered),
    {
        if registered {
            match &self.metadata {
                Metadata::TorrentFile(t) => {
                    self.piece_manager = Some(PieceManager::new_all_have(share(&t.info)));
                },
                Metadata::MagnetUri { .. } => {},
            }
        }
        assert(self@ =~= old(self)@.after_seed_registered(registered));
    }

    /// Whether a verdict on a piece can be dealt with
    pub fn expects(&self, piece_index: u32) -> (r: bool)
        ensures
            r == self@.expects(piece_index),
    {
        match &self.piece_manager {
            Some(p) => (piece_index as usize) < p.total_pieces() && (piece_index as usize) / 8
                < self.bitfield.inner.len(),
            None => false,
        }
    }

    /// A piece was held against its hash: it was right, it was wrong, or there was no telling
    pub fn on_piece_verified(&mut self, piece_index: u32, piece: Vec<u8>, verdict: Option<bool>) -> (r:
        Vec<TorrentAction>)
        requires
            old(self).wf(),
            old(self)@.expects(piece_index),
        ensures
            final(self).wf(),
            (final(self)@, asked(r@)) == old(self)@.after_verified(piece_index, piece@, verdict),
            final(self)@.expects(piece_index),
    {
        let ghost before = self@;
        let valid: bool = match verdict {
            Some(valid) => valid,
            None => false,
        };
        if !valid {
            match &mut self.piece_manager {
                Some(p) => p.reset_piece(piece_index as usize),
                None => {},
            }
            let mut r = no_actions();
            if verdict.is_some() {
                push_action(&mut r, TorrentAction::Count(piece_failed()));
            }
            push_action(&mut r, TorrentAction::Torrent(TorrentEvent::HashFailed { piece_index }));
            proof {
                let (after, told) = before.after_verified(piece_index, piece@, verdict);
                assert(self@ =~= after);
                assert(asked(r@) =~= told);
            }
            return r;
        }
        match &mut self.piece_manager {
            Some(p) => p.set_piece_as(piece_index as usize, PieceState::Have),
            None => {},
        }
        let ghost held = self.bitfield;
        self.bitfield.set(piece_index as usize);
        proof {
            let b = self.bitfield;
            assert(b.bits() =~= held.bits().update(piece_index as int, true)) by {
                assert forall|i: int| 0 <= i < b.bits().len() implies #[trigger] b.bits()[i] == (i
                    == piece_index || held.bits()[i]) by {
                    assert(b.holds(i) == (i == piece_index || held.holds(i)));
                }
            }
        }
        let sum: u128 = self.metrics.downloaded_bytes as u128 + piece.len() as u128;
        self.metrics.downloaded_bytes = (sum % 0x1_0000_0000_0000_0000) as u64;
        let mut r = one_action(TorrentAction::Count(piece_passed()));
        append_actions(&mut r, tell_have(&self.peers, piece_index));
        push_action(&mut r, TorrentAction::WritePiece { piece_index, piece });
        proof {
            let (after, told) = before.after_verified(piece_index, piece@, verdict);
            assert(self@ =~= after);
            assert(asked(r@) =~= told);
        }
        r
    }

    /// A piece was written, or could not be; where it was the last one, the torrent is seeding
    pub fn on_piece_written(&mut self, piece_index: u32, written: bool) -> (r: Vec<TorrentAction>)
        requires
            old(self).wf(),
            old(self)@.expects(piece_index),
        ensures
            final(self).wf(),
            (final(self)@, asked(r@)) == old(self)@.after_written(piece_index, written),
    {
        let ghost before = self@;
        if !written {
            match &mut self.piece_manager {
                Some(p) => p.reset_piece(piece_index as usize),
                None => {},
            }
        }
        let all: bool = match &self.piece_manager {
            Some(p) => p.have_all_pieces(),
            None => false,
        };
        let mut r = no_actions();
        if all {
            let prev = self.state.copy();
            self.state = TorrentState::Seeding;
            push_action(
                &mut r,
                TorrentAction::Torrent(
                    TorrentEvent::StateChanged { prev, next: TorrentState::Seeding },
                ),
            );
            push_action(&mut r, TorrentAction::Torrent(TorrentEvent::TorrentFinished));
            push_action(
                &mut r,
                TorrentAction::Session(SessionEvent::TorrentCompleted(self.info_hash)),
            );
        }
        proof {
            let (after, told) = before.after_written(piece_index, written);
            assert(self@ =~= after);
            assert(asked(r@) =~= told);
        }
        r
    }

    /// A block that a peer has asked for was read
    pub fn on_block_read(&self, pid: Pid, block: Block) -> (r: Vec<TorrentAction>)
        ensures
            asked(r@) == self@.to_peer(
                pid,
                PeerMessageView::SendMessage(
                    MessageView::Piece(block.index, block.begin, bytes_content(block.data)),
                ),
            ),
    {
        self.send_to_peer(pid, PeerMessage::SendMessage(Message::Piece(block)))
    }

    /// Whether the count of sent bytes has room for `len` more
    pub fn can_send(&self, len: u64) -> (r: bool)
        ensures
            r == (self@.up.window_bytes + len <= u64::MAX),
    {
        self.ul_window.window_bytes.checked_add(len).is_some()
    }

    /// A block of `len` bytes was handed to a connection
    pub fn on_block_sent(&mut self, len: u64)
        requires
            old(self).wf(),
            old(self)@.up.window_bytes + len <= u64::MAX,
        ensures
            final(self).wf(),
            final(self)@ == (Books {
                up: RateWindow {
                    window_bytes: (old(self)@.up.window_bytes + len) as u64,
                    ..old(self)@.up
                },
                ..old(self)@
            }),
    {
        self.ul_window.record(len);
    }

    /// Closes the windows of received and of sent bytes, where they have been open long enough
    pub fn flush_rates(&mut self, now: u64) -> (r: (Option<(u64, u64)>, Option<(u64, u64)>))
        requires
            old(self).wf(),
        ensures
            final(self).wf(),
            final(self)@ == (Books {
                down: final(self)@.down,
                up: final(self)@.up,
                ..old(self)@
            }),
            flushed(old(self)@.down, now) == (final(self)@.down, r.0),
            flushed(old(self)@.up, now) == (final(self)@.up, r.1),
    {
        let down = self.dl_window.flush(now);
        let up = self.ul_window.flush(now);
        (down, up)
    }

    /// A peer has told more of itself
    pub fn set_peer_info(&mut self, pid: Pid, info: PeerInfo, supports_extended: bool, dht_enabled: bool)
        requires
            old(self).wf(),
        ensures
            final(self).wf(),
            final(self)@ == old(self)@.after_info(pid, info, supports_extended, dht_enabled),
    {
        let ghost before = self@;
        match find_peer(&self.peers, pid) {
            Some(k) => {
                self.peers[k].info = info;
                self.peers[k].supports_extended = supports_extended;
                self.peers[k].dht_enabled = dht_enabled;
                assert(peer_views(self.peers@) =~= before.peers.update(
                    k as int,
                    PeerView {
                        info,
                        extended: supports_extended,
                        dht: dht_enabled,
                        ..before.peers[k as int]
                    },
                ));
            },
            None => {},
        }
        assert(self@ =~= before.after_info(pid, info, supports_extended, dht_enabled));
    }

    /// A peer is gone: its slot passes on, and what it had and was asked for is forgotten
    pub fn clean_up_peer(&mut self, pid: Pid, bitfield: Option<Bitfield>) -> (r: Vec<TorrentAction>)
        requires
            old(self).wf(),
            bitfield matches Some(b) ==> b.inner.len() >= bytes_needed(b.num_pieces as int),
        ensures
            final(self).wf(),
            (final(self)@, asked(r@)) == old(self)@.after_gone(pid, bitfield),
    {
        let ghost before = self@;
        let mut r = match self.choker.on_peer_disconnected(pid) {
            Some(unchoked_pid) => self.send_to_peer(unchoked_pid, PeerMessage::SendUnchoke),
            None => no_actions(),
        };
        let mut requests: Vec<BlockRequest> = Vec::new();
        match find_peer(&self.peers, pid) {
            Some(k) => {
                let peer = self.peers.remove(k);
                requests = requests_from(&peer.pending_requests);
                push_action(
                    &mut r,
                    TorrentAction::Peer(
                        PeerEvent::Disconnected {
                            addr: peer.peer_addr,
                            reason: DisconnectReason::Other(String::from_str("Clean up")),
                        },
                    ),
                );
                assert(peer_views(self.peers@) =~= before.peers.remove(k as int));
            },
            None => {
                assert(requests@ =~= Seq::<BlockRequest>::empty());
            },
        }
        match (&mut self.piece_manager, &bitfield) {
            (Some(m), Some(b)) => {
                m.decrement_availability(AvailabilityUpdate::Bitfield(b));
                let ghost p = m@;
                m.cancel_peer_requests(requests.as_slice());
                proof {
                    requests_keep_buffers(p, requests@, requests.len() as int);
                }
            },
            _ => {},
        }
        push_action(&mut r, TorrentAction::Count(dec_connected()));
        proof {
            let (after, told) = before.after_gone(pid, bitfield);
            assert(self@ =~= after);
            assert(asked(r@) =~= told);
        }
        r
    }

    /// What the choker has decided is passed on to the peers
    pub fn run_choker(&self, to_choke: Vec<Pid>, to_unchoke: Vec<Pid>) -> (r: Vec<TorrentAction>)
        ensures
            asked(r@) == self@.all_choked(to_choke@, true, to_choke.len() as int)
                + self@.all_choked(to_unchoke@, false, to_unchoke.len() as int),
    {
        let mut r = no_actions();
        let mut i: usize = 0;
        while i < to_choke.len()
            invariant
                i <= to_choke.len(),
                asked(r@) == self@.all_choked(to_choke@, true, i as int),
            decreases to_choke.len() - i,
        {
            append_actions(&mut r, self.decided(to_choke[i], true));
            i = i + 1;
        }
        let ghost first = asked(r@);
        let mut j: usize = 0;
        assert(first + self@.all_choked(to_unchoke@, false, 0) =~= first);
        while j < to_unchoke.len()
            invariant
                j <= to_unchoke.len(),
                asked(r@) == first + self@.all_choked(to_unchoke@, false, j as int),
            decreases to_unchoke.len() - j,
        {
            append_actions(&mut r, self.decided(to_unchoke[j], false));
            assert(asked(r@) =~= first + self@.all_choked(to_unchoke@, false, j + 1));
            j = j + 1;
        }
        r
    }

    fn decided(&self, pid: Pid, choke: bool) -> (r: Vec<TorrentAction>)
        ensures
            asked(r@) == self@.choked(pid, choke),
    {
        match find_peer(&self.peers, pid) {
            Some(k) => {
                let addr = self.peers[k].peer_addr;
                let mut r = if choke {
                    one_action(TorrentAction::ToPeer(pid, PeerMessage::SendChoke))
                } else {
                    one_action(TorrentAction::ToPeer(pid, PeerMessage::SendUnchoke))
                };
                if choke {
                    push_action(&mut r, TorrentAction::Peer(PeerEvent::Choked { addr }));
                } else {
                    push_action(&mut r, TorrentAction::Peer(PeerEvent::Unchoked { addr }));
                }
                assert(asked(r@) =~= self@.choked(pid, choke));
                r
            },
            None => no_actions(),
        }
    }

    /// How far the torrent has come
    pub fn update_progress(&self) -> (r: TorrentProgress)
        requires
            self@.metadata.info() matches Some(info) ==> info.says().mode.size_fits(),
        ensures
            tells_progress(r, self@),
    {
        let name = match self.metadata.display_name() {
            Some(s) => String::from_str(s),
            None => self.info_hash.to_hex(),
        };
        let (total_pieces, total_bytes): (u32, u64) = match self.metadata.info() {
            Some(i) => (i.num_pieces() as u32, i.total_size() as u64),
            None => (0, 0),
        };
        TorrentProgress {
            name,
            total_pieces,
            verified_pieces: match &self.piece_manager {
                Some(p) => p.count_in_state(PieceState::Have) as u32,
                None => 0,
            },
            failed_pieces: 0,
            total_bytes,
            downloaded_bytes: self.metrics.downloaded_bytes,
            uploaded_bytes: self.metrics.uploaded_bytes,
            connected_peers: self.peers.len() as u32,
            state: self.state.copy(),
            eta_seconds: None,
        }
    }

    /// Addresses of peers have been heard of
    pub fn on_discovered(&mut self, peers: Vec<SocketAddr>)
        requires
            old(self).wf(),
        ensures
            final(self).wf(),
            final(self)@ == old(self)@.after_discovered(peers@),
    {
        let ghost before = self@;
        let mut i: usize = 0;
        while i < peers.len()
            invariant
                i <= peers.len(),
                self.wf(),
                self@ == (Books {
                    discovered: self@.discovered,
                    waiting: self@.waiting,
                    ..before
                }),
                (self@.discovered, self@.waiting) == heard(
                    before.discovered,
                    before.waiting,
                    peers@,
                    i as int,
                ),
            decreases peers.len() - i,
        {
            if !holds_addr(&self.discovered_peers, peers[i]) {
                self.discovered_peers.push(peers[i]);
                self.pending_peers.push(peers[i]);
            }
            i = i + 1;
        }
    }

    /// As many connections are made as there is room for beside those that are running; gives how
    /// many numbers for peers have been used up
    pub fn connect_pending(&mut self, running: usize, first_pid: usize) -> (r: (
        Vec<TorrentAction>,
        usize,
    ))
        requires
            old(self).wf(),
            first_pid <= usize::MAX - MAX_CONCURRENT_PEERS - 1,
            forall|k: int|
                0 <= k < old(self)@.peers.len() ==> (#[trigger] old(self)@.peers[k]).pid.0 < first_pid,
        ensures
            final(self).wf(),
            (final(self)@, asked(r.0@)) == old(self)@.after_connects(
                first_pid as int,
                MAX_CONCURRENT_PEERS + 1 - running,
            ),
            r.1 == r.0.len(),
    {
        let ghost start = self@;
        let ghost room = MAX_CONCURRENT_PEERS + 1 - running;
        let mut r = no_actions();
        let mut used: usize = 0;
        let mut tasks: usize = running;
        assert(asked(r@) + self@.after_connects(first_pid as int, room).1
            =~= self@.after_connects(first_pid as int, room).1);
        while tasks <= MAX_CONCURRENT_PEERS && self.pending_peers.len() > 0
            invariant
                self.wf(),
                used <= MAX_CONCURRENT_PEERS + 1,
                used > 0 ==> tasks <= MAX_CONCURRENT_PEERS + 1,
                tasks == running + used,
                r.len() == used,
                room == MAX_CONCURRENT_PEERS + 1 - running,
                first_pid <= usize::MAX - MAX_CONCURRENT_PEERS - 1,
                forall|k: int|
                    0 <= k < self@.peers.len() ==> (#[trigger] self@.peers[k]).pid.0 < first_pid + used,
                start.after_connects(first_pid as int, room) == (
                    self@.after_connects(first_pid + used, room - used).0,
                    asked(r@) + self@.after_connects(first_pid + used, room - used).1,
                ),
            decreases self.pending_peers.len(),
        {
            let ghost before = self@;
            let ghost told = asked(r@);
            let pid = Pid(first_pid + used);
            proof {
                if peer_position(self@.peers, pid, 0) is Some {
                    present_peer(self@.peers, pid, 0);
                }
            }
            match self.pending_peers.pop() {
                Some(addr) => {
                    assert(self@ =~= (Books { waiting: before.waiting.drop_last(), ..before }));
                    append_actions(&mut r, self.try_connect(pid, addr));
                    proof {
                        let (s, more) = before.after_connects(first_pid + used, room - used);
                        let (t, rest) = self@.after_connects(first_pid + used + 1, room - used - 1);
                        assert(s == t);
                        assert(told + more =~= asked(r@) + rest);
                    }
                },
                None => {},
            }
            used = used + 1;
            tasks = tasks + 1;
        }
        proof {
            let (s, more) = self@.after_connects(first_pid + used, room - used);
            assert(s == self@ && more =~= Seq::<ActionView>::empty());
            assert(asked(r@) + more =~= asked(r@));
        }
        (r, used)
    }

    /// The torrent is no longer in use: it has no peers
    pub fn shutdown(&mut self)
        requires
            old(self).wf(),
        ensures
            final(self).wf(),
            final(self)@ == (Books { peers: Seq::empty(), ..old(self)@ }),
    {
        self.peers = Vec::new();
        assert(self@ =~= (Books { peers: Seq::empty(), ..old(self)@ }));
    }
}

/// Whether a list holds an address
fn holds_addr(l: &Vec<SocketAddr>, a: SocketAddr) -> (r: bool)
    ensures
        r == l@.contains(a),
{
    let mut i: usize = 0;
    while i < l.len()
        invariant
            i <= l.len(),
            forall|k: int| 0 <= k < i ==> #[trigger] l@[k] != a,
        decreases l.len() - i,
    {
        if l[i] == a {
            assert(l@[i as int] == a);
            return true;
        }
        i = i + 1;
    }
    false
}

impl Torrent {
    /// Whether the bytes of the pieces can be counted, each taken to be of the same length
    pub fn left_fits(&self) -> (r: bool)
        ensures
            r == (i64::MIN <= self@.bytes_left() <= i64::MAX),
    {
        match self.metadata.info() {
            Some(info) => {
                let length: i128 = info.piece_length as i128;
                let count: i128 = info.pieces.len() as i128;
                assert(i128::MIN <= length * count <= i128::MAX) by (nonlinear_arith)
                    requires
                        i64::MIN <= length <= i64::MAX,
                        0 <= count <= u64::MAX,
                ;
                let left: i128 = length * count;
                i64::MIN as i128 <= left && left <= i64::MAX as i128
            },
            None => true,
        }
    }

    /// What is begun so that others learn of the torrent, and it of them
    pub fn announce(&self) -> (r: Announcement)
        requires
            i64::MIN <= self@.bytes_left() <= i64::MAX,
        ensures
            announces(r, self@),
    {
        let client_state = match self.metadata.info() {
            None => ClientState::new(0, 0, 0, Events::Started),
            Some(info) => {
                let event = match &self.state {
                    TorrentState::Seeding => Events::Completed,
                    TorrentState::Downloading => Events::Started,
                    _ => Events::Regular,
                };
                let left: i128 = info.piece_length as i128 * info.pieces.len() as i128;
                ClientState::new(0, left as i64, 0, event)
            },
        };
        let seed: bool = self.state.is_seeding();
        let mut announcers: Vec<Announcer> = Vec::new();
        let mut i: usize = 0;
        while i < self.trackers.len()
            invariant
                i <= self.trackers.len(),
                announcers.len() == i,
                forall|k: int|
                    0 <= k < i ==> (#[trigger] announcers@[k]).url@ == self.trackers@[k].0@
                        && announcers@[k].seed == seed && announcers@[k].retry_count == 0,
            decreases self.trackers.len() - i,
        {
            announcers.push(Announcer::new(self.trackers[i].0.clone(), seed));
            i = i + 1;
        }
        Announcement {
            client_state,
            announcers,
            dht: if self.has_dht && !seed {
                Some(DhtSearch::new(self.info_hash))
            } else {
                None
            },
        }
    }
}

} // verus!
