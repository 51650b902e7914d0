//! The peers of a torrent.

use crate::detail::{ExtensionFlags, PeerInfoSnapshot, PeerSnapshot};
use crate::events::peer::Direction;
use crate::metainfo::Info;
use crate::net::SocketAddr;
use crate::peer::peer_connection::PeerInfo;
use crate::peer::{PeerMessage, PeerMessageView};
use crate::piece_picker::{request_of, BlockRequest};
use crate::protocol::{BlockInfo, Message};
use crate::shared::share;
use crate::torrent::books::{all_told, cancels, others, peer_position, requests_of, PeerView};
use crate::torrent::{asked, ActionView, Pid, TorrentAction};
use crate::types::client_name;
use std::sync::Arc;
use vstd::prelude::*;
use vstd::string::*;

verus! {

/// What a torrent knows of a peer.
#[derive(Debug)]
pub struct PeerEntry {
    pub pid: Pid,
    pub peer_addr: SocketAddr,
    pub info: PeerInfo,
    pub supports_extended: bool,
    pub dht_enabled: bool,
    pub pending_requests: Vec<BlockInfo>,
}

impl View for PeerEntry {
    type V = PeerView;

    open spec fn view(&self) -> PeerView {
        PeerView {
            pid: self.pid,
            addr: self.peer_addr,
            info: self.info,
            extended: self.supports_extended,
            dht: self.dht_enabled,
            pending: self.pending_requests@,
        }
    }
}

/// What peers are.
pub open spec fn peer_views(s: Seq<PeerEntry>) -> Seq<PeerView> {
    Seq::new(s.len(), |i: int| s[i]@)
}

/// The position of a peer
pub fn find_peer(peers: &Vec<PeerEntry>, pid: Pid) -> (r: Option<usize>)
    ensures
        match r {
            Some(k) => {
                &&& k < peers.len()
                &&& peers[k as int].pid == pid
                &&& peer_position(peer_views(peers@), pid, 0) == Some(k as int)
            },
            None => peer_position(peer_views(peers@), pid, 0) is None,
        },
{
    let ghost s = peer_views(peers@);
    let mut i: usize = 0;
    while i < peers.len()
        invariant
            i <= peers.len(),
            s == peer_views(peers@),
            peer_position(s, pid, 0) == peer_position(s, pid, i as int),
        decreases peers.len() - i,
    {
        assert(s[i as int].pid == peers[i as int].pid);
        if peers[i].pid.0 == pid.0 {
            return Some(i);
        }
        i = i + 1;
    }
    None
}

/// The requests for blocks
pub fn requests_from(blocks: &Vec<BlockInfo>) -> (r: Vec<BlockRequest>)
    ensures
        r@ == requests_of(blocks@),
{
    let mut r: Vec<BlockRequest> = Vec::new();
    let mut i: usize = 0;
    while i < blocks.len()
        invariant
            i <= blocks.len(),
            r.len() == i,
            forall|k: int| 0 <= k < i ==> #[trigger] r@[k] == request_of(blocks[k]),
        decreases blocks.len() - i,
    {
        r.push(BlockRequest::from(blocks[i]));
        i = i + 1;
    }
    assert(r@ =~= requests_of(blocks@));
    r
}

/// The blocks of a list but one
pub fn without_block(l: &Vec<BlockInfo>, b: BlockInfo) -> (r: Vec<BlockInfo>)
    ensures
        r@ == others(l@, b, l.len() as int),
{
    let mut r: Vec<BlockInfo> = Vec::new();
    let mut i: usize = 0;
    while i < l.len()
        invariant
            i <= l.len(),
            r@ == others(l@, b, i as int),
        decreases l.len() - i,
    {
        if l[i] != b {
            r.push(l[i]);
        }
        i = i + 1;
    }
    r
}

/// Whether a list holds a block
fn holds_block(l: &Vec<BlockInfo>, b: BlockInfo) -> (r: bool)
    ensures
        r == l@.contains(b),
{
    let mut i: usize = 0;
    while i < l.len()
        invariant
            i <= l.len(),
            forall|k: int| 0 <= k < i ==> #[trigger] l@[k] != b,
        decreases l.len() - i,
    {
        if l[i] == b {
            assert(l@[i as int] == b);
            return true;
        }
        i = i + 1;
    }
    false
}

/// The commands to the peers that were asked for a block, to cancel the request
pub fn cancel_block(peers: &Vec<PeerEntry>, b: BlockInfo) -> (r: Vec<TorrentAction>)
    ensures
        asked(r@) == cancels(peer_views(peers@), b, peers.len() as int),
{
    let ghost s = peer_views(peers@);
    let mut r: Vec<TorrentAction> = Vec::new();
    let mut i: usize = 0;
    assert(asked(r@) =~= cancels(s, b, 0));
    while i < peers.len()
        invariant
            i <= peers.len(),
            s == peer_views(peers@),
            asked(r@) == cancels(s, b, i as int),
        decreases peers.len() - i,
    {
        assert(s[i as int] == peers[i as int]@);
        if holds_block(&peers[i].pending_requests, b) {
            let ghost before = r@;
            r.push(
                TorrentAction::ToPeer(peers[i].pid, PeerMessage::SendMessage(Message::Cancel(b))),
            );
            assert(asked(r@) =~= asked(before).push(r@.last()@));
        }
        i = i + 1;
    }
    r
}

/// The commands that tell all peers of a piece
pub fn tell_have(peers: &Vec<PeerEntry>, piece_index: u32) -> (r: Vec<TorrentAction>)
    ensures
        asked(r@) == all_told(peer_views(peers@), PeerMessageView::SendHave(piece_index)),
{
    let mut r: Vec<TorrentAction> = Vec::new();
    let mut i: usize = 0;
    while i < peers.len()
        invariant
            i <= peers.len(),
            r.len() == i,
            forall|k: int|
                0 <= k < i ==> (#[trigger] r@[k])@ == ActionView::ToPeer(
                    peers[k].pid,
                    PeerMessageView::SendHave(piece_index),
                ),
        decreases peers.len() - i,
    {
        r.push(TorrentAction::ToPeer(peers[i].pid, PeerMessage::SendHave { piece_index }));
        i = i + 1;
    }
    assert(asked(r@) =~= all_told(peer_views(peers@), PeerMessageView::SendHave(piece_index)));
    r
}

/// The commands that tell all peers that the metadata is there
pub fn tell_metadata(peers: &Vec<PeerEntry>, info: &Arc<Info>) -> (r: Vec<TorrentAction>)
    ensures
        asked(r@) == all_told(peer_views(peers@), PeerMessageView::HaveMetadata(*info)),
{
    let mut r: Vec<TorrentAction> = Vec::new();
    let mut i: usize = 0;
    while i < peers.len()
        invariant
            i <= peers.len(),
            r.len() == i,
            forall|k: int|
                0 <= k < i ==> (#[trigger] r@[k])@ == ActionView::ToPeer(
                    peers[k].pid,
                    PeerMessageView::HaveMetadata(*info),
                ),
        decreases peers.len() - i,
    {
        r.push(TorrentAction::ToPeer(peers[i].pid, PeerMessage::HaveMetadata(share(info))));
        i = i + 1;
    }
    assert(asked(r@) =~= all_told(peer_views(peers@), PeerMessageView::HaveMetadata(*info)));
    r
}

/// Whether a snapshot is one of a peer: its state, its client, and the extensions it supports.
pub open spec fn tells_peer(p: PeerSnapshot, v: PeerView) -> bool {
    &&& p.addr == v.addr
    &&& p.info.remote_choking == v.info.remote_choking
    &&& p.info.remote_interested == v.info.remote_interested
    &&& p.info.am_choking == v.info.am_choking
    &&& p.info.am_interested == v.info.am_interested
    &&& p.info.source == match v.info.source {
        Direction::Outbound => crate::detail::Direction::Outbound,
        Direction::Inbound => crate::detail::Direction::Inbound,
    }
    &&& p.info.client_name@ == match client_name(v.info.peer_id@) {
        Some(name) => name@,
        None => "Unknown"@,
    }
    &&& p.info.extension_flags == (ExtensionFlags {
        dht: v.dht,
        extension_protocol: v.extended,
        metadata: v.extended,
        pex: false,
    })
}

/// Whether snapshots are those of peers, in order.
pub open spec fn tells_peers(l: Seq<PeerSnapshot>, s: Seq<PeerView>) -> bool {
    &&& l.len() == s.len()
    &&& forall|i: int| 0 <= i < l.len() ==> tells_peer(#[trigger] l[i], s[i])
}

/// The state of a peer, to be shown
fn snapshot(peer: &PeerEntry) -> (r: PeerSnapshot)
    ensures
        tells_peer(r, peer@),
{
    let client_name: &str = match peer.info.peer_id.identify_client() {
        Some(name) => name,
        None => "Unknown",
    };
    PeerSnapshot {
        addr: peer.peer_addr,
        info: PeerInfoSnapshot {
            remote_choking: peer.info.remote_choking,
            remote_interested: peer.info.remote_interested,
            am_choking: peer.info.am_choking,
            am_interested: peer.info.am_interested,
            source: match peer.info.source {
                Direction::Outbound => crate::detail::Direction::Outbound,
                Direction::Inbound => crate::detail::Direction::Inbound,
            },
            client_name: String::from_str(client_name),
            extension_flags: ExtensionFlags {
                dht: peer.dht_enabled,
                extension_protocol: peer.supports_extended,
                metadata: peer.supports_extended,
                pex: false,
            },
        },
    }
}

/// The state of the peers, to be shown
pub fn snapshots(peers: &Vec<PeerEntry>) -> (r: Vec<PeerSnapshot>)
    ensures
        tells_peers(r@, peer_views(peers@)),
{
    let mut r: Vec<PeerSnapshot> = Vec::new();
    let mut i: usize = 0;
    while i < peers.len()
        invariant
            i <= peers.len(),
            r.len() == i,
            forall|k: int| 0 <= k < i ==> tells_peer(#[trigger] r@[k], peers[k]@),
        decreases peers.len() - i,
    {
        r.push(snapshot(&peers[i]));
        i = i + 1;
    }
    r
}

} // verus!
