//! What a torrent answers and shows of itself.

use crate::events::peer::Direction;
use crate::metainfo::Info;
use crate::metrics::progress::{StateView, TorrentProgress};
use crate::torrent::books::Books;
use crate::torrent::control::{first_progress, shown_first};
use crate::torrent::{ActionView, TorrentMessage, TorrentReply, TorrentSource};
use crate::types::client_name;
use std::sync::Arc;
use vstd::prelude::*;
use vstd::string::*;

verus! {

/// The peers are shown in order, each with its address, its state, the name of its client and what
/// it supports.
pub proof fn peers_are_shown_as_they_are(
    b: Books,
    now: u64,
    a: Books,
    told: Seq<ActionView>,
    reply: TorrentReply,
    i: int,
)
    requires
        b.handled(TorrentMessage::GetPeerSnapshots, now, a, told, reply),
        0 <= i < b.peers.len(),
    ensures
        a == b && told.len() == 0,
        reply is PeerSnapshots,
        ({
            let l = reply->PeerSnapshots_0@;
            let p = b.peers[i];
            &&& l.len() == b.peers.len()
            &&& l[i].addr == p.addr
            &&& l[i].info.remote_choking == p.info.remote_choking
            &&& l[i].info.remote_interested == p.info.remote_interested
            &&& l[i].info.am_choking == p.info.am_choking
            &&& l[i].info.am_interested == p.info.am_interested
            &&& p.info.source == Direction::Inbound ==> l[i].info.source
                == crate::detail::Direction::Inbound
            &&& p.info.source == Direction::Outbound ==> l[i].info.source
                == crate::detail::Direction::Outbound
            &&& client_name(p.info.peer_id@) is Some ==> l[i].info.client_name@ == client_name(
                p.info.peer_id@,
            )->0@
            &&& client_name(p.info.peer_id@) is None ==> l[i].info.client_name@ == "Unknown"@
            &&& l[i].info.extension_flags.dht == p.dht
            &&& l[i].info.extension_flags.extension_protocol == p.extended
            &&& l[i].info.extension_flags.metadata == p.extended
            &&& !l[i].info.extension_flags.pex
        }),
{
    let _ = reply->PeerSnapshots_0@[i];
}

/// The trackers are shown in order, each as it was last heard of.
pub proof fn trackers_are_shown_as_they_are(
    b: Books,
    now: u64,
    a: Books,
    told: Seq<ActionView>,
    reply: TorrentReply,
    i: int,
)
    requires
        b.handled(TorrentMessage::GetTrackerStatuses, now, a, told, reply),
        0 <= i < b.trackers.len(),
    ensures
        a == b && told.len() == 0,
        reply is TrackerStatuses,
        reply->TrackerStatuses_0@.len() == b.trackers.len(),
        reply->TrackerStatuses_0@[i]@ == b.trackers[i].1,
{
    let l = reply->TrackerStatuses_0@;
    assert(crate::torrent::messages::status_views(l).len() == b.statuses().len());
    assert(crate::torrent::messages::status_views(l)[i] == b.statuses()[i]);
}

/// The details of a torrent hold its hash, what its info says, its files, its peers and its
/// trackers; while the info is not there, there are none.
pub proof fn details_hold_everything(
    b: Books,
    info: Arc<Info>,
    now: u64,
    a: Books,
    told: Seq<ActionView>,
    reply: TorrentReply,
    i: int,
)
    requires
        b.handled(TorrentMessage::GetTorrentDetail, now, a, told, reply),
    ensures
        a == b && told.len() == 0,
        b.metadata.info() is None ==> reply is Nothing,
        b.metadata.info() == Some(info) ==> {
            &&& reply is Detail
            &&& reply->Detail_0.meta.info_hash == b.hash
            &&& reply->Detail_0.meta.name@ == info.says().mode.name()
            &&& reply->Detail_0.meta.total_bytes == info.says().mode.total() as u64
            &&& reply->Detail_0.meta.num_pieces == info.pieces.len() as u32
            &&& reply->Detail_0.files@.len() == info.says().mode.files().len()
            &&& reply->Detail_0.peers@.len() == b.peers.len()
            &&& reply->Detail_0.trackers@.len() == b.trackers.len()
            &&& 0 <= i < b.peers.len() ==> reply->Detail_0.peers@[i].addr == b.peers[i].addr
            &&& 0 <= i < b.trackers.len() ==> reply->Detail_0.trackers@[i]@ == b.trackers[i].1
            &&& 0 <= i < info.says().mode.files().len() ==> reply->Detail_0.files@[i].path@
                == info.says().mode.files()[i].path
        },
        (b.metadata is File && b.metadata.info() == Some(info)) ==> {
            let t = b.metadata->File_0;
            &&& t.comment is Some ==> reply->Detail_0.meta.comment is Some
                && reply->Detail_0.meta.comment->0@ == t.comment->0@
            &&& t.created_by is Some ==> reply->Detail_0.meta.created_by is Some
                && reply->Detail_0.meta.created_by->0@ == t.created_by->0@
        },
{
    if b.metadata.info() == Some(info) {
        let d = reply->Detail_0;
        assert(crate::torrent::messages::status_views(d.trackers@).len() == b.statuses().len());
        if 0 <= i < b.trackers.len() {
            assert(crate::torrent::messages::status_views(d.trackers@)[i] == b.statuses()[i]);
        }
        if 0 <= i < b.peers.len() {
            let _ = d.peers@[i];
        }
        if 0 <= i < info.says().mode.files().len() {
            let _ = d.files@[i];
        }
    }
}

/// What is first shown of a torrent: a seed is complete, and anything else has nothing yet.
pub proof fn first_report_says_how_it_begins(p: TorrentProgress, b: Books, state: StateView)
    requires
        first_progress(p, b, state),
    ensures
        p.name@ == b.name(),
        p.state@ == state,
        b.state is Seeding ==> p.verified_pieces == p.total_pieces && p.downloaded_bytes
            == p.total_bytes,
        !(b.state is Seeding) ==> p.verified_pieces == 0 && p.downloaded_bytes == 0,
        b.metadata.info() is Some ==> p.total_pieces == b.metadata.info()->0.pieces@.len() as u32
            && p.total_bytes == b.metadata.info()->0.says().mode.total() as u64,
        b.metadata.info() is None ==> p.total_pieces == 0 && p.total_bytes == 0,
        p.uploaded_bytes == 0 && p.connected_peers == 0,
{
}

/// A file is shown as downloading, a magnet link as fetching its metadata and a seed as seeding.
pub proof fn sources_are_shown_by_what_they_do(source: TorrentSource)
    ensures
        source is Torrent ==> shown_first(source) is Downloading,
        source is Magnet ==> shown_first(source) is FetchingMetadata,
        source is Seed ==> shown_first(source) is Seeding,
{
}

} // verus!
