//! What the messages to a torrent bring about.

use crate::bitfield::bytes_needed;
use crate::buffers::bytes_content;
use crate::detail::{tells_files, TorrentDetail, TrackerStatus, TrackerView};
use crate::metadata::{constructed, Known};
use crate::metainfo::Info;
use crate::piece_picker::AvailabilityUpdate;
use crate::text::opt_text;
use crate::torrent::books::{owns, peer_position, Books};
use crate::torrent::roster::tells_peers;
use crate::torrent::{ActionView, TorrentMessage, TorrentReply};
use std::sync::Arc;
use vstd::prelude::*;

verus! {

/// How often a block may have been asked for when it is asked for once more, step by step.
pub open spec fn heat_steps() -> Seq<usize> {
    seq![0usize, 1usize, 4usize, 100usize]
}

/// What trackers' statuses say.
pub open spec fn status_views(l: Seq<TrackerStatus>) -> Seq<TrackerView> {
    Seq::new(l.len(), |i: int| l[i]@)
}

/// Whether details are those of a torrent with the given info dictionary.
pub open spec fn tells_detail(d: TorrentDetail, b: Books, info: Arc<Info>) -> bool {
    &&& match b.metadata {
        Known::File(t) => d.meta.tells(
            b.hash,
            info.says(),
            opt_text(t.comment),
            opt_text(t.created_by),
        ),
        _ => d.meta.tells(b.hash, info.says(), None, None),
    }
    &&& tells_files(d.files@, info.says().mode.files())
    &&& tells_peers(d.peers@, b.peers)
    &&& status_views(d.trackers@) == b.statuses()
}

impl Books {
    /// The statuses of the trackers.
    pub open spec fn statuses(self) -> Seq<TrackerView> {
        Seq::new(self.trackers.len(), |i: int| self.trackers[i].1)
    }

    /// A piece of the metadata has come; with the last one the torrent is to be registered.
    pub open spec fn received_metadata(
        self,
        piece_idx: u32,
        data: Seq<u8>,
        after: Books,
        told: Seq<ActionView>,
    ) -> bool {
        let (put, stored) = self.metadata.after_put(data, piece_idx);
        let (marked, last) = put.after_mark(piece_idx);
        if stored is Err {
            after == (Books { metadata: put, ..self }) && told == Seq::<ActionView>::empty()
        } else if last != Ok::<bool, Seq<char>>(true) {
            after == (Books { metadata: marked, ..self }) && told == Seq::<ActionView>::empty()
        } else {
            self.metadata_complete(marked, after, told)
        }
    }

    /// All pieces of the metadata have come: where they are what they should be, the torrent is to
    /// be registered.
    pub open spec fn metadata_complete(
        self,
        known: Known,
        after: Books,
        told: Seq<ActionView>,
    ) -> bool {
        match known {
            Known::Fetching(m, f) => match constructed(m.hash->0@, f.buf) {
                Err(_) => {
                    &&& after == (Books { metadata: known, ..self })
                    &&& told == Seq::<ActionView>::empty()
                },
                Ok(i) => {
                    &&& after.metadata matches Known::Complete(n, info) && n == m && info.says() == i
                        && told == seq![ActionView::Register(info)]
                    &&& after == (Books { metadata: after.metadata, ..self })
                },
            },
            _ => false,
        }
    }

    /// Whether the torrent is ready for a message, and the counts have room for it.
    pub open spec fn admits(self, m: TorrentMessage) -> bool {
        match m {
            TorrentMessage::Have { piece_idx, .. } => self.picker matches Some(p) && p.can_count(
                AvailabilityUpdate::Have(piece_idx),
            ),
            TorrentMessage::ReceiveBlock(_, block) => {
                &&& self.picker is Some
                &&& bytes_content(block.data).len() <= u32::MAX
                &&& self.down.window_bytes + bytes_content(block.data).len() <= u64::MAX
            },
            TorrentMessage::ShouldBeInterested { bitfield, .. } => {
                &&& bitfield.inner.len() >= bytes_needed(bitfield.num_pieces as int)
                &&& self.picker matches Some(p) && p.can_count(
                    AvailabilityUpdate::Bitfield(&bitfield),
                )
                &&& forall|i: int| #[trigger] owns(bitfield, i) ==> i < self.bits.len()
            },
            TorrentMessage::RequestBlock { pid, max_requests, bitfield } => {
                &&& self.picker matches Some(p) && p.in_reach(bitfield.inner.len() as int)
                &&& peer_position(self.peers, pid, 0) is Some
                &&& max_requests + 100 <= usize::MAX
            },
            TorrentMessage::PeerWithMetadata { metadata_size, .. } => metadata_size <= isize::MAX,
            TorrentMessage::FillMetadataRequest { .. } => self.metadata.has_room(),
            TorrentMessage::InboundPeer { pid, .. } => peer_position(self.peers, pid, 0) is None,
            TorrentMessage::ConnectPeer { pid, .. } => peer_position(self.peers, pid, 0) is None,
            TorrentMessage::GetTorrentDetail => self.metadata.info() matches Some(info)
                ==> info.says().mode.size_fits(),
            _ => true,
        }
    }

    /// Whether a message leads to the given state, actions and answer.
    pub open spec fn handled(
        self,
        m: TorrentMessage,
        now: u64,
        after: Books,
        told: Seq<ActionView>,
        reply: TorrentReply,
    ) -> bool {
        let nothing = Seq::<ActionView>::empty();
        match m {
            TorrentMessage::ValidMetadata => {
                &&& after == self && told == nothing
                &&& reply matches TorrentReply::Metadata(r) && r == self.metadata.info()
            },
            TorrentMessage::DhtAddNode { node_addr } => {
                &&& after == self && reply is Nothing
                &&& told == if self.has_dht {
                    seq![ActionView::AddNode(node_addr)]
                } else {
                    nothing
                }
            },
            TorrentMessage::Have { piece_idx, .. } => {
                after == self.after_have(piece_idx) && told == nothing && reply is Nothing
            },
            TorrentMessage::ReceiveBlock(pid, block) => {
                &&& (after, told) == self.after_block(
                    pid,
                    block.index,
                    block.begin,
                    bytes_content(block.data),
                )
                &&& reply is Nothing
            },
            TorrentMessage::ShouldBeInterested { bitfield, .. } => {
                &&& after == self.after_bitfield(bitfield) && told == nothing
                &&& reply matches TorrentReply::Interest(r) && r == self.interesting(bitfield)
            },
            TorrentMessage::Interest(pid) => {
                (after, told) == self.after_interest(pid) && reply is Nothing
            },
            TorrentMessage::NotInterest(pid) => {
                (after, told) == self.after_not_interest(pid) && reply is Nothing
            },
            TorrentMessage::RequestBlock { pid, max_requests, bitfield } => {
                &&& told == nothing
                &&& reply matches TorrentReply::Blocks(blocks) && (self.picker->0).picked(
                    bitfield,
                    max_requests as int,
                    heat_steps(),
                    blocks@,
                ) && after == self.after_request(pid, blocks@)
            },
            TorrentMessage::ClearPeerRequest { pid } => {
                after == self.after_clear(pid) && told == nothing && reply is Nothing
            },
            TorrentMessage::RemoteBlockRequest { pid, block_info } => {
                after == self && told == self.block_wanted(pid, block_info) && reply is Nothing
            },
            TorrentMessage::PeerWithMetadata { metadata_size, .. } => {
                &&& after == (Books {
                    metadata: self.metadata.after_size(metadata_size, now).0,
                    ..self
                })
                &&& told == nothing && reply is Nothing
            },
            TorrentMessage::FillMetadataRequest { .. } => {
                let (metadata, piece) = self.metadata.after_get_piece(now);
                &&& after == (Books { metadata, ..self }) && told == nothing
                &&& match piece {
                    Some(i) => reply matches TorrentReply::MetadataPiece(r) && r == i,
                    None => reply is Nothing,
                }
            },
            TorrentMessage::ReceiveMetadata { piece_idx, metadata, .. } => {
                &&& self.received_metadata(piece_idx, bytes_content(metadata), after, told)
                &&& reply is Nothing
            },
            TorrentMessage::RejectedMetadataRequest { rejected_piece, .. } => {
                &&& after == (Books {
                    metadata: self.metadata.after_reject(rejected_piece, now).0,
                    ..self
                })
                &&& told == nothing && reply is Nothing
            },
            TorrentMessage::InboundPeer { pid, remote_addr, supports_ext, peer_id, dht_enabled } => {
                &&& after == self.after_inbound(
                    pid,
                    remote_addr,
                    supports_ext,
                    peer_id,
                    dht_enabled,
                )
                &&& told == nothing && reply is Nothing
            },
            TorrentMessage::ConnectPeer { pid, addr } => {
                (after, told) == self.after_connect(pid, addr, self.client_id) && reply is Nothing
            },
            TorrentMessage::GetPeerSnapshots => {
                &&& after == self && told == nothing
                &&& reply matches TorrentReply::PeerSnapshots(l) && tells_peers(l@, self.peers)
            },
            TorrentMessage::GetTrackerStatuses => {
                &&& after == self && told == nothing
                &&& reply matches TorrentReply::TrackerStatuses(l) && status_views(l@)
                    == self.statuses()
            },
            TorrentMessage::TrackerUpdate {
                url,
                status,
                seeder_count,
                leecher_count,
                peers_received,
                error,
            } => {
                &&& after == self.after_tracker(
                    url@,
                    TrackerView {
                        url: url@,
                        tier: None,
                        seeder_count,
                        leecher_count,
                        peers_received,
                        status,
                        last_error: opt_text(error),
                    },
                )
                &&& told == nothing && reply is Nothing
            },
            TorrentMessage::GetTorrentDetail => {
                &&& after == self && told == nothing
                &&& match self.metadata.info() {
                    Some(info) => reply matches TorrentReply::Detail(d) && tells_detail(
                        d,
                        self,
                        info,
                    ),
                    None => reply is Nothing,
                }
            },
        }
    }
}

} // verus!
