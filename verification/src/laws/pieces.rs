//! What holds of the pieces of a torrent.

use crate::events::session::SessionEventView;
use crate::events::torrent::TorrentEventView;
use crate::laws::picker::{reset_piece_is_wanted_anew, told_piece_is_in_that_state};
use crate::metadata::Known;
use crate::metainfo::{Info, TorrentInfo};
use crate::metrics::progress::{StateView, TorrentProgress};
use crate::metrics::rate::{flushed, RateWindow};
use crate::path::pushed;
use crate::peer::PeerMessageView;
use crate::piece_picker::{covered, PickerState, PieceRecord, PieceState};
use crate::torrent::books::Books;
use crate::torrent::control::{all_bits, made_of, tells_progress};
use crate::torrent::{ActionView, TorrentContext, TorrentSource};
use crate::types::hex_text;
use std::sync::Arc;
use vstd::prelude::*;

verus! {

/// A piece that was right is there from then on: its bit is set, each of its blocks has come, it is
/// written, each peer learns of it, and its bytes are counted. No other bit changes.
pub proof fn right_piece_is_kept_and_written(
    b: Books,
    index: u32,
    piece: Seq<u8>,
    p: PickerState,
    k: int,
    other: int,
)
    requires
        b.wf(),
        b.picker == Some(p),
        index < p.pieces.len(),
        index < b.bits.len(),
        b.downloaded + piece.len() <= u64::MAX,
        0 <= k < b.peers.len(),
        0 <= other < b.bits.len(),
    ensures
        ({
            let (a, told) = b.after_verified(index, piece, Some(true));
            &&& a.bits.len() == b.bits.len()
            &&& a.bits[index as int]
            &&& other != index ==> a.bits[other] == b.bits[other]
            &&& a.downloaded == b.downloaded + piece.len()
            &&& a.picker matches Some(q) && q.pieces[index as int].state is Have && forall|y: int|
                0 <= y < q.pieces[index as int].blocks.len() ==> (
                #[trigger] q.pieces[index as int].blocks[y]).state is Downloaded
            &&& told.contains(ActionView::WritePiece(index, piece))
            &&& told.contains(
                ActionView::ToPeer(b.peers[k].pid, PeerMessageView::SendHave(index)),
            )
            &&& !told.contains(ActionView::Torrent(TorrentEventView::HashFailed(index)))
            &&& a.peers == b.peers && a.choker == b.choker && a.state == b.state
        }),
{
    let (a, told) = b.after_verified(index, piece, Some(true));
    told_piece_is_in_that_state(p, index as int, PieceState::Have, index as int);
    assert(told[told.len() - 1] == ActionView::WritePiece(index, piece));
    assert(told[k + 1] == ActionView::ToPeer(b.peers[k].pid, PeerMessageView::SendHave(index)));
}

/// A piece that was wrong, or of which there is no telling, is to be fetched anew: no bit changes,
/// nothing is written, no peer learns of it, and those who listen learn of the failure.
pub proof fn wrong_piece_is_fetched_anew(
    b: Books,
    index: u32,
    piece: Seq<u8>,
    verdict: Option<bool>,
    p: PickerState,
    written: Seq<u8>,
    k: int,
)
    requires
        b.wf(),
        b.picker == Some(p),
        index < p.pieces.len(),
        verdict != Some(true),
        0 <= k < b.peers.len(),
    ensures
        ({
            let (a, told) = b.after_verified(index, piece, verdict);
            &&& a.bits == b.bits
            &&& a.downloaded == b.downloaded
            &&& a.picker matches Some(q) && q.pieces[index as int].state is NotRequested && (forall|
                y: int,
            |
                0 <= y < q.pieces[index as int].blocks.len() ==> (
                #[trigger] q.pieces[index as int].blocks[y]).state is NotRequested)
                && q.pieces[index as int].num_peer == p.pieces[index as int].num_peer && (
            q.pieces[index as int].buffer matches Some(w) && forall|x: int|
                !#[trigger] covered(w.ranges, x))
            &&& !told.contains(ActionView::WritePiece(index, written))
            &&& !told.contains(
                ActionView::ToPeer(b.peers[k].pid, PeerMessageView::SendHave(index)),
            )
            &&& told.contains(ActionView::Torrent(TorrentEventView::HashFailed(index)))
        }),
{
    let (a, told) = b.after_verified(index, piece, verdict);
    reset_piece_is_wanted_anew(p, index as int, index as int);
    assert(told[told.len() - 1] == ActionView::Torrent(TorrentEventView::HashFailed(index)));
}

/// A torrent seeds as soon as the last piece is written, and not before; whoever listens learns of
/// it then. A piece that could not be written is to be fetched anew.
pub proof fn last_written_piece_ends_the_download(
    b: Books,
    index: u32,
    written: bool,
    p: PickerState,
)
    requires
        b.wf(),
        b.picker == Some(p),
        index < p.pieces.len(),
    ensures
        ({
            let (a, told) = b.after_written(index, written);
            let all = forall|i: int|
                0 <= i < p.pieces.len() ==> (#[trigger] p.pieces[i]).state is Have;
            &&& written && all ==> a.state is Seeding && told.contains(
                ActionView::Session(SessionEventView::TorrentCompleted(b.hash)),
            ) && told.contains(ActionView::Torrent(TorrentEventView::TorrentFinished))
                && told.contains(
                ActionView::Torrent(TorrentEventView::StateChanged(b.state, StateView::Seeding)),
            ) && a.picker == b.picker
            &&& written && !all ==> a == b && told.len() == 0
            &&& !written ==> a.state == b.state && told.len() == 0 && (
            a.picker matches Some(q) && q.pieces[index as int].state is NotRequested)
            &&& a.bits == b.bits
        }),
{
    let (a, told) = b.after_written(index, written);
    let all = forall|i: int| 0 <= i < p.pieces.len() ==> (#[trigger] p.pieces[i]).state is Have;
    if written {
        if all {
            assert(told[0] == ActionView::Torrent(
                TorrentEventView::StateChanged(b.state, StateView::Seeding),
            ));
            assert(told[1] == ActionView::Torrent(TorrentEventView::TorrentFinished));
            assert(told[2] == ActionView::Session(SessionEventView::TorrentCompleted(b.hash)));
        }
    } else {
        reset_piece_is_wanted_anew(p, index as int, index as int);
        let q = a.picker->0;
        assert(!(q.pieces[index as int].state is Have));
    }
}

/// A torrent that was registered begins with nothing: there is a piece for each hash, no bit is set
/// and no piece is there. Metadata that was fetched is kept in a file named after the hash, each
/// peer gets it, and the session learns of it.
pub proof fn registered_torrent_begins_empty(b: Books, fetched: bool, info: Arc<Info>, i: int, k: int)
    requires
        b.wf(),
        b.metadata.info() == Some(info),
        0 <= i < info.pieces.len(),
        0 <= k < b.peers.len(),
    ensures
        ({
            let (a, told) = b.after_registered(true, fetched);
            &&& a.picker matches Some(q) && q.pieces.len() == info.pieces.len()
                && q.pieces[i].state is NotRequested && q.pieces[i].num_peer == 0
            &&& a.size == info.pieces.len() && i < a.bits.len() && !a.bits[i]
            &&& b.metadata is Complete ==> told.contains(
                ActionView::Persist(
                    pushed(b.torrents_dir, hex_text(b.hash@) + ".torrent"@),
                    info,
                ),
            )
            &&& fetched ==> told.contains(
                ActionView::ToPeer(b.peers[k].pid, PeerMessageView::HaveMetadata(info)),
            ) && told.contains(ActionView::Session(SessionEventView::MetadataFetched(b.hash)))
            &&& !fetched && !(b.metadata is Complete) ==> told.len() == 0
            &&& a.peers == b.peers && a.state == b.state
        }),
{
    let (a, told) = b.after_registered(true, fetched);
    let first: int = if b.metadata is Complete {
        1
    } else {
        0
    };
    if b.metadata is Complete {
        assert(told[0] == ActionView::Persist(
            pushed(b.torrents_dir, hex_text(b.hash@) + ".torrent"@),
            info,
        ));
    }
    if fetched {
        assert(told[first + k] == ActionView::ToPeer(
            b.peers[k].pid,
            PeerMessageView::HaveMetadata(info),
        ));
        assert(told[told.len() - 1] == ActionView::Session(
            SessionEventView::MetadataFetched(b.hash),
        ));
    }
}

/// A torrent that could not be registered keeps nothing, but the peers and the session learn of
/// metadata that was fetched.
pub proof fn unregistered_torrent_keeps_nothing(b: Books, fetched: bool, path: Seq<char>, info: Arc<Info>)
    ensures
        b.after_registered(false, fetched).0 == b,
        !b.after_registered(false, fetched).1.contains(ActionView::Persist(path, info)),
        !fetched ==> b.after_registered(false, fetched).1.len() == 0,
{
}

/// A torrent that was registered as being there as a whole has each of its pieces.
pub proof fn seeded_torrent_has_all_pieces(b: Books, t: Arc<TorrentInfo>, i: int)
    requires
        b.metadata == Known::File(t),
        0 <= i < t.info.pieces.len(),
    ensures
        b.after_seed_registered(true).picker matches Some(q) && q.pieces.len()
            == t.info.pieces.len() && q.pieces[i].state is Have,
        b.after_seed_registered(false) == b,
        b.after_seed_registered(true).bits == b.bits,
{
}

/// The bits of a torrent that is there as a whole are set up to the last piece.
pub proof fn all_bits_are_set(n: int, i: int)
    requires
        0 <= i < all_bits(n).len(),
        0 <= n,
    ensures
        all_bits(n)[i] <==> i < n,
        n <= all_bits(n).len() < n + 8,
{
}

/// A torrent from a file begins with nothing and downloads; a seed begins with all and seeds; both
/// go by the hash of their file and know no peer.
pub proof fn torrents_begin_as_their_source_says(
    ctx: TorrentContext,
    t: TorrentInfo,
    dir: crate::path::FilePath,
    metadata: Known,
    now: u64,
    i: int,
)
    ensures
        ({
            let a = made_of(ctx, TorrentSource::Torrent(t), metadata, now);
            &&& a.hash == t.info_hash && a.state is Downloading && a.peers.len() == 0
            &&& 0 <= i < a.bits.len() ==> !a.bits[i]
            &&& a.picker is None && a.downloaded == 0 && a.uploaded == 0
            &&& a.waiting.len() == 0 && a.discovered.len() == 0
            &&& a.peer_id == ctx.peer_id && a.client_id == ctx.client_id && a.has_dht == ctx.has_dht
            &&& a.choker.slots == ctx.unchoke_slots && a.choker.queue.len() == 0
            &&& a.content_dir is None
        }),
        ({
            let a = made_of(
                ctx,
                TorrentSource::Seed { torrent_info: t, content_dir: dir },
                metadata,
                now,
            );
            &&& a.hash == t.info_hash && a.state is Seeding && a.peers.len() == 0
            &&& 0 <= i < a.bits.len() ==> a.bits[i] == (i < a.size)
            &&& a.content_dir == Some(dir@)
        }),
{
}

/// What is shown of a torrent are its own numbers: the pieces that are there are counted one by
/// one, and never more than there are.
pub proof fn progress_is_counted(p: TorrentProgress, b: Books, s: PickerState, info: Arc<Info>)
    requires
        tells_progress(p, b),
        b.picker == Some(s),
        b.metadata.info() == Some(info),
        s.pieces.len() <= u32::MAX,
        info.pieces.len() <= u32::MAX,
        b.peers.len() <= u32::MAX,
    ensures
        p.verified_pieces == s.pieces.filter(|x: PieceRecord| x.state is Have).len(),
        p.total_pieces == info.pieces.len(),
        p.downloaded_bytes == b.downloaded,
        p.uploaded_bytes == b.uploaded,
        p.connected_peers == b.peers.len(),
        p.state@ == b.state,
        p.name@ == match b.metadata.name() {
            Some(n) => n,
            None => hex_text(b.hash@),
        },
{
    let n = s.pieces.len() as int;
    crate::laws::picker::pieces_in_a_state_are_counted(s, PieceState::Have, n);
    assert(s.pieces.take(n) =~= s.pieces);
    same_filter(s.pieces);
    filter_is_short(s.pieces);
}

proof fn same_filter(l: Seq<PieceRecord>)
    ensures
        l.filter(|x: PieceRecord| x.state == PieceState::Have).len() == l.filter(
            |x: PieceRecord| x.state is Have,
        ).len(),
    decreases l.len(),
{
    reveal(Seq::filter);
    if l.len() > 0 {
        same_filter(l.drop_last());
    }
}

proof fn filter_is_short(l: Seq<PieceRecord>)
    ensures
        l.filter(|x: PieceRecord| x.state is Have).len() <= l.len(),
    decreases l.len(),
{
    reveal(Seq::filter);
    if l.len() > 0 {
        filter_is_short(l.drop_last());
    }
}

/// A torrent that is to be downloaded is registered with the storage first, as far as its metadata
/// is known; one that is to be seeded is registered with the directory of its content.
pub proof fn torrent_is_registered_first(b: Books, info: Arc<Info>, t: Arc<TorrentInfo>, dir: Seq<char>)
    ensures
        b.metadata.info() == Some(info) && (b.state is Downloading || b.state is Checking
            || b.state is FetchingMetadata) ==> b.beginning() == seq![ActionView::Register(info)],
        b.metadata.info() is None && !(b.state is Seeding) ==> b.beginning().len() == 0,
        b.state is Seeding && b.metadata == Known::File(t) && b.content_dir == Some(dir)
            ==> b.beginning() == seq![ActionView::RegisterSeed(t.info, dir)],
{
}

/// A window of a rate is closed after half a second at the earliest; it gives the bytes that have
/// passed and the time it was open, and the next begins empty.
pub proof fn rate_window_is_closed(w: RateWindow, now: u64)
    ensures
        now < w.last_update_ms + 500 ==> flushed(w, now) == (w, None::<(u64, u64)>),
        now >= w.last_update_ms + 500 ==> ({
            let (v, r) = flushed(w, now);
            &&& v.window_bytes == 0
            &&& v.last_update_ms == now
            &&& r matches Some((bytes, ms)) && bytes == w.window_bytes && w.last_update_ms + ms
                == now
        }),
{
}

} // verus!
