//! What holds of metadata that is fetched from peers.

use crate::bencode::parsed;
use crate::buffers::bytes_content;
use crate::hashing::sha1_digest;
use crate::magnet::Magnet;
use crate::metadata::{FetchState, Known, MetadataPiece};
use crate::metadata::{constructed, fresh_piece, next_piece, oldest_piece, pieces_had};
use crate::metainfo::{info_of, Info, InfoView, TorrentInfo};
use crate::net::SocketAddr;
use crate::torrent::books::Books;
use crate::torrent::{ActionView, Pid, TorrentMessage, TorrentReply};
use bytes::Bytes;
use std::sync::Arc;
use vstd::prelude::*;

verus! {

proof fn first_fresh(pieces: Seq<MetadataPiece>, i: int)
    requires
        0 <= i,
    ensures
        match fresh_piece(pieces, i) {
            Some(k) => i <= k < pieces.len() && !pieces[k].have && pieces[k].num_req < 2 && forall|
                j: int,
            |
                i <= j < k ==> (#[trigger] pieces[j]).have || pieces[j].num_req >= 2,
            None => forall|j: int|
                i <= j < pieces.len() ==> (#[trigger] pieces[j]).have || pieces[j].num_req >= 2,
        },
    decreases pieces.len() - i,
{
    if i < pieces.len() && !(!pieces[i].have && pieces[i].num_req < 2) {
        first_fresh(pieces, i + 1);
    }
}

proof fn longest_ago(pieces: Seq<MetadataPiece>, n: int)
    requires
        0 <= n <= pieces.len(),
    ensures
        match oldest_piece(pieces, n) {
            Some(k) => 0 <= k < n && !pieces[k].have && forall|j: int|
                0 <= j < n && !(#[trigger] pieces[j]).have ==> pieces[k].time_metadata_request
                    <= pieces[j].time_metadata_request,
            None => forall|j: int| 0 <= j < n ==> (#[trigger] pieces[j]).have,
        },
    decreases n,
{
    if n > 0 {
        longest_ago(pieces, n - 1);
    }
}

/// The piece that is asked for next is missing. The first one that was asked for less than twice
/// comes first; where there is none, the one that was asked for the longest ago. Only where no piece
/// is missing is none asked for.
pub proof fn missing_piece_is_asked_for_next(pieces: Seq<MetadataPiece>)
    ensures
        match next_piece(pieces) {
            Some(k) => {
                &&& 0 <= k < pieces.len()
                &&& !pieces[k].have
                &&& forall|j: int|
                    0 <= j < pieces.len() && !(#[trigger] pieces[j]).have && pieces[j].num_req < 2
                        ==> pieces[k].num_req < 2 && k <= j
                &&& pieces[k].num_req >= 2 ==> forall|j: int|
                    0 <= j < pieces.len() && !(#[trigger] pieces[j]).have
                        ==> pieces[k].time_metadata_request <= pieces[j].time_metadata_request
            },
            None => forall|j: int| 0 <= j < pieces.len() ==> (#[trigger] pieces[j]).have,
        },
{
    first_fresh(pieces, 0);
    longest_ago(pieces, pieces.len() as int);
}

/// A connection is given a piece that is missing, where one is; that it is asked for, and when, is
/// noted of that piece and of no other.
pub proof fn given_piece_is_noted(
    b: Books,
    pid: Pid,
    now: u64,
    a: Books,
    told: Seq<ActionView>,
    reply: TorrentReply,
    m: Magnet,
    f: FetchState,
    j: int,
)
    requires
        b.wf(),
        b.metadata == Known::Fetching(m, f),
        b.metadata.has_room(),
        b.handled(TorrentMessage::FillMetadataRequest { pid }, now, a, told, reply),
        f.pieces.len() <= u32::MAX,
        0 <= j < f.pieces.len(),
    ensures
        told.len() == 0,
        !f.pieces[j].have ==> reply is MetadataPiece,
        reply matches TorrentReply::MetadataPiece(i) ==> {
            &&& i < f.pieces.len()
            &&& !f.pieces[i as int].have
            &&& a.metadata matches Known::Fetching(n, g) && n == m && g.buf == f.buf && g.size
                == f.size && g.received == f.received && g.pieces.len() == f.pieces.len() && (j != i
                ==> g.pieces[j] == f.pieces[j]) && !g.pieces[i as int].have
                && g.pieces[i as int].num_req == f.pieces[i as int].num_req + 1
                && g.pieces[i as int].time_metadata_request == now
        },
        !(reply is MetadataPiece) ==> a == b,
{
    missing_piece_is_asked_for_next(f.pieces);
}

/// Pieces that are there are counted one by one.
pub proof fn pieces_are_counted(pieces: Seq<MetadataPiece>, n: int)
    requires
        0 <= n <= pieces.len(),
    ensures
        pieces_had(pieces, n) == pieces.take(n).filter(|p: MetadataPiece| p.have).len(),
        pieces_had(pieces, n) <= n,
        pieces_had(pieces, n) == n <==> forall|j: int| 0 <= j < n ==> (#[trigger] pieces[j]).have,
    decreases n,
{
    reveal(Seq::filter);
    let g = |p: MetadataPiece| p.have;
    if n > 0 {
        pieces_are_counted(pieces, n - 1);
        assert(pieces.take(n).drop_last() =~= pieces.take(n - 1));
        assert(pieces.take(n).last() == pieces[n - 1]);
        if pieces_had(pieces, n) == n {
            assert forall|j: int| 0 <= j < n implies (#[trigger] pieces[j]).have by {
                if j == n - 1 {
                    assert(pieces[n - 1].have);
                }
            }
        }
    } else {
        assert(pieces.take(0).filter(g).len() == 0);
    }
}

/// Once a peer has told the size of the metadata, there is a piece for each 16384 bytes of it and
/// for the rest, and none is there or was asked for. The size is told once: what is told later
/// changes nothing.
pub proof fn size_is_told_once(m: Magnet, size: usize, other: usize, now: u64, i: int)
    requires
        0 < size,
        0 <= i,
    ensures
        ({
            let (k, r) = Known::Pending(m).after_size(size, now);
            &&& r is Ok
            &&& k matches Known::Fetching(n, f) && n == m && f.size == size && f.buf.len() == size
                && f.received == 0 && 16384 * (f.pieces.len() - 1) < size <= 16384 * f.pieces.len()
                && (i < f.pieces.len() ==> !f.pieces[i].have && f.pieces[i].num_req == 0)
            &&& k.after_size(other, now).0 == k && k.after_size(other, now).1 is Err
        }),
        Known::Pending(m).after_size(0, now).0 == Known::Pending(m),
        Known::Pending(m).after_size(0, now).1 is Err,
{
}

/// A piece of the metadata that was missing and has the right length is put in its place, byte for
/// byte, and is there; nothing else of the metadata changes. The torrent is not known before the
/// last one.
pub proof fn metadata_piece_is_put_in_its_place(
    b: Books,
    pid: Pid,
    piece_idx: u32,
    metadata: Bytes,
    now: u64,
    a: Books,
    told: Seq<ActionView>,
    reply: TorrentReply,
    m: Magnet,
    f: FetchState,
    other: int,
)
    requires
        b.wf(),
        b.metadata == Known::Fetching(m, f),
        b.handled(
            TorrentMessage::ReceiveMetadata { pid, piece_idx, metadata },
            now,
            a,
            told,
            reply,
        ),
        f.buf.len() == f.size,
        piece_idx < f.pieces.len(),
        !f.pieces[piece_idx as int].have,
        bytes_content(metadata).len() == if f.size - 16384 * piece_idx < 16384 {
            f.size - 16384 * piece_idx
        } else {
            16384
        },
        0 <= other < f.pieces.len(),
        other != piece_idx,
        !f.pieces[other].have,
    ensures
        told.len() == 0,
        a.metadata matches Known::Fetching(n, g) && n == m && {
            &&& g.size == f.size && g.buf.len() == f.size && g.received == f.received + 1
            &&& g.pieces.len() == f.pieces.len()
            &&& g.pieces[piece_idx as int].have
            &&& g.pieces[other] == f.pieces[other]
            &&& forall|x: int|
                0 <= x < f.size ==> #[trigger] g.buf[x] == if 16384 * piece_idx <= x < 16384
                    * piece_idx + bytes_content(metadata).len() {
                    bytes_content(metadata)[x - 16384 * piece_idx]
                } else {
                    f.buf[x]
                }
        },
        a.picker == b.picker && a.peers == b.peers,
{
    let g = f.filled(piece_idx as int, bytes_content(metadata));
    pieces_are_counted(f.pieces, f.pieces.len() as int);
    let marked = f.pieces.update(
        piece_idx as int,
        MetadataPiece { have: true, ..f.pieces[piece_idx as int] },
    );
    pieces_are_counted(marked, marked.len() as int);
    one_more_piece(f.pieces, piece_idx as int, f.pieces.len() as int);
    if pieces_had(marked, marked.len() as int) == marked.len() {
        assert(marked[other].have);
    }
}

proof fn one_more_piece(pieces: Seq<MetadataPiece>, k: int, n: int)
    requires
        0 <= k < pieces.len(),
        !pieces[k].have,
        0 <= n <= pieces.len(),
    ensures
        pieces_had(pieces.update(k, MetadataPiece { have: true, ..pieces[k] }), n) == pieces_had(
            pieces,
            n,
        ) + if k < n {
            1int
        } else {
            0
        },
    decreases n,
{
    if n > 0 {
        one_more_piece(pieces, k, n - 1);
    }
}

/// With the last piece the torrent is known where the bytes have the hash that the magnet link names
/// and say what a torrent is; what they say is taken, and the torrent is to be registered. Where
/// they do not, nothing is taken and nothing is done.
pub proof fn last_metadata_piece_makes_the_torrent_known(
    b: Books,
    pid: Pid,
    piece_idx: u32,
    metadata: Bytes,
    now: u64,
    a: Books,
    told: Seq<ActionView>,
    reply: TorrentReply,
    m: Magnet,
    f: FetchState,
    whole: Seq<u8>,
)
    requires
        b.wf(),
        b.metadata == Known::Fetching(m, f),
        b.handled(
            TorrentMessage::ReceiveMetadata { pid, piece_idx, metadata },
            now,
            a,
            told,
            reply,
        ),
        f.buf.len() == f.size,
        piece_idx < f.pieces.len(),
        !f.pieces[piece_idx as int].have,
        bytes_content(metadata).len() == if f.size - 16384 * piece_idx < 16384 {
            f.size - 16384 * piece_idx
        } else {
            16384
        },
        forall|j: int|
            0 <= j < f.pieces.len() && j != piece_idx ==> (#[trigger] f.pieces[j]).have,
        whole.len() == f.size,
        forall|x: int|
            0 <= x < f.size ==> #[trigger] whole[x] == if 16384 * piece_idx <= x < 16384 * piece_idx
                + bytes_content(metadata).len() {
                bytes_content(metadata)[x - 16384 * piece_idx]
            } else {
                f.buf[x]
            },
    ensures
        ({
            let said = match parsed(whole) {
                Ok((v, _)) => info_of(v),
                Err(e) => Err(crate::metainfo::ErrorView::Bencode(e)),
            };
            &&& sha1_digest(whole) == m.hash->0@ && said is Ok ==> {
                &&& a.metadata matches Known::Complete(n, info) && n == m && info.says()
                    == said->Ok_0 && told == seq![ActionView::Register(info)]
            }
            &&& sha1_digest(whole) != m.hash->0@ || said is Err ==> a.metadata.info() is None
                && told.len() == 0
        }),
{
    let k = piece_idx as int;
    let g = f.filled(k, bytes_content(metadata));
    assert(g.buf =~= whole);
    pieces_are_counted(f.pieces, f.pieces.len() as int);
    let marked = f.pieces.update(k, MetadataPiece { have: true, ..f.pieces[k] });
    pieces_are_counted(marked, marked.len() as int);
    one_more_piece(f.pieces, k, f.pieces.len() as int);
    assert forall|j: int| 0 <= j < marked.len() implies (#[trigger] marked[j]).have by {
        if j != k {
            assert(marked[j] == f.pieces[j]);
        }
    }
}

/// A piece that is none of the metadata's, or has the wrong length, is not taken; one that is there
/// already changes nothing.
pub proof fn wrong_metadata_piece_is_not_taken(
    b: Books,
    pid: Pid,
    piece_idx: u32,
    metadata: Bytes,
    now: u64,
    a: Books,
    told: Seq<ActionView>,
    reply: TorrentReply,
    m: Magnet,
    f: FetchState,
)
    requires
        b.wf(),
        b.metadata == Known::Fetching(m, f),
        b.handled(
            TorrentMessage::ReceiveMetadata { pid, piece_idx, metadata },
            now,
            a,
            told,
            reply,
        ),
        piece_idx >= f.pieces.len() || f.pieces[piece_idx as int].have || bytes_content(
            metadata,
        ).len() != if f.size - 16384 * piece_idx < 16384 {
            f.size - 16384 * piece_idx
        } else {
            16384
        },
    ensures
        a == b,
        told.len() == 0,
{
}

/// What a put, a mark and a refusal answer: a piece that is there already is no error and nothing
/// new, and one that there is none of, or a torrent that is not being fetched, is an error.
pub proof fn metadata_answers_for_each_piece(
    m: Magnet,
    f: FetchState,
    data: Seq<u8>,
    piece_idx: u32,
    now: u64,
)
    requires
        f.wf(),
    ensures
        ({
            let k = Known::Fetching(m, f);
            &&& piece_idx < f.pieces.len() && f.pieces[piece_idx as int].have ==> k.after_put(
                data,
                piece_idx,
            ) == (k, Ok::<(), Seq<char>>(())) && k.after_mark(piece_idx) == (
                k,
                Ok::<bool, Seq<char>>(false),
            )
            &&& piece_idx >= f.pieces.len() ==> {
                &&& k.after_put(data, piece_idx).0 == k && k.after_put(data, piece_idx).1 is Err
                &&& k.after_mark(piece_idx).0 == k && k.after_mark(piece_idx).1 is Err
                &&& k.after_reject(piece_idx, now).0 == k && k.after_reject(piece_idx, now).1 is Err
            }
            &&& piece_idx < f.pieces.len() ==> k.after_reject(piece_idx, now).1 is Ok
        }),
        ({
            let k = Known::Pending(m);
            &&& k.after_put(data, piece_idx).0 == k && k.after_put(data, piece_idx).1 is Err
            &&& k.after_mark(piece_idx).0 == k && k.after_mark(piece_idx).1 is Err
            &&& k.after_reject(piece_idx, now).0 == k && k.after_reject(piece_idx, now).1 is Err
            &&& k.after_get_piece(now) == (k, None::<u32>)
        }),
{
}

/// A torrent goes by the hash and the name of its file, or of its magnet link for as long as there
/// is nothing else; a link may give no name.
pub proof fn torrent_goes_by_its_source(t: Arc<TorrentInfo>, m: Magnet, f: FetchState, i: Arc<Info>)
    ensures
        Known::File(t).hash() == t.info_hash,
        Known::File(t).name() == Some(t.info.says().mode.name()),
        m.hash is Some ==> Known::Pending(m).hash() == m.hash->0 && Known::Fetching(m, f).hash()
            == m.hash->0 && Known::Complete(m, i).hash() == m.hash->0,
        m.display_name is Some ==> Known::Pending(m).name() == Some(m.display_name->0@)
            && Known::Fetching(m, f).name() == Some(m.display_name->0@) && Known::Complete(m, i).name()
            == Some(m.display_name->0@),
        m.display_name is None ==> Known::Pending(m).name() is None && Known::Fetching(m, f).name() is None
            && Known::Complete(m, i).name() is None,
{
}

/// A piece that a peer refuses is counted as asked for one time less, and no other is touched.
pub proof fn refused_piece_is_asked_for_again(
    b: Books,
    pid: Pid,
    rejected_piece: u32,
    now: u64,
    a: Books,
    told: Seq<ActionView>,
    reply: TorrentReply,
    m: Magnet,
    f: FetchState,
    j: int,
)
    requires
        b.wf(),
        b.metadata == Known::Fetching(m, f),
        b.handled(
            TorrentMessage::RejectedMetadataRequest { pid, rejected_piece },
            now,
            a,
            told,
            reply,
        ),
        rejected_piece < f.pieces.len(),
        0 <= j < f.pieces.len(),
    ensures
        told.len() == 0,
        a.metadata matches Known::Fetching(n, g) && n == m && g.buf == f.buf && g.received
            == f.received && g.pieces.len() == f.pieces.len() && (j != rejected_piece
            ==> g.pieces[j] == f.pieces[j]) && g.pieces[rejected_piece as int].have
            == f.pieces[rejected_piece as int].have && (f.pieces[rejected_piece as int].num_req > 0
            ==> g.pieces[rejected_piece as int].num_req + 1
            == f.pieces[rejected_piece as int].num_req) && (f.pieces[rejected_piece as int].num_req
            == 0 ==> g.pieces[rejected_piece as int].num_req == 0),
{
}

/// The size that a peer tells begins the fetch, and is told on by no message.
pub proof fn told_size_begins_the_fetch(
    b: Books,
    pid: Pid,
    metadata_size: usize,
    now: u64,
    a: Books,
    told: Seq<ActionView>,
    reply: TorrentReply,
    m: Magnet,
)
    requires
        b.wf(),
        b.handled(TorrentMessage::PeerWithMetadata { pid, metadata_size }, now, a, told, reply),
    ensures
        told.len() == 0,
        b.metadata == Known::Pending(m) && metadata_size > 0 ==> (
        a.metadata matches Known::Fetching(n, f) && n == m && f.size == metadata_size),
        !(b.metadata is Pending) || metadata_size == 0 ==> a == b,
{
}

/// The torrent's metadata is handed out where it is known and as it is, and asking for it changes
/// nothing.
pub proof fn known_metadata_is_handed_out(
    b: Books,
    now: u64,
    a: Books,
    told: Seq<ActionView>,
    reply: TorrentReply,
    node_addr: SocketAddr,
)
    ensures
        b.handled(TorrentMessage::ValidMetadata, now, a, told, reply) ==> a == b && told.len() == 0
            && (reply matches TorrentReply::Metadata(r) && match b.metadata {
            Known::File(t) => r == Some(t.info),
            Known::Complete(_, i) => r == Some(i),
            _ => r is None,
        }),
        b.handled(TorrentMessage::DhtAddNode { node_addr }, now, a, told, reply) ==> a == b && (
        b.has_dht ==> told == seq![ActionView::AddNode(node_addr)]) && (!b.has_dht ==> told.len()
            == 0),
{
}

/// Fetched bytes are made use of exactly where they hash to what they should and say what a torrent
/// is, and then as what they say.
pub proof fn fetched_bytes_are_held_against_their_hash(hash: Seq<u8>, buf: Seq<u8>, i: InfoView)
    ensures
        constructed(hash, buf) == Ok::<InfoView, Seq<char>>(i) <==> sha1_digest(buf) == hash && (
        parsed(buf) matches Ok((v, _)) && info_of(v) == Ok::<
            InfoView,
            crate::metainfo::ErrorView,
        >(i)),
{
}

} // verus!
