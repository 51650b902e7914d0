//! How a torrent that only fetches goes on, and what its trackers are told.

use crate::endian::{be16, be32, be64, unsigned32};
use crate::leecher::{good_urls, next_round, LeechView, TorrentMessage, TorrentReply};
use crate::metadata::FetchState;
use crate::net::SocketAddr;
use crate::torrent::Pid;
use crate::tracker::udp::{
    connection_bytes, request_bytes, state_position, AnnounceRequest, ConnectionRequest,
    TrackerState,
};
use crate::tracker::{transport_of, Actions, Events};
use crate::trackers::{AnnounceResponse, TrackerError, TrackerFault};
use crate::urls::UrlView;
use vstd::prelude::*;
use vstd::string::*;

verus! {

/// The trackers that are kept are those whose urls can be read, in order.
pub proof fn readable_urls_are_kept(l: Seq<(Seq<char>, Result<UrlView, Seq<char>>)>, n: int)
    requires
        0 <= n <= l.len(),
    ensures
        good_urls(l, n) == l.take(n).filter(
            |u: (Seq<char>, Result<UrlView, Seq<char>>)| u.1 is Ok,
        ).map_values(|u: (Seq<char>, Result<UrlView, Seq<char>>)| u.1->Ok_0.text),
    decreases n,
{
    reveal(Seq::filter);
    let good = |u: (Seq<char>, Result<UrlView, Seq<char>>)| u.1 is Ok;
    let text = |u: (Seq<char>, Result<UrlView, Seq<char>>)| u.1->Ok_0.text;
    if n > 0 {
        readable_urls_are_kept(l, n - 1);
        assert(l.take(n).drop_last() =~= l.take(n - 1));
        assert(l.take(n).last() == l[n - 1]);
        let f = l.take(n - 1).filter(good);
        if good(l[n - 1]) {
            assert(f.push(l[n - 1]).map_values(text) =~= f.map_values(text).push(text(l[n - 1])));
        }
    } else {
        assert(l.take(0) =~= Seq::<(Seq<char>, Result<UrlView, Seq<char>>)>::empty());
        assert(l.take(0).filter(good).map_values(text) =~= Seq::<Seq<char>>::empty());
    }
}

/// Whether the metadata is there is answered as it is, and asking changes nothing.
pub proof fn metadata_is_there_or_not(b: LeechView, now: u64)
    ensures
        b.after(TorrentMessage::ValidMetadata, now) == (
            b,
            TorrentReply::HasMetadata(b.metadata.info() is Some),
        ),
{
}

/// The first peer that tells the size of the metadata lets the fetch begin; later ones change
/// nothing.
pub proof fn first_size_begins_the_fetch(b: LeechView, pid: Pid, size: usize, now: u64)
    ensures
        ({
            let (a, reply) = b.after(
                TorrentMessage::PeerWithMetadata { pid, metadata_size: size },
                now,
            );
            &&& reply == TorrentReply::Nothing
            &&& b.metadata is Pending ==> a.metadata is Fetching && a.metadata->Fetching_0
                == b.metadata->Pending_0 && a.metadata->Fetching_1 == FetchState::reserved(
                size as int,
                now,
            )
            &&& !(b.metadata is Pending) ==> a == b
            &&& a.peers == b.peers && a.hash == b.hash && a.trackers == b.trackers && a.state
                == b.state
        }),
{
}

/// A connection that asks for a piece of the metadata is given the one that is to be fetched next,
/// and that is noted.
pub proof fn next_piece_of_the_metadata_is_given(b: LeechView, pid: Pid, now: u64)
    ensures
        ({
            let (a, reply) = b.after(TorrentMessage::FillMetadataRequest { pid }, now);
            let (known, piece) = b.metadata.after_get_piece(now);
            &&& a == (LeechView { metadata: known, ..b })
            &&& piece is Some ==> reply == TorrentReply::MetadataPiece(piece->0)
            &&& piece is None ==> reply == TorrentReply::Nothing
        }),
{
}

/// What a torrent that picks no pieces is told of pieces and peers changes nothing.
pub proof fn other_words_change_nothing(b: LeechView, pid: Pid, now: u64)
    ensures
        b.after(TorrentMessage::Interest(pid), now) == (b, TorrentReply::Nothing),
        b.after(TorrentMessage::NotInterest(pid), now) == (b, TorrentReply::Nothing),
        b.after(TorrentMessage::NeedTask(pid), now) == (b, TorrentReply::Nothing),
        b.after(TorrentMessage::PeerDisconnected(pid), now) == (b, TorrentReply::Nothing),
        b.after(TorrentMessage::PeerError(pid), now) == (b, TorrentReply::Nothing),
{
}

/// A tracker that has answered is asked again when it says, and one that has failed never.
pub proof fn answering_tracker_is_asked_again(r: AnnounceResponse, e: TrackerError)
    ensures
        next_round(Ok(r)) == Some(r.interval as u64),
        next_round(Err(e)) is None,
{
}

/// A tracker is spoken to by the scheme of its url, and by no other than three.
pub proof fn scheme_decides_how_to_speak(text: Seq<char>, u: UrlView, m: Seq<char>)
    ensures
        u.scheme == "udp"@ ==> transport_of(text, Ok(u)) == Ok::<(bool, Seq<char>), TrackerFault>(
            (true, text),
        ),
        u.scheme == "http"@ || u.scheme == "https"@ ==> transport_of(text, Ok(u)) == Ok::<
            (bool, Seq<char>),
            TrackerFault,
        >((false, text)),
        u.scheme != "udp"@ && u.scheme != "http"@ && u.scheme != "https"@ ==> transport_of(
            text,
            Ok(u),
        ) == Err::<(bool, Seq<char>), TrackerFault>(TrackerFault::InvalidScheme(u.scheme)),
        transport_of(text, Err(m)) == Err::<(bool, Seq<char>), TrackerFault>(
            TrackerFault::UrlParse(m),
        ),
{
    reveal_strlit("udp");
    reveal_strlit("http");
    reveal_strlit("https");
    assert("udp"@[0] != "http"@[0]);
    assert("udp"@[0] != "https"@[0]);
}

/// The number that stands for each event and each action.
pub proof fn events_and_actions_are_numbered()
    ensures
        Events::Regular.number() == 0 && Events::Completed.number() == 1 && Events::Started.number()
            == 2 && Events::Stopped.number() == 3,
        Actions::Connect.number() == 0 && Actions::Announce.number() == 1 && Actions::Scrape.number()
            == 2 && Actions::Error.number() == 3,
{
}

/// A request for a connection is sixteen bytes: the number of the protocol, the action and the
/// number of the request.
pub proof fn connection_is_asked_for_in_sixteen_bytes(c: ConnectionRequest)
    ensures
        connection_bytes(c).len() == 16,
        connection_bytes(c).subrange(0, 8) == seq![0u8, 0, 4, 0x17, 0x27, 0x10, 0x19, 0x80],
        connection_bytes(c).subrange(8, 12) == be32(c.action),
        connection_bytes(c).subrange(12, 16) == be32(unsigned32(c.transaction_id)),
{
    let s = connection_bytes(c);
    assert(s.subrange(0, 8) =~= seq![0u8, 0, 4, 0x17, 0x27, 0x10, 0x19, 0x80]);
    assert(s.subrange(8, 12) =~= be32(c.action));
    assert(s.subrange(12, 16) =~= be32(unsigned32(c.transaction_id)));
}

/// An announcement is ninety-eight bytes, of which the first say which connection, which torrent
/// and which peer it is about.
pub proof fn announcement_says_what_it_is_about(a: AnnounceRequest)
    ensures
        ({
            let s = request_bytes(a);
            &&& s.len() == 98
            &&& s.subrange(0, 8) == be64(a.connection_id)
            &&& s.subrange(8, 12) == be32(a.action.number())
            &&& s.subrange(12, 16) == be32(a.tx_id)
            &&& s.subrange(16, 36) == a.info_hash@
            &&& s.subrange(36, 56) == a.peer_id@
        }),
{
    let s = request_bytes(a);
    assert(a.info_hash@.len() == 20 && a.peer_id@.len() == 20);
    assert(s.subrange(0, 8) =~= be64(a.connection_id));
    assert(s.subrange(8, 12) =~= be32(a.action.number()));
    assert(s.subrange(12, 16) =~= be32(a.tx_id));
    assert(s.subrange(16, 36) =~= a.info_hash@);
    assert(s.subrange(36, 56) =~= a.peer_id@);
}

/// The others say how much was moved and is left, what has happened, and where the client is.
#[verifier::rlimit(50)]
pub proof fn announcement_says_how_far_it_is(a: AnnounceRequest)
    ensures
        ({
            let s = request_bytes(a);
            &&& s.subrange(56, 64) == be64(a.downloaded)
            &&& s.subrange(64, 72) == be64(a.left)
            &&& s.subrange(72, 80) == be64(a.uploaded)
            &&& s.subrange(80, 84) == be32(a.event.number())
            &&& s.subrange(84, 88) == be32(a.ip_address)
            &&& s.subrange(88, 92) == be32(a.key)
            &&& s.subrange(92, 96) == be32(unsigned32(a.num_want))
            &&& s.subrange(96, 98) == be16(a.port)
        }),
{
    let s = request_bytes(a);
    assert(a.info_hash@.len() == 20 && a.peer_id@.len() == 20);
    let front = be64(a.connection_id) + be32(a.action.number()) + be32(a.tx_id) + a.info_hash@
        + a.peer_id@;
    let counts = be64(a.downloaded) + be64(a.left) + be64(a.uploaded);
    let rest = be32(a.event.number()) + be32(a.ip_address) + be32(a.key) + be32(
        unsigned32(a.num_want),
    ) + be16(a.port);
    assert(front.len() == 56 && counts.len() == 24 && rest.len() == 18);
    assert(s =~= front + counts + rest);
    assert(counts.subrange(0, 8) =~= be64(a.downloaded));
    assert(counts.subrange(8, 16) =~= be64(a.left));
    assert(counts.subrange(16, 24) =~= be64(a.uploaded));
    assert(rest.subrange(0, 4) =~= be32(a.event.number()));
    assert(rest.subrange(4, 8) =~= be32(a.ip_address));
    assert(rest.subrange(8, 12) =~= be32(a.key));
    assert(rest.subrange(12, 16) =~= be32(unsigned32(a.num_want)));
    assert(rest.subrange(16, 18) =~= be16(a.port));
    assert(s.subrange(56, 64) =~= counts.subrange(0, 8));
    assert(s.subrange(64, 72) =~= counts.subrange(8, 16));
    assert(s.subrange(72, 80) =~= counts.subrange(16, 24));
    assert(s.subrange(80, 84) =~= rest.subrange(0, 4));
    assert(s.subrange(84, 88) =~= rest.subrange(4, 8));
    assert(s.subrange(88, 92) =~= rest.subrange(8, 12));
    assert(s.subrange(92, 96) =~= rest.subrange(12, 16));
    assert(s.subrange(96, 98) =~= rest.subrange(16, 18));
}

proof fn conversation_from(s: Seq<(SocketAddr, TrackerState)>, tracker: SocketAddr, i: int)
    requires
        0 <= i,
    ensures
        state_position(s, tracker, i) is Some <==> exists|k: int|
            i <= k < s.len() && (#[trigger] s[k]).0 == tracker,
    decreases s.len() - i,
{
    if i < s.len() && s[i].0 != tracker {
        conversation_from(s, tracker, i + 1);
    }
    if i < s.len() && s[i].0 == tracker {
        let _ = s[i];
    }
}

/// A conversation with a tracker has begun exactly where one is noted for its address.
pub proof fn conversation_is_noted_by_address(s: Seq<(SocketAddr, TrackerState)>, tracker: SocketAddr)
    ensures
        state_position(s, tracker, 0) is Some <==> exists|k: int|
            0 <= k < s.len() && (#[trigger] s[k]).0 == tracker,
{
    conversation_from(s, tracker, 0);
}

} // verus!
