//! What a session does with its torrents, and with peers that connect to it.

use crate::events::session::SessionEvent;
use crate::magnet::Magnet;
use crate::metainfo::TorrentInfo;
use crate::net::SocketAddr;
use crate::path::FilePath;
use crate::session::{
    awaited, command_fits, entry_position, greeting, ids_differ, stops, EntryView, Question, Refusal,
    SessionAction, SessionAnswer, SessionCommand, SessionError, SessionView, TorrentId,
};
use crate::types::{hex_text, InfoHash, PeerID};
use vstd::prelude::*;
use vstd::string::*;
use vstd::utf8::*;

verus! {

/// A place is found exactly where there is one, and it is the first.
proof fn found_place(s: Seq<EntryView>, id: TorrentId, i: int)
    requires
        0 <= i,
    ensures
        match entry_position(s, id, i) {
            Some(k) => i <= k < s.len() && s[k].id == id && forall|j: int|
                i <= j < k ==> (#[trigger] s[j]).id != id,
            None => forall|j: int| i <= j < s.len() ==> (#[trigger] s[j]).id != id,
        },
    decreases s.len() - i,
{
    if i < s.len() && s[i].id != id {
        found_place(s, id, i + 1);
    }
}

/// A torrent that is there already is refused by its hash, whichever way it comes, and nothing
/// happens.
pub proof fn known_torrent_is_refused(
    s: SessionView,
    k: int,
    t: TorrentInfo,
    m: Magnet,
    dir: FilePath,
    has_dht: bool,
    now: u64,
    after: SessionView,
    told: Seq<SessionAction>,
    r: Result<SessionAnswer, SessionError>,
)
    requires
        0 <= k < s.torrents.len(),
        s.torrents[k].id == t.info_hash,
        m.hash == Some(t.info_hash),
        s.handled(SessionCommand::AddTorrent { info: t }, has_dht, now, after, told, r)
            || s.handled(SessionCommand::AddMagnet { magnet: m }, has_dht, now, after, told, r)
            || s.handled(
            SessionCommand::SeedFile { info: t, content_dir: dir },
            has_dht,
            now,
            after,
            told,
            r,
        ) || s.handled(
            SessionCommand::SeedTorrentUnchecked { info: t },
            has_dht,
            now,
            after,
            told,
            r,
        ),
    ensures
        after == s,
        told.len() == 0,
        r == Err::<SessionAnswer, SessionError>(SessionError::TorrentAlreadyExists(t.info_hash)),
{
    found_place(s.torrents, t.info_hash, 0);
}

/// A torrent whose hash no other has is taken in behind the others, runs, and those who listen are
/// told; the entry holds the name, the size and the metadata of the file.
pub proof fn new_torrent_is_taken_in(
    s: SessionView,
    t: TorrentInfo,
    has_dht: bool,
    now: u64,
    after: SessionView,
    told: Seq<SessionAction>,
    r: Result<SessionAnswer, SessionError>,
)
    requires
        forall|i: int| 0 <= i < s.torrents.len() ==> (#[trigger] s.torrents[i]).id != t.info_hash,
        s.handled(SessionCommand::AddTorrent { info: t }, has_dht, now, after, told, r),
    ensures
        after.torrents.len() == s.torrents.len() + 1,
        forall|i: int| 0 <= i < s.torrents.len() ==> after.torrents[i] == s.torrents[i],
        after.torrents.last().id == t.info_hash,
        after.torrents.last().name == t.info.says().mode.name(),
        after.torrents.last().size == t.info.says().mode.total() as u64,
        after.torrents.last().metainfo == Some(t),
        after.peer_id == s.peer_id && after.client_id == s.client_id && after.config == s.config,
        r == Ok::<SessionAnswer, SessionError>(SessionAnswer::Added(t.info_hash)),
        told.len() == 2,
        told[1] == SessionAction::Event(SessionEvent::TorrentAdded(t.info_hash)),
        told[0] is Run,
        told[0]->Run_0 == t.info_hash,
        ({
            let b = told[0]->Run_1@;
            &&& b.hash == t.info_hash && b.state is Downloading
            &&& b.peer_id == s.peer_id && b.client_id == s.client_id && b.has_dht == has_dht
            &&& b.choker.slots == s.config.unchoke_slots
            &&& forall|i: int| 0 <= i < b.bits.len() ==> !#[trigger] b.bits[i]
        }),
{
    found_place(s.torrents, t.info_hash, 0);
}

/// Content that is there is taken in likewise, but the torrent seeds from the directory that was
/// named and has every piece.
pub proof fn seed_is_taken_in(
    s: SessionView,
    t: TorrentInfo,
    dir: FilePath,
    has_dht: bool,
    now: u64,
    after: SessionView,
    told: Seq<SessionAction>,
    r: Result<SessionAnswer, SessionError>,
)
    requires
        forall|i: int| 0 <= i < s.torrents.len() ==> (#[trigger] s.torrents[i]).id != t.info_hash,
        s.handled(
            SessionCommand::SeedFile { info: t, content_dir: dir },
            has_dht,
            now,
            after,
            told,
            r,
        ),
    ensures
        after.torrents.len() == s.torrents.len() + 1,
        after.torrents.last().id == t.info_hash,
        after.torrents.last().name == t.info.says().mode.name(),
        after.torrents.last().size == t.info.says().mode.total() as u64,
        after.torrents.last().metainfo == Some(t),
        r == Ok::<SessionAnswer, SessionError>(SessionAnswer::Added(t.info_hash)),
        told.len() == 2 && told[0] is Run,
        ({
            let b = told[0]->Run_1@;
            &&& b.hash == t.info_hash && b.state is Seeding
            &&& b.content_dir == Some(dir@)
            &&& forall|i: int| 0 <= i < b.size ==> i < b.bits.len() ==> #[trigger] b.bits[i]
        }),
{
    found_place(s.torrents, t.info_hash, 0);
}

/// A torrent that is seeded unchecked is taken in likewise, with no directory named.
pub proof fn unchecked_seed_is_taken_in(
    s: SessionView,
    t: TorrentInfo,
    has_dht: bool,
    now: u64,
    after: SessionView,
    told: Seq<SessionAction>,
    r: Result<SessionAnswer, SessionError>,
)
    requires
        forall|i: int| 0 <= i < s.torrents.len() ==> (#[trigger] s.torrents[i]).id != t.info_hash,
        s.handled(SessionCommand::SeedTorrentUnchecked { info: t }, has_dht, now, after, told, r),
    ensures
        after.torrents.len() == s.torrents.len() + 1,
        forall|i: int| 0 <= i < s.torrents.len() ==> after.torrents[i] == s.torrents[i],
        after.torrents.last().id == t.info_hash,
        after.torrents.last().metainfo == Some(t),
        r == Ok::<SessionAnswer, SessionError>(SessionAnswer::Added(t.info_hash)),
        told.len() == 2 && told[0] is Run,
        told[1] == SessionAction::Event(SessionEvent::TorrentAdded(t.info_hash)),
        told[0]->Run_1@.state is Seeding,
        told[0]->Run_1@.content_dir is Some && told[0]->Run_1@.content_dir->0.len() == 0,
{
    found_place(s.torrents, t.info_hash, 0);
}

/// A magnet link needs a hash, and a way to find peers; one that has both is taken in under its
/// display name, or the hexadecimal form of its hash where it has none, and its size is not known.
pub proof fn magnet_is_taken_in(
    s: SessionView,
    m: Magnet,
    has_dht: bool,
    now: u64,
    after: SessionView,
    told: Seq<SessionAction>,
    r: Result<SessionAnswer, SessionError>,
)
    requires
        s.handled(SessionCommand::AddMagnet { magnet: m }, has_dht, now, after, told, r),
        m.hash is Some ==> forall|i: int|
            0 <= i < s.torrents.len() ==> (#[trigger] s.torrents[i]).id != m.hash->0,
    ensures
        m.hash is None ==> r == Err::<SessionAnswer, SessionError>(SessionError::InvalidMagnet)
            && after == s && told.len() == 0,
        m.hash is Some && m.trackers@.len() == 0 && !has_dht ==> r == Err::<
            SessionAnswer,
            SessionError,
        >(SessionError::NoPeerDiscovery) && after == s && told.len() == 0,
        m.hash is Some && (m.trackers@.len() > 0 || has_dht) ==> {
            &&& r == Ok::<SessionAnswer, SessionError>(SessionAnswer::Added(m.hash->0))
            &&& after.torrents.len() == s.torrents.len() + 1
            &&& forall|i: int| 0 <= i < s.torrents.len() ==> after.torrents[i] == s.torrents[i]
            &&& after.torrents.last().id == m.hash->0
            &&& after.torrents.last().size == 0
            &&& after.torrents.last().metainfo is None
            &&& m.display_name is Some ==> after.torrents.last().name == m.display_name->0@
            &&& m.display_name is None ==> after.torrents.last().name == hex_text(m.hash->0@)
            &&& told.len() == 2 && told[0] is Run && told[0]->Run_0 == m.hash->0
            &&& told[1] == SessionAction::Event(SessionEvent::TorrentAdded(m.hash->0))
        },
{
    if m.hash is Some {
        found_place(s.torrents, m.hash->0, 0);
    }
}

/// A torrent that is removed leaves and is stopped, those who listen are told, and every other
/// torrent stays as it is, in its order.
pub proof fn torrent_is_removed(
    s: SessionView,
    k: int,
    has_dht: bool,
    now: u64,
    after: SessionView,
    told: Seq<SessionAction>,
    r: Result<SessionAnswer, SessionError>,
)
    requires
        ids_differ(s.torrents),
        0 <= k < s.torrents.len(),
        s.handled(
            SessionCommand::RemoveTorrent { id: s.torrents[k].id },
            has_dht,
            now,
            after,
            told,
            r,
        ),
    ensures
        after.torrents.len() == s.torrents.len() - 1,
        forall|i: int| 0 <= i < k ==> after.torrents[i] == s.torrents[i],
        forall|i: int| k <= i < after.torrents.len() ==> after.torrents[i] == s.torrents[i + 1],
        told == seq![
            SessionAction::Stop(s.torrents[k].id),
            SessionAction::Event(SessionEvent::TorrentRemoved(s.torrents[k].id)),
        ],
        r == Ok::<SessionAnswer, SessionError>(SessionAnswer::Done),
{
    let id = s.torrents[k].id;
    found_place(s.torrents, id, 0);
    let p = entry_position(s.torrents, id, 0)->0;
    if p < k {
        assert(s.torrents[p].id != s.torrents[k].id);
    }
}

/// A torrent that is not there cannot be removed, asked or told to connect, and nothing happens.
pub proof fn unknown_torrent_is_not_found(
    s: SessionView,
    id: TorrentId,
    addr: SocketAddr,
    has_dht: bool,
    now: u64,
    after: SessionView,
    told: Seq<SessionAction>,
    r: Result<SessionAnswer, SessionError>,
)
    requires
        forall|i: int| 0 <= i < s.torrents.len() ==> (#[trigger] s.torrents[i]).id != id,
        s.handled(SessionCommand::RemoveTorrent { id }, has_dht, now, after, told, r)
            || s.handled(SessionCommand::GetMetrics { id }, has_dht, now, after, told, r)
            || s.handled(SessionCommand::ConnectPeer { id, addr }, has_dht, now, after, told, r)
            || s.handled(SessionCommand::GetTorrentDetail { id }, has_dht, now, after, told, r)
            || s.handled(SessionCommand::GetPeerSnapshots { id }, has_dht, now, after, told, r)
            || s.handled(SessionCommand::GetTrackerStatuses { id }, has_dht, now, after, told, r),
    ensures
        after == s,
        told.len() == 0,
        r == Err::<SessionAnswer, SessionError>(SessionError::TorrentNotFound(id)),
{
    found_place(s.torrents, id, 0);
}

/// What is asked of a torrent that is there reaches that torrent, and changes nothing.
pub proof fn question_reaches_its_torrent(
    s: SessionView,
    k: int,
    addr: SocketAddr,
    has_dht: bool,
    now: u64,
    after: SessionView,
    told: Seq<SessionAction>,
    r: Result<SessionAnswer, SessionError>,
)
    requires
        0 <= k < s.torrents.len(),
    ensures
        ({
            let id = s.torrents[k].id;
            let passed = after == s && told.len() == 1 && r == Ok::<SessionAnswer, SessionError>(
                SessionAnswer::Forwarded(id),
            );
            &&& s.handled(SessionCommand::GetMetrics { id }, has_dht, now, after, told, r) ==> passed
                && told[0] == SessionAction::Ask(id, Question::Progress)
            &&& s.handled(SessionCommand::ConnectPeer { id, addr }, has_dht, now, after, told, r)
                ==> passed && told[0] == SessionAction::Connect(id, addr)
            &&& s.handled(SessionCommand::GetTorrentDetail { id }, has_dht, now, after, told, r)
                ==> passed && told[0] == SessionAction::Ask(id, Question::Detail)
            &&& s.handled(SessionCommand::GetPeerSnapshots { id }, has_dht, now, after, told, r)
                ==> passed && told[0] == SessionAction::Ask(id, Question::Peers)
            &&& s.handled(SessionCommand::GetTrackerStatuses { id }, has_dht, now, after, told, r)
                ==> passed && told[0] == SessionAction::Ask(id, Question::Trackers)
        }),
{
    found_place(s.torrents, s.torrents[k].id, 0);
}

proof fn stops_are_in_order(s: Seq<EntryView>, n: int, k: int)
    requires
        0 <= k < n <= s.len(),
    ensures
        stops(s, n).len() == n,
        stops(s, n)[k] == SessionAction::Stop(s[k].id),
    decreases n,
{
    if k < n - 1 {
        stops_are_in_order(s, n - 1, k);
    } else if n > 1 {
        stops_are_in_order(s, n - 1, 0);
    } else {
        assert(stops(s, 0).len() == 0);
    }
}

/// At the end each torrent is stopped, and the DHT where there is one, and no torrent is left.
pub proof fn shutdown_stops_everything(
    s: SessionView,
    k: int,
    has_dht: bool,
    now: u64,
    after: SessionView,
    told: Seq<SessionAction>,
    r: Result<SessionAnswer, SessionError>,
)
    requires
        0 <= k < s.torrents.len(),
        s.handled(SessionCommand::Shutdown, has_dht, now, after, told, r),
    ensures
        after.torrents.len() == 0,
        told.len() == s.torrents.len() + if has_dht {
            1int
        } else {
            0
        },
        told[k] == SessionAction::Stop(s.torrents[k].id),
        has_dht ==> told.last() == SessionAction::StopDht,
        r == Ok::<SessionAnswer, SessionError>(SessionAnswer::Done),
{
    stops_are_in_order(s.torrents, s.torrents.len() as int, k);
}

/// No command changes how the session is set up or who it is.
pub proof fn session_stays_itself(
    s: SessionView,
    c: SessionCommand,
    has_dht: bool,
    now: u64,
    after: SessionView,
    told: Seq<SessionAction>,
    r: Result<SessionAnswer, SessionError>,
)
    requires
        s.handled(c, has_dht, now, after, told, r),
    ensures
        after.config == s.config && after.peer_id == s.peer_id && after.client_id == s.client_id,
        r is Err ==> told.len() == 0 && after.torrents == s.torrents,
{
    if c is RemoveTorrent {
        found_place(s.torrents, c->RemoveTorrent_id, 0);
    }
}

/// What is said to a peer: the length of the protocol's name and the name, the bits that stand for
/// the extensions and the DHT, the hash of the torrent and the peer id of this client.
pub proof fn greeting_says_who_and_what(peer_id: PeerID, hash: InfoHash)
    ensures
        ({
            let g = greeting(peer_id, hash);
            &&& g.len() == 68
            &&& g[0] == 19
            &&& g.subrange(1, 20) == encode_utf8("BitTorrent protocol"@)
            &&& g[25] == 16 && g[27] == 1
            &&& forall|i: int| 20 <= i < 28 && i != 25 && i != 27 ==> g[i] == 0
            &&& g.subrange(28, 48) == hash@
            &&& g.subrange(48, 68) == peer_id@
        }),
{
    reveal_strlit("BitTorrent protocol");
    is_ascii_chars_encode_utf8("BitTorrent protocol"@);
    let g = greeting(peer_id, hash);
    assert(g.subrange(1, 20) =~= encode_utf8("BitTorrent protocol"@));
    assert(g.subrange(28, 48) =~= hash@);
    assert(g.subrange(48, 68) =~= peer_id@);
}

/// A session takes up with a client that greets it about a torrent that is there, with none that
/// greets it about another, and not with itself.
pub proof fn greeting_is_taken_up(s: SessionView, peer_id: PeerID, hash: InfoHash)
    ensures
        ({
            let known = exists|k: int|
                0 <= k < s.torrents.len() && #[trigger] s.torrents[k].id@ == hash@;
            let why = s.refusal(greeting(peer_id, hash));
            &&& known && peer_id@ != s.peer_id@ ==> why is None
            &&& known && peer_id@ == s.peer_id@ ==> why == Some(Refusal::OwnConnection)
            &&& !known ==> why == Some(Refusal::UnknownTorrent)
        }),
{
    greeting_says_who_and_what(peer_id, hash);
}

/// What begins otherwise than a greeting does is no handshake.
pub proof fn other_bytes_are_refused(s: SessionView, buf: Seq<u8>)
    requires
        buf.len() != 68 || buf[0] != 19 || buf.subrange(1, 20) != encode_utf8("BitTorrent protocol"@),
    ensures
        s.refusal(buf) == Some(Refusal::NoHandshake),
{
}

/// Who waits for a torrent is done when that torrent is complete, fails when it is removed, and
/// hears nothing of what happens to others.
pub proof fn waiting_ends_with_its_torrent(id: TorrentId, other: TorrentId, e: SessionEvent)
    ensures
        awaited(SessionEvent::TorrentCompleted(id), id) == Some(Ok::<(), SessionError>(())),
        awaited(SessionEvent::TorrentRemoved(id), id) == Some(
            Err::<(), SessionError>(SessionError::TorrentNotFound(id)),
        ),
        other != id ==> awaited(SessionEvent::TorrentCompleted(other), id) is None && awaited(
            SessionEvent::TorrentRemoved(other),
            id,
        ) is None,
        !(e is TorrentCompleted) && !(e is TorrentRemoved) ==> awaited(e, id) is None,
{
}

/// A command that brings a torrent file is taken where the size of the torrent can be counted and
/// is none below zero, and any other always.
pub proof fn commands_fit_where_sizes_do(c: SessionCommand, t: TorrentInfo, dir: FilePath)
    ensures
        c is AddMagnet || c is RemoveTorrent || c is GetMetrics || c is Shutdown || c is ConnectPeer
            || c is GetTorrentDetail || c is GetPeerSnapshots || c is GetTrackerStatuses
            ==> command_fits(c),
        ({
            let fits = t.info.says().mode.size_fits() && t.info.says().mode.total() >= 0;
            &&& command_fits(SessionCommand::AddTorrent { info: t }) == fits
            &&& command_fits(SessionCommand::SeedFile { info: t, content_dir: dir }) == fits
            &&& command_fits(SessionCommand::SeedTorrentUnchecked { info: t }) == fits
        }),
{
}

} // verus!
