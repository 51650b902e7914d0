//! Session management: which torrents there are, and what commands make of them.

use crate::events::session::SessionEvent;
use crate::magnet::Magnet;
use crate::metadata::parse_message;
use crate::metainfo::{TorrentInfo, TorrentParseError};
use crate::metrics::progress::TorrentProgress;
use crate::net::SocketAddr;
use crate::path::{pushed, FilePath};
use crate::protocol::{is_handshake, Handshake};
use crate::session_config::SessionConfig;
use crate::text::{joined, opt_text};
use crate::torrent::control::{first_progress, known_from, made_of, shown_first, Torrent};
use crate::torrent::{TorrentContext, TorrentSource};
use crate::types::{hex_text, same_bytes, InfoHash, PeerID};
use std::sync::Arc;
use vstd::prelude::*;
use vstd::string::*;

verus! {

/// What a session calls a torrent
pub type TorrentId = InfoHash;

/// Errors that can occur in session operations.
#[derive(Debug)]
pub enum SessionError {
    Magnet(String),
    TorrentParse(TorrentParseError),
    SessionClosed,
    TorrentNotFound(TorrentId),
    TorrentAlreadyExists(TorrentId),
    InvalidMagnet,
    NoPeerDiscovery,
    MetadataPending(TorrentId),
}

impl SessionError {
    /// What the error reads like.
    pub open spec fn text(&self) -> Seq<char> {
        match self {
            SessionError::Magnet(m) => "Magnet URI error: "@ + m@,
            SessionError::TorrentParse(e) => "Torrent parsing error: "@ + parse_message(e.says()),
            SessionError::SessionClosed => "Session closed"@,
            SessionError::TorrentNotFound(id) => "Torrent not found: "@ + hex_text(id@),
            SessionError::TorrentAlreadyExists(id) => "Torrent already exists: "@ + hex_text(id@),
            SessionError::InvalidMagnet => "Invalid magnet URI: missing info hash"@,
            SessionError::NoPeerDiscovery =>
                "No peer discovery available: no trackers and DHT disabled"@,
            SessionError::MetadataPending(id) => "Metadata not yet available for torrent: "@
                + hex_text(id@) + ". Waiting for peer connection..."@,
        }
    }

    /// What the error reads like
    pub fn message(&self) -> (r: String)
        ensures
            r@ == self.text(),
    {
        match self {
            SessionError::Magnet(m) => joined("Magnet URI error: ", m.as_str()),
            SessionError::TorrentParse(e) => joined(
                "Torrent parsing error: ",
                e.message().as_str(),
            ),
            SessionError::SessionClosed => String::from_str("Session closed"),
            SessionError::TorrentNotFound(id) => joined(
                "Torrent not found: ",
                id.to_hex().as_str(),
            ),
            SessionError::TorrentAlreadyExists(id) => joined(
                "Torrent already exists: ",
                id.to_hex().as_str(),
            ),
            SessionError::InvalidMagnet => String::from_str(
                "Invalid magnet URI: missing info hash",
            ),
            SessionError::NoPeerDiscovery => String::from_str(
                "No peer discovery available: no trackers and DHT disabled",
            ),
            SessionError::MetadataPending(id) => joined(
                joined("Metadata not yet available for torrent: ", id.to_hex().as_str()).as_str(),
                ". Waiting for peer connection...",
            ),
        }
    }
}

/// What a session is asked to do.
#[derive(Debug)]
pub enum SessionCommand {
    AddTorrent { info: TorrentInfo },
    AddMagnet { magnet: Magnet },
    RemoveTorrent { id: TorrentId },
    /// Seed content that was held against the torrent's hashes and is right
    SeedFile { info: TorrentInfo, content_dir: FilePath },
    /// Seed a torrent without verifying content on disk
    SeedTorrentUnchecked { info: TorrentInfo },
    GetMetrics { id: TorrentId },
    Shutdown,
    ConnectPeer { id: TorrentId, addr: SocketAddr },
    GetTorrentDetail { id: TorrentId },
    GetPeerSnapshots { id: TorrentId },
    GetTrackerStatuses { id: TorrentId },
}

/// What a session asks to be done.
#[derive(Debug)]
pub enum SessionAction {
    /// Run a torrent
    Run(TorrentId, Torrent, TorrentProgress),
    /// Let a torrent come to its end
    Stop(TorrentId),
    /// Have a torrent connect to a peer
    Connect(TorrentId, SocketAddr),
    /// Have a torrent answer
    Ask(TorrentId, Question),
    /// Shut the DHT down
    StopDht,
    /// Tell those who listen what has happened
    Event(SessionEvent),
}

/// What a torrent is asked on behalf of somebody else.
#[derive(Debug, Clone, Copy, PartialEq, Eq, Structural)]
pub enum Question {
    Progress,
    Detail,
    Peers,
    Trackers,
}

/// What a session answers.
#[derive(Debug, Clone, Copy)]
pub enum SessionAnswer {
    /// The torrent is there now
    Added(TorrentId),
    /// It is done
    Done,
    /// The torrent will answer
    Forwarded(TorrentId),
}

/// What is kept of each active torrent.
#[derive(Debug)]
pub struct TorrentEntry {
    pub id: TorrentId,
    /// Display name of the torrent
    pub name: String,
    /// Total size in bytes (0 if metadata not yet fetched)
    pub size_bytes: u64,
    /// Torrent metadata (None for magnet links until metadata is fetched)
    pub metainfo: Option<Arc<TorrentInfo>>,
}

/// What is kept of an active torrent.
#[verifier::ext_equal]
pub struct EntryView {
    pub id: TorrentId,
    pub name: Seq<char>,
    pub size: u64,
    pub metainfo: Option<TorrentInfo>,
}

impl View for TorrentEntry {
    type V = EntryView;

    open spec fn view(&self) -> EntryView {
        EntryView {
            id: self.id,
            name: self.name@,
            size: self.size_bytes,
            metainfo: match self.metainfo {
                Some(t) => Some(*t),
                None => None,
            },
        }
    }
}

/// What is kept of active torrents.
pub open spec fn entry_views(s: Seq<TorrentEntry>) -> Seq<EntryView> {
    Seq::new(s.len(), |i: int| s[i]@)
}

/// The position at or behind `i` of a torrent.
pub open spec fn entry_position(s: Seq<EntryView>, id: TorrentId, i: int) -> Option<int>
    decreases s.len() - i,
{
    if i < 0 || i >= s.len() {
        None
    } else if s[i].id == id {
        Some(i)
    } else {
        entry_position(s, id, i + 1)
    }
}

/// Whether no torrent is there twice.
pub open spec fn ids_differ(s: Seq<EntryView>) -> bool {
    forall|i: int, j: int| 0 <= i < j < s.len() ==> (#[trigger] s[i]).id != (#[trigger] s[j]).id
}

/// Why a connection is refused.
#[derive(Debug, Clone, Copy, PartialEq, Eq, Structural)]
pub enum Refusal {
    /// What came is no handshake
    NoHandshake,
    /// There is no such torrent
    UnknownTorrent,
    /// It is a connection with ourselves
    OwnConnection,
}

/// A connection that is accepted: what is said to the peer, and what the torrent learns of it.
#[derive(Debug)]
pub struct Acceptance {
    pub reply: Vec<u8>,
    pub info_hash: InfoHash,
    pub peer_id: PeerID,
    pub supports_ext: bool,
    pub dht_enabled: bool,
}

/// How the DHT is set up.
#[derive(Debug)]
pub struct DhtConfig {
    pub id_file_path: FilePath,
    pub state_file_path: FilePath,
    pub port: u16,
}

/// The torrents of a session.
#[derive(Debug)]
pub struct SessionManager {
    config: SessionConfig,
    peer_id: PeerID,
    client_id: PeerID,
    sessions: Vec<TorrentEntry>,
}

/// What a session knows.
#[verifier::ext_equal]
pub struct SessionView {
    pub config: SessionConfig,
    pub peer_id: PeerID,
    pub client_id: PeerID,
    pub torrents: Seq<EntryView>,
}

impl View for SessionManager {
    type V = SessionView;

    closed spec fn view(&self) -> SessionView {
        SessionView {
            config: self.config,
            peer_id: self.peer_id,
            client_id: self.client_id,
            torrents: entry_views(self.sessions@),
        }
    }
}

/// The torrent that a source is of.
pub open spec fn source_id(source: TorrentSource) -> Option<TorrentId> {
    match source {
        TorrentSource::Torrent(t) => Some(t.info_hash),
        TorrentSource::Magnet(m) => m.hash,
        TorrentSource::Seed { torrent_info: t, .. } => Some(t.info_hash),
    }
}

/// What is kept of a torrent that is made of a source.
pub open spec fn entry_of(source: TorrentSource) -> EntryView {
    match source {
        TorrentSource::Torrent(t) => EntryView {
            id: t.info_hash,
            name: t.info.says().mode.name(),
            size: t.info.says().mode.total() as u64,
            metainfo: Some(t),
        },
        TorrentSource::Magnet(m) => EntryView {
            id: m.hash->0,
            name: match opt_text(m.display_name) {
                Some(n) => n,
                None => hex_text(m.hash->0@),
            },
            size: 0,
            metainfo: None,
        },
        TorrentSource::Seed { torrent_info: t, .. } => EntryView {
            id: t.info_hash,
            name: t.info.says().mode.name(),
            size: t.info.says().mode.total() as u64,
            metainfo: Some(t),
        },
    }
}

/// Whether the size of a torrent can be counted and is none below zero.
pub open spec fn size_known(t: TorrentInfo) -> bool {
    t.info.says().mode.size_fits() && t.info.says().mode.total() >= 0
}

/// Whether a source can be taken in.
pub open spec fn source_known(source: TorrentSource) -> bool {
    match source {
        TorrentSource::Torrent(t) => size_known(t),
        TorrentSource::Magnet(_) => true,
        TorrentSource::Seed { torrent_info: t, .. } => size_known(t),
    }
}

impl SessionView {
    /// Whether there is a torrent.
    pub open spec fn has(self, id: TorrentId) -> bool {
        entry_position(self.torrents, id, 0) is Some
    }

    /// What stands against taking in a torrent: it has no hash, it is there already, or there is
    /// no way to find peers that could tell its metadata.
    pub open spec fn objection(self, source: TorrentSource, has_dht: bool) -> Option<SessionError> {
        match source_id(source) {
            None => Some(SessionError::InvalidMagnet),
            Some(id) => if self.has(id) {
                Some(SessionError::TorrentAlreadyExists(id))
            } else {
                match source {
                    TorrentSource::Magnet(m) => if m.trackers.len() == 0 && !has_dht {
                        Some(SessionError::NoPeerDiscovery)
                    } else {
                        None
                    },
                    _ => None,
                }
            },
        }
    }

    /// What a torrent of this session is told of it.
    pub open spec fn context(self, ctx: TorrentContext, has_dht: bool) -> bool {
        &&& ctx.peer_id == self.peer_id
        &&& ctx.client_id == self.client_id
        &&& ctx.torrents_dir@ == self.config.torrents_dir@
        &&& ctx.unchoke_slots == self.config.unchoke_slots
        &&& ctx.has_dht == has_dht
    }

    /// Whether an action runs a torrent that is made of a source, with what is first shown of it.
    pub open spec fn runs(
        self,
        a: SessionAction,
        source: TorrentSource,
        has_dht: bool,
        now: u64,
    ) -> bool {
        &&& a matches SessionAction::Run(id, t, p) && Some(id) == source_id(source) && t.wf()
            && known_from(source, t@.metadata) && self.starts(t, source, has_dht, now)
            && first_progress(p, t@, shown_first(source))
    }

    /// Whether a torrent is in the state in which one that is made of a source begins.
    pub open spec fn starts(self, t: Torrent, source: TorrentSource, has_dht: bool, now: u64) -> bool {
        exists|ctx: TorrentContext| #[trigger]
            self.context(ctx, has_dht) && t@ == made_of(ctx, source, t@.metadata, now)
    }

    /// Whether a torrent is taken in, or an objection is given.
    pub open spec fn taken_in(
        self,
        source: TorrentSource,
        has_dht: bool,
        now: u64,
        after: SessionView,
        told: Seq<SessionAction>,
        r: Result<SessionAnswer, SessionError>,
    ) -> bool {
        match self.objection(source, has_dht) {
            Some(e) => after == self && told.len() == 0 && r == Err::<SessionAnswer, SessionError>(e),
            None => {
                let id = source_id(source)->0;
                &&& after == (SessionView { torrents: self.torrents.push(entry_of(source)), ..self })
                &&& told.len() == 2
                &&& self.runs(told[0], source, has_dht, now)
                &&& told[1] == SessionAction::Event(SessionEvent::TorrentAdded(id))
                &&& r == Ok::<SessionAnswer, SessionError>(SessionAnswer::Added(id))
            },
        }
    }

    /// Whether a torrent is asked, or is not there to be asked.
    pub open spec fn passed_on(
        self,
        id: TorrentId,
        a: SessionAction,
        after: SessionView,
        told: Seq<SessionAction>,
        r: Result<SessionAnswer, SessionError>,
    ) -> bool {
        &&& after == self
        &&& if self.has(id) {
            told == seq![a] && r == Ok::<SessionAnswer, SessionError>(SessionAnswer::Forwarded(id))
        } else {
            told.len() == 0 && r == Err::<SessionAnswer, SessionError>(
                SessionError::TorrentNotFound(id),
            )
        }
    }

    /// The torrents but one.
    pub open spec fn without(self, id: TorrentId) -> SessionView {
        match entry_position(self.torrents, id, 0) {
            Some(k) => SessionView { torrents: self.torrents.remove(k), ..self },
            None => self,
        }
    }

    /// Whether a torrent is removed, or is not there to be removed.
    pub open spec fn removed(
        self,
        id: TorrentId,
        after: SessionView,
        told: Seq<SessionAction>,
        r: Result<SessionAnswer, SessionError>,
    ) -> bool {
        &&& after == self.without(id)
        &&& if self.has(id) {
            &&& told == seq![
                SessionAction::Stop(id),
                SessionAction::Event(SessionEvent::TorrentRemoved(id)),
            ]
            &&& r == Ok::<SessionAnswer, SessionError>(SessionAnswer::Done)
        } else {
            &&& told.len() == 0
            &&& r == Err::<SessionAnswer, SessionError>(SessionError::TorrentNotFound(id))
        }
    }

    /// Whether a command leads to the given state, actions and answer.
    pub open spec fn handled(
        self,
        cmd: SessionCommand,
        has_dht: bool,
        now: u64,
        after: SessionView,
        told: Seq<SessionAction>,
        r: Result<SessionAnswer, SessionError>,
    ) -> bool {
        match cmd {
            SessionCommand::AddTorrent { info } => self.taken_in(
                TorrentSource::Torrent(info),
                has_dht,
                now,
                after,
                told,
                r,
            ),
            SessionCommand::AddMagnet { magnet } => self.taken_in(
                TorrentSource::Magnet(magnet),
                has_dht,
                now,
                after,
                told,
                r,
            ),
            SessionCommand::SeedFile { info, content_dir } => self.taken_in(
                TorrentSource::Seed { torrent_info: info, content_dir },
                has_dht,
                now,
                after,
                told,
                r,
            ),
            SessionCommand::SeedTorrentUnchecked { info } => self.seeded_unchecked(
                info,
                has_dht,
                now,
                after,
                told,
                r,
            ),
            SessionCommand::RemoveTorrent { id } => self.removed(id, after, told, r),
            SessionCommand::GetMetrics { id } => self.passed_on(
                id,
                SessionAction::Ask(id, Question::Progress),
                after,
                told,
                r,
            ),
            SessionCommand::Shutdown => {
                &&& after == (SessionView { torrents: Seq::empty(), ..self })
                &&& told == stops(self.torrents, self.torrents.len() as int) + if has_dht {
                    seq![SessionAction::StopDht]
                } else {
                    Seq::empty()
                }
                &&& r == Ok::<SessionAnswer, SessionError>(SessionAnswer::Done)
            },
            SessionCommand::ConnectPeer { id, addr } => self.passed_on(
                id,
                SessionAction::Connect(id, addr),
                after,
                told,
                r,
            ),
            SessionCommand::GetTorrentDetail { id } => self.passed_on(
                id,
                SessionAction::Ask(id, Question::Detail),
                after,
                told,
                r,
            ),
            SessionCommand::GetPeerSnapshots { id } => self.passed_on(
                id,
                SessionAction::Ask(id, Question::Peers),
                after,
                told,
                r,
            ),
            SessionCommand::GetTrackerStatuses { id } => self.passed_on(
                id,
                SessionAction::Ask(id, Question::Trackers),
                after,
                told,
                r,
            ),
        }
    }

    /// Whether a torrent is seeded with no directory named.
    pub open spec fn seeded_unchecked(
        self,
        info: TorrentInfo,
        has_dht: bool,
        now: u64,
        after: SessionView,
        told: Seq<SessionAction>,
        r: Result<SessionAnswer, SessionError>,
    ) -> bool {
        exists|content_dir: FilePath|
            content_dir@.len() == 0 && #[trigger] self.taken_in(
                TorrentSource::Seed { torrent_info: info, content_dir },
                has_dht,
                now,
                after,
                told,
                r,
            )
    }
}

/// Whether the sizes that a command speaks of can be counted.
pub open spec fn command_fits(cmd: SessionCommand) -> bool {
    match cmd {
        SessionCommand::AddTorrent { info } => size_known(info),
        SessionCommand::SeedFile { info, .. } => size_known(info),
        SessionCommand::SeedTorrentUnchecked { info } => size_known(info),
        _ => true,
    }
}

/// The actions that let the first `n` torrents come to their end.
pub open spec fn stops(s: Seq<EntryView>, n: int) -> Seq<SessionAction>
    decreases n,
{
    if n <= 0 {
        Seq::empty()
    } else {
        stops(s, n - 1).push(SessionAction::Stop(s[n - 1].id))
    }
}

proof fn absent_entry(s: Seq<EntryView>, id: TorrentId, i: int)
    requires
        0 <= i,
        entry_position(s, id, i) is None,
    ensures
        forall|j: int| i <= j < s.len() ==> (#[trigger] s[j]).id != id,
    decreases s.len() - i,
{
    if i < s.len() {
        absent_entry(s, id, i + 1);
    }
}

proof fn present_entry(s: Seq<EntryView>, id: TorrentId, i: int)
    requires
        0 <= i,
        entry_position(s, id, i) is Some,
    ensures
        ({
            let k = entry_position(s, id, i)->0;
            i <= k < s.len() && s[k].id == id
        }),
    decreases s.len() - i,
{
    if i < s.len() && s[i].id != id {
        present_entry(s, id, i + 1);
    }
}

proof fn known_by_its_bytes(s: SessionView, id: TorrentId)
    ensures
        s.has(id) == s.knows(id@),
{
    if s.has(id) {
        present_entry(s.torrents, id, 0);
    } else {
        absent_entry(s.torrents, id, 0);
        assert forall|i: int| 0 <= i < s.torrents.len() implies (#[trigger] s.torrents[i]).id@
            != id@ by {
            if s.torrents[i].id@ == id@ {
                assert(s.torrents[i].id.0 =~= id.0);
            }
        }
    }
}

impl SessionManager {
    /// No torrent is there twice.
    pub open spec fn wf(&self) -> bool {
        ids_differ(self@.torrents)
    }

    /// A session without torrents; its peer id is the one of the configuration, or else the
    /// client's
    pub fn new(config: SessionConfig, client_id: PeerID) -> (r: Self)
        ensures
            r.wf(),
            r@ == (SessionView {
                config,
                peer_id: match config.peer_id {
                    Some(id) => id,
                    None => client_id,
                },
                client_id,
                torrents: Seq::empty(),
            }),
    {
        let peer_id = match config.peer_id {
            Some(id) => id,
            None => client_id,
        };
        let r = SessionManager { config, peer_id, client_id, sessions: Vec::new() };
        assert(r@.torrents =~= Seq::<EntryView>::empty());
        r
    }

    fn find(&self, id: &TorrentId) -> (r: Option<usize>)
        ensures
            match r {
                Some(k) => k < self.sessions.len() && entry_position(self@.torrents, *id, 0) == Some(
                    k as int,
                ),
                None => entry_position(self@.torrents, *id, 0) is None,
            },
    {
        let ghost s = self@.torrents;
        let mut i: usize = 0;
        while i < self.sessions.len()
            invariant
                i <= self.sessions.len(),
                s == self@.torrents,
                entry_position(s, *id, 0) == entry_position(s, *id, i as int),
            decreases self.sessions.len() - i,
        {
            assert(s[i as int].id == self.sessions[i as int].id);
            if self.sessions[i].id.same(id) {
                return Some(i);
            }
            i = i + 1;
        }
        None
    }

    /// Whether there is a torrent
    pub fn contains(&self, id: &TorrentId) -> (r: bool)
        ensures
            r == self@.has(*id),
    {
        self.find(id).is_some()
    }

    fn context(&self, has_dht: bool) -> (r: TorrentContext)
        ensures
            self@.context(r, has_dht),
    {
        TorrentContext {
            peer_id: self.peer_id,
            client_id: self.client_id,
            torrents_dir: FilePath::from_text(self.config.torrents_dir.as_str()),
            unchoke_slots: self.config.unchoke_slots as usize,
            has_dht,
        }
    }

    /// A torrent is taken in, unless something stands against it
    fn take_in(&mut self, source: TorrentSource, has_dht: bool, now: u64) -> (r: (
        Vec<SessionAction>,
        Result<SessionAnswer, SessionError>,
    ))
        requires
            old(self).wf(),
            source_known(source),
        ensures
            final(self).wf(),
            old(self)@.taken_in(source, has_dht, now, final(self)@, r.0@, r.1),
    {
        let ghost before = self@;
        let (id, name, size_bytes) = match &source {
            TorrentSource::Torrent(t) => (
                t.info_hash,
                String::from_str(t.info.mode.name()),
                t.info.total_size() as u64,
            ),
            TorrentSource::Seed { torrent_info: t, .. } => (
                t.info_hash,
                String::from_str(t.info.mode.name()),
                t.info.total_size() as u64,
            ),
            TorrentSource::Magnet(m) => match m.info_hash() {
                None => {
                    return (Vec::new(), Err(SessionError::InvalidMagnet));
                },
                Some(h) => (
                    h,
                    match &m.display_name {
                        Some(n) => n.clone(),
                        None => h.to_hex(),
                    },
                    0u64,
                ),
            },
        };
        if self.contains(&id) {
            return (Vec::new(), Err(SessionError::TorrentAlreadyExists(id)));
        }
        let lost: bool = match &source {
            TorrentSource::Magnet(m) => m.trackers.len() == 0 && !has_dht,
            _ => false,
        };
        if lost {
            return (Vec::new(), Err(SessionError::NoPeerDiscovery));
        }
        let ctx = self.context(has_dht);
        let (torrent, progress) = Torrent::new(ctx, source, now);
        let metainfo = torrent.torrent_info();
        let entry = TorrentEntry { id, name, size_bytes, metainfo };
        proof {
            absent_entry(before.torrents, id, 0);
            assert(entry@ =~= entry_of(source));
            assert(before.context(ctx, has_dht));
            assert(before.starts(torrent, source, has_dht, now));
        }
        self.sessions.push(entry);
        assert(self@ =~= (SessionView {
            torrents: before.torrents.push(entry_of(source)),
            ..before
        }));
        let mut r: Vec<SessionAction> = Vec::new();
        r.push(SessionAction::Run(id, torrent, progress));
        r.push(SessionAction::Event(SessionEvent::TorrentAdded(id)));
        assert(before.runs(r@[0], source, has_dht, now));
        (r, Ok(SessionAnswer::Added(id)))
    }

    /// A torrent is asked, where it is there
    fn pass_on(&self, id: TorrentId, action: SessionAction) -> (r: (
        Vec<SessionAction>,
        Result<SessionAnswer, SessionError>,
    ))
        ensures
            self@.passed_on(id, action, self@, r.0@, r.1),
    {
        let mut told: Vec<SessionAction> = Vec::new();
        if self.contains(&id) {
            told.push(action);
            assert(told@ =~= seq![action]);
            (told, Ok(SessionAnswer::Forwarded(id)))
        } else {
            (told, Err(SessionError::TorrentNotFound(id)))
        }
    }

    fn handle_remove_torrent(&mut self, id: TorrentId) -> (r: (
        Vec<SessionAction>,
        Result<SessionAnswer, SessionError>,
    ))
        requires
            old(self).wf(),
        ensures
            final(self).wf(),
            old(self)@.removed(id, final(self)@, r.0@, r.1),
    {
        let ghost before = self@;
        let mut told: Vec<SessionAction> = Vec::new();
        match self.find(&id) {
            Some(k) => {
                let _ = self.sessions.remove(k);
                assert(self@ =~= before.without(id));
                told.push(SessionAction::Stop(id));
                told.push(SessionAction::Event(SessionEvent::TorrentRemoved(id)));
                assert(told@ =~= seq![
                    SessionAction::Stop(id),
                    SessionAction::Event(SessionEvent::TorrentRemoved(id)),
                ]);
                (told, Ok(SessionAnswer::Done))
            },
            None => (told, Err(SessionError::TorrentNotFound(id))),
        }
    }

    fn handle_shutdown(&mut self, has_dht: bool) -> (r: Vec<SessionAction>)
        requires
            old(self).wf(),
        ensures
            final(self).wf(),
            final(self)@ == (SessionView { torrents: Seq::empty(), ..old(self)@ }),
            r@ == stops(old(self)@.torrents, old(self)@.torrents.len() as int) + if has_dht {
                seq![SessionAction::StopDht]
            } else {
                Seq::empty()
            },
    {
        let ghost s = self@.torrents;
        let mut told: Vec<SessionAction> = Vec::new();
        let mut i: usize = 0;
        while i < self.sessions.len()
            invariant
                i <= self.sessions.len(),
                s == self@.torrents,
                *self == *old(self),
                told@ == stops(s, i as int),
            decreases self.sessions.len() - i,
        {
            assert(s[i as int].id == self.sessions[i as int].id);
            told.push(SessionAction::Stop(self.sessions[i].id));
            i = i + 1;
        }
        if has_dht {
            told.push(SessionAction::StopDht);
        }
        self.sessions = Vec::new();
        assert(self@ =~= (SessionView { torrents: Seq::empty(), ..old(self)@ }));
        assert(told@ =~= stops(s, s.len() as int) + if has_dht {
            seq![SessionAction::StopDht]
        } else {
            Seq::empty()
        });
        told
    }

    /// Whether the sizes that a command speaks of can be counted
    pub fn accepts(cmd: &SessionCommand) -> (r: bool)
        ensures
            r == command_fits(*cmd),
    {
        match cmd {
            SessionCommand::AddTorrent { info } => size_is_known(info),
            SessionCommand::SeedFile { info, .. } => size_is_known(info),
            SessionCommand::SeedTorrentUnchecked { info } => size_is_known(info),
            _ => true,
        }
    }

    /// A command has come; gives what is to be done and the answer
    pub fn handle_command(&mut self, cmd: SessionCommand, has_dht: bool, now: u64) -> (r: (
        Vec<SessionAction>,
        Result<SessionAnswer, SessionError>,
    ))
        requires
            old(self).wf(),
            command_fits(cmd),
        ensures
            final(self).wf(),
            old(self)@.handled(cmd, has_dht, now, final(self)@, r.0@, r.1),
    {
        match cmd {
            SessionCommand::AddTorrent { info } => self.take_in(
                TorrentSource::Torrent(info),
                has_dht,
                now,
            ),
            SessionCommand::AddMagnet { magnet } => self.take_in(
                TorrentSource::Magnet(magnet),
                has_dht,
                now,
            ),
            SessionCommand::SeedFile { info, content_dir } => self.take_in(
                TorrentSource::Seed { torrent_info: info, content_dir },
                has_dht,
                now,
            ),
            SessionCommand::SeedTorrentUnchecked { info } => {
                let content_dir = FilePath::new();
                let r = self.take_in(
                    TorrentSource::Seed { torrent_info: info, content_dir },
                    has_dht,
                    now,
                );
                assert(content_dir@.len() == 0 && old(self)@.taken_in(
                    TorrentSource::Seed { torrent_info: info, content_dir },
                    has_dht,
                    now,
                    self@,
                    r.0@,
                    r.1,
                ));
                r
            },
            SessionCommand::RemoveTorrent { id } => self.handle_remove_torrent(id),
            SessionCommand::GetMetrics { id } => self.pass_on(
                id,
                SessionAction::Ask(id, Question::Progress),
            ),
            SessionCommand::Shutdown => {
                (self.handle_shutdown(has_dht), Ok(SessionAnswer::Done))
            },
            SessionCommand::ConnectPeer { id, addr } => self.pass_on(
                id,
                SessionAction::Connect(id, addr),
            ),
            SessionCommand::GetTorrentDetail { id } => self.pass_on(
                id,
                SessionAction::Ask(id, Question::Detail),
            ),
            SessionCommand::GetPeerSnapshots { id } => self.pass_on(
                id,
                SessionAction::Ask(id, Question::Peers),
            ),
            SessionCommand::GetTrackerStatuses { id } => self.pass_on(
                id,
                SessionAction::Ask(id, Question::Trackers),
            ),
        }
    }

    /// A peer has connected and sent the first bytes; gives what is said to it and what its torrent
    /// learns, or why the connection is refused
    pub fn accept(&self, buf: &[u8]) -> (r: Result<Acceptance, Refusal>)
        ensures
            match r {
                Err(e) => self@.refusal(buf@) == Some(e),
                Ok(a) => {
                    &&& self@.refusal(buf@) is None
                    &&& a.info_hash@ == buf@.subrange(28, 48)
                    &&& a.peer_id@ == buf@.subrange(48, 68)
                    &&& a.supports_ext == (buf@[25] & 16 != 0)
                    &&& a.dht_enabled == (buf@[27] & 1 != 0)
                    &&& a.reply@ == greeting(self@.peer_id, a.info_hash)
                },
            },
    {
        let remote = match Handshake::from_bytes(buf) {
            Some(h) => h,
            None => {
                return Err(Refusal::NoHandshake);
            },
        };
        proof {
            known_by_its_bytes(self@, remote.info_hash);
        }
        if !self.contains(&remote.info_hash) {
            return Err(Refusal::UnknownTorrent);
        }
        if same_bytes(remote.peer_id.as_slice(), self.peer_id.as_slice()) {
            return Err(Refusal::OwnConnection);
        }
        let handshake = Handshake::new(self.peer_id, remote.info_hash);
        proof {
            assert(remote.reserved@[5] == buf@[25]);
            assert(remote.reserved@[7] == buf@[27]);
        }
        Ok(
            Acceptance {
                reply: handshake.to_bytes(),
                info_hash: remote.info_hash,
                peer_id: remote.peer_id,
                supports_ext: remote.support_extended_message(),
                dht_enabled: remote.support_dht(),
            },
        )
    }

    /// How the DHT is set up, where it is wanted
    pub fn dht_config(&self) -> (r: Option<DhtConfig>)
        ensures
            match r {
                None => !self@.config.enable_dht,
                Some(d) => {
                    &&& self@.config.enable_dht
                    &&& d.id_file_path@ == pushed(self@.config.config_dir@, "node.id"@)
                    &&& d.state_file_path@ == pushed(self@.config.config_dir@, "dht_state.dat"@)
                    &&& d.port == self@.config.listen_interface.port
                },
            },
    {
        if !self.config.enable_dht {
            return None;
        }
        Some(
            DhtConfig {
                id_file_path: self.config.config_dir.join("node.id"),
                state_file_path: self.config.config_dir.join("dht_state.dat"),
                port: self.config.listen_addr().port,
            },
        )
    }
}

/// Whether the size of a torrent can be counted and is none below zero
fn size_is_known(t: &TorrentInfo) -> (r: bool)
    ensures
        r == size_known(*t),
{
    t.info.mode.size_fits() && t.info.total_size() >= 0
}

/// What this client says to a peer.
pub open spec fn greeting(peer_id: PeerID, info_hash: InfoHash) -> Seq<u8> {
    seq![19u8] + vstd::utf8::encode_utf8("BitTorrent protocol"@) + seq![
        0u8,
        0,
        0,
        0,
        0,
        16,
        0,
        1,
    ] + info_hash@ + peer_id@
}

impl SessionView {
    /// Whether there is a torrent with a hash of these bytes.
    pub open spec fn knows(self, hash: Seq<u8>) -> bool {
        exists|i: int| 0 <= i < self.torrents.len() && (#[trigger] self.torrents[i]).id@ == hash
    }

    /// Why a connection that begins with these bytes is refused.
    pub open spec fn refusal(self, buf: Seq<u8>) -> Option<Refusal> {
        if !is_handshake(buf) {
            Some(Refusal::NoHandshake)
        } else if !self.knows(buf.subrange(28, 48)) {
            Some(Refusal::UnknownTorrent)
        } else if buf.subrange(48, 68) == self.peer_id@ {
            Some(Refusal::OwnConnection)
        } else {
            None
        }
    }
}

/// What an event means for somebody who waits for a torrent to be complete: the wait is over, the
/// torrent will never be complete, or nothing.
pub open spec fn awaited(e: SessionEvent, id: TorrentId) -> Option<Result<(), SessionError>> {
    match e {
        SessionEvent::TorrentCompleted(done) => if done == id {
            Some(Ok(()))
        } else {
            None
        },
        SessionEvent::TorrentRemoved(gone) => if gone == id {
            Some(Err(SessionError::TorrentNotFound(id)))
        } else {
            None
        },
        _ => None,
    }
}

/// What an event means for somebody who waits for a torrent to be complete
pub fn wait_for_completion(event: &SessionEvent, id: TorrentId) -> (r: Option<
    Result<(), SessionError>,
>)
    ensures
        r == awaited(*event, id),
{
    match event {
        SessionEvent::TorrentCompleted(done) => if done.same(&id) {
            Some(Ok(()))
        } else {
            None
        },
        SessionEvent::TorrentRemoved(gone) => if gone.same(&id) {
            Some(Err(SessionError::TorrentNotFound(id)))
        } else {
            None
        },
        _ => None,
    }
}

/// A torrent that was taken in is there, and is refused when it comes again.
pub proof fn torrent_is_taken_in_once(
    s: SessionView,
    source: TorrentSource,
    has_dht: bool,
    now: u64,
    after: SessionView,
    told: Seq<SessionAction>,
    r: Result<SessionAnswer, SessionError>,
)
    requires
        s.taken_in(source, has_dht, now, after, told, r),
        r is Ok,
    ensures
        after.has(source_id(source)->0),
        after.objection(source, has_dht) == Some(
            SessionError::TorrentAlreadyExists(source_id(source)->0),
        ),
{
    let id = source_id(source)->0;
    if !after.has(id) {
        absent_entry(after.torrents, id, 0);
        assert(after.torrents[s.torrents.len() as int].id == id);
    }
}

/// A torrent that was removed is not there, and the others still are.
pub proof fn removed_torrent_is_gone(s: SessionView, id: TorrentId, other: TorrentId)
    requires
        ids_differ(s.torrents),
    ensures
        !s.without(id).has(id),
        other != id ==> s.without(id).has(other) == s.has(other),
{
    let a = s.without(id);
    match entry_position(s.torrents, id, 0) {
        None => {},
        Some(k) => {
            present_entry(s.torrents, id, 0);
            if a.has(id) {
                present_entry(a.torrents, id, 0);
                let j = entry_position(a.torrents, id, 0)->0;
                let at = if j < k {
                    j
                } else {
                    j + 1
                };
                assert(s.torrents[at].id == id);
            }
            if other != id {
                if a.has(other) {
                    present_entry(a.torrents, other, 0);
                    let j = entry_position(a.torrents, other, 0)->0;
                    let at = if j < k {
                        j
                    } else {
                        j + 1
                    };
                    assert(s.torrents[at].id == other);
                    if !s.has(other) {
                        absent_entry(s.torrents, other, 0);
                    }
                }
                if s.has(other) {
                    present_entry(s.torrents, other, 0);
                    let j = entry_position(s.torrents, other, 0)->0;
                    let at = if j < k {
                        j
                    } else {
                        j - 1
                    };
                    assert(a.torrents[at].id == other);
                    if !a.has(other) {
                        absent_entry(a.torrents, other, 0);
                    }
                }
            }
        },
    }
}

} // verus!
