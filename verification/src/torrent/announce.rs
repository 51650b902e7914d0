//! What a torrent tells trackers and the DHT, and when it does so again.

use crate::detail::TrackerState;
use crate::events::torrent::{TorrentEvent, TorrentEventView};
use crate::metrics::progress::StateView;
use crate::net::SocketAddr;
use crate::text::opt_text;
use crate::torrent::books::Books;
use crate::trackers::{AnnounceResponse, Events, TrackerError};
use crate::types::InfoHash;
use vstd::prelude::*;
use vstd::string::*;

verus! {

/// The port that the DHT is told of
pub const DHT_PORT: u16 = 6881;

/// How often the DHT is asked, in seconds
pub const DHT_ANNOUNCE_INTERVAL: u64 = 900;

/// How many answers of the DHT are heard in one round
pub const MAX_RESPONSES: usize = 50;

/// How long to wait for the next announcement where a tracker gives no time, in seconds
pub const DEFAULT_INTERVAL: u64 = 1800;

/// The shortest time between two announcements, in seconds
pub const MIN_INTERVAL: u64 = 60;

/// The longest time between two attempts, in seconds
pub const MAX_BACKOFF: u32 = 60;

/// What trackers are told of a download.
#[derive(Debug, Clone, Copy, PartialEq, Eq, Structural)]
pub struct ClientState {
    pub downloaded: i64,
    pub left: i64,
    pub uploaded: i64,
    pub event: Events,
}

impl ClientState {
    /// What trackers are told of a download
    pub fn new(downloaded: i64, left: i64, uploaded: i64, event: Events) -> (r: Self)
        ensures
            r == (ClientState { downloaded, left, uploaded, event }),
    {
        ClientState { downloaded, left, uploaded, event }
    }
}

impl Books {
    /// How many bytes the pieces have, all taken to be of the same length.
    pub open spec fn bytes_left(self) -> int {
        match self.metadata.info() {
            Some(info) => info.piece_length * info.pieces.len(),
            None => 0,
        }
    }

    /// What trackers are told.
    pub open spec fn client_state(self) -> ClientState {
        ClientState {
            downloaded: 0,
            left: self.bytes_left() as i64,
            uploaded: 0,
            event: if self.metadata.info() is None {
                Events::Started
            } else {
                match self.state {
                    StateView::Seeding => Events::Completed,
                    StateView::Downloading => Events::Started,
                    _ => Events::Regular,
                }
            },
        }
    }
}

/// The announcements to one tracker.
#[derive(Debug)]
pub struct Announcer {
    pub url: String,
    /// The torrent is seeding and needs no peers
    pub seed: bool,
    /// How often in a row the tracker has failed
    pub retry_count: u32,
}

/// What an announcer asks to be done.
#[derive(Debug)]
pub enum AnnounceAction {
    /// Tell the torrent of the tracker's status
    Update {
        url: String,
        status: TrackerState,
        seeder_count: Option<u32>,
        leecher_count: Option<u32>,
        peers_received: u32,
        error: Option<String>,
    },
    /// Tell those who listen what has happened
    Event(TorrentEvent),
    /// Pass on the addresses of peers
    Peers(Vec<SocketAddr>),
    /// Wait for so many seconds and announce again
    Wait(u64),
    /// Make no more announcements
    Stop,
}

/// What an announcer asks to be done.
#[verifier::ext_equal]
pub enum AnnounceView {
    Update(Seq<char>, TrackerState, Option<u32>, Option<u32>, u32, Option<Seq<char>>),
    Event(TorrentEventView),
    Peers(Seq<SocketAddr>),
    Wait(u64),
    Stop,
}

impl View for AnnounceAction {
    type V = AnnounceView;

    open spec fn view(&self) -> AnnounceView {
        match self {
            AnnounceAction::Update {
                url,
                status,
                seeder_count,
                leecher_count,
                peers_received,
                error,
            } => AnnounceView::Update(
                url@,
                *status,
                *seeder_count,
                *leecher_count,
                *peers_received,
                opt_text(*error),
            ),
            AnnounceAction::Event(e) => AnnounceView::Event(e@),
            AnnounceAction::Peers(l) => AnnounceView::Peers(l@),
            AnnounceAction::Wait(s) => AnnounceView::Wait(*s),
            AnnounceAction::Stop => AnnounceView::Stop,
        }
    }
}

/// What a list of actions asks for.
pub open spec fn announce_views(s: Seq<AnnounceAction>) -> Seq<AnnounceView> {
    Seq::new(s.len(), |i: int| s[i]@)
}

/// How long to wait after so many failures before this one, in seconds: five more each time, up to
/// a minute.
pub open spec fn backoff(retry_count: u32) -> int {
    if 5 * (1 + retry_count) < 60 {
        5 * (1 + retry_count)
    } else {
        60
    }
}

/// How long to wait for the next announcement, in seconds: what the tracker says, but at least a
/// minute.
pub open spec fn pause(interval: i32) -> int {
    if interval < 0 {
        1800
    } else if interval < 60 {
        60
    } else {
        interval as int
    }
}

/// What is done about a failure, and how many there have been then.
pub open spec fn after_failure(
    url: Seq<char>,
    retry_count: u32,
    permanent: bool,
    text: Seq<char>,
) -> (u32, Seq<AnnounceView>) {
    let news = seq![
        AnnounceView::Update(url, TrackerState::Error, None, None, 0, Some(text)),
        AnnounceView::Event(
            TorrentEventView::TrackerError(url, text, (retry_count + 1) as u32),
        ),
    ];
    if permanent {
        (retry_count, news.push(AnnounceView::Stop))
    } else {
        (
            (retry_count + 1) as u32,
            news.push(AnnounceView::Wait(backoff(retry_count) as u64)),
        )
    }
}

/// What is done about an answer.
pub open spec fn after_answer(url: Seq<char>, seed: bool, r: AnnounceResponse) -> Seq<AnnounceView> {
    let count = r.peers.len() as u32;
    let news = seq![
        AnnounceView::Update(
            url,
            TrackerState::Announced,
            Some(r.seeders as u32),
            Some(r.leechers as u32),
            count,
            None,
        ),
        AnnounceView::Event(TorrentEventView::TrackerAnnounced(url, count)),
    ];
    let peers = if seed {
        Seq::empty()
    } else {
        seq![AnnounceView::Peers(r.peers@)]
    };
    news + peers + seq![AnnounceView::Wait(pause(r.interval) as u64)]
}

impl Announcer {
    /// A tracker that has not been announced to
    pub fn new(url: String, seed: bool) -> (r: Self)
        ensures
            r == (Announcer { url, seed, retry_count: 0 }),
    {
        Announcer { url, seed, retry_count: 0 }
    }

    /// An announcement is about to be made
    pub fn begin(&self) -> (r: AnnounceAction)
        ensures
            r@ == AnnounceView::Update(
                self.url@,
                TrackerState::Announcing,
                None,
                None,
                0,
                None,
            ),
    {
        AnnounceAction::Update {
            url: self.url.clone(),
            status: TrackerState::Announcing,
            seeder_count: None,
            leecher_count: None,
            peers_received: 0,
            error: None,
        }
    }

    /// The tracker has failed; `text` is what the error reads like
    pub fn on_error(&mut self, e: &TrackerError, text: &str) -> (r: Vec<AnnounceAction>)
        requires
            5 * (1 + old(self).retry_count) <= u32::MAX,
        ensures
            final(self).url == old(self).url,
            final(self).seed == old(self).seed,
            (final(self).retry_count, announce_views(r@)) == after_failure(
                old(self).url@,
                old(self).retry_count,
                e@.permanent(),
                text@,
            ),
    {
        let retry_count: u32 = self.retry_count;
        let mut r: Vec<AnnounceAction> = Vec::new();
        r.push(
            AnnounceAction::Update {
                url: self.url.clone(),
                status: TrackerState::Error,
                seeder_count: None,
                leecher_count: None,
                peers_received: 0,
                error: Some(String::from_str(text)),
            },
        );
        r.push(
            AnnounceAction::Event(
                TorrentEvent::TrackerError {
                    url: self.url.clone(),
                    error: String::from_str(text),
                    times_in_row: retry_count + 1,
                },
            ),
        );
        if e.is_permanent() {
            r.push(AnnounceAction::Stop);
        } else {
            let secs: u32 = 5 * (1 + retry_count);
            let wait: u32 = if secs < MAX_BACKOFF {
                secs
            } else {
                MAX_BACKOFF
            };
            self.retry_count = retry_count + 1;
            r.push(AnnounceAction::Wait(wait as u64));
        }
        assert(announce_views(r@) =~= after_failure(
            self.url@,
            retry_count,
            e@.permanent(),
            text@,
        ).1);
        r
    }

    /// The tracker has answered
    pub fn on_response(&mut self, response: AnnounceResponse) -> (r: Vec<AnnounceAction>)
        ensures
            final(self).url == old(self).url,
            final(self).seed == old(self).seed,
            final(self).retry_count == 0,
            announce_views(r@) == after_answer(old(self).url@, old(self).seed, response),
    {
        self.retry_count = 0;
        let peers_count: u32 = response.peers.len() as u32;
        let interval: i32 = response.interval;
        let mut r: Vec<AnnounceAction> = Vec::new();
        r.push(
            AnnounceAction::Update {
                url: self.url.clone(),
                status: TrackerState::Announced,
                seeder_count: Some(response.seeders as u32),
                leecher_count: Some(response.leechers as u32),
                peers_received: peers_count,
                error: None,
            },
        );
        r.push(
            AnnounceAction::Event(
                TorrentEvent::TrackerAnnounced {
                    url: self.url.clone(),
                    peers_received: peers_count,
                },
            ),
        );
        if !self.seed {
            r.push(AnnounceAction::Peers(response.peers));
        }
        let wanted: u64 = if interval < 0 {
            DEFAULT_INTERVAL
        } else {
            interval as u64
        };
        r.push(
            AnnounceAction::Wait(
                if wanted < MIN_INTERVAL {
                    MIN_INTERVAL
                } else {
                    wanted
                },
            ),
        );
        assert(announce_views(r@) =~= after_answer(self.url@, self.seed, response));
        r
    }
}

/// The search for peers in the DHT.
#[derive(Debug, Clone, Copy)]
pub struct DhtSearch {
    pub info_hash: InfoHash,
    pub port: u16,
    /// How many answers have come in this round
    pub response_count: usize,
}

impl DhtSearch {
    /// A search that is about to begin
    pub fn new(info_hash: InfoHash) -> (r: Self)
        ensures
            r == (DhtSearch { info_hash, port: 6881, response_count: 0 }),
    {
        DhtSearch { info_hash, port: DHT_PORT, response_count: 0 }
    }

    /// An answer has come; gives whether to listen for more
    pub fn on_response(&mut self) -> (r: bool)
        requires
            old(self).response_count < 50,
        ensures
            *final(self) == (DhtSearch {
                response_count: (old(self).response_count + 1) as usize,
                ..*old(self)
            }),
            r == (final(self).response_count < 50),
    {
        self.response_count = self.response_count + 1;
        self.response_count < MAX_RESPONSES
    }

    /// The round is over; gives after how many seconds the next begins
    pub fn end_round(&mut self) -> (r: u64)
        ensures
            *final(self) == (DhtSearch { response_count: 0, ..*old(self) }),
            r == 900,
    {
        self.response_count = 0;
        DHT_ANNOUNCE_INTERVAL
    }
}

/// What is begun so that others learn of a torrent, and it of them.
#[derive(Debug)]
pub struct Announcement {
    pub client_state: ClientState,
    pub announcers: Vec<Announcer>,
    pub dht: Option<DhtSearch>,
}

/// Whether an announcement is that of a torrent: one to each tracker, and a search in the DHT where
/// there is one and the torrent needs peers.
pub open spec fn announces(a: Announcement, b: Books) -> bool {
    &&& a.client_state == b.client_state()
    &&& a.announcers.len() == b.trackers.len()
    &&& forall|i: int|
        0 <= i < a.announcers.len() ==> (#[trigger] a.announcers[i]).url@ == b.trackers[i].0
            && a.announcers[i].seed == (b.state == StateView::Seeding)
            && a.announcers[i].retry_count == 0
    &&& a.dht == if b.has_dht && b.state != StateView::Seeding {
        Some(DhtSearch { info_hash: b.hash, port: 6881, response_count: 0 })
    } else {
        None
    }
}

/// The longer a tracker fails, the longer the wait, and never more than a minute.
pub proof fn patience_grows(a: u32, b: u32)
    requires
        a <= b,
    ensures
        5 <= backoff(a) <= backoff(b) <= 60,
{
}

/// No tracker is asked more often than once a minute while it answers.
pub proof fn announcements_are_spaced(interval: i32)
    ensures
        pause(interval) >= 60,
        interval >= 60 ==> pause(interval) == interval,
{
}

} // verus!
