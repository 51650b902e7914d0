//! Announcements that go to one tracker after the other.

pub mod udp;

use crate::metainfo::{flattened, some_are_distinct, texts, TorrentInfo};
use crate::net::SocketAddr;
use crate::text::same_text;
use crate::trackers::{TrackerError, TrackerFault, TrackerUrl};
use crate::types::{InfoHash, PeerID};
use crate::urls::{read_url, url_read, url_view, ParsedUrl, UrlView};
use vstd::prelude::*;
use vstd::string::*;

verus! {

/// What a tracker answers.
#[derive(Debug)]
pub struct TrackerResponse {
    pub peers: Vec<SocketAddr>,
    pub interval: u32,
    pub leechers: u32,
    pub seeders: u32,
}

/// What a datagram to or from a tracker is for.
#[derive(Debug, Clone, Copy, PartialEq, Eq, Structural)]
pub enum Actions {
    Connect,
    Announce,
    Scrape,
    Error,
}

impl Actions {
    /// The action's number.
    pub open spec fn number(self) -> u32 {
        match self {
            Actions::Connect => 0,
            Actions::Announce => 1,
            Actions::Scrape => 2,
            Actions::Error => 3,
        }
    }
}

impl From<&Actions> for u32 {
    fn from(action: &Actions) -> (r: u32) {
        match action {
            Actions::Connect => 0,
            Actions::Announce => 1,
            Actions::Scrape => 2,
            Actions::Error => 3,
        }
    }
}

impl vstd::std_specs::convert::FromSpecImpl<&Actions> for u32 {
    open spec fn obeys_from_spec() -> bool {
        true
    }

    open spec fn from_spec(action: &Actions) -> u32 {
        action.number()
    }
}

/// What a tracker is told besides the numbers.
#[derive(Debug, Clone, Copy, PartialEq, Eq, Structural)]
pub enum Events {
    /// Nothing: the announcement is one of those made at intervals
    Regular,
    Completed,
    Started,
    Stopped,
}

impl From<&Events> for u32 {
    fn from(events: &Events) -> (r: u32) {
        match events {
            Events::Regular => 0,
            Events::Completed => 1,
            Events::Started => 2,
            Events::Stopped => 3,
        }
    }
}

impl vstd::std_specs::convert::FromSpecImpl<&Events> for u32 {
    open spec fn obeys_from_spec() -> bool {
        true
    }

    open spec fn from_spec(events: &Events) -> u32 {
        events.number()
    }
}

impl Events {
    /// The event's number.
    pub open spec fn number(self) -> u32 {
        match self {
            Events::Regular => 0,
            Events::Completed => 1,
            Events::Started => 2,
            Events::Stopped => 3,
        }
    }

    /// The event's name, where it has one
    pub fn to_string(&self) -> (r: Option<String>)
        ensures
            match *self {
                Events::Regular => r is None,
                Events::Started => r matches Some(s) && s@ == "started"@,
                Events::Stopped => r matches Some(s) && s@ == "stopped"@,
                Events::Completed => r matches Some(s) && s@ == "completed"@,
            },
    {
        match self {
            Events::Regular => None,
            Events::Started => Some(String::from_str("started")),
            Events::Stopped => Some(String::from_str("stopped")),
            Events::Completed => Some(String::from_str("completed")),
        }
    }
}

/// What a tracker is told.
#[derive(Debug, Clone, Copy)]
pub struct AnnounceParams {
    pub info_hash: InfoHash,
    pub peer_id: PeerID,
    pub port: u16,
    pub uploaded: i64,
    pub downloaded: i64,
    pub left: i64,
    pub event: Events,
    pub compact: bool,
}

/// Announces a torrent to its trackers, one after the other, until one answers.
#[derive(Debug)]
pub struct AnnounceRound {
    pub trackers: Vec<String>,
    pub next: usize,
}

impl AnnounceRound {
    /// A tracker is left to ask.
    pub open spec fn wf(&self) -> bool {
        self.next < self.trackers.len()
    }

    /// The tracker to ask next
    pub fn tracker(&self) -> (r: &str)
        requires
            self.wf(),
        ensures
            r@ == self.trackers@[self.next as int]@,
    {
        self.trackers[self.next].as_str()
    }

    /// The tracker has answered or failed; gives what the round comes to, where it is over
    pub fn reply(&mut self, result: Result<TrackerResponse, TrackerError>) -> (r: Option<
        Result<TrackerResponse, TrackerError>,
    >)
        requires
            old(self).wf(),
        ensures
            final(self).trackers == old(self).trackers,
            match result {
                Ok(a) => r == Some(Ok::<TrackerResponse, TrackerError>(a)) && final(self).next
                    == old(self).next,
                Err(_) => final(self).next == old(self).next + 1 && if final(self).next == old(
                    self,
                ).trackers.len() {
                    r matches Some(Err(e)) && e@ == TrackerFault::InvalidResponse(
                        "All trackers failed"@,
                    )
                } else {
                    r is None && final(self).wf()
                },
            },
    {
        match result {
            Ok(response) => Some(Ok(response)),
            Err(_) => {
                self.next = self.next + 1;
                if self.next == self.trackers.len() {
                    Some(Err(crate::trackers::invalid_response("All trackers failed")))
                } else {
                    None
                }
            },
        }
    }
}

/// Which way a tracker is spoken to, given what its url is made of.
pub open spec fn transport_of(text: Seq<char>, u: Result<UrlView, Seq<char>>) -> Result<
    (bool, Seq<char>),
    TrackerFault,
> {
    match u {
        Err(m) => Err(TrackerFault::UrlParse(m)),
        Ok(v) => if v.scheme == "http"@ || v.scheme == "https"@ {
            Ok((false, text))
        } else if v.scheme == "udp"@ {
            Ok((true, text))
        } else {
            Err(TrackerFault::InvalidScheme(v.scheme))
        },
    }
}

/// Which way a tracker is spoken to, and where it is.
pub open spec fn transport_view(r: Result<TrackerUrl, TrackerError>) -> Result<
    (bool, Seq<char>),
    TrackerFault,
> {
    match r {
        Ok(TrackerUrl::Udp(u)) => Ok((true, u@)),
        Ok(TrackerUrl::Http(u)) => Ok((false, u@)),
        Err(e) => Err(e@),
    }
}

/// Which way a tracker is spoken to, given what its url is made of
pub fn transport(text: &str, u: Result<ParsedUrl, String>) -> (r: Result<TrackerUrl, TrackerError>)
    ensures
        transport_view(r) == transport_of(text@, url_view(u)),
{
    match u {
        Err(m) => Err(TrackerError::UrlParse(m)),
        Ok(v) => {
            let scheme = v.scheme.as_str();
            if same_text(scheme, "http") || same_text(scheme, "https") {
                Ok(TrackerUrl::Http(String::from_str(text)))
            } else if same_text(scheme, "udp") {
                Ok(TrackerUrl::Udp(String::from_str(text)))
            } else {
                Err(TrackerError::InvalidScheme(String::from_str(scheme)))
            }
        },
    }
}

/// Which way the tracker at a url is spoken to
pub fn transport_for(tracker_url: &str) -> (r: Result<TrackerUrl, TrackerError>)
    ensures
        transport_view(r) == transport_of(tracker_url@, url_read(tracker_url@)),
{
    transport(tracker_url, read_url(tracker_url))
}

/// Speaks to trackers for one client.
#[derive(Debug, Clone, Copy)]
pub struct TrackerManager {
    pub client_id: PeerID,
}

impl TrackerManager {
    /// A manager for a client
    pub fn new(client_id: PeerID) -> (r: Self)
        ensures
            r.client_id == client_id,
    {
        TrackerManager { client_id }
    }

    /// All trackers of a torrent, to be asked one after the other
    pub fn handle_announce(&self, torrent: &TorrentInfo) -> (r: AnnounceRound)
        ensures
            texts(r.trackers@) == torrent.says().trackers(),
            r.next == 0,
            r.wf(),
    {
        let trackers = torrent.all_trackers();
        proof {
            some_are_distinct(
                seq![torrent.says().announce] + match torrent.says().announce_list {
                    Some(l) => flattened(l),
                    None => Seq::empty(),
                },
            );
            assert(texts(trackers@).len() > 0);
        }
        AnnounceRound { trackers, next: 0 }
    }

    /// How a tracker is spoken to, and what it is told
    pub fn try_announce(&self, tracker_url: &str, torrent: &TorrentInfo) -> (r: Result<
        (TrackerUrl, AnnounceParams),
        TrackerError,
    >)
        requires
            torrent.says().info.mode.size_fits(),
        ensures
            match r {
                Ok((t, p)) => {
                    &&& transport_view(Ok(t)) == transport_of(tracker_url@, url_read(tracker_url@))
                    &&& p == (AnnounceParams {
                        info_hash: torrent.info_hash,
                        peer_id: self.client_id,
                        port: 6881,
                        uploaded: 0,
                        downloaded: 0,
                        left: torrent.says().info.mode.total() as i64,
                        event: Events::Started,
                        compact: true,
                    })
                },
                Err(e) => transport_of(tracker_url@, url_read(tracker_url@)) == Err::<
                    (bool, Seq<char>),
                    TrackerFault,
                >(e@),
            },
    {
        let t = match transport_for(tracker_url) {
            Ok(t) => t,
            Err(e) => return Err(e),
        };
        let params = AnnounceParams {
            info_hash: torrent.info_hash,
            peer_id: self.client_id,
            port: 6881,
            uploaded: 0,
            downloaded: 0,
            left: torrent.total_size(),
            event: Events::Started,
            compact: true,
        };
        Ok((t, params))
    }
}

/// What a manager of trackers is asked to do.
#[derive(Debug)]
pub enum TrackerMessage {
    Announce { torrent: std::sync::Arc<TorrentInfo> },
    Scrape { torrent: std::sync::Arc<TorrentInfo> },
    Stop { info_hash: InfoHash },
    Shutdown,
}

/// A way to speak to trackers.
pub trait TrackerClient {

}

/// Hands out what a manager of trackers does.
#[derive(Debug, Clone, Copy)]
pub struct TrackerHandler {
    pub manager: TrackerManager,
}

impl TrackerHandler {
    /// A handler for a client
    pub fn new(client_id: PeerID) -> (r: Self)
        ensures
            r.manager.client_id == client_id,
    {
        TrackerHandler { manager: TrackerManager::new(client_id) }
    }
}

} // verus!
