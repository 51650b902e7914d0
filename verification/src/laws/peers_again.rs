//! When peers that could not be reached, and trackers, are tried again.

use crate::detail::TrackerState;
use crate::events::torrent::TorrentEventView;
use crate::metrics::progress::StateView;
use crate::net::SocketAddr;
use crate::peer::retry_queue::{
    addresses_differ, after_failure, alive, backoff, doubled, oldest, position, ready, with_room,
    EntryView,
};
use crate::torrent::announce::{announces, AnnounceView, Announcement};
use crate::torrent::books::Books;
use crate::trackers::{AnnounceResponse, Events};
use vstd::prelude::*;

verus! {

proof fn place_of(s: Seq<EntryView>, addr: SocketAddr, i: int)
    requires
        0 <= i,
    ensures
        match position(s, addr, i) {
            Some(k) => i <= k < s.len() && s[k].addr == addr && forall|j: int|
                i <= j < k ==> (#[trigger] s[j]).addr != addr,
            None => forall|j: int| i <= j < s.len() ==> (#[trigger] s[j]).addr != addr,
        },
    decreases s.len() - i,
{
    if i < s.len() && s[i].addr != addr {
        place_of(s, addr, i + 1);
    }
}

/// A peer is found where its address is, and nowhere where it is not.
pub proof fn peer_is_found_by_its_address(s: Seq<EntryView>, addr: SocketAddr, k: int)
    requires
        addresses_differ(s),
    ensures
        0 <= k < s.len() && s[k].addr == addr ==> position(s, addr, 0) == Some(k),
        (forall|j: int| 0 <= j < s.len() ==> (#[trigger] s[j]).addr != addr) ==> position(
            s,
            addr,
            0,
        ) is None,
{
    place_of(s, addr, 0);
    if 0 <= k < s.len() && s[k].addr == addr {
        let p = position(s, addr, 0)->0;
        if p < k {
            assert(s[p].addr != s[k].addr);
        }
    }
}

proof fn doubled_is_positive(n: int)
    ensures
        doubled(n) >= 1,
    decreases n,
{
    if n > 0 {
        doubled_is_positive(n - 1);
    }
}

/// The first wait is five seconds, each further one is twice as long as the one before, and none is
/// longer than ten minutes.
pub proof fn wait_doubles_with_each_failure(n: u32)
    requires
        1 <= n < u32::MAX,
    ensures
        backoff(1) == 5,
        backoff((n + 1) as u32) == if 2 * backoff(n) < 600 {
            2 * backoff(n)
        } else {
            600
        },
{
    doubled_is_positive(n - 1);
    assert(doubled(0) == 1);
    assert(doubled(n as int) == 2 * doubled(n - 1));
}

/// Another failure of a peer counts for that peer alone: it is tried again when its wait is over.
pub proof fn failure_counts_for_its_peer(
    s: Seq<EntryView>,
    k: int,
    error: Option<Seq<char>>,
    now: u64,
    i: int,
)
    requires
        addresses_differ(s),
        0 <= k < s.len(),
        s[k].failed_attempts < u32::MAX,
        now + 600_000 <= u64::MAX,
        0 <= i < s.len(),
    ensures
        ({
            let t = after_failure(s, s[k].addr, error, now);
            &&& t.len() == s.len()
            &&& i != k ==> t[i] == s[i]
            &&& t[k].addr == s[k].addr
            &&& t[k].failed_attempts == s[k].failed_attempts + 1
            &&& t[k].last_attempt == now
            &&& t[k].next_retry == now + 1000 * backoff((s[k].failed_attempts + 1) as u32)
            &&& error is Some ==> t[k].last_error == error
            &&& error is None ==> t[k].last_error == s[k].last_error
        }),
{
    peer_is_found_by_its_address(s, s[k].addr, k);
    doubled_is_positive(s[k].failed_attempts as int);
}

proof fn oldest_is_oldest(s: Seq<EntryView>, n: int, j: int)
    requires
        0 <= j < n <= s.len(),
    ensures
        0 <= oldest(s, n) < n,
        s[oldest(s, n)].last_attempt <= s[j].last_attempt,
    decreases n,
{
    if n > 1 {
        if j < n - 1 {
            oldest_is_oldest(s, n - 1, j);
        } else {
            oldest_is_oldest(s, n - 1, 0);
        }
    }
}

/// The first failure of a peer is noted behind the others, and it is tried again after five
/// seconds.
pub proof fn first_failure_is_noted(
    s: Seq<EntryView>,
    addr: SocketAddr,
    error: Option<Seq<char>>,
    now: u64,
)
    requires
        forall|j: int| 0 <= j < s.len() ==> (#[trigger] s[j]).addr != addr,
        now + 600_000 <= u64::MAX,
    ensures
        ({
            let t = after_failure(s, addr, error, now);
            &&& t.len() > 0
            &&& t.last().addr == addr && t.last().failed_attempts == 1
            &&& t.last().last_attempt == now && t.last().next_retry == now + 5000
            &&& t.last().last_error == error
            &&& s.len() < 1000 ==> t.drop_last() == s
        }),
{
    place_of(s, addr, 0);
    let t = after_failure(s, addr, error, now);
    if s.len() < 1000 {
        assert(t.drop_last() =~= s);
    }
}

/// Where there are too many peers, one gives way that was tried no later than any other.
pub proof fn oldest_peer_gives_way(
    s: Seq<EntryView>,
    addr: SocketAddr,
    error: Option<Seq<char>>,
    now: u64,
    j: int,
)
    requires
        forall|j: int| 0 <= j < s.len() ==> (#[trigger] s[j]).addr != addr,
        s.len() >= 1000,
        0 <= j < s.len(),
    ensures
        exists|o: int|
            0 <= o < s.len() && (#[trigger] s[o]).last_attempt <= s[j].last_attempt
                && after_failure(s, addr, error, now).drop_last() == s.remove(o),
{
    place_of(s, addr, 0);
    let o = oldest(s, s.len() as int);
    oldest_is_oldest(s, s.len() as int, j);
    assert(after_failure(s, addr, error, now).drop_last() =~= with_room(s));
    assert(s[o].last_attempt <= s[j].last_attempt);
}

proof fn alive_are_filtered(s: Seq<EntryView>, n: int)
    requires
        0 <= n <= s.len(),
    ensures
        alive(s, n) == s.take(n).filter(|e: EntryView| e.failed_attempts < 5),
    decreases n,
{
    reveal(Seq::filter);
    if n > 0 {
        alive_are_filtered(s, n - 1);
        assert(s.take(n).drop_last() =~= s.take(n - 1));
    } else {
        assert(s.take(0) =~= Seq::<EntryView>::empty());
        assert(alive(s, 0) =~= Seq::<EntryView>::empty());
    }
}

proof fn ready_are_filtered(s: Seq<EntryView>, now: u64, n: int)
    requires
        0 <= n <= s.len(),
    ensures
        ready(s, now, n) == s.take(n).filter(
            |e: EntryView| e.failed_attempts < 5 && e.next_retry <= now,
        ).map_values(|e: EntryView| e.addr),
    decreases n,
{
    reveal(Seq::filter);
    let due = |e: EntryView| e.failed_attempts < 5 && e.next_retry <= now;
    let addr = |e: EntryView| e.addr;
    if n > 0 {
        ready_are_filtered(s, now, n - 1);
        assert(s.take(n).drop_last() =~= s.take(n - 1));
        assert(s.take(n).last() == s[n - 1]);
        if due(s[n - 1]) {
            assert(s.take(n).filter(due) == s.take(n - 1).filter(due).push(s[n - 1]));
            assert(s.take(n).filter(due).map_values(addr) =~= s.take(n - 1).filter(due).map_values(
                addr,
            ).push(s[n - 1].addr));
        }
    } else {
        assert(s.take(0) =~= Seq::<EntryView>::empty());
        assert(s.take(0).filter(due).map_values(addr) =~= Seq::<SocketAddr>::empty());
    }
}

/// Tried again are those peers whose time has come and that have failed less than five times, and
/// those that have failed more often are forgotten.
pub proof fn peers_whose_time_has_come_are_tried(s: Seq<EntryView>, now: u64)
    ensures
        ready(s, now, s.len() as int) == s.filter(
            |e: EntryView| e.failed_attempts < 5 && e.next_retry <= now,
        ).map_values(|e: EntryView| e.addr),
        alive(s, s.len() as int) == s.filter(|e: EntryView| e.failed_attempts < 5),
{
    alive_are_filtered(s, s.len() as int);
    ready_are_filtered(s, now, s.len() as int);
    assert(s.take(s.len() as int) =~= s);
}

/// A tracker that fails is shown as failing with what it said, those who listen are told how often
/// in a row it has, and it is asked again after five seconds more each time, a minute at most; one
/// that fails for good is asked no more.
pub proof fn failing_tracker_is_asked_later(
    url: Seq<char>,
    n: u32,
    permanent: bool,
    text: Seq<char>,
)
    requires
        5 * (1 + n) <= u32::MAX,
    ensures
        ({
            let (count, told) = crate::torrent::announce::after_failure(url, n, permanent, text);
            &&& told.len() == 3
            &&& told[0] == AnnounceView::Update(url, TrackerState::Error, None, None, 0, Some(text))
            &&& told[1] == AnnounceView::Event(
                TorrentEventView::TrackerError(url, text, (n + 1) as u32),
            )
            &&& permanent ==> told[2] == AnnounceView::Stop && count == n
            &&& !permanent ==> count == n + 1
            &&& !permanent && n < 11 ==> told[2] == AnnounceView::Wait((5 + 5 * n) as u64)
            &&& !permanent && n >= 11 ==> told[2] == AnnounceView::Wait(60)
        }),
{
}

/// What a tracker answers is shown, those who listen are told, the peers that it names are passed on
/// unless the torrent seeds, and it is asked again when it says, but not within a minute.
pub proof fn answer_of_a_tracker_is_passed_on(url: Seq<char>, r: AnnounceResponse)
    requires
        r.peers@.len() <= u32::MAX,
    ensures
        ({
            let wait = if r.interval < 0 {
                1800
            } else if r.interval < 60 {
                60
            } else {
                r.interval as int
            };
            let leech = crate::torrent::announce::after_answer(url, false, r);
            let seed = crate::torrent::announce::after_answer(url, true, r);
            let n = r.peers@.len();
            &&& leech.len() == 4 && seed.len() == 3
            &&& leech[0] == seed[0] && leech[1] == seed[1]
            &&& leech[0] == AnnounceView::Update(
                url,
                TrackerState::Announced,
                Some(r.seeders as u32),
                Some(r.leechers as u32),
                n as u32,
                None,
            )
            &&& leech[1] == AnnounceView::Event(TorrentEventView::TrackerAnnounced(url, n as u32))
            &&& leech[2] == AnnounceView::Peers(r.peers@)
            &&& leech[3] == AnnounceView::Wait(wait as u64)
            &&& seed[2] == AnnounceView::Wait(wait as u64)
        }),
{
}

/// Each tracker of a torrent is announced to, the DHT is asked where there is one and the torrent
/// does not seed, and what is said is that of the torrent: a seed is complete, and the bytes of all
/// pieces are left.
pub proof fn torrent_is_announced_everywhere(a: Announcement, b: Books, i: int)
    requires
        announces(a, b),
    ensures
        a.announcers@.len() == b.trackers.len(),
        0 <= i < b.trackers.len() ==> {
            &&& a.announcers@[i].url@ == b.trackers[i].0
            &&& a.announcers@[i].seed == (b.state is Seeding)
            &&& a.announcers@[i].retry_count == 0
        },
        a.dht is Some <==> b.has_dht && !(b.state is Seeding),
        a.dht is Some ==> a.dht->0.info_hash == b.hash && a.dht->0.port == 6881,
        a.client_state.downloaded == 0 && a.client_state.uploaded == 0,
        b.metadata.info() is None ==> a.client_state.event == Events::Started
            && a.client_state.left == 0,
        b.metadata.info() is Some ==> {
            let info = b.metadata.info()->0;
            &&& a.client_state.left == (info.piece_length * info.pieces@.len()) as i64
            &&& b.state is Seeding ==> a.client_state.event == Events::Completed
            &&& b.state is Downloading ==> a.client_state.event == Events::Started
            &&& !(b.state is Seeding) && !(b.state is Downloading) ==> a.client_state.event
                == Events::Regular
        },
{
    assert(StateView::Seeding is Seeding);
}

} // verus!
