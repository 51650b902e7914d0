//! What holds of the peers of a torrent.

use crate::bitfield::Bitfield;
use crate::choker::ChokerState;
use crate::detail::{TrackerState, TrackerView};
use crate::events::peer::PeerEventView;
use crate::laws::picker::{going_peer_is_not_counted, pending_requests_cool};
use crate::metrics::counters::MetricOp;
use crate::net::SocketAddr;
use crate::peer::PeerMessageView;
use crate::peer::peer_connection::PeerInfo;
use crate::piece_picker::{AvailabilityUpdate, BlockRequest, PickerState};
use crate::protocol::BlockInfo;
use crate::text::opt_text;
use crate::torrent::books::{absent_peer, heard, peer_position, present_peer, requests_of};
use crate::torrent::books::{url_position, with_tracker, Books};
use crate::torrent::{ActionView, Pid, TorrentMessage, TorrentReply};
use crate::types::PeerID;
use crate::urls::UrlView;
use vstd::prelude::*;

verus! {

/// Each message touches what it is about and nothing else: what a torrent is, where it keeps its
/// files and what it has counted before stays, and peers, pieces, slots, trackers and metadata
/// change only with messages that speak of them.
pub proof fn messages_touch_what_they_are_about(
    b: Books,
    m: TorrentMessage,
    now: u64,
    a: Books,
    told: Seq<ActionView>,
    reply: TorrentReply,
)
    requires
        b.handled(m, now, a, told, reply),
    ensures
        a.hash == b.hash && a.peer_id == b.peer_id && a.client_id == b.client_id && a.state == b.state,
        a.torrents_dir == b.torrents_dir && a.content_dir == b.content_dir && a.has_dht == b.has_dht,
        a.bits == b.bits && a.size == b.size && a.downloaded == b.downloaded && a.uploaded
            == b.uploaded && a.up == b.up,
        a.discovered == b.discovered && a.waiting == b.waiting,
        !(m is ReceiveBlock) ==> a.down == b.down,
        !(m is ConnectPeer) ==> a.contacted == b.contacted,
        !(m is TrackerUpdate) ==> a.trackers == b.trackers,
        !(m is Interest) && !(m is NotInterest) ==> a.choker == b.choker,
        !(m is PeerWithMetadata) && !(m is FillMetadataRequest) && !(m is ReceiveMetadata) && !(
        m is RejectedMetadataRequest) ==> a.metadata == b.metadata,
        !(m is Have) && !(m is ReceiveBlock) && !(m is ShouldBeInterested) && !(m is RequestBlock)
            && !(m is ClearPeerRequest) ==> a.picker == b.picker,
        !(m is ReceiveBlock) && !(m is RequestBlock) && !(m is ClearPeerRequest) && !(
        m is InboundPeer) && !(m is ConnectPeer) ==> a.peers == b.peers,
{
}

proof fn found(b: Books, pid: Pid, k: int)
    requires
        b.wf(),
        0 <= k < b.peers.len(),
        b.peers[k].pid == pid,
    ensures
        peer_position(b.peers, pid, 0) == Some(k),
{
    if peer_position(b.peers, pid, 0) is None {
        absent_peer(b.peers, pid, 0);
    } else {
        present_peer(b.peers, pid, 0);
        let j = peer_position(b.peers, pid, 0)->0;
        if j < k {
            assert(b.peers[j].pid != b.peers[k].pid);
        } else if k < j {
            assert(b.peers[k].pid != b.peers[j].pid);
        }
    }
}

// ---------------------------------------------------------------------------------------------
// Slots

/// A peer that becomes interested gets a slot where one is free, and else waits behind all that
/// wait already; nobody else gains or loses a slot or a place.
pub proof fn interested_peer_gets_a_slot_or_waits(s: ChokerState, pid: usize, other: usize)
    requires
        s.wf(),
        !s.unchoked.contains(pid),
        !s.queue.contains(pid),
    ensures
        ({
            let a = s.with_interest(pid);
            &&& a.slots == s.slots
            &&& other != pid ==> a.unchoked.contains(other) == s.unchoked.contains(other)
            &&& s.unchoked.len() < s.slots ==> a.unchoked.contains(pid) && a.queue == s.queue
            &&& s.unchoked.len() >= s.slots ==> !a.unchoked.contains(pid) && a.queue.len()
                == s.queue.len() + 1 && a.queue.last() == pid && a.queue.drop_last() == s.queue
        }),
{
    let a = s.with_interest(pid);
    if s.unchoked.len() >= s.slots {
        assert(a.queue.drop_last() =~= s.queue);
    }
}

/// A peer that has a slot or waits for one gains nothing by being interested once more.
pub proof fn interest_counts_once(s: ChokerState, pid: usize)
    requires
        s.wf(),
        s.unchoked.contains(pid) || s.queue.contains(pid),
    ensures
        s.with_interest(pid) == s,
{
    if s.queue.contains(pid) {
        assert(s.queue.to_set().contains(pid));
    }
}

/// A peer that loses interest or goes has no slot and waits for none. Its slot passes to the first
/// that waits, and where none waits it is free. Everybody else keeps their slot, or their order in
/// waiting.
pub proof fn slot_passes_to_the_first_in_line(s: ChokerState, pid: usize, other: usize)
    requires
        s.wf(),
    ensures
        ({
            let a = s.without_peer(pid);
            &&& a.slots == s.slots
            &&& !a.unchoked.contains(pid)
            &&& !a.queue.contains(pid)
            &&& s.unchoked.contains(pid) && s.queue.len() > 0 ==> a.unchoked.contains(s.queue[0])
                && a.queue == s.queue.skip(1)
            &&& s.unchoked.contains(pid) && s.queue.len() == 0 ==> a.queue.len() == 0
                && a.unchoked.len() + 1 == s.unchoked.len()
            &&& other != pid && s.unchoked.contains(other) ==> a.unchoked.contains(other)
            &&& other != pid && !s.unchoked.contains(other) && !(s.unchoked.contains(pid)
                && s.queue.len() > 0 && other == s.queue[0]) ==> !a.unchoked.contains(other)
                && a.queue.contains(other) == s.queue.contains(other)
            &&& !s.unchoked.contains(pid) ==> a.unchoked == s.unchoked && a.queue == s.queue.filter(
                |x: usize| x != pid,
            )
        }),
{
    let a = s.without_peer(pid);
    crate::choker::slots_are_never_overdrawn(s, pid);
    if s.unchoked.contains(pid) {
        if s.queue.len() > 0 {
            assert(a.queue =~= s.queue.skip(1));
            assert(s.queue[0] != pid);
            if a.queue.contains(pid) {
                let i = choose|i: int| 0 <= i < a.queue.len() && a.queue[i] == pid;
                assert(s.queue[i + 1] == pid);
            }
            if a.queue.contains(other) {
                let i = choose|i: int| 0 <= i < a.queue.len() && a.queue[i] == other;
                assert(s.queue[i + 1] == other);
            }
            if s.queue.contains(other) && other != s.queue[0] {
                let i = choose|i: int| 0 <= i < s.queue.len() && s.queue[i] == other;
                assert(a.queue[i - 1] == other);
            }
        }
    } else {
        filtered_queue(s.queue, pid);
        if s.queue.contains(pid) {
            let at = s.queue.index_of(pid);
            assert(s.queue[at] == pid);
            if a.queue.contains(pid) {
                let i = choose|i: int| 0 <= i < a.queue.len() && a.queue[i] == pid;
                if i < at {
                    assert(s.queue[i] == pid);
                } else {
                    assert(s.queue[i + 1] == pid);
                }
            }
            if a.queue.contains(other) {
                let i = choose|i: int| 0 <= i < a.queue.len() && a.queue[i] == other;
                if i < at {
                    assert(s.queue[i] == other);
                } else {
                    assert(s.queue[i + 1] == other);
                }
            }
            if s.queue.contains(other) && other != pid {
                let i = choose|i: int| 0 <= i < s.queue.len() && s.queue[i] == other;
                if i < at {
                    assert(a.queue[i] == other);
                } else {
                    assert(a.queue[i - 1] == other);
                }
            }
        }
    }
}

proof fn filtered_queue(q: Seq<usize>, pid: usize)
    requires
        q.no_duplicates(),
    ensures
        q.filter(|x: usize| x != pid) == if q.contains(pid) {
            q.remove(q.index_of(pid))
        } else {
            q
        },
    decreases q.len(),
{
    reveal(Seq::filter);
    let f = |x: usize| x != pid;
    if q.len() > 0 {
        let front = q.drop_last();
        assert(front.no_duplicates());
        filtered_queue(front, pid);
        if q.last() == pid {
            assert(q.index_of(pid) == q.len() - 1) by {
                assert(q[q.len() - 1] == pid);
            }
            if front.contains(pid) {
                let i = choose|i: int| 0 <= i < front.len() && front[i] == pid;
                assert(q[i] == pid);
            }
            assert(q.remove(q.len() - 1) =~= front);
            assert(q.contains(pid));
        } else if q.contains(pid) {
            let i = q.index_of(pid);
            assert(q[i] == pid);
            assert(front[i] == pid);
            assert(front.contains(pid));
            assert(front.index_of(pid) == i);
            assert(q.remove(i) =~= front.remove(i).push(q.last()));
        } else {
            if front.contains(pid) {
                let i = choose|i: int| 0 <= i < front.len() && front[i] == pid;
                assert(q[i] == pid);
            }
            assert(q =~= front.push(q.last()));
        }
    } else {
        assert(q.filter(f) =~= q);
    }
}

/// A peer that is interested is unchoked at once where a slot is free or it has one, and else waits
/// and is sent nothing.
pub proof fn interested_peer_is_unchoked(
    b: Books,
    pid: Pid,
    now: u64,
    a: Books,
    told: Seq<ActionView>,
    reply: TorrentReply,
    k: int,
)
    requires
        b.wf(),
        0 <= k < b.peers.len(),
        b.peers[k].pid == pid,
        b.handled(TorrentMessage::Interest(pid), now, a, told, reply),
    ensures
        ({
            let unchoked = b.choker.unchoked.contains(pid.0) || (!b.choker.queue.contains(pid.0)
                && b.choker.unchoked.len() < b.choker.slots);
            &&& a.choker.unchoked.contains(pid.0) == unchoked
            &&& !unchoked ==> a.choker.queue.contains(pid.0)
            &&& told == if unchoked {
                seq![ActionView::ToPeer(pid, PeerMessageView::SendUnchoke)]
            } else {
                Seq::empty()
            }
            &&& a.peers == b.peers && a.picker == b.picker && a.bits == b.bits
        }),
{
    found(b, pid, k);
    let s = b.choker;
    if s.unchoked.contains(pid.0) || s.queue.contains(pid.0) {
        interest_counts_once(s, pid.0);
        if s.queue.contains(pid.0) {
            let i = choose|i: int| 0 <= i < s.queue.len() && s.queue[i] == pid.0;
            assert(!s.unchoked.contains(s.queue[i]));
        }
    } else {
        interested_peer_gets_a_slot_or_waits(s, pid.0, pid.0);
        if s.unchoked.len() >= s.slots {
            assert(a.choker.queue[a.choker.queue.len() - 1] == pid.0);
        }
    }
}

/// A peer that loses interest has no slot then, and is choked where it had one.
pub proof fn uninterested_peer_is_choked(
    b: Books,
    pid: Pid,
    now: u64,
    a: Books,
    told: Seq<ActionView>,
    reply: TorrentReply,
    k: int,
)
    requires
        b.wf(),
        0 <= k < b.peers.len(),
        b.peers[k].pid == pid,
        b.handled(TorrentMessage::NotInterest(pid), now, a, told, reply),
    ensures
        !a.choker.unchoked.contains(pid.0),
        !a.choker.queue.contains(pid.0),
        b.choker.unchoked.contains(pid.0) && b.choker.queue.len() > 0
            ==> a.choker.unchoked.contains(b.choker.queue[0]),
        told == if b.choker.unchoked.contains(pid.0) {
            seq![ActionView::ToPeer(pid, PeerMessageView::SendChoke)]
        } else {
            Seq::empty()
        },
        a.peers == b.peers && a.picker == b.picker && a.bits == b.bits,
{
    found(b, pid, k);
    slot_passes_to_the_first_in_line(b.choker, pid.0, pid.0);
}

/// A decision on a peer that is there is sent to it and told of; one on a peer that is not there
/// leads to nothing.
pub proof fn decision_is_sent(b: Books, pid: Pid, choke: bool, k: int)
    requires
        b.wf(),
        0 <= k < b.peers.len(),
        b.peers[k].pid == pid,
    ensures
        b.choked(pid, true) == seq![
            ActionView::ToPeer(pid, PeerMessageView::SendChoke),
            ActionView::Peer(PeerEventView::Choked(b.peers[k].addr)),
        ],
        b.choked(pid, false) == seq![
            ActionView::ToPeer(pid, PeerMessageView::SendUnchoke),
            ActionView::Peer(PeerEventView::Unchoked(b.peers[k].addr)),
        ],
        b.all_choked(seq![pid], choke, 1) == b.choked(pid, choke),
{
    found(b, pid, k);
    reveal_with_fuel(Books::all_choked, 2);
    assert(b.all_choked(seq![pid], choke, 1) =~= b.choked(pid, choke));
}

/// Each decision of a list reaches its peer.
pub proof fn every_decision_is_sent(b: Books, l: Seq<Pid>, choke: bool, n: int, i: int, k: int)
    requires
        b.wf(),
        0 <= i < n <= l.len(),
        0 <= k < b.peers.len(),
        b.peers[k].pid == l[i],
    ensures
        b.all_choked(l, choke, n).contains(
            ActionView::ToPeer(
                l[i],
                if choke {
                    PeerMessageView::SendChoke
                } else {
                    PeerMessageView::SendUnchoke
                },
            ),
        ),
    decreases n,
{
    found(b, l[i], k);
    let x = ActionView::ToPeer(
        l[i],
        if choke {
            PeerMessageView::SendChoke
        } else {
            PeerMessageView::SendUnchoke
        },
    );
    let before = b.all_choked(l, choke, n - 1);
    let all = b.all_choked(l, choke, n);
    if i == n - 1 {
        assert(b.choked(l[i], choke)[0] == x);
        assert(all[before.len() as int] == x);
    } else {
        every_decision_is_sent(b, l, choke, n - 1, i, k);
        let j = choose|j: int| 0 <= j < before.len() && before[j] == x;
        assert(all[j] == x);
    }
}

// ---------------------------------------------------------------------------------------------
// Coming and going

/// A peer that is gone is counted no longer for its pieces, what was asked of it is given up, the
/// first that waits gets its slot and learns of it, and those who listen learn that it is gone.
/// Every other peer stays.
pub proof fn gone_peer_leaves_nothing(
    b: Books,
    pid: Pid,
    field: Bitfield,
    p: PickerState,
    k: int,
    j: int,
    i: int,
    x: BlockRequest,
)
    requires
        b.wf(),
        b.picker == Some(p),
        0 <= k < b.peers.len(),
        b.peers[k].pid == pid,
        0 <= j < b.peers.len(),
        j != k,
        0 <= i < p.pieces.len(),
    ensures
        ({
            let (a, told) = b.after_gone(pid, Some(field));
            let times = b.peers[k].pending.filter(
                |w: BlockInfo| w.index == x.piece_index && w.begin == x.begin && w.length == x.length,
            ).len();
            &&& a.peers.len() + 1 == b.peers.len()
            &&& a.peers[if j < k {
                j
            } else {
                j - 1
            }] == b.peers[j]
            &&& forall|y: int| 0 <= y < a.peers.len() ==> (#[trigger] a.peers[y]).pid != pid
            &&& a.picker matches Some(q) && {
                &&& q.pieces.len() == p.pieces.len()
                &&& q.pieces[i].num_peer == if i < field.num_pieces && field.holds(i)
                    && p.pieces[i].num_peer > 0 {
                    p.pieces[i].num_peer - 1
                } else {
                    p.pieces[i].num_peer
                }
                &&& q.heat_of(x) == if p.heat_of(x) > times {
                    p.heat_of(x) - times
                } else {
                    0
                }
            }
            &&& told.contains(
                ActionView::Peer(
                    PeerEventView::Disconnected(
                        b.peers[k].addr,
                        crate::events::peer::ReasonView::Other("Clean up"@),
                    ),
                ),
            )
            &&& b.choker.unchoked.contains(pid.0) && b.choker.queue.len() > 0
                && b.choker.queue[0] == b.peers[j].pid.0 ==> told.contains(
                ActionView::ToPeer(b.peers[j].pid, PeerMessageView::SendUnchoke),
            ) && a.choker.unchoked.contains(b.peers[j].pid.0)
            &&& told.last() == ActionView::Count(
                "net.peers_connected"@,
                MetricOp::DecrementGauge(1),
            )
        }),
{
    found(b, pid, k);
    found(b, b.peers[j].pid, j);
    let u = AvailabilityUpdate::Bitfield(&field);
    assert(p.pieces[i].wf());
    going_peer_is_not_counted(p, u, i);
    let fewer = p.fewer_peers(u);
    assert(fewer.heat == p.heat);
    let l = requests_of(b.peers[k].pending);
    crate::laws::picker::fewer_peers_is_wf(p, u);
    pending_requests_cool(fewer, b.peers[k].pending, x);
    crate::laws::picker::given_up_requests_keep_counts(fewer, l, l.len() as int, i);
    let (a, told) = b.after_gone(pid, Some(field));
    assert forall|y: int| 0 <= y < a.peers.len() implies (#[trigger] a.peers[y]).pid != pid by {
        let z = if y < k {
            y
        } else {
            y + 1
        };
        assert(a.peers[y] == b.peers[z]);
        if z < k {
            assert(b.peers[z].pid != b.peers[k].pid);
        } else {
            assert(b.peers[k].pid != b.peers[z].pid);
        }
    }
    let gone = ActionView::Peer(
        PeerEventView::Disconnected(
            b.peers[k].addr,
            crate::events::peer::ReasonView::Other("Clean up"@),
        ),
    );
    assert(told[told.len() - 2] == gone);
    if b.choker.unchoked.contains(pid.0) && b.choker.queue.len() > 0 && b.choker.queue[0]
        == b.peers[j].pid.0 {
        slot_passes_to_the_first_in_line(b.choker, pid.0, pid.0);
        assert(told[0] == ActionView::ToPeer(b.peers[j].pid, PeerMessageView::SendUnchoke));
    }
}

/// A peer that comes in is the last of the peers from then on: choked, not interested and asked for
/// nothing. Nothing else changes.
pub proof fn coming_peer_begins_choked(
    b: Books,
    pid: Pid,
    remote_addr: SocketAddr,
    supports_ext: bool,
    peer_id: PeerID,
    dht_enabled: bool,
    now: u64,
    a: Books,
    told: Seq<ActionView>,
    reply: TorrentReply,
)
    requires
        b.wf(),
        b.handled(
            TorrentMessage::InboundPeer { pid, remote_addr, supports_ext, peer_id, dht_enabled },
            now,
            a,
            told,
            reply,
        ),
    ensures
        told.len() == 0,
        a.peers.len() == b.peers.len() + 1,
        a.peers.drop_last() == b.peers,
        ({
            let p = a.peers.last();
            &&& p.pid == pid && p.addr == remote_addr && p.extended == supports_ext && p.dht
                == dht_enabled
            &&& p.info.peer_id == peer_id && p.info.source is Inbound
            &&& p.info.remote_choking && p.info.am_choking
            &&& !p.info.remote_interested && !p.info.am_interested && !p.info.snubbed
            &&& p.pending.len() == 0
        }),
        a.picker == b.picker && a.choker == b.choker && a.bits == b.bits && a.waiting == b.waiting,
{
    assert(a.peers.drop_last() =~= b.peers);
}

/// A peer that is to be connected to is, and is the last of the peers from then on: choked, not
/// interested and asked for nothing.
pub proof fn wanted_peer_is_connected_to(
    b: Books,
    pid: Pid,
    addr: SocketAddr,
    now: u64,
    a: Books,
    told: Seq<ActionView>,
    reply: TorrentReply,
)
    requires
        b.wf(),
        b.handled(TorrentMessage::ConnectPeer { pid, addr }, now, a, told, reply),
    ensures
        told == seq![ActionView::Connect(pid, addr)],
        a.peers.len() == b.peers.len() + 1,
        a.peers.drop_last() == b.peers,
        ({
            let p = a.peers.last();
            &&& p.pid == pid && p.addr == addr
            &&& p.info.source is Outbound
            &&& p.info.remote_choking && p.info.am_choking
            &&& !p.info.remote_interested && !p.info.am_interested && !p.info.snubbed
            &&& p.pending.len() == 0
        }),
        a.picker == b.picker && a.choker == b.choker && a.bits == b.bits && a.waiting == b.waiting,
        0 <= b.contacted < usize::MAX ==> a.contacted == b.contacted + 1,
{
    assert(a.peers.drop_last() =~= b.peers);
    if 0 <= b.contacted < usize::MAX {
        vstd::arithmetic::div_mod::lemma_small_mod(
            (b.contacted + 1) as nat,
            (usize::MAX + 1) as nat,
        );
    }
}

/// The addresses that wait are connected to from the last one on, as many as there is room for,
/// each under a number of its own.
pub proof fn waiting_addresses_are_connected_to(b: Books, first: int, n: int, i: int)
    requires
        0 <= i < n,
        i < b.waiting.len(),
        0 <= first,
        first + n <= usize::MAX,
    ensures
        ({
            let (a, told) = b.after_connects(first, n);
            let made = if n < b.waiting.len() {
                n
            } else {
                b.waiting.len() as int
            };
            &&& told.len() == made
            &&& told[i] == ActionView::Connect(
                Pid((first + i) as usize),
                b.waiting[b.waiting.len() - 1 - i],
            )
            &&& a.waiting == b.waiting.take(b.waiting.len() - made)
            &&& a.peers.len() == b.peers.len() + made
            &&& a.peers.take(b.peers.len() as int) == b.peers
            &&& a.peers[b.peers.len() + i].pid == Pid((first + i) as usize)
            &&& a.peers[b.peers.len() + i].addr == b.waiting[b.waiting.len() - 1 - i]
        }),
    decreases n,
{
    let (s, one) = (Books { waiting: b.waiting.drop_last(), ..b }).after_connect(
        Pid(first as usize),
        b.waiting.last(),
        b.client_id,
    );
    let (a, told) = b.after_connects(first, n);
    let (t, more) = s.after_connects(first + 1, n - 1);
    assert(told == one + more);
    if n > 1 && s.waiting.len() > 0 {
        let j = if i == 0 {
            0
        } else {
            i - 1
        };
        waiting_addresses_are_connected_to(s, first + 1, n - 1, j);
        if i > 0 {
            assert(s.waiting[s.waiting.len() - 1 - j] == b.waiting[b.waiting.len() - 1 - i]);
        }
        assert(a.peers.take(b.peers.len() as int) =~= b.peers) by {
            assert(a.peers.take(s.peers.len() as int) == s.peers);
            assert forall|x: int| 0 <= x < b.peers.len() implies a.peers[x] == b.peers[x] by {
                assert(a.peers.take(s.peers.len() as int)[x] == s.peers[x]);
            }
        }
        assert(a.peers[b.peers.len() as int] == s.peers[b.peers.len() as int]) by {
            assert(a.peers.take(s.peers.len() as int)[b.peers.len() as int]
                == s.peers[b.peers.len() as int]);
        }
        let made = if n < b.waiting.len() {
            n
        } else {
            b.waiting.len() as int
        };
        assert(a.waiting =~= b.waiting.take(b.waiting.len() - made));
    } else {
        assert(t == s && more =~= Seq::<ActionView>::empty());
        assert(a.peers.take(b.peers.len() as int) =~= b.peers);
        assert(a.waiting =~= b.waiting.take(b.waiting.len() - 1));
    }
}

/// An address that was never heard of waits to be connected to, one that was does not wait once
/// more, and those that wait already keep their places.
pub proof fn new_addresses_wait(b: Books, l: Seq<SocketAddr>, x: SocketAddr)
    ensures
        ({
            let a = b.after_discovered(l);
            &&& a.discovered.contains(x) <==> b.discovered.contains(x) || l.contains(x)
            &&& a.waiting.contains(x) <==> b.waiting.contains(x) || (l.contains(x)
                && !b.discovered.contains(x))
            &&& a.waiting.len() >= b.waiting.len()
            &&& a.waiting.take(b.waiting.len() as int) == b.waiting
            &&& a.peers == b.peers
        }),
{
    new_ones_wait(b.discovered, b.waiting, l, l.len() as int, x);
    let a = b.after_discovered(l);
    if l.contains(x) {
        let i = choose|i: int| 0 <= i < l.len() && l[i] == x;
        assert(l[i] == x);
    }
}

proof fn new_ones_wait(
    known: Seq<SocketAddr>,
    waiting: Seq<SocketAddr>,
    l: Seq<SocketAddr>,
    n: int,
    x: SocketAddr,
)
    requires
        0 <= n <= l.len(),
    ensures
        ({
            let (k, w) = heard(known, waiting, l, n);
            let named = exists|i: int| 0 <= i < n && #[trigger] l[i] == x;
            &&& k.contains(x) <==> known.contains(x) || named
            &&& w.contains(x) <==> waiting.contains(x) || (named && !known.contains(x))
            &&& w.len() >= waiting.len()
            &&& w.take(waiting.len() as int) == waiting
        }),
    decreases n,
{
    let (k, w) = heard(known, waiting, l, n);
    if n > 0 {
        new_ones_wait(known, waiting, l, n - 1, x);
        let (k0, w0) = heard(known, waiting, l, n - 1);
        if !k0.contains(l[n - 1]) {
            assert(k == k0.push(l[n - 1]) && w == w0.push(l[n - 1]));
            contains_pushed(k0, l[n - 1], x);
            contains_pushed(w0, l[n - 1], x);
            assert(w.take(waiting.len() as int) =~= w0.take(waiting.len() as int));
        }
        if l[n - 1] == x {
            assert(l[n - 1] == x);
        }
        let before = exists|i: int| 0 <= i < n - 1 && #[trigger] l[i] == x;
        let named = exists|i: int| 0 <= i < n && #[trigger] l[i] == x;
        if before {
            let i = choose|i: int| 0 <= i < n - 1 && #[trigger] l[i] == x;
            assert(l[i] == x && i < n);
        }
        if named && l[n - 1] != x {
            let i = choose|i: int| 0 <= i < n && #[trigger] l[i] == x;
            assert(i < n - 1);
        }
    } else {
        assert(w.take(waiting.len() as int) =~= waiting);
    }
}

proof fn contains_pushed(s: Seq<SocketAddr>, last: SocketAddr, x: SocketAddr)
    ensures
        s.push(last).contains(x) <==> s.contains(x) || x == last,
{
    let t = s.push(last);
    if s.contains(x) {
        let i = choose|i: int| 0 <= i < s.len() && s[i] == x;
        assert(t[i] == x);
    }
    if x == last {
        assert(t[s.len() as int] == x);
    }
    if t.contains(x) {
        let i = choose|i: int| 0 <= i < t.len() && t[i] == x;
        if i < s.len() {
            assert(s[i] == x);
        }
    }
}

/// What a peer tells of itself is noted of that peer and of no other, and what it was asked for
/// stays.
pub proof fn peer_info_is_noted(
    b: Books,
    pid: Pid,
    info: PeerInfo,
    extended: bool,
    dht: bool,
    k: int,
    j: int,
)
    requires
        b.wf(),
        0 <= k < b.peers.len(),
        b.peers[k].pid == pid,
        0 <= j < b.peers.len(),
        j != k,
    ensures
        ({
            let a = b.after_info(pid, info, extended, dht);
            &&& a.peers.len() == b.peers.len()
            &&& a.peers[k].info == info && a.peers[k].extended == extended && a.peers[k].dht == dht
            &&& a.peers[k].pid == pid && a.peers[k].addr == b.peers[k].addr && a.peers[k].pending
                == b.peers[k].pending
            &&& a.peers[j] == b.peers[j]
        }),
{
    found(b, pid, k);
}

/// A command reaches a peer that is there, and only where it is there; one for all reaches each.
pub proof fn command_reaches_its_peer(b: Books, pid: Pid, m: PeerMessageView, k: int)
    requires
        b.wf(),
        0 <= k < b.peers.len(),
    ensures
        b.peers[k].pid == pid ==> b.to_peer(pid, m) == seq![ActionView::ToPeer(pid, m)],
        (forall|y: int| 0 <= y < b.peers.len() ==> (#[trigger] b.peers[y]).pid != pid)
            ==> b.to_peer(pid, m).len() == 0,
        b.to_all(m).len() == b.peers.len(),
        b.to_all(m)[k] == ActionView::ToPeer(b.peers[k].pid, m),
{
    if b.peers[k].pid == pid {
        found(b, pid, k);
    }
    if peer_position(b.peers, pid, 0) is Some {
        present_peer(b.peers, pid, 0);
    }
}

// ---------------------------------------------------------------------------------------------
// Trackers

proof fn first_url(s: Seq<(Seq<char>, TrackerView)>, url: Seq<char>, i: int)
    requires
        0 <= i,
    ensures
        match url_position(s, url, i) {
            Some(k) => i <= k < s.len() && s[k].0 == url && forall|j: int|
                i <= j < k ==> (#[trigger] s[j]).0 != url,
            None => forall|j: int| i <= j < s.len() ==> (#[trigger] s[j]).0 != url,
        },
    decreases s.len() - i,
{
    if i < s.len() && s[i].0 != url {
        first_url(s, url, i + 1);
    }
}

/// What is told of a tracker is noted of that tracker and of no other; its url and its tier stay.
pub proof fn tracker_status_is_noted(
    b: Books,
    url: String,
    status: TrackerState,
    seeder_count: Option<u32>,
    leecher_count: Option<u32>,
    peers_received: u32,
    error: Option<String>,
    now: u64,
    a: Books,
    told: Seq<ActionView>,
    reply: TorrentReply,
    k: int,
    j: int,
)
    requires
        b.wf(),
        b.handled(
            TorrentMessage::TrackerUpdate {
                url,
                status,
                seeder_count,
                leecher_count,
                peers_received,
                error,
            },
            now,
            a,
            told,
            reply,
        ),
        0 <= k < b.trackers.len(),
        b.trackers[k].0 == url@,
        0 <= j < b.trackers.len(),
        j != k,
        forall|y: int| 0 <= y < k ==> (#[trigger] b.trackers[y]).0 != url@,
    ensures
        told.len() == 0,
        a.trackers.len() == b.trackers.len(),
        a.trackers[j] == b.trackers[j],
        a.trackers[k].0 == url@,
        a.trackers[k].1.status == status,
        a.trackers[k].1.seeder_count == seeder_count,
        a.trackers[k].1.leecher_count == leecher_count,
        a.trackers[k].1.peers_received == peers_received,
        a.trackers[k].1.last_error == opt_text(error),
        a.trackers[k].1.url == b.trackers[k].1.url,
        a.trackers[k].1.tier == b.trackers[k].1.tier,
{
    first_url(b.trackers, url@, 0);
}

/// Every url that can be read has a tracker under its normal form, and no tracker comes from
/// anything else; none occurs twice.
pub proof fn readable_urls_have_trackers(
    l: Seq<(Seq<char>, Result<UrlView, Seq<char>>)>,
    n: int,
    x: Seq<char>,
)
    requires
        0 <= n <= l.len(),
    ensures
        ({
            let t = crate::torrent::control::trackers_of(l, n);
            &&& (exists|k: int| 0 <= k < t.len() && (#[trigger] t[k]).0 == x) <==> exists|i: int|
                0 <= i < n && ((#[trigger] l[i]).1 matches Ok(u) && u.text == x)
            &&& forall|i: int, j: int|
                0 <= i < j < t.len() ==> (#[trigger] t[i]).0 != (#[trigger] t[j]).0
            &&& forall|k: int|
                0 <= k < t.len() ==> (#[trigger] t[k]).1.status is Idle && t[k].1.peers_received == 0
        }),
    decreases n,
{
    let t = crate::torrent::control::trackers_of(l, n);
    if n > 0 {
        readable_urls_have_trackers(l, n - 1, x);
        let s = crate::torrent::control::trackers_of(l, n - 1);
        let named = exists|i: int| 0 <= i < n && ((#[trigger] l[i]).1 matches Ok(u) && u.text == x);
        let before = exists|i: int|
            0 <= i < n - 1 && ((#[trigger] l[i]).1 matches Ok(u) && u.text == x);
        match l[n - 1].1 {
            Ok(u) => {
                one_more_tracker(s, u.text, TrackerView::idle(l[n - 1].0), x);
                if u.text == x {
                    assert(l[n - 1].1->Ok_0.text == x);
                    assert(named);
                }
            },
            Err(_) => {},
        }
        if before {
            let i = choose|i: int|
                0 <= i < n - 1 && ((#[trigger] l[i]).1 matches Ok(u) && u.text == x);
            assert(l[i].1->Ok_0.text == x);
            assert(named);
        }
        if named {
            let i = choose|i: int| 0 <= i < n && ((#[trigger] l[i]).1 matches Ok(u) && u.text == x);
            if i < n - 1 {
                assert(l[i].1->Ok_0.text == x);
                assert(before);
            }
        }
    }
}

proof fn one_more_tracker(s: Seq<(Seq<char>, TrackerView)>, url: Seq<char>, v: TrackerView, x: Seq<char>)
    requires
        forall|i: int, j: int| 0 <= i < j < s.len() ==> (#[trigger] s[i]).0 != (#[trigger] s[j]).0,
        v.status is Idle,
        v.peers_received == 0,
        forall|k: int|
            0 <= k < s.len() ==> (#[trigger] s[k]).1.status is Idle && s[k].1.peers_received == 0,
    ensures
        ({
            let t = with_tracker(s, url, v);
            &&& (exists|k: int| 0 <= k < t.len() && (#[trigger] t[k]).0 == x) <==> x == url || exists|
                k: int,
            |
                0 <= k < s.len() && (#[trigger] s[k]).0 == x
            &&& forall|i: int, j: int|
                0 <= i < j < t.len() ==> (#[trigger] t[i]).0 != (#[trigger] t[j]).0
            &&& forall|k: int|
                0 <= k < t.len() ==> (#[trigger] t[k]).1.status is Idle && t[k].1.peers_received == 0
        }),
{
    let t = with_tracker(s, url, v);
    first_url(s, url, 0);
    match url_position(s, url, 0) {
        Some(k) => {
            assert(t[k].0 == url);
            assert forall|i: int| 0 <= i < s.len() implies (#[trigger] t[i]).0 == s[i].0 by {}
            if exists|y: int| 0 <= y < s.len() && (#[trigger] s[y]).0 == x {
                let y = choose|y: int| 0 <= y < s.len() && (#[trigger] s[y]).0 == x;
                assert(t[y].0 == x);
            }
        },
        None => {
            assert(t[s.len() as int].0 == url);
            if exists|y: int| 0 <= y < s.len() && (#[trigger] s[y]).0 == x {
                let y = choose|y: int| 0 <= y < s.len() && (#[trigger] s[y]).0 == x;
                assert(t[y].0 == x);
            }
            if exists|y: int| 0 <= y < t.len() && (#[trigger] t[y]).0 == x {
                let y = choose|y: int| 0 <= y < t.len() && (#[trigger] t[y]).0 == x;
                if y < s.len() {
                    assert(s[y].0 == x);
                }
            }
        },
    }
}

/// Every url of a magnet link has a tracker, and no tracker comes from anything else; none occurs
/// twice.
pub proof fn magnet_urls_have_trackers(l: Seq<Seq<char>>, n: int, x: Seq<char>)
    requires
        0 <= n <= l.len(),
    ensures
        ({
            let t = crate::torrent::control::magnet_trackers(l, n);
            &&& (exists|k: int| 0 <= k < t.len() && (#[trigger] t[k]).0 == x) <==> exists|i: int|
                0 <= i < n && #[trigger] l[i] == x
            &&& forall|i: int, j: int|
                0 <= i < j < t.len() ==> (#[trigger] t[i]).0 != (#[trigger] t[j]).0
            &&& forall|k: int|
                0 <= k < t.len() ==> (#[trigger] t[k]).1.status is Idle && t[k].1.peers_received == 0
        }),
    decreases n,
{
    if n > 0 {
        magnet_urls_have_trackers(l, n - 1, x);
        let s = crate::torrent::control::magnet_trackers(l, n - 1);
        one_more_tracker(s, l[n - 1], TrackerView::idle(l[n - 1]), x);
        let named = exists|i: int| 0 <= i < n && #[trigger] l[i] == x;
        let before = exists|i: int| 0 <= i < n - 1 && #[trigger] l[i] == x;
        if before {
            let i = choose|i: int| 0 <= i < n - 1 && #[trigger] l[i] == x;
            assert(l[i] == x);
            assert(named);
        }
        if named {
            let i = choose|i: int| 0 <= i < n && #[trigger] l[i] == x;
            if i < n - 1 {
                assert(before);
            }
        }
    }
}

/// A peer that goes without having told its pieces leaves the counts of the pieces as they are.
pub proof fn silent_peer_leaves_the_pieces(b: Books, pid: Pid)
    ensures
        b.after_gone(pid, None).0.picker == b.picker,
        b.after_gone(pid, None).0.bits == b.bits,
        b.after_gone(pid, None).0.state == b.state,
        b.after_gone(pid, None).0.waiting == b.waiting,
{
}

/// Which messages a torrent is ready for: words of interest, questions and answers on metadata
/// always, and those on pieces where there are pieces and their counts have room.
pub proof fn torrent_is_ready_for_its_messages(b: Books, m: TorrentMessage, p: PickerState, i: int)
    ensures
        m is Interest || m is NotInterest || m is ClearPeerRequest || m is RemoteBlockRequest
            || m is ReceiveMetadata || m is RejectedMetadataRequest || m is ValidMetadata
            || m is DhtAddNode || m is TrackerUpdate || m is GetPeerSnapshots
            || m is GetTrackerStatuses ==> b.admits(m),
        m is Have && b.picker is None ==> !b.admits(m),
        m is Have && b.picker == Some(p) && m->Have_piece_idx >= p.pieces.len() ==> b.admits(m),
        m is Have && b.picker == Some(p) && i == m->Have_piece_idx && i < p.pieces.len() ==> b.admits(
            m,
        ) == (p.pieces[i].num_peer < usize::MAX),
        m is PeerWithMetadata ==> b.admits(m) == (m->PeerWithMetadata_metadata_size <= isize::MAX),
        (m is InboundPeer && 0 <= i < b.peers.len() && b.peers[i].pid == m->InboundPeer_pid)
            ==> !b.admits(m),
        (m is ConnectPeer && 0 <= i < b.peers.len() && b.peers[i].pid == m->ConnectPeer_pid)
            ==> !b.admits(m),
        m is InboundPeer && (forall|k: int|
            0 <= k < b.peers.len() ==> (#[trigger] b.peers[k]).pid != m->InboundPeer_pid)
            ==> b.admits(m),
        m is ConnectPeer && (forall|k: int|
            0 <= k < b.peers.len() ==> (#[trigger] b.peers[k]).pid != m->ConnectPeer_pid)
            ==> b.admits(m),
{
    if m is InboundPeer {
        position_is_a_peer(b, m->InboundPeer_pid);
    }
    if m is ConnectPeer {
        position_is_a_peer(b, m->ConnectPeer_pid);
    }
}

proof fn position_is_a_peer(b: Books, pid: Pid)
    ensures
        peer_position(b.peers, pid, 0) is Some <==> exists|k: int|
            0 <= k < b.peers.len() && (#[trigger] b.peers[k]).pid == pid,
{
    if peer_position(b.peers, pid, 0) is None {
        absent_peer(b.peers, pid, 0);
    } else {
        present_peer(b.peers, pid, 0);
        let k = peer_position(b.peers, pid, 0)->0;
        assert(b.peers[k].pid == pid);
    }
}

/// What comes of actions, peers and news touches what it is about and nothing else.
pub proof fn events_touch_what_they_are_about(
    b: Books,
    pid: Pid,
    index: u32,
    piece: Seq<u8>,
    verdict: Option<bool>,
    yes: bool,
    fetched: bool,
    field: Option<Bitfield>,
    info: PeerInfo,
    l: Seq<SocketAddr>,
)
    ensures
        ({
            let a = b.after_verified(index, piece, verdict).0;
            a == (Books { picker: a.picker, bits: a.bits, downloaded: a.downloaded, ..b })
        }),
        ({
            let a = b.after_written(index, yes).0;
            a == (Books { picker: a.picker, state: a.state, ..b })
        }),
        ({
            let a = b.after_registered(yes, fetched).0;
            a == (Books { picker: a.picker, bits: a.bits, size: a.size, ..b })
        }),
        ({
            let a = b.after_seed_registered(yes);
            a == (Books { picker: a.picker, ..b })
        }),
        ({
            let a = b.after_gone(pid, field).0;
            a == (Books { choker: a.choker, peers: a.peers, picker: a.picker, ..b })
        }),
        ({
            let a = b.after_info(pid, info, yes, fetched);
            a == (Books { peers: a.peers, ..b })
        }),
        ({
            let a = b.after_discovered(l);
            a == (Books { discovered: a.discovered, waiting: a.waiting, ..b })
        }),
{
}

/// Connections to addresses that wait touch the peers, their count and those that wait.
pub proof fn connections_touch_the_peers(b: Books, first: int, n: int)
    ensures
        ({
            let a = b.after_connects(first, n).0;
            a == (Books { waiting: a.waiting, contacted: a.contacted, peers: a.peers, ..b })
        }),
    decreases n,
{
    if n > 0 && b.waiting.len() > 0 {
        let s = (Books { waiting: b.waiting.drop_last(), ..b }).after_connect(
            Pid(first as usize),
            b.waiting.last(),
            b.client_id,
        ).0;
        connections_touch_the_peers(s, first + 1, n - 1);
    }
}

/// Nothing is sent to a peer that is not there, and nothing that concerns it changes the books.
pub proof fn absent_peer_is_left_alone(
    b: Books,
    pid: Pid,
    m: PeerMessageView,
    block: BlockInfo,
    blocks: Seq<BlockInfo>,
    info: PeerInfo,
    choke: bool,
)
    requires
        forall|k: int| 0 <= k < b.peers.len() ==> (#[trigger] b.peers[k]).pid != pid,
    ensures
        b.to_peer(pid, m).len() == 0,
        b.choked(pid, choke).len() == 0,
        b.block_wanted(pid, block).len() == 0,
        b.after_info(pid, info, choke, choke) == b,
        b.after_request(pid, blocks) == b,
        b.after_clear(pid) == b,
        b.after_gone(pid, None).0.peers == b.peers,
        b.without_pending(pid, block) == b.peers,
{
    position_is_a_peer(b, pid);
}

/// A torrent without pieces counts none: what peers have and are asked for changes nothing.
pub proof fn unknown_pieces_are_not_counted(
    b: Books,
    i: u32,
    field: Bitfield,
    pid: Pid,
    blocks: Seq<BlockInfo>,
)
    requires
        b.picker is None,
    ensures
        b.after_have(i) == b,
        b.after_bitfield(field) == b,
        b.after_request(pid, blocks) == b,
        b.after_clear(pid) == b,
        b.after_gone(pid, Some(field)).0.picker is None,
        !b.complete(),
{
}

} // verus!
