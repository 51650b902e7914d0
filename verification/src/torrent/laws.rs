//! What holds of every torrent.

use crate::bitfield::Bitfield;
use crate::hashing::sha1_digest;
use crate::metadata::Known;
use crate::metrics::progress::StateView;
use crate::net::SocketAddr;
use crate::peer::PeerMessageView;
use crate::piece_picker::PieceState;
use crate::protocol::BlockInfo;
use crate::torrent::books::{absent_peer, heard, others, peer_position, present_peer, Books};
use crate::torrent::{ActionView, Pid};
use crate::events::session::SessionEventView;
use vstd::prelude::*;

verus! {

/// A piece is there exactly when it was held against its hash and was right: otherwise it is to be
/// fetched anew and no bit is set. No other piece is touched.
pub proof fn only_right_pieces_are_kept(
    b: Books,
    index: u32,
    piece: Seq<u8>,
    verdict: Option<bool>,
    other: int,
)
    requires
        b.wf(),
        b.expects(index),
        0 <= other < (b.picker->0).pieces.len(),
    ensures
        ({
            let a = b.after_verified(index, piece, verdict).0;
            let right = verdict == Some(true);
            &&& (a.picker->0).pieces[index as int].state == if right {
                PieceState::Have
            } else {
                PieceState::NotRequested
            }
            &&& a.bits[index as int] == (right || b.bits[index as int])
            &&& other != index ==> (a.picker->0).pieces[other] == (b.picker->0).pieces[other]
            &&& other != index && other < b.bits.len() ==> a.bits[other] == b.bits[other]
        }),
{
}

/// Every peer is told of a piece that was right, and no peer of one that was not.
pub proof fn right_pieces_are_told_of(
    b: Books,
    index: u32,
    piece: Seq<u8>,
    verdict: Option<bool>,
    k: int,
)
    requires
        b.wf(),
        b.expects(index),
        0 <= k < b.peers.len(),
    ensures
        b.after_verified(index, piece, verdict).1.contains(
            ActionView::ToPeer(b.peers[k].pid, PeerMessageView::SendHave(index)),
        ) == (verdict == Some(true)),
{
    let told = b.after_verified(index, piece, verdict).1;
    let have = ActionView::ToPeer(b.peers[k].pid, PeerMessageView::SendHave(index));
    if verdict == Some(true) {
        assert(told[k + 1] == have);
    }
}

/// A torrent seeds once all its pieces are there, and the session learns of it then and only then.
pub proof fn complete_torrent_seeds(b: Books, index: u32, written: bool)
    requires
        b.wf(),
        b.expects(index),
    ensures
        ({
            let (a, told) = b.after_written(index, written);
            let news = ActionView::Session(SessionEventView::TorrentCompleted(b.hash));
            &&& a.complete() ==> a.state == StateView::Seeding && told.contains(news)
            &&& !a.complete() ==> a.state == b.state && !told.contains(news)
            &&& !written ==> !a.complete()
        }),
{
    let (a, told) = b.after_written(index, written);
    if a.complete() {
        assert(told[2] == ActionView::Session(SessionEventView::TorrentCompleted(b.hash)));
    }
    if !written {
        assert((a.picker->0).pieces[index as int].state == PieceState::NotRequested);
    }
}

proof fn others_leave_it_out(s: Seq<BlockInfo>, b: BlockInfo, n: int)
    requires
        0 <= n <= s.len(),
    ensures
        !others(s, b, n).contains(b),
        forall|x: BlockInfo|
            x != b ==> #[trigger] others(s, b, n).contains(x) == s.take(n).contains(x),
    decreases n,
{
    if n > 0 {
        others_leave_it_out(s, b, n - 1);
        let less = others(s, b, n - 1);
        let now = others(s, b, n);
        assert(s.take(n) =~= s.take(n - 1).push(s[n - 1]));
        assert forall|x: BlockInfo| x != b implies #[trigger] now.contains(x) == s.take(n).contains(
            x,
        ) by {
            pushed_contains(s.take(n - 1), s[n - 1], x);
            if s[n - 1] != b {
                pushed_contains(less, s[n - 1], x);
            }
        }
        if s[n - 1] != b {
            pushed_contains(less, s[n - 1], b);
        }
    } else {
        assert(s.take(0) =~= Seq::<BlockInfo>::empty());
    }
}

proof fn pushed_contains<A>(s: Seq<A>, last: A, x: A)
    ensures
        s.push(last).contains(x) == (s.contains(x) || x == last),
{
    let t = s.push(last);
    if s.contains(x) {
        let k = s.index_of(x);
        assert(t[k] == x);
    }
    if x == last {
        assert(t[s.len() as int] == x);
    }
    if t.contains(x) {
        let k = t.index_of(x);
        if k < s.len() {
            assert(s[k] == x);
        }
    }
}

/// A block that has come from a peer is no longer awaited from it; what else was asked of the peer
/// still is.
pub proof fn answered_block_is_not_awaited(
    b: Books,
    pid: Pid,
    index: u32,
    begin: u32,
    data: Seq<u8>,
    other: BlockInfo,
)
    requires
        b.wf(),
        data.len() <= u32::MAX,
        peer_position(b.peers, pid, 0) is Some,
    ensures
        ({
            let k = peer_position(b.peers, pid, 0)->0;
            let a = b.after_block(pid, index, begin, data).0;
            let came = BlockInfo { index, begin, length: data.len() as u32 };
            &&& !a.peers[k].pending.contains(came)
            &&& other != came ==> a.peers[k].pending.contains(other) == b.peers[k].pending.contains(
                other,
            )
        }),
{
    let k = peer_position(b.peers, pid, 0)->0;
    let came = BlockInfo { index, begin, length: data.len() as u32 };
    let old = b.peers[k].pending;
    present_peer(b.peers, pid, 0);
    others_leave_it_out(old, came, old.len() as int);
    assert(old.take(old.len() as int) =~= old);
}

/// A peer that is gone is not among the peers, has no slot and waits for none.
pub proof fn gone_peer_is_forgotten(b: Books, pid: Pid, field: Option<Bitfield>)
    requires
        b.wf(),
    ensures
        ({
            let a = b.after_gone(pid, field).0;
            &&& peer_position(a.peers, pid, 0) is None
            &&& !a.choker.unchoked.contains(pid.0)
            &&& !a.choker.queue.contains(pid.0)
        }),
{
    let a = b.after_gone(pid, field).0;
    if peer_position(a.peers, pid, 0) is Some {
        present_peer(a.peers, pid, 0);
        let j = peer_position(a.peers, pid, 0)->0;
        match peer_position(b.peers, pid, 0) {
            Some(k) => {
                present_peer(b.peers, pid, 0);
                assert(b.peers[k].pid == pid);
                if j < k {
                    assert(a.peers[j] == b.peers[j]);
                } else {
                    assert(a.peers[j] == b.peers[j + 1]);
                }
            },
            None => {
                absent_peer(b.peers, pid, 0);
            },
        }
    }
    let c = b.choker;
    if c.unchoked.contains(pid.0) {
        if c.queue.len() > 0 {
            assert(c.queue[0] != pid.0);
            if a.choker.queue.contains(pid.0) {
                let i = a.choker.queue.index_of(pid.0);
                assert(c.queue[i + 1] == pid.0);
            }
        }
    } else if c.queue.contains(pid.0) {
        let at = c.queue.index_of(pid.0);
        if a.choker.queue.contains(pid.0) {
            let i = a.choker.queue.index_of(pid.0);
            if i < at {
                assert(c.queue[i] == pid.0);
            } else {
                assert(c.queue[i + 1] == pid.0);
            }
        }
    }
}

proof fn heard_once(known: Seq<SocketAddr>, waiting: Seq<SocketAddr>, l: Seq<SocketAddr>, n: int)
    requires
        0 <= n <= l.len(),
    ensures
        ({
            let (k, w) = heard(known, waiting, l, n);
            &&& known.no_duplicates() ==> k.no_duplicates()
            &&& forall|i: int| 0 <= i < n ==> k.contains(#[trigger] l[i])
            &&& forall|a: SocketAddr| known.contains(a) ==> #[trigger] k.contains(a)
        }),
    decreases n,
{
    if n > 0 {
        heard_once(known, waiting, l, n - 1);
        let (k, w) = heard(known, waiting, l, n - 1);
        let (k2, w2) = heard(known, waiting, l, n);
        assert forall|a: SocketAddr| k.contains(a) implies #[trigger] k2.contains(a) by {
            pushed_contains(k, l[n - 1], a);
        }
        pushed_contains(k, l[n - 1], l[n - 1]);
    }
}

proof fn nothing_new(known: Seq<SocketAddr>, waiting: Seq<SocketAddr>, l: Seq<SocketAddr>, n: int)
    requires
        0 <= n <= l.len(),
        forall|i: int| 0 <= i < l.len() ==> known.contains(#[trigger] l[i]),
    ensures
        heard(known, waiting, l, n) == (known, waiting),
    decreases n,
{
    if n > 0 {
        nothing_new(known, waiting, l, n - 1);
    }
}

/// An address that is heard of again changes nothing: no peer is connected to twice on that
/// account.
pub proof fn addresses_are_heard_of_once(b: Books, l: Seq<SocketAddr>)
    ensures
        b.after_discovered(l).after_discovered(l) == b.after_discovered(l),
        b.discovered.no_duplicates() ==> b.after_discovered(l).discovered.no_duplicates(),
{
    heard_once(b.discovered, b.waiting, l, l.len() as int);
    let a = b.after_discovered(l);
    nothing_new(a.discovered, a.waiting, l, l.len() as int);
}

/// Where there is room for `n` connections, at most `n` are made, and each takes an address off
/// the list.
pub proof fn connections_keep_to_the_room(b: Books, first: int, n: int)
    ensures
        ({
            let (a, told) = b.after_connects(first, n);
            &&& told.len() <= if n > 0 {
                n
            } else {
                0
            }
            &&& told.len() == b.waiting.len() - a.waiting.len()
            &&& told.len() == a.peers.len() - b.peers.len()
        }),
    decreases n,
{
    if n > 0 && b.waiting.len() > 0 {
        let s = (Books { waiting: b.waiting.drop_last(), ..b }).after_connect(
            Pid(first as usize),
            b.waiting.last(),
            b.client_id,
        ).0;
        connections_keep_to_the_room(s, first + 1, n - 1);
    }
}

/// Metadata that peers have sent is made use of only where it hashes to what the torrent is known
/// by.
pub proof fn fetched_metadata_is_genuine(
    b: Books,
    piece_idx: u32,
    data: Seq<u8>,
    a: Books,
    told: Seq<ActionView>,
)
    requires
        b.wf(),
        b.received_metadata(piece_idx, data, a, told),
        a.metadata.info() is Some,
        b.metadata.info() is None,
    ensures
        b.metadata.after_put(data, piece_idx).0.after_mark(piece_idx).0 matches Known::Fetching(m, f)
            && sha1_digest(f.buf) == m.hash->0@,
{
}

} // verus!
