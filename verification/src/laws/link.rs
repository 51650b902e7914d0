//! How a connection that draws on a queue of blocks goes on.

use crate::laws::conversation::{request_is_put_in, request_is_taken_out};
use crate::peer::connection::{drawn, Id, Link, PeerState, StepView};
use crate::peer::requests::{with_request, without_request};
use crate::protocol::{BlockInfo, ExtendedView, MessageView};
use vstd::prelude::*;

verus! {

/// Blocks are taken from the end of the queue, and those that were not taken stay; it goes on until
/// there is no room or no block.
pub proof fn blocks_are_drawn_from_the_end(
    queue: Seq<BlockInfo>,
    outbound: Seq<BlockInfo>,
    limit: int,
    i: int,
)
    ensures
        ({
            let (q, o, sent, dry) = drawn(queue, outbound, limit);
            &&& sent.len() <= queue.len()
            &&& q == queue.take(queue.len() - sent.len())
            &&& 0 <= i < sent.len() ==> sent[i] == queue[queue.len() - 1 - i] && o.contains(sent[i])
            &&& o.len() >= limit || q.len() == 0
            &&& dry == (q.len() == 0 && o.len() < limit)
        }),
        forall|x: BlockInfo| outbound.contains(x) ==> drawn(queue, outbound, limit).1.contains(x),
    decreases queue.len(),
{
    let (q, o, sent, dry) = drawn(queue, outbound, limit);
    if outbound.len() >= limit || queue.len() == 0 {
        assert(q =~= queue.take(queue.len() as int));
    } else {
        let rest = queue.drop_last();
        let more = with_request(outbound, queue.last());
        blocks_are_drawn_from_the_end(rest, more, limit, i - 1);
        let (q1, o1, sent1, dry1) = drawn(rest, more, limit);
        assert(sent == seq![queue.last()] + sent1);
        assert(q =~= queue.take(queue.len() - sent.len()));
        assert forall|x: BlockInfo| outbound.contains(x) implies o.contains(x) by {
            request_is_put_in(outbound, queue.last(), x);
        }
        request_is_put_in(outbound, queue.last(), queue.last());
        assert(o.contains(queue.last()));
    }
}

/// Where the blocks are new and differ, as many are asked for as there is room, or all.
pub proof fn room_is_filled(queue: Seq<BlockInfo>, outbound: Seq<BlockInfo>, limit: int)
    requires
        queue.no_duplicates(),
        forall|x: BlockInfo| queue.contains(x) ==> !outbound.contains(x),
        outbound.len() <= limit,
    ensures
        drawn(queue, outbound, limit).2.len() == if queue.len() < limit - outbound.len() {
            queue.len() as int
        } else {
            limit - outbound.len()
        },
    decreases queue.len(),
{
    if outbound.len() < limit && queue.len() > 0 {
        let rest = queue.drop_last();
        let more = with_request(outbound, queue.last());
        assert(queue.contains(queue.last()));
        request_is_put_in(outbound, queue.last(), queue.last());
        assert forall|x: BlockInfo| rest.contains(x) implies !more.contains(x) by {
            let j = choose|j: int| 0 <= j < rest.len() && rest[j] == x;
            assert(queue[j] == x);
            assert(queue.contains(x));
            request_is_put_in(outbound, queue.last(), x);
        }
        room_is_filled(rest, more, limit);
    }
}

/// A peer that lets us and that we are interested in is asked for what is drawn from the queue, and
/// more work is asked for once the queue is empty and nothing is outstanding.
pub proof fn queue_is_asked_for(s: Link, pid: Id, i: int)
    requires
        s.queue is Some,
        s.state.am_interested,
        !s.state.peer_choking,
    ensures
        ({
            let (t, told) = s.tried(pid);
            let (q, o, sent, dry) = drawn(s.queue->0, s.outbound, s.limit);
            &&& t.queue == Some(q) && t.outbound == o
            &&& t.state == s.state && t.incoming == s.incoming && t.limit == s.limit
            &&& t.last_recv == s.last_recv && t.extended == s.extended
            &&& 0 <= i < sent.len() ==> told[i] == StepView::Send(MessageView::Request(sent[i]))
            &&& told.len() == sent.len() + if q.len() == 0 && o.len() < s.limit && o.len() == 0 {
                1int
            } else {
                0
            }
            &&& q.len() == 0 && o.len() == 0 && s.limit > 0 ==> told.last() == StepView::NeedTask(pid)
        }),
{
    blocks_are_drawn_from_the_end(s.queue->0, s.outbound, s.limit, 0);
}

/// Without a queue, from a peer that chokes us or that we have no interest in, nothing is asked.
pub proof fn nothing_is_asked_for(s: Link, pid: Id)
    requires
        s.queue is None || !s.state.am_interested || s.state.peer_choking,
    ensures
        s.tried(pid).0 == s,
        s.tried(pid).1.len() == 0,
{
}

/// A choke cancels each outstanding request; the queue stays for later.
pub proof fn choke_cancels_requests(s: Link, pid: Id, now: u64, i: int)
    ensures
        ({
            let (t, told) = s.after_msg(pid, MessageView::Choke, now);
            &&& t.state == (PeerState { peer_choking: true, ..s.state })
            &&& t.outbound.len() == 0 && t.queue == s.queue && t.incoming == s.incoming
            &&& t.last_recv == now
            &&& told.len() == s.outbound.len()
            &&& 0 <= i < told.len() ==> told[i] == StepView::Send(MessageView::Cancel(s.outbound[i]))
        }),
{
}

/// An unchoke lets the queue be asked for.
pub proof fn unchoke_lets_the_queue_go(s: Link, pid: Id, now: u64)
    ensures
        s.after_msg(pid, MessageView::Unchoke, now) == (Link {
            state: PeerState { peer_choking: false, ..s.state },
            last_recv: now,
            ..s
        }).tried(pid),
{
}

/// What the peer says of its interest and its pieces is noted and told.
pub proof fn words_of_the_peer_are_told(s: Link, pid: Id, now: u64, i: u32, b: Seq<u8>)
    ensures
        ({
            let (t, told) = s.after_msg(pid, MessageView::Interested, now);
            t == (Link {
                state: PeerState { peer_interested: true, ..s.state },
                last_recv: now,
                ..s
            }) && told == seq![StepView::Interest(pid)]
        }),
        ({
            let (t, told) = s.after_msg(pid, MessageView::NotInterested, now);
            &&& t == (Link {
                state: PeerState { peer_interested: false, ..s.state },
                last_recv: now,
                ..s
            })
            &&& s.state.peer_interested ==> told == seq![StepView::NotInterest(pid)]
            &&& !s.state.peer_interested ==> told.len() == 0
        }),
        s.after_msg(pid, MessageView::Have(i), now) == (
            Link { last_recv: now, ..s },
            seq![StepView::Have(pid, i)],
        ),
        s.after_msg(pid, MessageView::Bitfield(b), now) == (
            Link { last_recv: now, ..s },
            seq![StepView::Bitfield(pid, b)],
        ),
{
    assert(s.after_msg(pid, MessageView::NotInterested, now).0 =~= (Link {
        state: PeerState { peer_interested: false, ..s.state },
        last_recv: now,
        ..s
    }));
}

/// What a peer asks for is passed on once, and not at all while we choke it.
pub proof fn request_of_the_peer_is_passed_on(s: Link, pid: Id, now: u64, b: BlockInfo)
    ensures
        ({
            let (t, told) = s.after_msg(pid, MessageView::Request(b), now);
            &&& !s.state.am_choking && !s.incoming.contains(b) ==> told == seq![
                StepView::BlockRequest(pid, b),
            ] && t.incoming.contains(b) && t.incoming.len() == s.incoming.len() + 1
            &&& s.state.am_choking || s.incoming.contains(b) ==> told.len() == 0 && t.incoming
                == s.incoming
            &&& t.outbound == s.outbound && t.queue == s.queue && t.state == s.state
        }),
{
    request_is_put_in(s.incoming, b, b);
}

/// A block that was asked for is handed on and no longer outstanding, and the queue is drawn on; one
/// that was not asked for is dropped.
pub proof fn asked_block_is_handed_on(
    s: Link,
    pid: Id,
    now: u64,
    index: u32,
    begin: u32,
    data: Seq<u8>,
)
    requires
        s.outbound.no_duplicates(),
        data.len() <= u32::MAX,
    ensures
        ({
            let b = BlockInfo { index, begin, length: data.len() as u32 };
            let (t, told) = s.after_msg(pid, MessageView::Piece(index, begin, data), now);
            &&& s.outbound.contains(b) ==> {
                &&& told.len() > 0
                &&& told[0] == StepView::AddBlock(pid, index, begin, data)
                &&& told.skip(1) == (Link {
                    outbound: without_request(s.outbound, b),
                    last_recv: now,
                    ..s
                }).tried(pid).1
                &&& !without_request(s.outbound, b).contains(b)
                &&& s.queue is None ==> t.outbound.len() == s.outbound.len() - 1
            }
            &&& !s.outbound.contains(b) ==> told.len() == 0 && t == (Link { last_recv: now, ..s })
        }),
{
    let b = BlockInfo { index, begin, length: data.len() as u32 };
    let (t, told) = s.after_msg(pid, MessageView::Piece(index, begin, data), now);
    request_is_taken_out(s.outbound, b, b);
    if s.outbound.contains(b) {
        let more = (Link {
            outbound: without_request(s.outbound, b),
            last_recv: now,
            ..s
        }).tried(pid).1;
        assert(told =~= seq![StepView::AddBlock(pid, index, begin, data)] + more);
        assert(told.skip(1) =~= more);
    }
}

/// A peer may raise how many requests it takes, and never lower it.
pub proof fn limit_is_raised(s: Link, pid: Id, now: u64, h: ExtendedView)
    requires
        s.limit >= 0,
        h.reqq is Some ==> 0 <= h.reqq->0 <= usize::MAX,
    ensures
        ({
            let (t, told) = s.after_msg(pid, MessageView::ExtensionHandshake(h), now);
            &&& told.len() == 0 && t == (Link { limit: t.limit, last_recv: now, ..s })
            &&& h.reqq is None ==> t.limit == s.limit
            &&& h.reqq is Some && h.reqq->0 > s.limit ==> t.limit == h.reqq->0
            &&& h.reqq is Some && h.reqq->0 <= s.limit ==> t.limit == s.limit
        }),
{
}

/// What we say of ourselves is noted as said, and a block that was sent is no longer owed.
pub proof fn own_words_are_noted(s: Link, index: u32, begin: u32, data: Seq<u8>)
    requires
        s.incoming.no_duplicates(),
        data.len() <= u32::MAX,
    ensures
        s.sending(MessageView::Interested).state == (PeerState { am_interested: true, ..s.state }),
        s.sending(MessageView::NotInterested).state == (PeerState {
            am_interested: false,
            ..s.state
        }),
        s.sending(MessageView::Choke).state == (PeerState { am_choking: true, ..s.state }),
        s.sending(MessageView::Unchoke).state == (PeerState { am_choking: false, ..s.state }),
        !s.sending(MessageView::Piece(index, begin, data)).incoming.contains(
            BlockInfo { index, begin, length: data.len() as u32 },
        ),
{
    let b = BlockInfo { index, begin, length: data.len() as u32 };
    request_is_taken_out(s.incoming, b, b);
}

} // verus!
