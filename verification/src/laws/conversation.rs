//! What holds of a conversation with a peer.

use crate::bitfield::bits;
use crate::metainfo::Info;
use crate::peer::PeerMessageView;
use crate::peer::bitfield_state::FieldView;
use crate::peer::peer_connection::{extension_id, popped, ActionView, Fault, Talk};
use crate::peer::requests::{with_request, without_request};
use crate::protocol::{BlockInfo, ExtendedView, MessageView};
use std::sync::Arc;
use vstd::prelude::*;
use vstd::utf8::*;

verus! {

/// A request that is put in is there and takes nothing away.
pub proof fn request_is_put_in(s: Seq<BlockInfo>, b: BlockInfo, x: BlockInfo)
    ensures
        with_request(s, b).contains(x) <==> s.contains(x) || x == b,
        with_request(s, b).len() == s.len() + if s.contains(b) {
            0int
        } else {
            1
        },
        s.no_duplicates() ==> with_request(s, b).no_duplicates(),
{
    let t = with_request(s, b);
    if s.contains(x) {
        let i = choose|i: int| 0 <= i < s.len() && s[i] == x;
        assert(t[i] == x);
    }
    if !s.contains(b) {
        assert(t[s.len() as int] == b);
    }
    if t.contains(x) && !s.contains(b) {
        let i = choose|i: int| 0 <= i < t.len() && t[i] == x;
        if i < s.len() {
            assert(s[i] == x);
        }
    }
}

/// A request that is taken out is not there, and every other stays.
pub proof fn request_is_taken_out(s: Seq<BlockInfo>, b: BlockInfo, x: BlockInfo)
    requires
        s.no_duplicates(),
    ensures
        without_request(s, b).contains(x) <==> s.contains(x) && x != b,
        without_request(s, b).len() == s.len() - if s.contains(b) {
            1int
        } else {
            0
        },
        without_request(s, b).no_duplicates(),
{
    let t = without_request(s, b);
    if s.contains(b) {
        let k = s.index_of(b);
        assert(s[k] == b);
        if s.contains(x) && x != b {
            let i = choose|i: int| 0 <= i < s.len() && s[i] == x;
            if i < k {
                assert(t[i] == x);
            } else {
                assert(t[i - 1] == x);
            }
        }
        if t.contains(x) {
            let i = choose|i: int| 0 <= i < t.len() && t[i] == x;
            if i < k {
                assert(s[i] == x);
            } else {
                assert(s[i + 1] == x);
            }
        }
    }
}

/// A block that was asked for is handed on, is no longer outstanding, and is counted. Where no
/// requests wait, the metadata and the peer's pieces are known and fewer requests are outstanding
/// than are meant to be, the torrent is asked for as many blocks as are lacking. A conversation
/// that starts slowly means to have one more request outstanding than before, up to its limit.
pub proof fn pipeline_stays_full(
    s: Talk,
    index: u32,
    begin: u32,
    data: Seq<u8>,
    now: u64,
    own: Seq<bool>,
    n: int,
    other: BlockInfo,
)
    requires
        data.len() <= u32::MAX,
        s.metrics.has_room(data.len() as int),
        s.outgoing.no_duplicates(),
        s.outgoing.contains(BlockInfo { index, begin, length: data.len() as u32 }),
        s.metadata is Some,
        s.field == FieldView::Validated(own, n),
        s.queue.len() == 0,
        s.outgoing.len() <= s.target <= s.limit,
    ensures
        ({
            let b = BlockInfo { index, begin, length: data.len() as u32 };
            let (a, r) = s.after_msg(MessageView::Piece(index, begin, data), now);
            &&& r == Ok::<Seq<ActionView>, Fault>(
                seq![
                    ActionView::ReceiveBlock(index, begin, data),
                    ActionView::AskBlocks(a.target - a.outgoing.len(), own, n),
                ],
            )
            &&& a.target == if s.slow_start && s.target < s.limit {
                s.target + 1
            } else {
                s.target
            }
            &&& a.outgoing.len() == s.outgoing.len() - 1
            &&& !a.outgoing.contains(b)
            &&& other != b ==> a.outgoing.contains(other) == s.outgoing.contains(other)
            &&& a.metrics.total_downloaded == s.metrics.total_downloaded + data.len()
            &&& a.metrics.download.window_bytes == s.metrics.download.window_bytes + data.len()
            &&& a.metrics.total_uploaded == s.metrics.total_uploaded
            &&& a.last_recv == now
            &&& a.info == s.info && a.field == s.field && a.metadata == s.metadata && a.limit
                == s.limit && a.queue == s.queue && a.slow_start == s.slow_start
        }),
{
    let b = BlockInfo { index, begin, length: data.len() as u32 };
    request_is_taken_out(s.outgoing, b, b);
    request_is_taken_out(s.outgoing, b, other);
    let (a, r) = s.after_msg(MessageView::Piece(index, begin, data), now);
    assert(r->Ok_0 =~= seq![
        ActionView::ReceiveBlock(index, begin, data),
        ActionView::AskBlocks(a.target - a.outgoing.len(), own, n),
    ]);
}

/// A block that was asked for is handed on in every state, first of all.
pub proof fn asked_block_is_handed_on(
    s: Talk,
    index: u32,
    begin: u32,
    data: Seq<u8>,
    now: u64,
    other: BlockInfo,
)
    requires
        data.len() <= u32::MAX,
        s.metrics.has_room(data.len() as int),
        s.outgoing.contains(BlockInfo { index, begin, length: data.len() as u32 }),
    ensures
        ({
            let (a, r) = s.after_msg(MessageView::Piece(index, begin, data), now);
            &&& r matches Ok(l) && l.len() > 0 && l[0] == ActionView::ReceiveBlock(
                index,
                begin,
                data,
            )
            &&& a.metrics.total_downloaded == s.metrics.total_downloaded + data.len()
            &&& a.metrics.download.window_bytes == s.metrics.download.window_bytes + data.len()
            &&& a.last_recv == now
        }),
{
}

/// A block that was not asked for is counted and goes nowhere.
pub proof fn unasked_block_goes_nowhere(s: Talk, index: u32, begin: u32, data: Seq<u8>, now: u64)
    requires
        data.len() <= u32::MAX,
        s.metrics.has_room(data.len() as int),
        !s.outgoing.contains(BlockInfo { index, begin, length: data.len() as u32 }),
    ensures
        ({
            let (a, r) = s.after_msg(MessageView::Piece(index, begin, data), now);
            &&& r == Ok::<Seq<ActionView>, Fault>(Seq::empty())
            &&& a.outgoing == s.outgoing && a.queue == s.queue && a.target == s.target
            &&& a.metrics.total_downloaded == s.metrics.total_downloaded + data.len()
            &&& a.metrics.download.window_bytes == s.metrics.download.window_bytes + data.len()
            &&& a.last_recv == now
        }),
{
}

/// As long as there is room for all of them, the requests of a queue all go out, the last of them
/// first, and each is outstanding then.
pub proof fn queue_goes_out(queue: Seq<BlockInfo>, outgoing: Seq<BlockInfo>, limit: int, x: BlockInfo)
    requires
        outgoing.len() + queue.len() <= limit + 1,
    ensures
        ({
            let (q, o, sent) = popped(queue, outgoing, limit);
            &&& q.len() == 0
            &&& sent == queue.reverse()
            &&& o.contains(x) <==> outgoing.contains(x) || queue.contains(x)
        }),
    decreases queue.len(),
{
    let (q, o, sent) = popped(queue, outgoing, limit);
    if queue.len() > 0 {
        let front = queue.drop_last();
        let more = with_request(outgoing, queue.last());
        request_is_put_in(outgoing, queue.last(), x);
        queue_goes_out(front, more, limit, x);
        assert(sent =~= queue.reverse()) by {
            assert(sent == seq![queue.last()] + front.reverse());
        }
        if front.contains(x) {
            let i = choose|i: int| 0 <= i < front.len() && front[i] == x;
            assert(queue[i] == x);
        }
        if queue.contains(x) {
            let i = choose|i: int| 0 <= i < queue.len() && queue[i] == x;
            if i < front.len() {
                assert(front[i] == x);
            }
        }
        assert(queue[queue.len() - 1] == queue.last());
    } else {
        assert(sent =~= queue.reverse());
    }
}

/// Where too many requests are outstanding none goes out.
pub proof fn full_pipeline_sends_nothing(
    queue: Seq<BlockInfo>,
    outgoing: Seq<BlockInfo>,
    limit: int,
)
    requires
        outgoing.len() > limit,
    ensures
        popped(queue, outgoing, limit).1 == outgoing,
        popped(queue, outgoing, limit).2.len() == 0,
{
}

/// Blocks that the torrent has named are asked of the peer, and are outstanding from then on.
pub proof fn named_blocks_are_asked_for(
    s: Talk,
    blocks: Seq<BlockInfo>,
    now: u64,
    x: BlockInfo,
)
    requires
        s.queue.len() == 0,
        blocks.len() > 0,
        s.outgoing.len() + blocks.len() <= s.limit + 1,
    ensures
        ({
            let (a, told) = s.after_blocks(blocks, now);
            &&& told.len() == blocks.len()
            &&& forall|i: int|
                0 <= i < told.len() ==> #[trigger] told[i] == ActionView::Send(
                    MessageView::Request(blocks[blocks.len() - 1 - i]),
                )
            &&& a.outgoing.contains(x) <==> s.outgoing.contains(x) || blocks.contains(x)
            &&& a.queue.len() == 0
            &&& a.last_request == now
            &&& a.info == s.info && a.field == s.field && a.target == s.target && a.limit == s.limit
                && a.metrics == s.metrics && a.last_recv == s.last_recv
        }),
{
    assert(s.queue + blocks =~= blocks);
    queue_goes_out(blocks, s.outgoing, s.limit, x);
}

/// Once a peer is of interest, the torrent is asked for as many blocks as are lacking; one that is
/// not is asked for nothing.
pub proof fn interest_starts_the_download(s: Talk, now: u64, own: Seq<bool>, n: int)
    requires
        s.metadata is Some,
        s.field == FieldView::Validated(own, n),
        s.queue.len() == 0,
    ensures
        s.after_interest(true, now).0.info.am_interested,
        s.outgoing.len() < s.target ==> s.after_interest(true, now).1 == seq![
            ActionView::AskBlocks(s.target - s.outgoing.len(), own, n),
        ],
        s.outgoing.len() >= s.target ==> s.after_interest(true, now).1.len() == 0,
        !s.after_interest(false, now).0.info.am_interested,
        s.after_interest(false, now).1.len() == 0,
{
}

/// A peer that chokes is noted as choking, what waits for it is dropped, and the torrent learns
/// that what it asked of the peer will not come.
pub proof fn choke_halts_the_download(s: Talk, now: u64)
    ensures
        ({
            let (a, r) = s.after_msg(MessageView::Choke, now);
            &&& r == Ok::<Seq<ActionView>, Fault>(seq![ActionView::ClearRequests])
            &&& a.info.remote_choking
            &&& a.queue.len() == 0
            &&& a.last_recv == now
            &&& a.info.am_choking == s.info.am_choking && a.info.am_interested
                == s.info.am_interested && a.info.remote_interested == s.info.remote_interested
        }),
{
}

/// A peer that no longer chokes is noted so. Where it is of interest, the torrent is asked for as
/// many blocks as are lacking; where it is not known to be, the torrent is asked whether it is.
pub proof fn unchoke_resumes_the_download(s: Talk, now: u64, own: Seq<bool>, n: int)
    requires
        s.metadata is Some,
        s.field == FieldView::Validated(own, n),
        s.queue.len() == 0,
    ensures
        ({
            let (a, r) = s.after_msg(MessageView::Unchoke, now);
            &&& !a.info.remote_choking
            &&& a.info.am_choking == s.info.am_choking && a.info.am_interested
                == s.info.am_interested
            &&& s.info.am_interested && s.outgoing.len() < s.target ==> r == Ok::<
                Seq<ActionView>,
                Fault,
            >(seq![ActionView::AskBlocks(s.target - s.outgoing.len(), own, n)])
            &&& !s.info.am_interested ==> r == Ok::<Seq<ActionView>, Fault>(
                seq![ActionView::AskInterest(own, n)],
            )
        }),
{
}

/// The torrent learns whether the peer is interested, and it is noted.
pub proof fn interest_of_the_peer_is_told(s: Talk, now: u64)
    ensures
        s.after_msg(MessageView::Interested, now).1 == Ok::<Seq<ActionView>, Fault>(
            seq![ActionView::Interest],
        ),
        s.after_msg(MessageView::Interested, now).0.info.remote_interested,
        s.after_msg(MessageView::NotInterested, now).1 == Ok::<Seq<ActionView>, Fault>(
            seq![ActionView::NotInterest],
        ),
        !s.after_msg(MessageView::NotInterested, now).0.info.remote_interested,
        s.after_msg(MessageView::KeepAlive, now).1 == Ok::<Seq<ActionView>, Fault>(Seq::empty()),
        s.after_msg(MessageView::KeepAlive, now).0 == (Talk { last_recv: now, ..s }),
{
}

/// A piece that a peer turns out to have is noted, the torrent learns of it, and where the peer was
/// of no interest, the torrent is asked whether it is now. A piece that it was known to have
/// changes nothing, and one that the torrent does not have ends the conversation.
pub proof fn named_piece_is_noted(s: Talk, i: u32, now: u64, m: Arc<Info>, own: Seq<bool>, n: int)
    requires
        s.metadata == Some(m),
        s.field == FieldView::Validated(own, n),
        n == m.pieces.len(),
        n <= own.len(),
        i < usize::MAX,
    ensures
        ({
            let (a, r) = s.after_msg(MessageView::Have(i), now);
            &&& i >= m.pieces.len() ==> r is Err
            &&& i < m.pieces.len() && own[i as int] ==> r == Ok::<Seq<ActionView>, Fault>(
                Seq::empty(),
            ) && a.field == s.field
            &&& i < m.pieces.len() && !own[i as int] ==> {
                &&& a.field matches FieldView::Validated(new, k) && k == n && new.len() == own.len()
                    && new[i as int] && forall|j: int|
                    0 <= j < own.len() && j != i ==> #[trigger] new[j] == own[j]
                &&& r == Ok::<Seq<ActionView>, Fault>(
                    if s.info.am_interested {
                        seq![ActionView::Have(i)]
                    } else {
                        seq![
                            ActionView::Have(i),
                            ActionView::AskInterest(a.field->Validated_0, n),
                        ]
                    },
                )
            }
        }),
{
    let (a, r) = s.after_msg(MessageView::Have(i), now);
    if i < m.pieces.len() && !own[i as int] {
        if s.info.am_interested {
            assert(r->Ok_0 =~= seq![ActionView::Have(i)]);
        } else {
            assert(r->Ok_0 =~= seq![
                ActionView::Have(i),
                ActionView::AskInterest(a.field->Validated_0, n),
            ]);
        }
    }
}

/// A piece that a peer names before the torrent is known is noted, along with those that it named
/// before, and nobody is told.
pub proof fn named_piece_is_kept_for_later(s: Talk, i: u32, now: u64, own: Seq<bool>, n: int)
    requires
        s.metadata is None,
        s.field == FieldView::Received(own, n) || (s.field is NotReceived && own.len() == 0 && n
            == 0),
        0 <= n <= own.len(),
        i < 65536,
    ensures
        ({
            let (a, r) = s.after_msg(MessageView::Have(i), now);
            &&& r == Ok::<Seq<ActionView>, Fault>(Seq::empty())
            &&& a.field matches FieldView::Received(new, k) && i < k <= new.len() && new[i as int]
                && forall|j: int|
                0 <= j < n && j != i ==> #[trigger] new[j] == own[j]
        }),
{
    let (a, r) = s.after_msg(MessageView::Have(i), now);
    assert(r->Ok_0 =~= Seq::<ActionView>::empty());
}

/// The first bitfield of a peer is taken as it is where it fits the torrent: the peer has the
/// pieces whose bits are set. One that does not fit ends the conversation, and so does a second.
pub proof fn bitfield_is_taken_in(s: Talk, payload: Seq<u8>, now: u64, m: Arc<Info>)
    requires
        s.metadata == Some(m),
    ensures
        ({
            let (a, r) = s.after_msg(MessageView::Bitfield(payload), now);
            let n = m.pieces.len();
            let fits = 8 * payload.len() >= n && forall|i: int|
                n <= i < 8 * payload.len() ==> !#[trigger] bits(payload)[i];
            &&& !(s.field is NotReceived) ==> r is Err && a.field == s.field
            &&& s.field is NotReceived && !fits ==> r is Err && a.field == s.field
            &&& s.field is NotReceived && fits ==> {
                &&& a.field == FieldView::Validated(bits(payload), n as int)
                &&& r == Ok::<Seq<ActionView>, Fault>(
                    if s.info.am_interested {
                        Seq::empty()
                    } else {
                        seq![ActionView::AskInterest(bits(payload), n as int)]
                    },
                )
            }
        }),
{
    let n = m.pieces.len();
    if crate::bitfield::spare_clear(payload, n as int) {
        assert forall|i: int| n <= i < 8 * payload.len() implies !#[trigger] bits(payload)[i] by {
            assert(!crate::bitfield::bit(payload, i));
        }
    } else {
        let i = choose|i: int| n <= i < 8 * payload.len() && #[trigger] crate::bitfield::bit(payload, i);
        assert(bits(payload)[i]);
    }
}

/// A bitfield that comes before the torrent is known is kept, and is held against the torrent once
/// that is known.
pub proof fn early_bitfield_is_held_against_the_torrent(
    s: Talk,
    payload: Seq<u8>,
    now: u64,
    m: Arc<Info>,
)
    requires
        s.metadata is None,
        s.field is NotReceived,
    ensures
        ({
            let (a, r) = s.after_msg(MessageView::Bitfield(payload), now);
            let (b, t) = a.after_cmd(PeerMessageView::HaveMetadata(m));
            let n = m.pieces.len();
            let fits = 8 * payload.len() >= n && forall|i: int|
                n <= i < 8 * payload.len() ==> !#[trigger] bits(payload)[i];
            &&& r == Ok::<Seq<ActionView>, Fault>(Seq::empty())
            &&& b.metadata == Some(m)
            &&& t is Ok <==> fits
            &&& fits ==> b.field == FieldView::Validated(bits(payload), n as int)
            &&& fits && !s.info.am_interested ==> t == Ok::<Seq<ActionView>, Fault>(
                seq![ActionView::AskInterest(bits(payload), n as int)],
            )
        }),
{
    let (a, r) = s.after_msg(MessageView::Bitfield(payload), now);
    assert(r->Ok_0 =~= Seq::<ActionView>::empty());
}

/// A peer that has said nothing of its pieces by the time the torrent is known has none.
pub proof fn silent_peer_has_nothing(s: Talk, m: Arc<Info>, i: int)
    requires
        s.field is NotReceived,
        0 <= i < m.pieces.len(),
    ensures
        ({
            let (b, t) = s.after_cmd(PeerMessageView::HaveMetadata(m));
            &&& t is Ok
            &&& b.metadata == Some(m)
            &&& b.field matches FieldView::Validated(own, n) && n == m.pieces.len() && i < own.len()
                && !own[i]
        }),
{
}

/// A peer's request reaches the torrent exactly when the peer is not choked.
pub proof fn choked_peer_is_not_served(s: Talk, b: BlockInfo, now: u64)
    ensures
        s.after_msg(MessageView::Request(b), now).1 == Ok::<Seq<ActionView>, Fault>(
            if s.info.am_choking {
                Seq::empty()
            } else {
                seq![ActionView::BlockRequest(b)]
            },
        ),
        s.after_msg(MessageView::Request(b), now).0 == (Talk { last_recv: now, ..s }),
{
}

/// A command to choke or to unchoke is sent to the peer and noted, so that its requests are passed
/// over or passed on from then on.
pub proof fn choking_is_sent_and_noted(s: Talk, b: BlockInfo, now: u64)
    ensures
        ({
            let (a, r) = s.after_cmd(PeerMessageView::SendChoke);
            &&& r == Ok::<Seq<ActionView>, Fault>(seq![ActionView::Send(MessageView::Choke)])
            &&& a.info.am_choking
            &&& a.after_msg(MessageView::Request(b), now).1 == Ok::<Seq<ActionView>, Fault>(
                Seq::empty(),
            )
        }),
        ({
            let (a, r) = s.after_cmd(PeerMessageView::SendUnchoke);
            &&& r == Ok::<Seq<ActionView>, Fault>(seq![ActionView::Send(MessageView::Unchoke)])
            &&& !a.info.am_choking
            &&& a.after_msg(MessageView::Request(b), now).1 == Ok::<Seq<ActionView>, Fault>(
                seq![ActionView::BlockRequest(b)],
            )
        }),
{
}

/// Other commands go to the peer as they are.
pub proof fn commands_are_sent(s: Talk, m: MessageView, bytes: Seq<u8>)
    ensures
        s.after_cmd(PeerMessageView::SendMessage(m)) == (
            s,
            Ok::<Seq<ActionView>, Fault>(seq![ActionView::Send(m)]),
        ),
        bytes.len() > 0 ==> s.after_cmd(PeerMessageView::SendBitfield(bytes)) == (
            s,
            Ok::<Seq<ActionView>, Fault>(seq![ActionView::Send(MessageView::Bitfield(bytes))]),
        ),
        bytes.len() == 0 ==> s.after_cmd(PeerMessageView::SendBitfield(bytes)) == (
            s,
            Ok::<Seq<ActionView>, Fault>(Seq::empty()),
        ),
        s.after_cmd(PeerMessageView::Disconnect) == (s, Ok::<Seq<ActionView>, Fault>(Seq::empty())),
{
}

/// The peer is told of a piece exactly where its own bitfield is known and has the piece.
pub proof fn have_is_sent(s: Talk, i: u32)
    ensures
        s.after_cmd(PeerMessageView::SendHave(i)).0 == s,
        s.after_cmd(PeerMessageView::SendHave(i)).1 == Ok::<Seq<ActionView>, Fault>(
            if s.field matches FieldView::Validated(own, _) && own[i as int] {
                seq![ActionView::Send(MessageView::Have(i))]
            } else {
                Seq::empty()
            },
        ),
{
}

proof fn first_extension(m: Seq<(Seq<u8>, int)>, name: Seq<u8>, i: int)
    requires
        0 <= i,
    ensures
        match extension_id(m, name, i) {
            Some(id) => exists|k: int|
                i <= k < m.len() && (#[trigger] m[k]).0 == name && m[k].1 == id && forall|j: int|
                    i <= j < k ==> (#[trigger] m[j]).0 != name,
            None => forall|k: int| i <= k < m.len() ==> (#[trigger] m[k]).0 != name,
        },
    decreases m.len() - i,
{
    if i < m.len() && m[i].0 != name {
        first_extension(m, name, i + 1);
    }
}

/// A peer that names an id for messages on metadata is asked for the metadata where that is not
/// known, and the torrent learns that the peer has it. The limit on requests rises to what the
/// peer allows and never falls.
pub proof fn extensions_are_noted(s: Talk, h: ExtendedView, now: u64, m: Seq<(Seq<u8>, int)>, k: int)
    requires
        h.m == Some(m),
        0 <= k < m.len(),
        m[k].0 == encode_utf8("ut_metadata"@),
        forall|j: int| 0 <= j < k ==> (#[trigger] m[j]).0 != encode_utf8("ut_metadata"@),
        i64::MIN <= m[k].1 <= i64::MAX,
        h.metadata_size matches Some(n) ==> 0 < n <= usize::MAX,
        h.reqq matches Some(n) ==> 0 < n <= usize::MAX,
    ensures
        ({
            let (a, r) = s.after_msg(MessageView::ExtensionHandshake(h), now);
            let size: usize = match h.metadata_size {
                Some(n) => n as usize,
                None => s.metadata_size,
            };
            &&& a.metadata_id matches Some(id) && id == m[k].1
            &&& a.metadata_size == size
            &&& a.limit == match h.reqq {
                Some(n) => if n > s.limit {
                    n
                } else {
                    s.limit
                },
                None => s.limit,
            }
            &&& s.metadata is None && m[k].1 != 0 ==> r == Ok::<Seq<ActionView>, Fault>(
                seq![ActionView::PeerWithMetadata(size), ActionView::AskMetadataPiece],
            )
            &&& s.metadata is None && m[k].1 == 0 ==> r == Ok::<Seq<ActionView>, Fault>(
                seq![ActionView::PeerWithMetadata(size)],
            )
            &&& s.metadata is Some ==> r == Ok::<Seq<ActionView>, Fault>(Seq::empty())
        }),
{
    let name = encode_utf8("ut_metadata"@);
    first_extension(m, name, 0);
    let (a, r) = s.after_msg(MessageView::ExtensionHandshake(h), now);
    let size: usize = match h.metadata_size {
        Some(n) => n as usize,
        None => s.metadata_size,
    };
    if s.metadata is None && m[k].1 != 0 {
        assert(r->Ok_0 =~= seq![ActionView::PeerWithMetadata(size), ActionView::AskMetadataPiece]);
    } else if s.metadata is None {
        assert(r->Ok_0 =~= seq![ActionView::PeerWithMetadata(size)]);
    } else {
        assert(r->Ok_0 =~= Seq::<ActionView>::empty());
    }
}

/// Whatever a peer says, the limit on requests does not fall, and a peer that says nothing of it
/// leaves it where it is.
pub proof fn limit_never_falls(s: Talk, h: ExtendedView, now: u64)
    ensures
        s.after_msg(MessageView::ExtensionHandshake(h), now).0.limit >= s.limit,
        h.reqq is None ==> s.after_msg(MessageView::ExtensionHandshake(h), now).0.limit == s.limit,
        h.m is None ==> s.after_msg(MessageView::ExtensionHandshake(h), now).1 == Ok::<
            Seq<ActionView>,
            Fault,
        >(Seq::empty()),
{
}

/// A node of the DHT is where the peer is, at the port that it names; messages on extensions other
/// than metadata, and cancelled requests, lead to nothing.
pub proof fn other_messages(s: Talk, port: u16, id: u8, payload: Seq<u8>, b: BlockInfo, now: u64)
    ensures
        s.after_msg(MessageView::Port(port), now).1 matches Ok(l) && l.len() == 1 && (
        l[0] matches ActionView::AddNode(a) && a.ip == s.addr.ip && a.port == port),
        id != 1 ==> s.after_msg(MessageView::Extension(id, payload), now).1 == Ok::<
            Seq<ActionView>,
            Fault,
        >(Seq::empty()),
        s.after_msg(MessageView::Cancel(b), now).1 == Ok::<Seq<ActionView>, Fault>(Seq::empty()),
{
}

/// A peer that names a piece before it has sent a bitfield, where the torrent is known, has that
/// piece and none before it, and the torrent learns of the piece.
pub proof fn first_named_piece_is_noted(s: Talk, i: u32, now: u64, m: Arc<Info>, j: int)
    requires
        s.metadata == Some(m),
        s.field is NotReceived,
        i < m.pieces.len(),
        i < usize::MAX,
        0 <= j < i,
    ensures
        ({
            let (a, r) = s.after_msg(MessageView::Have(i), now);
            &&& r == Ok::<Seq<ActionView>, Fault>(seq![ActionView::Have(i)])
            &&& a.field is Received
            &&& a.field.size() == i + 1
            &&& a.field.has(i as int) && !a.field.has(j)
        }),
{
    let (a, r) = s.after_msg(MessageView::Have(i), now);
    assert(r->Ok_0 =~= seq![ActionView::Have(i)]);
}

/// A piece number that is too large while the torrent is not known ends the conversation.
pub proof fn wild_piece_is_refused(s: Talk, i: u32, now: u64)
    requires
        s.metadata is None,
        i >= 65536,
    ensures
        s.after_msg(MessageView::Have(i), now).1 is Err,
{
}

/// Each message of a peer touches what it is about and nothing else: that something came is noted,
/// and who the peer is and what is known of the torrent stays.
pub proof fn messages_touch_what_they_are_about(s: Talk, m: MessageView, now: u64)
    ensures
        ({
            let a = s.after_msg(m, now).0;
            &&& a.last_recv == now
            &&& a.pid == s.pid && a.addr == s.addr && a.extended == s.extended && a.metadata
                == s.metadata && a.slow_start == s.slow_start
            &&& !(m is Choke) && !(m is Unchoke) && !(m is Piece) ==> a.queue == s.queue
            &&& !(m is Unchoke) && !(m is Piece) ==> a.outgoing == s.outgoing && a.last_request
                == s.last_request
            &&& !(m is Piece) ==> a.target == s.target && a.metrics == s.metrics
            &&& !(m is Have) && !(m is Bitfield) ==> a.field == s.field
            &&& !(m is ExtensionHandshake) ==> a.metadata_id == s.metadata_id && a.metadata_size
                == s.metadata_size && a.limit == s.limit
            &&& !(m is Choke) && !(m is Unchoke) ==> a.info.remote_choking == s.info.remote_choking
            &&& !(m is Interested) && !(m is NotInterested) ==> a.info.remote_interested
                == s.info.remote_interested
            &&& a.info.am_choking == s.info.am_choking && a.info.am_interested
                == s.info.am_interested && a.info.peer_id == s.info.peer_id && a.info.source
                == s.info.source && a.info.snubbed == s.info.snubbed
        }),
{
}

/// Each command touches what it is about and nothing else.
pub proof fn commands_touch_what_they_are_about(s: Talk, c: PeerMessageView)
    ensures
        ({
            let a = s.after_cmd(c).0;
            &&& a.pid == s.pid && a.addr == s.addr && a.extended == s.extended && a.slow_start
                == s.slow_start && a.last_recv == s.last_recv && a.last_request == s.last_request
            &&& a.queue == s.queue && a.outgoing == s.outgoing && a.target == s.target && a.limit
                == s.limit
            &&& a.metadata_id == s.metadata_id && a.metadata_size == s.metadata_size
            &&& !(c is HaveMetadata) ==> a.metadata == s.metadata && a.field == s.field
            &&& !(c is SendChoke) ==> a.metrics == s.metrics
            &&& !(c is SendChoke) && !(c is SendUnchoke) ==> a.info == s.info
            &&& a.info.am_interested == s.info.am_interested && a.info.remote_choking
                == s.info.remote_choking && a.info.remote_interested == s.info.remote_interested
                && a.info.peer_id == s.info.peer_id && a.info.source == s.info.source
            &&& a.metrics.total_downloaded == s.metrics.total_downloaded
                && a.metrics.total_uploaded == s.metrics.total_uploaded
        }),
{
}

/// The blocks that the torrent names, and what it says of its interest, touch the requests and the
/// interest and nothing else.
pub proof fn answers_touch_what_they_are_about(
    s: Talk,
    blocks: Seq<BlockInfo>,
    interested: bool,
    now: u64,
)
    ensures
        ({
            let a = s.after_blocks(blocks, now).0;
            a == (Talk {
                queue: a.queue,
                outgoing: a.outgoing,
                last_request: a.last_request,
                ..s
            })
        }),
        ({
            let a = s.after_interest(interested, now).0;
            &&& a == (Talk {
                info: a.info,
                queue: a.queue,
                outgoing: a.outgoing,
                last_request: a.last_request,
                ..s
            })
            &&& a.info.am_interested == interested
            &&& a.info.am_choking == s.info.am_choking && a.info.remote_choking
                == s.info.remote_choking && a.info.remote_interested == s.info.remote_interested
            &&& !interested ==> a.queue == s.queue && a.outgoing == s.outgoing
        }),
{
}

/// Resizing what is known of a peer's pieces keeps what is known of each piece, and of the new ones
/// none is there.
pub proof fn resized_field_keeps_its_pieces(own: Seq<bool>, k: int, n: int, i: int)
    requires
        0 <= k <= own.len(),
        n > k,
        0 <= i < n,
        forall|j: int| k <= j < own.len() ==> !#[trigger] own[j],
    ensures
        FieldView::Received(own, k).with_capacity(n) matches FieldView::Received(new, m) && m == n
            && n <= new.len() && new[i] == (i < k && own[i]),
        FieldView::Validated(own, k).with_capacity(n) matches FieldView::Validated(new, m) && m == n
            && n <= new.len() && new[i] == (i < k && own[i]),
        FieldView::NotReceived.with_capacity(n) matches FieldView::Received(new, m) && m == n && n
            <= new.len() && !new[i],
        FieldView::Received(own, n).with_capacity(k) == FieldView::Received(own, n),
        FieldView::Validated(own, n).with_capacity(k) == FieldView::Validated(own, n),
{
}

} // verus!
