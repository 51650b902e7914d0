//! What holds of a torrent, whatever it is told.

use crate::bitfield::Bitfield;
use crate::buffers::bytes_content;
use crate::laws::picker::{asked_for_is_what_is_wanted, block_is_taken_in, coming_peer_is_counted};
use crate::laws::picker::{pending_requests_cool, rarer_piece_is_asked_for_first};
use crate::peer::PeerMessageView;
use crate::piece_picker::{BufferState, PickerState, PieceState};
use crate::piece_picker::{covered, request_of, AvailabilityUpdate, BlockRequest};
use crate::protocol::{Block, BlockInfo, MessageView};
use crate::torrent::books::{Books, PeerView};
use crate::torrent::books::{absent_peer, cancels, others, peer_position, present_peer};
use crate::torrent::{ActionView, Pid, TorrentMessage, TorrentReply};
use vstd::prelude::*;

verus! {

/// A peer is found where it is.
proof fn found(b: Books, pid: Pid, k: int)
    requires
        b.wf(),
        0 <= k < b.peers.len(),
        b.peers[k].pid == pid,
    ensures
        peer_position(b.peers, pid, 0) == Some(k),
{
    if peer_position(b.peers, pid, 0) is None {
        absent_peer(b.peers, pid, 0);
    } else {
        present_peer(b.peers, pid, 0);
        let j = peer_position(b.peers, pid, 0)->0;
        if j < k {
            assert(b.peers[j].pid != b.peers[k].pid);
        } else if k < j {
            assert(b.peers[k].pid != b.peers[j].pid);
        }
    }
}

/// A peer is of interest as soon as it has one piece that is not there, whatever else it has or is
/// there, and is not where each of its pieces is there. It is counted for each of its pieces.
pub proof fn peer_with_a_missing_piece_is_interesting(
    b: Books,
    pid: Pid,
    bitfield: Bitfield,
    now: u64,
    a: Books,
    told: Seq<ActionView>,
    reply: TorrentReply,
    p: PickerState,
    i: int,
)
    requires
        b.wf(),
        b.picker == Some(p),
        b.handled(TorrentMessage::ShouldBeInterested { pid, bitfield }, now, a, told, reply),
    ensures
        reply is Interest,
        (exists|k: int|
            0 <= k < bitfield.num_pieces && #[trigger] bitfield.holds(k) && !b.bits[k]) <==> reply
            == TorrentReply::Interest(true),
        told.len() == 0,
        a.bits == b.bits,
        a.picker matches Some(q) && q.pieces.len() == p.pieces.len() && (0 <= i < p.pieces.len()
            ==> q.pieces[i].num_peer == p.pieces[i].num_peer + if i < bitfield.num_pieces
            && bitfield.holds(i) {
            1int
        } else {
            0
        }),
{
    if exists|k: int| 0 <= k < bitfield.num_pieces && #[trigger] bitfield.holds(k) && !b.bits[k] {
        let k = choose|k: int|
            0 <= k < bitfield.num_pieces && #[trigger] bitfield.holds(k) && !b.bits[k];
        assert(crate::torrent::books::owns(bitfield, k));
    }
    if b.interesting(bitfield) {
        let k = choose|k: int| #[trigger]
            crate::torrent::books::owns(bitfield, k) && !b.bits[k];
        assert(bitfield.holds(k));
    }
    if 0 <= i < p.pieces.len() {
        coming_peer_is_counted(p, AvailabilityUpdate::Bitfield(&bitfield), i);
    }
}

/// A piece that a peer has got is counted once more, and no other is.
pub proof fn got_piece_is_counted(
    b: Books,
    pid: Pid,
    piece_idx: u32,
    now: u64,
    a: Books,
    told: Seq<ActionView>,
    reply: TorrentReply,
    p: PickerState,
    i: int,
)
    requires
        b.wf(),
        b.picker == Some(p),
        b.handled(TorrentMessage::Have { pid, piece_idx }, now, a, told, reply),
        0 <= i < p.pieces.len(),
    ensures
        told.len() == 0,
        a.bits == b.bits,
        a.picker matches Some(q) && q.pieces.len() == p.pieces.len() && q.pieces[i].num_peer
            == p.pieces[i].num_peer + if i == piece_idx {
            1int
        } else {
            0
        },
{
    coming_peer_is_counted(p, AvailabilityUpdate::Have(piece_idx), i);
}

/// The blocks that a connection is given to ask for are blocks that have not come, of pieces that
/// are not there and that the peer has. They are noted as asked of that peer and of no other.
pub proof fn given_blocks_are_wanted_and_noted(
    b: Books,
    pid: Pid,
    max_requests: usize,
    bitfield: Bitfield,
    now: u64,
    a: Books,
    told: Seq<ActionView>,
    reply: TorrentReply,
    p: PickerState,
    k: int,
    j: int,
)
    requires
        b.wf(),
        b.picker == Some(p),
        p.pieces.len() <= 0x1_0000_0000,
        0 <= k < b.peers.len(),
        b.peers[k].pid == pid,
        b.handled(
            TorrentMessage::RequestBlock { pid, max_requests, bitfield },
            now,
            a,
            told,
            reply,
        ),
    ensures
        told.len() == 0,
        reply matches TorrentReply::Blocks(blocks) && {
            &&& blocks@.len() <= max_requests
            &&& a.peers.len() == b.peers.len()
            &&& a.peers[k].pending == b.peers[k].pending + blocks@
            &&& 0 <= j < b.peers.len() && j != k ==> a.peers[j] == b.peers[j]
            &&& forall|x: int|
                0 <= x < blocks@.len() ==> {
                    let w = #[trigger] blocks@[x];
                    let q = p.pieces[w.index as int];
                    &&& w.index < p.pieces.len()
                    &&& bitfield.holds(w.index as int)
                    &&& !(q.state is Have)
                    &&& exists|y: int|
                        0 <= y < q.blocks.len() && (#[trigger] q.blocks[y]).offset == w.begin
                            && q.blocks[y].length == w.length && !(q.blocks[y].state is Downloaded)
                }
            &&& blocks@.len() < max_requests ==> forall|i: int, y: int|
                0 <= i < p.pieces.len() && !(p.pieces[i].state is Have) && bitfield.holds(i) && 0
                    <= y < p.pieces[i].blocks.len() && !((
                #[trigger] p.pieces[i].blocks[y]).state is Downloaded) && p.heat_of(
                    BlockRequest {
                        piece_index: i as u32,
                        begin: p.pieces[i].blocks[y].offset,
                        length: p.pieces[i].blocks[y].length,
                    },
                ) <= 100 ==> blocks@.contains(
                    BlockInfo {
                        index: i as u32,
                        begin: p.pieces[i].blocks[y].offset,
                        length: p.pieces[i].blocks[y].length,
                    },
                )
        },
{
    found(b, pid, k);
    let blocks = reply->Blocks_0;
    let steps = crate::torrent::messages::heat_steps();
    assert(steps[3] == 100);
    asked_for_is_what_is_wanted(p, bitfield, max_requests as int, steps, blocks@, 100);
}

/// Of two pieces that nothing was asked of, a connection is given the blocks of the one first that
/// fewer peers have.
pub proof fn rarer_piece_is_given_first(
    b: Books,
    pid: Pid,
    max_requests: usize,
    bitfield: Bitfield,
    now: u64,
    a: Books,
    told: Seq<ActionView>,
    blocks: Vec<BlockInfo>,
    p: PickerState,
    rare: int,
    common: int,
    y: int,
    j: int,
)
    requires
        b.wf(),
        b.picker == Some(p),
        p.pieces.len() <= 0x1_0000_0000,
        b.handled(
            TorrentMessage::RequestBlock { pid, max_requests, bitfield },
            now,
            a,
            told,
            TorrentReply::Blocks(blocks),
        ),
        0 <= rare < p.pieces.len(),
        0 <= common < p.pieces.len(),
        p.pieces[rare].state is NotRequested,
        p.pieces[common].state is NotRequested,
        p.pieces[rare].num_peer < p.pieces[common].num_peer,
        bitfield.holds(rare),
        0 <= y < p.pieces[rare].blocks.len(),
        !(p.pieces[rare].blocks[y].state is Downloaded),
        p.heat_of(
            BlockRequest {
                piece_index: rare as u32,
                begin: p.pieces[rare].blocks[y].offset,
                length: p.pieces[rare].blocks[y].length,
            },
        ) == 0,
        0 <= j < blocks@.len(),
        blocks@[j].index == common,
    ensures
        exists|i: int|
            0 <= i < j && #[trigger] blocks@[i] == (BlockInfo {
                index: rare as u32,
                begin: p.pieces[rare].blocks[y].offset,
                length: p.pieces[rare].blocks[y].length,
            }),
{
    rarer_piece_is_asked_for_first(
        p,
        bitfield,
        max_requests as int,
        crate::torrent::messages::heat_steps(),
        blocks@,
        rare,
        common,
        y,
        j,
    );
}

/// What was asked of a peer that will not answer is not awaited from it any longer, and is cooler
/// by as much as it was asked of it. No other peer is touched.
pub proof fn cleared_requests_are_given_up(
    b: Books,
    pid: Pid,
    now: u64,
    a: Books,
    told: Seq<ActionView>,
    reply: TorrentReply,
    p: PickerState,
    k: int,
    j: int,
    x: BlockRequest,
)
    requires
        b.wf(),
        b.picker == Some(p),
        0 <= k < b.peers.len(),
        b.peers[k].pid == pid,
        b.handled(TorrentMessage::ClearPeerRequest { pid }, now, a, told, reply),
    ensures
        told.len() == 0,
        a.peers.len() == b.peers.len(),
        a.peers[k].pending.len() == 0,
        a.peers[k].pid == pid && a.peers[k].addr == b.peers[k].addr,
        0 <= j < b.peers.len() && j != k ==> a.peers[j] == b.peers[j],
        a.picker matches Some(q) && {
            let times = b.peers[k].pending.filter(
                |w: BlockInfo| w.index == x.piece_index && w.begin == x.begin && w.length == x.length,
            ).len();
            q.heat_of(x) == if p.heat_of(x) > times {
                p.heat_of(x) - times
            } else {
                0
            }
        },
{
    found(b, pid, k);
    pending_requests_cool(p, b.peers[k].pending, x);
}

/// A peer that is there and asks for a block gets it read; one that is not there gets nothing.
pub proof fn wanted_block_is_read(
    b: Books,
    pid: Pid,
    block_info: BlockInfo,
    now: u64,
    a: Books,
    told: Seq<ActionView>,
    reply: TorrentReply,
)
    requires
        b.wf(),
        b.handled(TorrentMessage::RemoteBlockRequest { pid, block_info }, now, a, told, reply),
    ensures
        a == b,
        (exists|k: int| 0 <= k < b.peers.len() && (#[trigger] b.peers[k]).pid == pid) ==> told
            == seq![ActionView::ReadBlock(pid, block_info)],
        (forall|k: int| 0 <= k < b.peers.len() ==> (#[trigger] b.peers[k]).pid != pid) ==> told.len()
            == 0,
{
    if peer_position(b.peers, pid, 0) is Some {
        present_peer(b.peers, pid, 0);
        let k = peer_position(b.peers, pid, 0)->0;
        assert(b.peers[k].pid == pid);
    } else {
        absent_peer(b.peers, pid, 0);
    }
}

proof fn cancelled_of(s: Seq<PeerView>, b: BlockInfo, n: int, x: ActionView)
    requires
        0 <= n <= s.len(),
    ensures
        cancels(s, b, n).contains(x) <==> exists|j: int|
            0 <= j < n && (#[trigger] s[j]).pending.contains(b) && x == ActionView::ToPeer(
                s[j].pid,
                PeerMessageView::SendMessage(MessageView::Cancel(b)),
            ),
    decreases n,
{
    let l = cancels(s, b, n);
    if n > 0 {
        cancelled_of(s, b, n - 1, x);
        let less = cancels(s, b, n - 1);
        let own = ActionView::ToPeer(
            s[n - 1].pid,
            PeerMessageView::SendMessage(MessageView::Cancel(b)),
        );
        if s[n - 1].pending.contains(b) {
            assert(l == less.push(own));
            if less.contains(x) {
                let i = choose|i: int| 0 <= i < less.len() && less[i] == x;
                assert(l[i] == x);
            }
            if x == own {
                assert(l[less.len() as int] == x);
            }
            if l.contains(x) {
                let i = choose|i: int| 0 <= i < l.len() && l[i] == x;
                if i < less.len() {
                    assert(less[i] == x);
                } else {
                    assert(s[n - 1].pending.contains(b) && x == own);
                }
            }
        }
    }
}

proof fn others_hold(s: Seq<BlockInfo>, b: BlockInfo, n: int, x: BlockInfo)
    requires
        0 <= n <= s.len(),
    ensures
        others(s, b, n).contains(x) <==> x != b && exists|i: int| 0 <= i < n && #[trigger] s[i] == x,
    decreases n,
{
    let l = others(s, b, n);
    if n > 0 {
        others_hold(s, b, n - 1, x);
        let less = others(s, b, n - 1);
        if s[n - 1] != b {
            if less.contains(x) {
                let i = choose|i: int| 0 <= i < less.len() && less[i] == x;
                assert(l[i] == x);
            }
            if x == s[n - 1] {
                assert(l[less.len() as int] == x);
            }
            if l.contains(x) {
                let i = choose|i: int| 0 <= i < l.len() && l[i] == x;
                if i < less.len() {
                    assert(less[i] == x);
                }
            }
        }
    }
}

/// A block that has come is awaited no longer from the peer that sent it, each other peer that was
/// asked for it is told to cancel, and no peer is told so otherwise. It is counted.
pub proof fn block_is_cancelled_elsewhere(
    b: Books,
    pid: Pid,
    block: Block,
    now: u64,
    a: Books,
    told: Seq<ActionView>,
    reply: TorrentReply,
    k: int,
    j: int,
    other: BlockInfo,
)
    requires
        b.wf(),
        b.picker is Some,
        b.down.window_bytes + bytes_content(block.data).len() <= u64::MAX,
        0 <= k < b.peers.len(),
        b.peers[k].pid == pid,
        b.handled(TorrentMessage::ReceiveBlock(pid, block), now, a, told, reply),
        0 <= j < b.peers.len(),
    ensures
        ({
            let came = BlockInfo {
                index: block.index,
                begin: block.begin,
                length: bytes_content(block.data).len() as u32,
            };
            &&& a.peers.len() == b.peers.len()
            &&& j != k ==> a.peers[j] == b.peers[j]
            &&& a.peers[k].pid == pid
            &&& a.peers[k].pending.contains(other) <==> other != came && b.peers[k].pending.contains(
                other,
            )
            &&& told.contains(
                ActionView::ToPeer(
                    b.peers[j].pid,
                    PeerMessageView::SendMessage(MessageView::Cancel(came)),
                ),
            ) <==> j != k && b.peers[j].pending.contains(came)
            &&& a.down.window_bytes == b.down.window_bytes + bytes_content(block.data).len()
            &&& a.bits == b.bits
        }),
{
    found(b, pid, k);
    let data = bytes_content(block.data);
    let came = BlockInfo { index: block.index, begin: block.begin, length: data.len() as u32 };
    let old = b.peers[k].pending;
    others_hold(old, came, old.len() as int, other);
    others_hold(old, came, old.len() as int, came);
    if old.contains(other) {
        let i = choose|i: int| 0 <= i < old.len() && old[i] == other;
        assert(old[i] == other);
    }
    let peers = b.without_pending(pid, came);
    let x = ActionView::ToPeer(
        b.peers[j].pid,
        PeerMessageView::SendMessage(MessageView::Cancel(came)),
    );
    cancelled_of(peers, came, peers.len() as int, x);
    let all = cancels(peers, came, peers.len() as int);
    assert(told.contains(x) <==> all.contains(x)) by {
        if all.contains(x) {
            let i = choose|i: int| 0 <= i < all.len() && all[i] == x;
            assert(told[i] == x);
        }
        if told.contains(x) {
            let i = choose|i: int| 0 <= i < told.len() && told[i] == x;
            if i < all.len() {
                assert(all[i] == x);
            }
        }
    }
    if all.contains(x) {
        let i = choose|i: int|
            0 <= i < peers.len() && (#[trigger] peers[i]).pending.contains(came) && x
                == ActionView::ToPeer(
                peers[i].pid,
                PeerMessageView::SendMessage(MessageView::Cancel(came)),
            );
        assert(peers[i].pid == b.peers[j].pid);
        assert(peers[i].pid == b.peers[i].pid);
        if i < j {
            assert(b.peers[i].pid != b.peers[j].pid);
        } else if j < i {
            assert(b.peers[j].pid != b.peers[i].pid);
        }
    }
    if j != k && b.peers[j].pending.contains(came) {
        assert(peers[j] == b.peers[j]);
        assert(peers[j].pending.contains(came));
    }
}

/// A block that fits is put in its place; once the last byte of its piece has come, and only then,
/// the piece is held against its hash, with each byte as it came.
pub proof fn whole_piece_is_verified(
    b: Books,
    pid: Pid,
    block: Block,
    now: u64,
    a: Books,
    told: Seq<ActionView>,
    reply: TorrentReply,
    p: PickerState,
    y: int,
    buffer: BufferState,
)
    requires
        b.wf(),
        b.picker == Some(p),
        b.handled(TorrentMessage::ReceiveBlock(pid, block), now, a, told, reply),
        block.index < p.pieces.len(),
        0 <= y < p.pieces[block.index as int].blocks.len(),
        p.pieces[block.index as int].blocks[y].offset == block.begin,
        p.pieces[block.index as int].buffer == Some(buffer),
        block.begin + bytes_content(block.data).len() <= buffer.len,
        buffer.len > 0,
    ensures
        ({
            let data = bytes_content(block.data);
            let whole = forall|x: int|
                0 <= x < buffer.len ==> #[trigger] covered(buffer.ranges, x) || block.begin <= x
                    < block.begin + data.len();
            let verified = |w: Seq<u8>| ActionView::VerifyPiece(block.index, w);
            &&& whole <==> exists|w: Seq<u8>| told.contains(#[trigger] verified(w))
            &&& whole ==> exists|w: Seq<u8>|
                told.contains(#[trigger] verified(w)) && w.len() == buffer.len && forall|x: int|
                    0 <= x < buffer.len ==> #[trigger] w[x] == if block.begin <= x < block.begin
                        + data.len() {
                        data[x - block.begin]
                    } else {
                        buffer.bytes[x]
                    }
            &&& a.picker matches Some(q) && q.pieces[block.index as int].blocks[y].state is Downloaded
                && (whole ==> q.pieces[block.index as int].state is Downloaded)
        }),
{
    let data = bytes_content(block.data);
    let came = BlockInfo { index: block.index, begin: block.begin, length: data.len() as u32 };
    let r = request_of(came);
    let i = block.index as int;
    let s = p.without_request(r);
    crate::laws::picker::given_up_request_stays_in_shape(p, r, i, y);
    block_is_taken_in(s, block.index, block.begin, data, y, buffer, r);
    let peers = b.without_pending(pid, came);
    let all = cancels(peers, came, peers.len() as int);
    let (q, done) = s.with_block(block.index, block.begin, data);
    let verified = |w: Seq<u8>| ActionView::VerifyPiece(block.index, w);
    assert forall|w: Seq<u8>| !all.contains(#[trigger] verified(w)) by {
        cancelled_of(peers, came, peers.len() as int, verified(w));
    }
    match done {
        Some(w) => {
            assert(told[all.len() as int] == verified(w));
            assert(told.contains(verified(w)));
            crate::laws::picker::told_piece_is_in_that_state(q, i, PieceState::Downloaded, i);
        },
        None => {
            assert(told == all);
        },
    }
}

} // verus!
