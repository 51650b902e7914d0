//! What holds of the picker.

use crate::bitfield::Bitfield;
use crate::piece_picker::{
    blocks_like, hottest_of, PickerState, PieceDetail, PieceRecord, PieceState,
};
use crate::piece_picker::{BlockMetadata, BlockRequest, BlockState, BufferState};
use crate::piece_picker::{block_index, covered, fresh_blocks, gaps, laid_out, missing_blocks};
use crate::piece_picker::{block_leaves_its_bytes, complete_iff_every_byte_arrived, cut};
use crate::piece_picker::{request_key, request_keys_differ, request_of, AvailabilityUpdate};
use crate::protocol::BlockInfo;
use vstd::prelude::*;

verus! {

/// A peer that comes and goes again leaves the count of every piece as it was.
pub proof fn peer_comes_and_goes(s: PickerState, u: AvailabilityUpdate)
    requires
        s.wf(),
    ensures
        s.more_peers(u).fewer_peers(u) == s,
{
    assert forall|i: int| 0 <= i < s.pieces.len() implies #[trigger] s.more_peers(u).fewer_peers(
        u,
    ).pieces[i] == s.pieces[i] by {
        assert(s.pieces[i].wf());
    }
    assert(s.more_peers(u).fewer_peers(u) =~= s);
}

/// A peer that comes is counted for each of its pieces and for no other, and nothing but the
/// counts changes.
pub proof fn coming_peer_is_counted(s: PickerState, u: AvailabilityUpdate, i: int)
    requires
        0 <= i < s.pieces.len(),
    ensures
        ({
            let a = s.more_peers(u);
            let owned = match u {
                AvailabilityUpdate::Bitfield(b) => i < b.num_pieces && b.holds(i),
                AvailabilityUpdate::Have(index) => i == index,
            };
            &&& a.pieces.len() == s.pieces.len()
            &&& a.pieces[i].num_peer == s.pieces[i].num_peer + if owned {
                1int
            } else {
                0
            }
            &&& a.pieces[i].len == s.pieces[i].len
            &&& a.pieces[i].state == s.pieces[i].state
            &&& a.pieces[i].blocks == s.pieces[i].blocks
            &&& a.pieces[i].buffer == s.pieces[i].buffer
            &&& a.heat == s.heat
        }),
{
}

/// A peer that goes is counted no longer for each of its pieces, as far as there is a count, and
/// nothing but the counts changes.
pub proof fn going_peer_is_not_counted(s: PickerState, u: AvailabilityUpdate, i: int)
    requires
        0 <= i < s.pieces.len(),
        s.pieces[i].num_peer >= 0,
    ensures
        ({
            let a = s.fewer_peers(u);
            let owned = match u {
                AvailabilityUpdate::Bitfield(b) => i < b.num_pieces && b.holds(i),
                AvailabilityUpdate::Have(index) => i == index,
            };
            &&& a.pieces.len() == s.pieces.len()
            &&& !owned || s.pieces[i].num_peer == 0 ==> a.pieces[i].num_peer == s.pieces[i].num_peer
            &&& owned && s.pieces[i].num_peer > 0 ==> a.pieces[i].num_peer + 1
                == s.pieces[i].num_peer
            &&& a.pieces[i].len == s.pieces[i].len
            &&& a.pieces[i].state == s.pieces[i].state
            &&& a.pieces[i].blocks == s.pieces[i].blocks
            &&& a.pieces[i].buffer == s.pieces[i].buffer
            &&& a.heat == s.heat
        }),
{
}

/// Blocks that have not arrived are counted one by one.
pub proof fn missing_blocks_are_counted(blocks: Seq<BlockMetadata>, n: int)
    requires
        0 <= n <= blocks.len(),
    ensures
        missing_blocks(blocks, n) == blocks.take(n).filter(
            |b: BlockMetadata| !(b.state is Downloaded),
        ).len(),
    decreases n,
{
    reveal(Seq::filter);
    let f = |b: BlockMetadata| !(b.state is Downloaded);
    if n > 0 {
        missing_blocks_are_counted(blocks, n - 1);
        assert(blocks.take(n).drop_last() =~= blocks.take(n - 1));
        assert(blocks.take(n).last() == blocks[n - 1]);
    } else {
        assert(blocks.take(0).filter(f).len() == 0);
    }
}

/// Pieces in a state are counted one by one.
pub proof fn pieces_in_a_state_are_counted(s: PickerState, state: PieceState, n: int)
    requires
        0 <= n <= s.pieces.len(),
    ensures
        s.count(state, n) == s.pieces.take(n).filter(|p: PieceRecord| p.state == state).len(),
    decreases n,
{
    reveal(Seq::filter);
    let f = |p: PieceRecord| p.state == state;
    if n > 0 {
        pieces_in_a_state_are_counted(s, state, n - 1);
        assert(s.pieces.take(n).drop_last() =~= s.pieces.take(n - 1));
        assert(s.pieces.take(n).last() == s.pieces[n - 1]);
    } else {
        assert(s.pieces.take(0).filter(f).len() == 0);
    }
}

/// The blocks of a piece lie one behind the other, none is longer than 16384 bytes, all but the
/// last are as long as that, and together they make up the piece.
pub proof fn blocks_make_up_the_piece(len: int)
    requires
        0 <= len <= u32::MAX,
    ensures
        ({
            let b = fresh_blocks(len);
            &&& len == 0 <==> b.len() == 0
            &&& forall|k: int| 0 <= k < b.len() ==> (#[trigger] b[k]).state is NotRequested
            &&& forall|k: int|
                0 <= k < b.len() ==> (#[trigger] b[k]).offset == 16384 * k && 0 < b[k].length
                    <= 16384 && b[k].offset + b[k].length == if k + 1 == b.len() {
                    len
                } else {
                    16384 * (k + 1)
                }
        }),
{
    let b = fresh_blocks(len);
    assert forall|k: int| 0 <= k < b.len() implies (#[trigger] b[k]).offset == 16384 * k && 0
        < b[k].length <= 16384 && b[k].offset + b[k].length == (if k + 1 == b.len() {
        len
    } else {
        16384 * (k + 1)
    }) by {
        assert(16384 * k < len);
    }
}

/// A byte of a buffer is in a missing range exactly when it has not arrived.
pub proof fn missing_ranges_are_what_has_not_arrived(
    ranges: Seq<(int, int)>,
    from: int,
    len: int,
    x: int,
)
    requires
        crate::piece_picker::apart(ranges, len),
        0 <= from <= len,
        forall|i: int| 0 <= i < ranges.len() ==> from <= (#[trigger] ranges[i]).0,
        from <= x < len,
    ensures
        covered(gaps(ranges, from, len), x) <==> !covered(ranges, x),
    decreases ranges.len(),
{
    let g = gaps(ranges, from, len);
    if ranges.len() == 0 {
        assert(g[0] == (from, len));
        assert(covered(g, x));
    } else {
        let first = ranges[0];
        let tail = ranges.skip(1);
        let rest = gaps(tail, first.1, len);
        assert forall|i: int| 0 <= i < tail.len() implies 0 <= (#[trigger] tail[i]).0 <= tail[i].1
            <= len && first.1 < tail[i].0 by {
            assert(tail[i] == ranges[i + 1]);
        }
        assert forall|i: int, j: int| 0 <= i < j < tail.len() implies (#[trigger] tail[i]).1 < (
        #[trigger] tail[j]).0 by {
            assert(tail[i] == ranges[i + 1]);
            assert(tail[j] == ranges[j + 1]);
        }
        gaps_lie_behind(tail, first.1, len);
        if x >= first.1 {
            missing_ranges_are_what_has_not_arrived(tail, first.1, len, x);
            if covered(tail, x) {
                let i = choose|i: int| 0 <= i < tail.len() && (#[trigger] tail[i]).0 <= x < tail[i].1;
                assert(ranges[i + 1] == tail[i]);
            }
            if covered(ranges, x) {
                let i = choose|i: int|
                    0 <= i < ranges.len() && (#[trigger] ranges[i]).0 <= x < ranges[i].1;
                assert(i > 0);
                assert(tail[i - 1] == ranges[i]);
            }
            if covered(rest, x) {
                let i = choose|i: int| 0 <= i < rest.len() && (#[trigger] rest[i]).0 <= x < rest[i].1;
                if from < first.0 {
                    assert(g[i + 1] == rest[i]);
                } else {
                    assert(g[i] == rest[i]);
                }
            }
            if covered(g, x) {
                let i = choose|i: int| 0 <= i < g.len() && (#[trigger] g[i]).0 <= x < g[i].1;
                if from < first.0 {
                    assert(i > 0);
                    assert(rest[i - 1] == g[i]);
                } else {
                    assert(rest[i] == g[i]);
                }
            }
        } else if x < first.0 {
            assert(g[0] == (from, first.0));
            assert(covered(g, x));
            if covered(ranges, x) {
                let i = choose|i: int|
                    0 <= i < ranges.len() && (#[trigger] ranges[i]).0 <= x < ranges[i].1;
                if i > 0 {
                    assert(ranges[0].1 < ranges[i].0);
                }
            }
        } else {
            assert(ranges[0] == first);
            assert(covered(ranges, x));
            if covered(g, x) {
                let i = choose|i: int| 0 <= i < g.len() && (#[trigger] g[i]).0 <= x < g[i].1;
                if from < first.0 {
                    if i > 0 {
                        assert(g[i] == rest[i - 1]);
                    }
                } else {
                    assert(g[i] == rest[i]);
                }
            }
        }
    }
}

proof fn gaps_lie_behind(ranges: Seq<(int, int)>, from: int, len: int)
    requires
        forall|i: int| 0 <= i < ranges.len() ==> from <= (#[trigger] ranges[i]).0 <= ranges[i].1,
        forall|i: int, j: int|
            0 <= i < j < ranges.len() ==> (#[trigger] ranges[i]).1 < (#[trigger] ranges[j]).0,
    ensures
        forall|i: int|
            0 <= i < gaps(ranges, from, len).len() ==> from <= (#[trigger] gaps(
                ranges,
                from,
                len,
            )[i]).0,
    decreases ranges.len(),
{
    let g = gaps(ranges, from, len);
    if ranges.len() > 0 {
        let tail = ranges.skip(1);
        assert forall|i: int| 0 <= i < tail.len() implies ranges[0].1 <= (#[trigger] tail[i]).0
            <= tail[i].1 by {
            assert(tail[i] == ranges[i + 1]);
        }
        assert forall|i: int, j: int| 0 <= i < j < tail.len() implies (#[trigger] tail[i]).1 < (
        #[trigger] tail[j]).0 by {
            assert(tail[i] == ranges[i + 1]);
            assert(tail[j] == ranges[j + 1]);
        }
        gaps_lie_behind(tail, ranges[0].1, len);
        let rest = gaps(tail, ranges[0].1, len);
        assert forall|i: int| 0 <= i < g.len() implies from <= (#[trigger] g[i]).0 by {
            if from < ranges[0].0 {
                if i > 0 {
                    assert(g[i] == rest[i - 1]);
                }
            } else {
                assert(g[i] == rest[i]);
            }
        }
    }
}

/// A piece that the picker is told to be there has all its blocks; one that is told another state
/// keeps its blocks. No other piece changes, and no count, length or buffer does.
pub proof fn told_piece_is_in_that_state(s: PickerState, index: int, state: PieceState, i: int)
    requires
        0 <= index < s.pieces.len(),
        0 <= i < s.pieces.len(),
    ensures
        ({
            let a = s.told(index, state);
            let p = a.pieces[index];
            &&& a.pieces.len() == s.pieces.len()
            &&& a.heat == s.heat
            &&& i != index ==> a.pieces[i] == s.pieces[i]
            &&& p.state == state
            &&& p.len == s.pieces[index].len
            &&& p.num_peer == s.pieces[index].num_peer
            &&& p.buffer == s.pieces[index].buffer
            &&& p.blocks.len() == s.pieces[index].blocks.len()
            &&& state is Have ==> forall|k: int|
                0 <= k < p.blocks.len() ==> (#[trigger] p.blocks[k]).state is Downloaded
                    && p.blocks[k].offset == s.pieces[index].blocks[k].offset
                    && p.blocks[k].length == s.pieces[index].blocks[k].length
            &&& !(state is Have) ==> p.blocks == s.pieces[index].blocks
        }),
{
}

/// A piece that is given up is wanted as if nothing of it had ever been asked for or had arrived;
/// the count of its peers stays, and so does every other piece.
pub proof fn reset_piece_is_wanted_anew(s: PickerState, index: int, i: int)
    requires
        s.wf(),
        0 <= index < s.pieces.len(),
        0 <= i < s.pieces.len(),
    ensures
        ({
            let a = s.reset(index);
            let p = a.pieces[index];
            &&& a.pieces.len() == s.pieces.len()
            &&& a.heat == s.heat
            &&& i != index ==> a.pieces[i] == s.pieces[i]
            &&& p.state is NotRequested
            &&& p.len == s.pieces[index].len
            &&& p.num_peer == s.pieces[index].num_peer
            &&& p.blocks.len() == s.pieces[index].blocks.len()
            &&& forall|k: int|
                0 <= k < p.blocks.len() ==> (#[trigger] p.blocks[k]).state is NotRequested
                    && p.blocks[k].offset == s.pieces[index].blocks[k].offset
                    && p.blocks[k].length == s.pieces[index].blocks[k].length
            &&& p.buffer matches Some(b) && b.len == p.len && forall|x: int|
                !#[trigger] covered(b.ranges, x)
        }),
{
    let a = s.reset(index);
    let p = a.pieces[index];
    let q = s.pieces[index];
    assert(q.wf());
    let plain = crate::piece_picker::blocks_as(q.blocks, BlockState::NotRequested);
    assert(plain == fresh_blocks(q.len));
    assert forall|k: int| 0 <= k < p.blocks.len() implies (#[trigger] p.blocks[k]).state is NotRequested
        && p.blocks[k].offset == q.blocks[k].offset && p.blocks[k].length == q.blocks[k].length by {
        assert(p.blocks[k] == plain[k]);
    }
}

proof fn first_block_at(blocks: Seq<BlockMetadata>, begin: u32, i: int)
    requires
        0 <= i,
    ensures
        match block_index(blocks, begin, i) {
            Some(k) => i <= k < blocks.len() && blocks[k].offset == begin,
            None => forall|k: int| i <= k < blocks.len() ==> (#[trigger] blocks[k]).offset != begin,
        },
    decreases blocks.len() - i,
{
    if i < blocks.len() && blocks[i].offset != begin {
        first_block_at(blocks, begin, i + 1);
    }
}

proof fn only_block_at(p: PieceRecord, begin: u32, k: int)
    requires
        p.wf(),
        0 <= k < p.blocks.len(),
        p.blocks[k].offset == begin,
    ensures
        block_index(p.blocks, begin, 0) == Some(k),
{
    first_block_at(p.blocks, begin, 0);
    let j = block_index(p.blocks, begin, 0)->0;
    blocks_make_up_the_piece(p.len);
    let plain = crate::piece_picker::blocks_as(p.blocks, BlockState::NotRequested);
    assert(plain[k] == fresh_blocks(p.len)[k]);
    assert(plain[j] == fresh_blocks(p.len)[j]);
}

/// A request for block `k` of a piece that is not there makes the block one hotter and a piece in
/// progress of one that nothing was asked of. Nothing else changes.
pub proof fn request_is_registered(s: PickerState, r: BlockRequest, k: int, other: BlockRequest)
    requires
        s.wf(),
        r.piece_index < s.pieces.len(),
        !(s.pieces[r.piece_index as int].state is Have),
        0 <= k < s.pieces[r.piece_index as int].blocks.len(),
        s.pieces[r.piece_index as int].blocks[k].offset == r.begin,
        s.heat_of(r) < usize::MAX,
    ensures
        ({
            let i = r.piece_index as int;
            let a = s.with_request(r);
            let p = s.pieces[i];
            let q = a.pieces[i];
            &&& s.can_request(r)
            &&& a.heat_of(r) == s.heat_of(r) + 1
            &&& other != r ==> a.heat_of(other) == s.heat_of(other)
            &&& q.blocks[k].state == (BlockState::Requested { heat: a.heat_of(r) })
            &&& q.blocks[k].offset == p.blocks[k].offset && q.blocks[k].length == p.blocks[k].length
            &&& q.blocks.len() == p.blocks.len()
            &&& forall|j: int|
                0 <= j < p.blocks.len() && j != k ==> #[trigger] q.blocks[j] == p.blocks[j]
            &&& q.state == if p.state is NotRequested {
                PieceState::InProgress
            } else {
                p.state
            }
            &&& q.num_peer == p.num_peer && q.len == p.len && q.buffer == p.buffer
            &&& a.pieces.len() == s.pieces.len()
            &&& forall|j: int|
                0 <= j < s.pieces.len() && j != i ==> #[trigger] a.pieces[j] == s.pieces[j]
        }),
{
    only_block_at(s.pieces[r.piece_index as int], r.begin, k);
    if request_key(r) == request_key(other) {
        request_keys_differ(r, other);
    }
}

/// A request for what is no block of a piece that is wanted is not registered.
pub proof fn vain_request_changes_nothing(s: PickerState, r: BlockRequest)
    requires
        r.piece_index >= s.pieces.len() || s.pieces[r.piece_index as int].state is Have || forall|
            k: int,
        |
            0 <= k < s.pieces[r.piece_index as int].blocks.len() ==> (
            #[trigger] s.pieces[r.piece_index as int].blocks[k]).offset != r.begin,
    ensures
        !s.can_request(r),
        s.with_request(r) == s,
{
    if r.piece_index < s.pieces.len() {
        first_block_at(s.pieces[r.piece_index as int].blocks, r.begin, 0);
    }
}

/// A request that is given up makes its block one cooler, and a block that was asked for once is
/// to be asked for anew. Nothing else changes.
pub proof fn request_is_given_up(s: PickerState, r: BlockRequest, k: int, other: BlockRequest)
    requires
        s.wf(),
        s.heat_of(r) > 0,
        r.piece_index < s.pieces.len(),
        0 <= k < s.pieces[r.piece_index as int].blocks.len(),
        s.pieces[r.piece_index as int].blocks[k].offset == r.begin,
        s.pieces[r.piece_index as int].blocks[k].state is Requested,
    ensures
        ({
            let i = r.piece_index as int;
            let a = s.without_request(r);
            let p = s.pieces[i];
            let q = a.pieces[i];
            &&& a.heat_of(r) + 1 == s.heat_of(r)
            &&& other != r ==> a.heat_of(other) == s.heat_of(other)
            &&& q.blocks[k].state == if s.heat_of(r) == 1 {
                BlockState::NotRequested
            } else {
                BlockState::Requested { heat: (s.heat_of(r) - 1) as usize }
            }
            &&& q.blocks[k].offset == p.blocks[k].offset && q.blocks[k].length == p.blocks[k].length
            &&& q.blocks.len() == p.blocks.len()
            &&& forall|j: int|
                0 <= j < p.blocks.len() && j != k ==> #[trigger] q.blocks[j] == p.blocks[j]
            &&& q.state == p.state && q.num_peer == p.num_peer && q.len == p.len && q.buffer
                == p.buffer
            &&& a.pieces.len() == s.pieces.len()
            &&& forall|j: int|
                0 <= j < s.pieces.len() && j != i ==> #[trigger] a.pieces[j] == s.pieces[j]
        }),
{
    only_block_at(s.pieces[r.piece_index as int], r.begin, k);
    if request_key(r) == request_key(other) {
        request_keys_differ(r, other);
    }
}

/// How often a request is among the first `n` of a list.
proof fn filter_push(l: Seq<BlockRequest>, x: BlockRequest, n: int)
    requires
        0 < n <= l.len(),
    ensures
        l.take(n).filter(|r: BlockRequest| r == x).len() == l.take(n - 1).filter(
            |r: BlockRequest| r == x,
        ).len() + if l[n - 1] == x {
            1int
        } else {
            0
        },
{
    reveal(Seq::filter);
    assert(l.take(n).drop_last() =~= l.take(n - 1));
    assert(l.take(n).last() == l[n - 1]);
}

proof fn requests_cool(s: PickerState, l: Seq<BlockRequest>, n: int, x: BlockRequest)
    requires
        forall|k: u128| #[trigger] s.heat.contains_key(k) ==> s.heat[k] > 0,
        0 <= n <= l.len(),
    ensures
        ({
            let times = l.take(n).filter(|r: BlockRequest| r == x).len();
            let heat = s.without_requests(l, n).heat_of(x);
            heat == if s.heat_of(x) > times {
                s.heat_of(x) - times
            } else {
                0
            }
        }),
        forall|k: u128| #[trigger]
            s.without_requests(l, n).heat.contains_key(k) ==> s.without_requests(l, n).heat[k] > 0,
    decreases n,
{
    let f = |r: BlockRequest| r == x;
    if n > 0 {
        requests_cool(s, l, n - 1, x);
        filter_push(l, x, n);
        let r = l[n - 1];
        if request_key(r) == request_key(x) {
            request_keys_differ(r, x);
        }
    } else {
        reveal(Seq::filter);
        assert(l.take(0).filter(f).len() == 0);
    }
}

/// Requests that are given up cool each block by as many as there were for it, down to none.
pub proof fn given_up_requests_cool(s: PickerState, l: Seq<BlockRequest>, n: int, x: BlockRequest)
    requires
        s.wf(),
        0 <= n <= l.len(),
    ensures
        ({
            let times = l.take(n).filter(|r: BlockRequest| r == x).len();
            let heat = s.without_requests(l, n).heat_of(x);
            heat == if s.heat_of(x) > times {
                s.heat_of(x) - times
            } else {
                0
            }
        }),
{
    requests_cool(s, l, n, x);
}

/// A block that has come to where a block starts is there, no longer asked for, and put in its
/// place in the buffer. The piece is handed out once its last byte has come, and only then, with
/// each byte as it came. Nothing else changes.
pub proof fn block_is_taken_in(
    s: PickerState,
    index: u32,
    begin: u32,
    data: Seq<u8>,
    k: int,
    buffer: BufferState,
    other: BlockRequest,
)
    requires
        s.wf(),
        index < s.pieces.len(),
        0 <= k < s.pieces[index as int].blocks.len(),
        s.pieces[index as int].blocks[k].offset == begin,
        s.pieces[index as int].buffer == Some(buffer),
        begin + data.len() <= buffer.len,
        buffer.len > 0,
    ensures
        ({
            let i = index as int;
            let (a, done) = s.with_block(index, begin, data);
            let p = s.pieces[i];
            let q = a.pieces[i];
            let whole = forall|x: int|
                0 <= x < buffer.len ==> #[trigger] covered(buffer.ranges, x) || begin <= x < begin
                    + data.len();
            let came = BlockRequest { piece_index: index, begin, length: data.len() as u32 };
            &&& done is Some <==> whole
            &&& done matches Some(bytes) ==> bytes.len() == buffer.len && (forall|x: int|
                0 <= x < buffer.len ==> #[trigger] bytes[x] == if begin <= x < begin + data.len() {
                    data[x - begin]
                } else {
                    buffer.bytes[x]
                }) && q.buffer is None && q.state is Downloaded
            &&& done is None ==> q.state == p.state && (q.buffer matches Some(b) && b.len
                == buffer.len && (forall|x: int|
                0 <= x < buffer.len ==> #[trigger] b.bytes[x] == if begin <= x < begin + data.len() {
                    data[x - begin]
                } else {
                    buffer.bytes[x]
                }) && forall|x: int| #[trigger]
                covered(b.ranges, x) <==> covered(buffer.ranges, x) || begin <= x < begin
                    + data.len())
            &&& q.blocks[k].state is Downloaded
            &&& q.blocks[k].offset == p.blocks[k].offset && q.blocks[k].length == p.blocks[k].length
            &&& q.blocks.len() == p.blocks.len()
            &&& forall|j: int|
                0 <= j < p.blocks.len() && j != k ==> #[trigger] q.blocks[j] == p.blocks[j]
            &&& q.num_peer == p.num_peer && q.len == p.len
            &&& a.heat_of(came) == 0
            &&& other != came ==> a.heat_of(other) == s.heat_of(other)
            &&& a.pieces.len() == s.pieces.len()
            &&& forall|j: int|
                0 <= j < s.pieces.len() && j != i ==> #[trigger] a.pieces[j] == s.pieces[j]
        }),
{
    let i = index as int;
    let p = s.pieces[i];
    assert(p.wf());
    only_block_at(p, begin, k);
    let came = BlockRequest { piece_index: index, begin, length: data.len() as u32 };
    if request_key(came) == request_key(other) {
        request_keys_differ(came, other);
    }
    let filled = buffer.with_block(begin as int, data);
    block_leaves_its_bytes(buffer, begin as int, data);
    complete_iff_every_byte_arrived(filled);
    let whole = forall|x: int|
        0 <= x < buffer.len ==> #[trigger] covered(buffer.ranges, x) || begin <= x < begin
            + data.len();
    if whole {
        assert forall|x: int| 0 <= x < filled.len implies #[trigger] covered(filled.ranges, x) by {
            assert(covered(buffer.ranges, x) || begin <= x < begin + data.len());
        }
    }
    if filled.complete() {
        assert forall|x: int| 0 <= x < buffer.len implies #[trigger] covered(buffer.ranges, x)
            || begin <= x < begin + data.len() by {
            assert(covered(filled.ranges, x));
        }
    }
}

/// A block for a piece that is not put together any more, or that reaches beyond its piece, is marked
/// as there and no longer asked for, and makes up no piece; what is in the buffer stays.
pub proof fn block_without_a_place_is_marked(
    s: PickerState,
    index: u32,
    begin: u32,
    data: Seq<u8>,
    k: int,
    other: BlockRequest,
)
    requires
        s.wf(),
        index < s.pieces.len(),
        0 <= k < s.pieces[index as int].blocks.len(),
        s.pieces[index as int].blocks[k].offset == begin,
        s.pieces[index as int].buffer is Some ==> begin + data.len() > s.pieces[index as int].len,
    ensures
        ({
            let i = index as int;
            let (a, done) = s.with_block(index, begin, data);
            let p = s.pieces[i];
            let q = a.pieces[i];
            let came = BlockRequest { piece_index: index, begin, length: data.len() as u32 };
            &&& done is None
            &&& q.buffer == p.buffer && q.state == p.state && q.num_peer == p.num_peer && q.len == p.len
            &&& q.blocks.len() == p.blocks.len() && q.blocks[k].state is Downloaded
            &&& forall|j: int|
                0 <= j < p.blocks.len() && j != k ==> #[trigger] q.blocks[j] == p.blocks[j]
            &&& a.heat_of(came) == 0
            &&& other != came ==> a.heat_of(other) == s.heat_of(other)
            &&& a.pieces.len() == s.pieces.len()
            &&& forall|j: int|
                0 <= j < s.pieces.len() && j != i ==> #[trigger] a.pieces[j] == s.pieces[j]
        }),
{
    let i = index as int;
    let p = s.pieces[i];
    assert(p.wf());
    only_block_at(p, begin, k);
    let came = BlockRequest { piece_index: index, begin, length: data.len() as u32 };
    if request_key(came) == request_key(other) {
        request_keys_differ(came, other);
    }
}

/// A block of a piece that there is none of changes nothing, and one that comes to where no block
/// starts is taken into the buffer and marks none.
pub proof fn stray_block_marks_nothing(s: PickerState, index: u32, begin: u32, data: Seq<u8>)
    ensures
        index >= s.pieces.len() ==> s.with_block(index, begin, data) == (s, None::<Seq<u8>>),
        index < s.pieces.len() && (forall|j: int|
            0 <= j < s.pieces[index as int].blocks.len() ==> (
            #[trigger] s.pieces[index as int].blocks[j]).offset != begin) ==> {
            let a = s.with_block(index, begin, data).0;
            &&& a.heat == s.heat
            &&& a.pieces[index as int].blocks == s.pieces[index as int].blocks
            &&& s.pieces[index as int].buffer is None ==> a.pieces[index as int].buffer is None
        },
{
    if index < s.pieces.len() {
        first_block_at(s.pieces[index as int].blocks, begin, 0);
    }
}

proof fn with_request_keeps_room(s: PickerState, r: BlockRequest, x: BlockRequest)
    ensures
        s.with_request(r).can_request(x) == s.can_request(x),
{
    if s.can_request(r) && r.piece_index == x.piece_index {
        let b = s.pieces[r.piece_index as int].blocks;
        let k = block_index(b, r.begin, 0)->0;
        let c = s.with_request(r).pieces[r.piece_index as int].blocks;
        first_block_at(b, r.begin, 0);
        first_block_at(b, x.begin, 0);
        first_block_at(c, x.begin, 0);
        assert forall|j: int| 0 <= j < b.len() implies (#[trigger] c[j]).offset == b[j].offset by {}
        if let Some(j) = block_index(b, x.begin, 0) {
            assert(c[j].offset == x.begin);
        }
        if let Some(j) = block_index(c, x.begin, 0) {
            assert(b[j].offset == x.begin);
        }
    }
}

/// Requests that are registered make each block hotter by as many as there are for it.
pub proof fn registered_requests_heat(s: PickerState, l: Seq<BlockRequest>, n: int, x: BlockRequest)
    requires
        0 <= n <= l.len(),
        s.can_request(x),
        s.heat_of(x) + n <= usize::MAX,
    ensures
        s.with_requests(l, n).heat_of(x) == s.heat_of(x) + l.take(n).filter(
            |r: BlockRequest| r == x,
        ).len(),
        s.with_requests(l, n).can_request(x),
    decreases n,
{
    let f = |r: BlockRequest| r == x;
    if n > 0 {
        registered_requests_heat(s, l, n - 1, x);
        filter_push(l, x, n);
        let b = s.with_requests(l, n - 1);
        let r = l[n - 1];
        with_request_keeps_room(b, r, x);
        let before = l.take(n - 1);
        filter_is_short(before, x);
        if request_key(r) == request_key(x) {
            request_keys_differ(r, x);
        }
    } else {
        reveal(Seq::filter);
        assert(l.take(0).filter(f).len() == 0);
    }
}

proof fn filter_is_short(l: Seq<BlockRequest>, x: BlockRequest)
    ensures
        l.filter(|r: BlockRequest| r == x).len() <= l.len(),
    decreases l.len(),
{
    reveal(Seq::filter);
    if l.len() > 0 {
        filter_is_short(l.drop_last(), x);
    }
}

proof fn wanted_is_among_picks(s: PickerState, i: int, threshold: usize, n: int, k: int) -> (j: int)
    requires
        0 <= k < n,
        s.wanted(i, k, threshold),
    ensures
        0 <= j < s.piece_picks(i, threshold, n).len(),
        s.piece_picks(i, threshold, n)[j] == s.info(i, k),
    decreases n,
{
    if k == n - 1 {
        s.piece_picks(i, threshold, n).len() - 1
    } else {
        wanted_is_among_picks(s, i, threshold, n - 1, k)
    }
}

proof fn picks_are_of_the_piece(s: PickerState, i: int, threshold: usize, n: int, j: int) -> (k: int)
    requires
        0 <= j < s.piece_picks(i, threshold, n).len(),
    ensures
        0 <= k < n,
        s.wanted(i, k, threshold),
        s.piece_picks(i, threshold, n)[j] == s.info(i, k),
    decreases n,
{
    if j < s.piece_picks(i, threshold, n - 1).len() {
        picks_are_of_the_piece(s, i, threshold, n - 1, j)
    } else {
        n - 1
    }
}

/// A pick among the first `m` pieces of an order comes from one of them.
proof fn pick_in_order(s: PickerState, order: Seq<int>, threshold: usize, m: int, j: int) -> (r: (
    int,
    int,
))
    requires
        0 <= m <= order.len(),
        0 <= j < s.order_picks(order, threshold, m).len(),
    ensures
        0 <= r.0 < m,
        0 <= r.1 < s.pieces[order[r.0]].blocks.len(),
        s.wanted(order[r.0], r.1, threshold),
        s.order_picks(order, threshold, m)[j] == s.info(order[r.0], r.1),
    decreases m,
{
    let before = s.order_picks(order, threshold, m - 1).len();
    if j < before {
        pick_in_order(s, order, threshold, m - 1, j)
    } else {
        let i = order[m - 1];
        let k = picks_are_of_the_piece(
            s,
            i,
            threshold,
            s.pieces[i].blocks.len() as int,
            j - before,
        );
        (m - 1, k)
    }
}

proof fn order_picks_start_alike(s: PickerState, order: Seq<int>, threshold: usize, m: int, n: int)
    requires
        0 <= m <= n <= order.len(),
    ensures
        s.order_picks(order, threshold, m).len() <= s.order_picks(order, threshold, n).len(),
        forall|j: int|
            0 <= j < s.order_picks(order, threshold, m).len() ==> #[trigger] s.order_picks(
                order,
                threshold,
                n,
            )[j] == s.order_picks(order, threshold, m)[j],
    decreases n - m,
{
    if m < n {
        order_picks_start_alike(s, order, threshold, m, n - 1);
        let a = s.order_picks(order, threshold, n - 1);
        let b = s.order_picks(order, threshold, n);
        assert forall|j: int|
            0 <= j < s.order_picks(order, threshold, m).len() implies #[trigger] b[j]
            == s.order_picks(order, threshold, m)[j] by {
            assert(b[j] == a[j]);
        }
    }
}

proof fn all_picks_start_alike(
    s: PickerState,
    order: Seq<int>,
    thresholds: Seq<usize>,
    t: int,
    u: int,
)
    requires
        0 <= t <= u <= thresholds.len(),
    ensures
        s.all_picks(order, thresholds, t).len() <= s.all_picks(order, thresholds, u).len(),
        forall|j: int|
            0 <= j < s.all_picks(order, thresholds, t).len() ==> #[trigger] s.all_picks(
                order,
                thresholds,
                u,
            )[j] == s.all_picks(order, thresholds, t)[j],
    decreases u - t,
{
    if t < u {
        all_picks_start_alike(s, order, thresholds, t, u - 1);
        let a = s.all_picks(order, thresholds, u - 1);
        let b = s.all_picks(order, thresholds, u);
        assert forall|j: int|
            0 <= j < s.all_picks(order, thresholds, t).len() implies #[trigger] b[j]
            == s.all_picks(order, thresholds, t)[j] by {
            assert(b[j] == a[j]);
        }
    }
}

/// A wanted block of piece `p` of an order is picked among those of the first `p + 1` pieces.
proof fn pick_of_place(s: PickerState, order: Seq<int>, threshold: usize, p: int, k: int) -> (j: int)
    requires
        0 <= p < order.len(),
        0 <= k < s.pieces[order[p]].blocks.len(),
        s.wanted(order[p], k, threshold),
    ensures
        0 <= j < s.order_picks(order, threshold, p + 1).len(),
        s.order_picks(order, threshold, p + 1)[j] == s.info(order[p], k),
{
    let i = order[p];
    let x = wanted_is_among_picks(s, i, threshold, s.pieces[i].blocks.len() as int, k);
    let before = s.order_picks(order, threshold, p).len();
    before + x
}

/// Pieces in progress come first, and of two that are both in progress or both not, the one that
/// fewer peers have: a block of it that has not arrived and is cool enough is asked for before any
/// block of the other. Where as many peers have the one as the other, the one with more blocks
/// missing comes first, and else the one with the lower number.
pub proof fn rarer_piece_is_asked_for_first(
    s: PickerState,
    remote: Bitfield,
    max: int,
    thresholds: Seq<usize>,
    r: Seq<BlockInfo>,
    a: int,
    b: int,
    k: int,
    j: int,
)
    requires
        s.pieces.len() <= 0x1_0000_0000,
        0 <= max,
        thresholds.len() > 0,
        s.picked(remote, max, thresholds, r),
        0 <= a < s.pieces.len(),
        0 <= b < s.pieces.len(),
        remote.holds(a),
        !(s.pieces[a].state is Have),
        0 <= k < s.pieces[a].blocks.len(),
        !(s.pieces[a].blocks[k].state is Downloaded),
        s.heat_of(
            BlockRequest {
                piece_index: a as u32,
                begin: s.pieces[a].blocks[k].offset,
                length: s.pieces[a].blocks[k].length,
            },
        ) <= thresholds[0],
        ({
            let started = |i: int| s.pieces[i].state is InProgress;
            let missing = |i: int|
                s.pieces[i].blocks.filter(|x: BlockMetadata| !(x.state is Downloaded)).len();
            ||| started(a) && !started(b)
            ||| started(a) == started(b) && {
                ||| s.pieces[a].num_peer < s.pieces[b].num_peer
                ||| s.pieces[a].num_peer == s.pieces[b].num_peer && {
                    ||| missing(a) > missing(b)
                    ||| missing(a) == missing(b) && a < b
                }
            }
        }),
        0 <= j < r.len(),
        r[j].index == b,
    ensures
        exists|i: int|
            0 <= i < j && #[trigger] r[i] == (BlockInfo {
                index: a as u32,
                begin: s.pieces[a].blocks[k].offset,
                length: s.pieces[a].blocks[k].length,
            }),
{
    let n = thresholds.len() as int;
    let order = choose|order: Seq<int>| #[trigger]
        s.is_order(remote, order) && r == cut(s.all_picks(order, thresholds, n), max);
    let all = s.all_picks(order, thresholds, n);
    let th = thresholds[0];
    assert(s.eligible(remote, a));
    assert(order.contains(a));
    let pa = choose|p: int| 0 <= p < order.len() && order[p] == a;
    assert(s.wanted(a, k, th));
    let x = pick_of_place(s, order, th, pa, k);
    missing_blocks_are_counted(s.pieces[a].blocks, s.pieces[a].blocks.len() as int);
    missing_blocks_are_counted(s.pieces[b].blocks, s.pieces[b].blocks.len() as int);
    assert(s.pieces[a].blocks.take(s.pieces[a].blocks.len() as int) =~= s.pieces[a].blocks);
    assert(s.pieces[b].blocks.take(s.pieces[b].blocks.len() as int) =~= s.pieces[b].blocks);
    assert(s.precedes(a, b));
    let first = s.order_picks(order, th, order.len() as int);
    assert(s.all_picks(order, thresholds, 1) =~= first) by {
        reveal_with_fuel(PickerState::all_picks, 2);
        assert(Seq::<BlockInfo>::empty() + first =~= first);
    }
    all_picks_start_alike(s, order, thresholds, 1, n);
    order_picks_start_alike(s, order, th, pa + 1, order.len() as int);
    let upto = s.order_picks(order, th, pa + 1);
    assert(first[x] == upto[x]);
    assert(all[x] == first[x]);
    if j <= x {
        assert(r[j] == all[j]);
        assert(all[j] == s.all_picks(order, thresholds, 1)[j]);
        assert(first[j] == upto[j]);
        let (q, c) = pick_in_order(s, order, th, pa + 1, j);
        assert(s.eligible(remote, order[q]));
        assert(order[q] == b);
        if q < pa {
            assert(s.precedes(order[q], order[pa]));
        }
        assert(false);
    }
    assert(r[x] == all[x]);
}

/// What is asked for are blocks that have not arrived, of pieces that are not there and that the
/// peer has, none hotter than the highest threshold; no more than there may be; and where there
/// may be more, every such block.
pub proof fn asked_for_is_what_is_wanted(
    s: PickerState,
    remote: Bitfield,
    max: int,
    thresholds: Seq<usize>,
    r: Seq<BlockInfo>,
    limit: usize,
)
    requires
        s.pieces.len() <= 0x1_0000_0000,
        0 <= max,
        s.picked(remote, max, thresholds, r),
        thresholds.contains(limit),
        forall|k: int| 0 <= k < thresholds.len() ==> #[trigger] thresholds[k] <= limit,
    ensures
        r.len() <= max,
        forall|j: int|
            0 <= j < r.len() ==> {
                let b = #[trigger] r[j];
                let p = s.pieces[b.index as int];
                &&& b.index < s.pieces.len()
                &&& remote.holds(b.index as int)
                &&& !(p.state is Have)
                &&& s.heat_of(
                    BlockRequest { piece_index: b.index, begin: b.begin, length: b.length },
                ) <= limit
                &&& exists|k: int|
                    0 <= k < p.blocks.len() && (#[trigger] p.blocks[k]).offset == b.begin
                        && p.blocks[k].length == b.length && !(p.blocks[k].state is Downloaded)
            },
        r.len() < max ==> forall|i: int, k: int|
            0 <= i < s.pieces.len() && !(s.pieces[i].state is Have) && remote.holds(i) && 0 <= k
                < s.pieces[i].blocks.len() && !((#[trigger] s.pieces[i].blocks[k]).state is Downloaded)
                && s.heat_of(
                BlockRequest {
                    piece_index: i as u32,
                    begin: s.pieces[i].blocks[k].offset,
                    length: s.pieces[i].blocks[k].length,
                },
            ) <= limit ==> r.contains(
                BlockInfo {
                    index: i as u32,
                    begin: s.pieces[i].blocks[k].offset,
                    length: s.pieces[i].blocks[k].length,
                },
            ),
{
    let n = thresholds.len() as int;
    let order = choose|order: Seq<int>| #[trigger]
        s.is_order(remote, order) && r == cut(s.all_picks(order, thresholds, n), max);
    let all = s.all_picks(order, thresholds, n);
    assert forall|j: int| 0 <= j < r.len() implies {
        let b = #[trigger] r[j];
        let p = s.pieces[b.index as int];
        &&& b.index < s.pieces.len()
        &&& remote.holds(b.index as int)
        &&& !(p.state is Have)
        &&& s.heat_of(
            BlockRequest { piece_index: b.index, begin: b.begin, length: b.length },
        ) <= limit
        &&& exists|k: int|
            0 <= k < p.blocks.len() && (#[trigger] p.blocks[k]).offset == b.begin
                && p.blocks[k].length == b.length && !(p.blocks[k].state is Downloaded)
    } by {
        assert(r[j] == all[j]);
        let (t, i, k) = pick_in_all(s, order, thresholds, n, j);
        assert(s.eligible(remote, order[i]));
        assert(thresholds[t] <= limit);
        let b = r[j];
        let p = s.pieces[b.index as int];
        assert(p.blocks[k].offset == b.begin);
    }
    if r.len() < max {
        assert(r == all);
        let t = choose|t: int| 0 <= t < thresholds.len() && thresholds[t] == limit;
        assert forall|i: int, k: int|
            0 <= i < s.pieces.len() && !(s.pieces[i].state is Have) && remote.holds(i) && 0 <= k
                < s.pieces[i].blocks.len() && !((#[trigger] s.pieces[i].blocks[k]).state is Downloaded)
                && s.heat_of(
                BlockRequest {
                    piece_index: i as u32,
                    begin: s.pieces[i].blocks[k].offset,
                    length: s.pieces[i].blocks[k].length,
                },
            ) <= limit implies r.contains(
            BlockInfo {
                index: i as u32,
                begin: s.pieces[i].blocks[k].offset,
                length: s.pieces[i].blocks[k].length,
            },
        ) by {
            assert(s.eligible(remote, i));
            assert(order.contains(i));
            let p = choose|p: int| 0 <= p < order.len() && order[p] == i;
            assert(s.wanted(i, k, limit));
            let x = pick_of_place(s, order, limit, p, k);
            order_picks_start_alike(s, order, limit, p + 1, order.len() as int);
            let pass = s.order_picks(order, limit, order.len() as int);
            assert(pass[x] == s.info(i, k));
            let before = s.all_picks(order, thresholds, t);
            let through = s.all_picks(order, thresholds, t + 1);
            assert(through == before + pass);
            assert(through[before.len() + x] == pass[x]);
            all_picks_start_alike(s, order, thresholds, t + 1, n);
            assert(all[before.len() + x] == pass[x]);
        }
    }
}

proof fn pick_in_all(s: PickerState, order: Seq<int>, thresholds: Seq<usize>, t: int, j: int) -> (r: (
    int,
    int,
    int,
))
    requires
        0 <= t <= thresholds.len(),
        0 <= j < s.all_picks(order, thresholds, t).len(),
    ensures
        0 <= r.0 < t,
        0 <= r.1 < order.len(),
        0 <= r.2 < s.pieces[order[r.1]].blocks.len(),
        s.wanted(order[r.1], r.2, thresholds[r.0]),
        s.all_picks(order, thresholds, t)[j] == s.info(order[r.1], r.2),
    decreases t,
{
    let before = s.all_picks(order, thresholds, t - 1).len();
    if j < before {
        pick_in_all(s, order, thresholds, t - 1, j)
    } else {
        let (p, k) = pick_in_order(s, order, thresholds[t - 1], order.len() as int, j - before);
        (t - 1, p, k)
    }
}

/// Blocks that were asked for less often come first: one that is cool enough for one of the first
/// thresholds is asked for before any that is too hot for all of these.
pub proof fn cooler_block_is_asked_for_first(
    s: PickerState,
    remote: Bitfield,
    max: int,
    thresholds: Seq<usize>,
    r: Seq<BlockInfo>,
    t: int,
    i: int,
    k: int,
    j: int,
)
    requires
        s.pieces.len() <= 0x1_0000_0000,
        0 <= max,
        s.picked(remote, max, thresholds, r),
        0 <= t < thresholds.len(),
        0 <= i < s.pieces.len(),
        remote.holds(i),
        !(s.pieces[i].state is Have),
        0 <= k < s.pieces[i].blocks.len(),
        !(s.pieces[i].blocks[k].state is Downloaded),
        s.heat_of(
            BlockRequest {
                piece_index: i as u32,
                begin: s.pieces[i].blocks[k].offset,
                length: s.pieces[i].blocks[k].length,
            },
        ) <= thresholds[t],
        0 <= j < r.len(),
        forall|u: int|
            0 <= u <= t ==> s.heat_of(
                BlockRequest { piece_index: r[j].index, begin: r[j].begin, length: r[j].length },
            ) > #[trigger] thresholds[u],
    ensures
        exists|x: int|
            0 <= x < j && #[trigger] r[x] == (BlockInfo {
                index: i as u32,
                begin: s.pieces[i].blocks[k].offset,
                length: s.pieces[i].blocks[k].length,
            }),
{
    let n = thresholds.len() as int;
    let order = choose|order: Seq<int>| #[trigger]
        s.is_order(remote, order) && r == cut(s.all_picks(order, thresholds, n), max);
    let all = s.all_picks(order, thresholds, n);
    assert(s.eligible(remote, i));
    assert(order.contains(i));
    let p = choose|p: int| 0 <= p < order.len() && order[p] == i;
    assert(s.wanted(i, k, thresholds[t]));
    let x = pick_of_place(s, order, thresholds[t], p, k);
    order_picks_start_alike(s, order, thresholds[t], p + 1, order.len() as int);
    let pass = s.order_picks(order, thresholds[t], order.len() as int);
    assert(pass[x] == s.info(i, k));
    let before = s.all_picks(order, thresholds, t);
    let through = s.all_picks(order, thresholds, t + 1);
    let at = before.len() + x;
    assert(through[at] == pass[x]);
    all_picks_start_alike(s, order, thresholds, t + 1, n);
    assert(all[at] == pass[x]);
    if j <= at {
        assert(r[j] == all[j]);
        assert(all[j] == through[j]);
        let (u, q, c) = pick_in_all(s, order, thresholds, t + 1, j);
        assert(s.eligible(remote, order[q]));
        assert(thresholds[u] < s.heat_of(request_of(r[j])));
        assert(false);
    }
    assert(r[at] == all[at]);
}

/// The list of the blocks of a piece that have not arrived holds each of them, in their order, and
/// no other.
pub proof fn pending_blocks_are_listed(s: PickerState, index: u32)
    requires
        index < s.pieces.len(),
    ensures
        s.pending_list(index) == s.pieces[index as int].blocks.filter(
            |b: BlockMetadata| !(b.state is Downloaded),
        ).map_values(|b: BlockMetadata| BlockInfo { index, begin: b.offset, length: b.length }),
{
    let blocks = s.pieces[index as int].blocks;
    pending_infos_are_listed(blocks, index, blocks.len() as int);
    assert(blocks.take(blocks.len() as int) =~= blocks);
}

proof fn pending_infos_are_listed(blocks: Seq<BlockMetadata>, index: u32, n: int)
    requires
        0 <= n <= blocks.len(),
    ensures
        crate::piece_picker::pending_infos(blocks, index, n) == blocks.take(n).filter(
            |b: BlockMetadata| !(b.state is Downloaded),
        ).map_values(|b: BlockMetadata| BlockInfo { index, begin: b.offset, length: b.length }),
    decreases n,
{
    reveal(Seq::filter);
    let f = |b: BlockMetadata| !(b.state is Downloaded);
    let g = |b: BlockMetadata| BlockInfo { index, begin: b.offset, length: b.length };
    let l = crate::piece_picker::pending_infos(blocks, index, n);
    if n > 0 {
        pending_infos_are_listed(blocks, index, n - 1);
        assert(blocks.take(n).drop_last() =~= blocks.take(n - 1));
        assert(blocks.take(n).last() == blocks[n - 1]);
        assert(l =~= blocks.take(n).filter(f).map_values(g));
    } else {
        assert(blocks.take(0).filter(f).len() == 0);
        assert(l =~= blocks.take(0).filter(f).map_values(g));
    }
}

/// As long as nothing of a piece has arrived, all its bytes are missing, and once all its blocks
/// have, none is; a block that arrives lowers the number by its length.
pub proof fn missing_bytes_add_up(s: PickerState, i: int, k: int)
    requires
        s.wf(),
        0 <= i < s.pieces.len(),
        0 <= k < s.pieces[i].blocks.len(),
        !(s.pieces[i].blocks[k].state is Downloaded),
    ensures
        ({
            let p = s.pieces[i];
            let a = PickerState {
                pieces: s.pieces.update(i, p.with_block_state(k, BlockState::Downloaded)),
                ..s
            };
            &&& a.pending_bytes(i) + p.blocks[k].length == s.pending_bytes(i)
            &&& (forall|j: int|
                0 <= j < p.blocks.len() ==> !((#[trigger] p.blocks[j]).state is Downloaded))
                ==> s.pending_bytes(i) == p.len
            &&& (forall|j: int|
                0 <= j < p.blocks.len() && j != k ==> (
                #[trigger] p.blocks[j]).state is Downloaded) ==> a.pending_bytes(i) == 0
        }),
{
    let p = s.pieces[i];
    assert(p.wf());
    let b = p.blocks;
    let c = p.with_block_state(k, BlockState::Downloaded).blocks;
    missing_bytes_differ(b, c, k, b.len() as int);
    let plain = crate::piece_picker::blocks_as(b, BlockState::NotRequested);
    blocks_make_up_the_piece(p.len);
    if forall|j: int| 0 <= j < b.len() ==> !((#[trigger] b[j]).state is Downloaded) {
        missing_bytes_of_all(b, p.len, b.len() as int);
    }
    if forall|j: int| 0 <= j < b.len() && j != k ==> (#[trigger] b[j]).state is Downloaded {
        missing_bytes_of_none(c, c.len() as int);
    }
}

proof fn missing_bytes_differ(b: Seq<BlockMetadata>, c: Seq<BlockMetadata>, k: int, n: int)
    requires
        0 <= k < b.len(),
        c == b.update(k, BlockMetadata { state: BlockState::Downloaded, ..b[k] }),
        !(b[k].state is Downloaded),
        0 <= n <= b.len(),
    ensures
        crate::piece_picker::missing_bytes(b, n) == crate::piece_picker::missing_bytes(c, n) + if k
            < n {
            b[k].length as int
        } else {
            0
        },
    decreases n,
{
    if n > 0 {
        missing_bytes_differ(b, c, k, n - 1);
    }
}

proof fn missing_bytes_of_all(b: Seq<BlockMetadata>, len: int, n: int)
    requires
        0 <= len <= u32::MAX,
        laid_out(b, len),
        0 <= n <= b.len(),
        forall|j: int| 0 <= j < b.len() ==> !((#[trigger] b[j]).state is Downloaded),
    ensures
        crate::piece_picker::missing_bytes(b, n) == if n == b.len() {
            len
        } else {
            16384 * n
        },
    decreases n,
{
    blocks_make_up_the_piece(len);
    let plain = crate::piece_picker::blocks_as(b, BlockState::NotRequested);
    if n > 0 {
        missing_bytes_of_all(b, len, n - 1);
        assert(plain[n - 1] == fresh_blocks(len)[n - 1]);
    } else {
        assert(plain.len() == fresh_blocks(len).len());
    }
}

proof fn missing_bytes_of_none(b: Seq<BlockMetadata>, n: int)
    requires
        0 <= n <= b.len(),
        forall|j: int| 0 <= j < b.len() ==> (#[trigger] b[j]).state is Downloaded,
    ensures
        crate::piece_picker::missing_bytes(b, n) == 0,
    decreases n,
{
    if n > 0 {
        missing_bytes_of_none(b, n - 1);
    }
}

/// Every block is in one of three kinds of state, and is counted in its own.
pub proof fn blocks_are_counted_once(blocks: Seq<BlockMetadata>, heat: usize, n: int)
    requires
        0 <= n <= blocks.len(),
    ensures
        crate::piece_picker::blocks_like(blocks, BlockState::NotRequested, n) == blocks.take(
            n,
        ).filter(|b: BlockMetadata| b.state is NotRequested).len(),
        crate::piece_picker::blocks_like(blocks, BlockState::Requested { heat }, n) == blocks.take(
            n,
        ).filter(|b: BlockMetadata| b.state is Requested).len(),
        crate::piece_picker::blocks_like(blocks, BlockState::Downloaded, n) == blocks.take(
            n,
        ).filter(|b: BlockMetadata| b.state is Downloaded).len(),
    decreases n,
{
    reveal(Seq::filter);
    let f = |b: BlockMetadata| b.state is NotRequested;
    let g = |b: BlockMetadata| b.state is Requested;
    let h = |b: BlockMetadata| b.state is Downloaded;
    if n > 0 {
        blocks_are_counted_once(blocks, heat, n - 1);
        assert(blocks.take(n).drop_last() =~= blocks.take(n - 1));
        assert(blocks.take(n).last() == blocks[n - 1]);
    } else {
        assert(blocks.take(0).filter(f).len() == 0);
        assert(blocks.take(0).filter(g).len() == 0);
        assert(blocks.take(0).filter(h).len() == 0);
    }
}

/// The blocks of all pieces are counted piece by piece.
pub proof fn blocks_of_all_pieces_are_counted(s: PickerState, state: BlockState, n: int)
    requires
        0 <= n <= s.pieces.len(),
    ensures
        s.block_count(state, n) == s.pieces.take(n).map_values(
            |p: PieceRecord| blocks_like(p.blocks, state, p.blocks.len() as int),
        ).fold_left(0int, |a: int, b: int| a + b),
    decreases n,
{
    let f = |p: PieceRecord| blocks_like(p.blocks, state, p.blocks.len() as int);
    let t = s.pieces.take(n).map_values(f);
    if n > 0 {
        blocks_of_all_pieces_are_counted(s, state, n - 1);
        assert(t.drop_last() =~= s.pieces.take(n - 1).map_values(f));
        assert(t.last() == f(s.pieces[n - 1]));
    } else {
        assert(t.len() == 0);
    }
}

/// Work on a piece has begun where something of it was asked for and it is not there.
pub proof fn started_pieces_are_neither_new_nor_done(s: PickerState, i: int)
    ensures
        0 <= i < s.pieces.len() && (s.pieces[i].state is InProgress || s.pieces[i].state is Downloaded)
            ==> s.started(i),
        0 <= i < s.pieces.len() && (s.pieces[i].state is NotRequested || s.pieces[i].state is Have)
            ==> !s.started(i),
        i < 0 || i >= s.pieces.len() ==> !s.started(i),
{
}

/// A block can be picked for a peer exactly where the peer has the piece, the piece and the block
/// are not there, and the block was not asked for too often.
pub proof fn pickable_blocks_are_wanted(s: PickerState, remote: Bitfield, limit: usize, b: BlockInfo)
    requires
        s.pickable(remote, limit, b),
    ensures
        b.index < s.pieces.len() && remote.holds(b.index as int),
        !(s.pieces[b.index as int].state is Have),
        s.heat_of(request_of(b)) <= limit,
        s.pending_list(b.index).contains(b),
{
}

/// Of the hottest requests none is colder than one that is left out, and there are twenty of them
/// or all.
pub proof fn hottest_requests_are_hottest(
    heat: Map<u128, usize>,
    l: Seq<(BlockRequest, usize)>,
    k: u128,
    i: int,
)
    requires
        hottest_of(heat, l),
    ensures
        l.len() <= 20,
        heat.dom().len() <= 20 ==> l.len() == heat.dom().len(),
        0 <= i < l.len() ==> heat.contains_key(request_key(l[i].0)) && heat[request_key(l[i].0)]
            == l[i].1,
        0 <= i < l.len() && heat.contains_key(k) ==> heat[k] <= l[i].1 || exists|j: int|
            0 <= j < i && request_key((#[trigger] l[j]).0) == k,
        0 < i < l.len() ==> l[i - 1].1 >= l[i].1,
{
    if 0 <= i < l.len() {
        let _ = l[i];
    }
    if 0 < i < l.len() {
        assert(l[i - 1].1 >= l[i].1);
    }
}

/// What is told of a piece is its state, how many peers have it and how many of its blocks are
/// there; its blocks are told while it is in progress.
pub proof fn details_are_those_of_the_piece(d: PieceDetail, s: PickerState)
    requires
        d.tells_of(s),
    ensures
        d.index < s.pieces.len(),
        ({
            let p = s.pieces[d.index as int];
            &&& d.state == p.state && d.num_peer == p.num_peer
            &&& d.total_blocks == p.blocks.len()
            &&& d.downloaded_blocks == p.blocks.filter(|b: BlockMetadata| b.state is Downloaded).len()
            &&& p.state is InProgress ==> d.blocks@ == p.blocks
            &&& !(p.state is InProgress) ==> d.blocks@.len() == 0
        }),
{
    let p = s.pieces[d.index as int];
    blocks_are_counted_once(p.blocks, 0, p.blocks.len() as int);
    assert(p.blocks.take(p.blocks.len() as int) =~= p.blocks);
}

/// At the start of a download there is a piece for each hash, no peer has any, nothing is there and
/// nothing was asked for; a torrent that is there as a whole has each of them.
pub proof fn pickers_begin_empty_or_full(info: crate::metainfo::InfoView, i: int)
    requires
        0 <= i < info.pieces.len(),
        info.piece_length > 0,
        i * info.piece_length < info.mode.total(),
        info.piece_length <= u32::MAX,
    ensures
        ({
            let s = PickerState::fresh(info);
            let t = PickerState::held(info);
            let left = info.mode.total() - i * info.piece_length;
            let len = if left < info.piece_length {
                left
            } else {
                info.piece_length
            };
            &&& s.pieces.len() == info.pieces.len() && t.pieces.len() == info.pieces.len()
            &&& s.heat == Map::<u128, usize>::empty() && t.heat == Map::<u128, usize>::empty()
            &&& s.pieces[i].len == len && t.pieces[i].len == len
            &&& s.pieces[i].num_peer == 0 && t.pieces[i].num_peer == 0
            &&& s.pieces[i].state is NotRequested && t.pieces[i].state is Have
            &&& forall|k: int|
                0 <= k < s.pieces[i].blocks.len() ==> (
                #[trigger] s.pieces[i].blocks[k]).state is NotRequested
            &&& forall|k: int|
                0 <= k < t.pieces[i].blocks.len() ==> (
                #[trigger] t.pieces[i].blocks[k]).state is Downloaded
            &&& s.pieces[i].buffer matches Some(b) && b.len == len && b.bytes.len() == len
                && forall|x: int| !#[trigger] covered(b.ranges, x)
            &&& t.pieces[i].buffer is None
        }),
{
}

/// Giving up a request leaves the layout of every piece and what has come of it.
pub proof fn given_up_request_stays_in_shape(s: PickerState, r: BlockRequest, i: int, k: int)
    requires
        s.wf(),
        0 <= i < s.pieces.len(),
        0 <= k < s.pieces[i].blocks.len(),
    ensures
        ({
            let a = s.without_request(r);
            &&& a.wf()
            &&& a.pieces.len() == s.pieces.len()
            &&& a.pieces[i].blocks.len() == s.pieces[i].blocks.len()
            &&& a.pieces[i].blocks[k].offset == s.pieces[i].blocks[k].offset
            &&& a.pieces[i].blocks[k].length == s.pieces[i].blocks[k].length
            &&& a.pieces[i].buffer == s.pieces[i].buffer
            &&& a.pieces[i].len == s.pieces[i].len
            &&& a.pieces[i].num_peer == s.pieces[i].num_peer
            &&& a.pieces[i].state == s.pieces[i].state
        }),
{
    let a = s.without_request(r);
    let j = r.piece_index as int;
    assert forall|x: int| 0 <= x < a.pieces.len() implies (#[trigger] a.pieces[x]).wf() by {
        assert(s.pieces[x].wf());
        if x == j && a.pieces[x] != s.pieces[x] {
            let b = s.pieces[x].blocks;
            first_block_at(b, r.begin, 0);
            let c = a.pieces[x].blocks;
            let plain = BlockState::NotRequested;
            assert(crate::piece_picker::blocks_as(c, plain) =~= crate::piece_picker::blocks_as(
                b,
                plain,
            ));
        }
    }
    if j < s.pieces.len() {
        first_block_at(s.pieces[j].blocks, r.begin, 0);
    }
}

proof fn mapped_filter(l: Seq<BlockInfo>, x: BlockRequest)
    ensures
        l.map_values(|b: BlockInfo| request_of(b)).filter(|r: BlockRequest| r == x).len()
            == l.filter(
            |w: BlockInfo| w.index == x.piece_index && w.begin == x.begin && w.length == x.length,
        ).len(),
    decreases l.len(),
{
    reveal(Seq::filter);
    let m = l.map_values(|b: BlockInfo| request_of(b));
    if l.len() > 0 {
        mapped_filter(l.drop_last(), x);
        assert(m.drop_last() =~= l.drop_last().map_values(|b: BlockInfo| request_of(b)));
        assert(m.last() == request_of(l.last()));
    }
}

/// What was asked of a peer and is given up cools by as much as it was asked of it.
pub proof fn pending_requests_cool(s: PickerState, pending: Seq<BlockInfo>, x: BlockRequest)
    requires
        s.wf(),
    ensures
        ({
            let l = Seq::new(pending.len(), |i: int| request_of(pending[i]));
            let times = pending.filter(
                |w: BlockInfo| w.index == x.piece_index && w.begin == x.begin && w.length == x.length,
            ).len();
            s.without_requests(l, l.len() as int).heat_of(x) == if s.heat_of(x) > times {
                s.heat_of(x) - times
            } else {
                0
            }
        }),
{
    let l = Seq::new(pending.len(), |i: int| request_of(pending[i]));
    given_up_requests_cool(s, l, l.len() as int, x);
    assert(l.take(l.len() as int) =~= l);
    mapped_filter(pending, x);
    assert(l =~= pending.map_values(|b: BlockInfo| request_of(b)));
}

/// The picker's books agree with themselves after a peer has gone.
pub proof fn fewer_peers_is_wf(s: PickerState, u: AvailabilityUpdate)
    requires
        s.wf(),
    ensures
        s.fewer_peers(u).wf(),
{
    let a = s.fewer_peers(u);
    assert forall|i: int| 0 <= i < a.pieces.len() implies (#[trigger] a.pieces[i]).wf() by {
        assert(s.pieces[i].wf());
    }
}

/// Giving up requests leaves the counts of peers.
pub proof fn given_up_requests_keep_counts(s: PickerState, l: Seq<BlockRequest>, n: int, i: int)
    requires
        0 <= n <= l.len(),
        0 <= i < s.pieces.len(),
    ensures
        s.without_requests(l, n).pieces.len() == s.pieces.len(),
        s.without_requests(l, n).pieces[i].num_peer == s.pieces[i].num_peer,
        s.without_requests(l, n).pieces[i].state == s.pieces[i].state,
    decreases n,
{
    if n > 0 {
        given_up_requests_keep_counts(s, l, n - 1, i);
    }
}

} // verus!
