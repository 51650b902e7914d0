//! Which blocks to ask for next, and the pieces that the blocks which arrive make up.

use crate::bitfield::{bytes_needed, Bitfield};
use crate::buffers::{bytes_as_slice, bytes_content};
use crate::metainfo::{piece_span, Info};
use crate::protocol::{Block, BlockInfo};
use crate::sorting::{key_le, same_keys, sort_keys};
use std::collections::HashMap;
use std::ops::Range;
use std::sync::Arc;
use vstd::prelude::*;

verus! {

/// Standard block size for BitTorrent (16 KiB)
pub const BLOCK_SIZE: u32 = 16384;

/// Represents a unique block request
#[derive(Debug, Clone, Copy, PartialEq, Eq, Hash, Structural)]
pub struct BlockRequest {
    pub piece_index: u32,
    pub begin: u32,
    pub length: u32,
}

impl From<BlockInfo> for BlockRequest {
    fn from(info: BlockInfo) -> (r: Self) {
        Self { piece_index: info.index, begin: info.begin, length: info.length }
    }
}

impl vstd::std_specs::convert::FromSpecImpl<BlockInfo> for BlockRequest {
    open spec fn obeys_from_spec() -> bool {
        true
    }

    open spec fn from_spec(info: BlockInfo) -> Self {
        BlockRequest { piece_index: info.index, begin: info.begin, length: info.length }
    }
}

impl From<BlockRequest> for BlockInfo {
    fn from(req: BlockRequest) -> (r: Self) {
        Self { index: req.piece_index, begin: req.begin, length: req.length }
    }
}

impl vstd::std_specs::convert::FromSpecImpl<BlockRequest> for BlockInfo {
    open spec fn obeys_from_spec() -> bool {
        true
    }

    open spec fn from_spec(req: BlockRequest) -> Self {
        BlockInfo { index: req.piece_index, begin: req.begin, length: req.length }
    }
}

/// State of an individual block within a piece
#[derive(Debug, Clone, Copy, PartialEq, Eq, Structural)]
pub enum BlockState {
    /// Block has not been requested yet
    NotRequested,
    /// Block is currently being requested (heat = number of requests)
    Requested { heat: usize },
    /// Block has been downloaded
    Downloaded,
}

/// Metadata for tracking block-level state within a piece
#[derive(Debug, Clone, Copy, PartialEq, Eq, Structural)]
pub struct BlockMetadata {
    pub offset: u32,
    pub length: u32,
    pub state: BlockState,
}

/// How far a piece has come.
#[derive(Debug, Clone, Copy, PartialEq, Eq, Structural)]
pub enum PieceState {
    /// No blocks have been requested
    NotRequested,
    /// Some blocks are being requested or downloaded
    InProgress,
    /// All blocks downloaded, waiting for hash verification
    Downloaded,
    /// Piece verified and saved
    Have,
}

/// What a peer tells of the pieces that it has.
pub enum AvailabilityUpdate<'a> {
    Bitfield(&'a Bitfield),
    Have(u32),
}

// ---------------------------------------------------------------------------------------------
// The model of a piece buffer

/// Puts a range among ranges that ascend, joining it with those that it touches.
pub open spec fn placed(ranges: Seq<(int, int)>, new: (int, int)) -> Seq<(int, int)>
    decreases ranges.len(),
{
    if ranges.len() == 0 {
        seq![new]
    } else if ranges[0].1 < new.0 {
        seq![ranges[0]] + placed(ranges.skip(1), new)
    } else if new.1 < ranges[0].0 {
        seq![new] + ranges
    } else {
        placed(
            ranges.skip(1),
            (
                if ranges[0].0 < new.0 {
                    ranges[0].0
                } else {
                    new.0
                },
                if ranges[0].1 > new.1 {
                    ranges[0].1
                } else {
                    new.1
                },
            ),
        )
    }
}

/// Whether the ranges lie within `len`, in ascending order, with a gap between any two.
pub open spec fn apart(ranges: Seq<(int, int)>, len: int) -> bool {
    &&& forall|i: int|
        0 <= i < ranges.len() ==> 0 <= (#[trigger] ranges[i]).0 <= ranges[i].1 <= len
    &&& forall|i: int, j: int|
        0 <= i < j < ranges.len() ==> (#[trigger] ranges[i]).1 < (#[trigger] ranges[j]).0
}

/// Whether a byte lies in one of the ranges.
pub open spec fn covered(ranges: Seq<(int, int)>, b: int) -> bool {
    exists|i: int| 0 <= i < ranges.len() && (#[trigger] ranges[i]).0 <= b < ranges[i].1
}

/// The ranges that no range of the list covers, from `from` up to `len`.
pub open spec fn gaps(ranges: Seq<(int, int)>, from: int, len: int) -> Seq<(int, int)>
    decreases ranges.len(),
{
    if ranges.len() == 0 {
        if from < len {
            seq![(from, len)]
        } else {
            Seq::empty()
        }
    } else if from < ranges[0].0 {
        seq![(from, ranges[0].0)] + gaps(ranges.skip(1), ranges[0].1, len)
    } else {
        gaps(ranges.skip(1), ranges[0].1, len)
    }
}

/// What a piece buffer holds.
#[verifier::ext_equal]
pub struct BufferState {
    pub bytes: Seq<u8>,
    pub ranges: Seq<(int, int)>,
    pub len: int,
}

impl BufferState {
    pub open spec fn wf(self) -> bool {
        &&& 0 <= self.len <= u32::MAX
        &&& self.bytes.len() == self.len
        &&& apart(self.ranges, self.len)
    }

    /// A buffer that nothing has arrived for.
    pub open spec fn fresh(len: int) -> BufferState {
        BufferState { bytes: Seq::new(len as nat, |i: int| 0u8), ranges: Seq::empty(), len }
    }

    /// Whether the piece is there as a whole.
    pub open spec fn complete(self) -> bool {
        self.ranges == seq![(0int, self.len)]
    }

    /// The buffer after a block has arrived; a block that does not fit changes nothing.
    pub open spec fn with_block(self, begin: int, data: Seq<u8>) -> BufferState {
        let end = begin + data.len();
        if end > self.len {
            self
        } else {
            BufferState {
                bytes: self.bytes.subrange(0, begin) + data + self.bytes.subrange(end, self.len),
                ranges: placed(self.ranges, (begin, end)),
                len: self.len,
            }
        }
    }
}

/// Whether every range starts behind `lo`.
pub open spec fn above(ranges: Seq<(int, int)>, lo: int) -> bool {
    forall|i: int| 0 <= i < ranges.len() ==> lo < (#[trigger] ranges[i]).0
}

/// A range finds its place without disturbing the order, and covers what it should.
pub proof fn placed_keeps_apart(ranges: Seq<(int, int)>, new: (int, int), len: int)
    requires
        apart(ranges, len),
        0 <= new.0 <= new.1 <= len,
    ensures
        apart(placed(ranges, new), len),
        forall|b: int| #[trigger]
            covered(placed(ranges, new), b) <==> covered(ranges, b) || new.0 <= b < new.1,
        placed(ranges, new).len() > 0,
        forall|lo: int|
            above(ranges, lo) && lo < new.0 ==> #[trigger] above(placed(ranges, new), lo),
    decreases ranges.len(),
{
    let r = placed(ranges, new);
    if ranges.len() == 0 {
        assert forall|b: int| #[trigger] covered(r, b) <==> covered(ranges, b) || new.0 <= b
            < new.1 by {
            if new.0 <= b < new.1 {
                assert(r[0] == new);
            }
        }
    } else {
        let tail = ranges.skip(1);
        assert(apart(tail, len)) by {
            assert forall|i: int| 0 <= i < tail.len() implies 0 <= (#[trigger] tail[i]).0
                <= tail[i].1 <= len by {
                assert(tail[i] == ranges[i + 1]);
            }
            assert forall|i: int, j: int| 0 <= i < j < tail.len() implies (#[trigger] tail[i]).1
                < (#[trigger] tail[j]).0 by {
                assert(tail[i] == ranges[i + 1] && tail[j] == ranges[j + 1]);
            }
        }
        assert forall|b: int| #[trigger] covered(ranges, b) <==> ranges[0].0 <= b < ranges[0].1
            || covered(tail, b) by {
            if covered(ranges, b) {
                let i = choose|i: int|
                    0 <= i < ranges.len() && (#[trigger] ranges[i]).0 <= b < ranges[i].1;
                if i > 0 {
                    assert(tail[i - 1] == ranges[i]);
                }
            }
            if covered(tail, b) {
                let i = choose|i: int| 0 <= i < tail.len() && (#[trigger] tail[i]).0 <= b
                    < tail[i].1;
                assert(ranges[i + 1] == tail[i]);
            }
            if ranges[0].0 <= b < ranges[0].1 {
                assert(covered(ranges, b));
            }
        }
        if ranges[0].1 < new.0 {
            placed_keeps_apart(tail, new, len);
            let rest = placed(tail, new);
            assert forall|i: int| 0 <= i < tail.len() implies ranges[0].1 < (
            #[trigger] tail[i]).0 by {
                assert(tail[i] == ranges[i + 1]);
            }
            assert(above(tail, ranges[0].1));
            assert(above(rest, ranges[0].1));
            front_put(ranges[0], rest, len);
            assert(r =~= seq![ranges[0]] + rest);
            assert forall|b: int| #[trigger] covered(r, b) <==> covered(ranges, b) || new.0 <= b
                < new.1 by {
                assert(covered(rest, b) <==> covered(tail, b) || new.0 <= b < new.1);
                assert(covered(ranges, b) <==> ranges[0].0 <= b < ranges[0].1 || covered(tail, b));
            }
            assert forall|lo: int| above(ranges, lo) && lo < new.0 implies #[trigger] above(
                r,
                lo,
            ) by {
                assert(lo < ranges[0].0);
                assert forall|i: int| 0 <= i < tail.len() implies lo < (#[trigger] tail[i]).0 by {
                    assert(tail[i] == ranges[i + 1]);
                }
                assert(above(tail, lo));
                assert(above(rest, lo));
                assert forall|i: int| 0 <= i < r.len() implies lo < (#[trigger] r[i]).0 by {
                    if i > 0 {
                        assert(r[i] == rest[i - 1]);
                    }
                }
            }
        } else if new.1 < ranges[0].0 {
            assert forall|i: int| 0 <= i < ranges.len() implies new.1 < (
            #[trigger] ranges[i]).0 by {
                if i > 0 {
                    assert(ranges[0].1 < ranges[i].0);
                }
            }
            front_put(new, ranges, len);
            assert(r =~= seq![new] + ranges);
            assert forall|lo: int| above(ranges, lo) && lo < new.0 implies #[trigger] above(
                r,
                lo,
            ) by {
                assert forall|i: int| 0 <= i < r.len() implies lo < (#[trigger] r[i]).0 by {
                    if i > 0 {
                        assert(r[i] == ranges[i - 1]);
                    }
                }
            }
        } else {
            let joined = (
                if ranges[0].0 < new.0 {
                    ranges[0].0
                } else {
                    new.0
                },
                if ranges[0].1 > new.1 {
                    ranges[0].1
                } else {
                    new.1
                },
            );
            placed_keeps_apart(tail, joined, len);
            assert(r == placed(tail, joined));
            assert forall|b: int| #[trigger] covered(r, b) <==> covered(ranges, b) || new.0 <= b
                < new.1 by {
                assert(covered(r, b) <==> covered(tail, b) || joined.0 <= b < joined.1);
                assert(covered(ranges, b) <==> ranges[0].0 <= b < ranges[0].1 || covered(tail, b));
            }
            assert forall|lo: int| above(ranges, lo) && lo < new.0 implies #[trigger] above(
                r,
                lo,
            ) by {
                assert(lo < ranges[0].0);
                assert forall|i: int| 0 <= i < tail.len() implies lo < (#[trigger] tail[i]).0 by {
                    assert(tail[i] == ranges[i + 1]);
                }
                assert(above(tail, lo));
            }
        }
    }
}

/// Whether no range is empty.
pub open spec fn none_empty(ranges: Seq<(int, int)>) -> bool {
    forall|i: int| 0 <= i < ranges.len() ==> (#[trigger] ranges[i]).0 < ranges[i].1
}

/// A range that is not empty finds its place among others that are not: again none is empty, they
/// ascend with a gap between any two, and they cover exactly the bytes of the others or of the
/// new one.
pub proof fn range_finds_its_place(ranges: Seq<(int, int)>, new: (int, int), len: int)
    requires
        apart(ranges, len),
        none_empty(ranges),
        0 <= new.0 < new.1 <= len,
    ensures
        apart(placed(ranges, new), len),
        none_empty(placed(ranges, new)),
        forall|b: int| #[trigger]
            covered(placed(ranges, new), b) <==> covered(ranges, b) || new.0 <= b < new.1,
{
    placed_keeps_apart(ranges, new, len);
    placed_leaves_none_empty(ranges, new);
}

proof fn placed_leaves_none_empty(ranges: Seq<(int, int)>, new: (int, int))
    requires
        none_empty(ranges),
        new.0 < new.1,
    ensures
        none_empty(placed(ranges, new)),
    decreases ranges.len(),
{
    let r = placed(ranges, new);
    if ranges.len() > 0 {
        let tail = ranges.skip(1);
        assert forall|i: int| 0 <= i < tail.len() implies (#[trigger] tail[i]).0 < tail[i].1 by {
            assert(tail[i] == ranges[i + 1]);
        }
        assert(ranges[0].0 < ranges[0].1);
        if ranges[0].1 < new.0 {
            placed_leaves_none_empty(tail, new);
            let rest = placed(tail, new);
            assert forall|i: int| 0 <= i < r.len() implies (#[trigger] r[i]).0 < r[i].1 by {
                if i > 0 {
                    assert(r[i] == rest[i - 1]);
                }
            }
        } else if new.1 < ranges[0].0 {
            assert forall|i: int| 0 <= i < r.len() implies (#[trigger] r[i]).0 < r[i].1 by {
                if i > 0 {
                    assert(r[i] == ranges[i - 1]);
                }
            }
        } else {
            placed_leaves_none_empty(
                tail,
                (
                    if ranges[0].0 < new.0 {
                        ranges[0].0
                    } else {
                        new.0
                    },
                    if ranges[0].1 > new.1 {
                        ranges[0].1
                    } else {
                        new.1
                    },
                ),
            );
        }
    }
}

proof fn front_put(first: (int, int), rest: Seq<(int, int)>, len: int)
    requires
        apart(rest, len),
        0 <= first.0 <= first.1 <= len,
        forall|i: int| 0 <= i < rest.len() ==> first.1 < (#[trigger] rest[i]).0,
    ensures
        apart(seq![first] + rest, len),
        forall|b: int| #[trigger]
            covered(seq![first] + rest, b) <==> first.0 <= b < first.1 || covered(rest, b),
{
    let r = seq![first] + rest;
    assert forall|i: int| 0 <= i < r.len() implies 0 <= (#[trigger] r[i]).0 <= r[i].1 <= len by {
        if i > 0 {
            assert(r[i] == rest[i - 1]);
        }
    }
    assert forall|i: int, j: int| 0 <= i < j < r.len() implies (#[trigger] r[i]).1 < (
    #[trigger] r[j]).0 by {
        assert(r[j] == rest[j - 1]);
        if i > 0 {
            assert(r[i] == rest[i - 1]);
        }
    }
    assert forall|b: int| #[trigger] covered(r, b) <==> first.0 <= b < first.1 || covered(
        rest,
        b,
    ) by {
        if covered(r, b) {
            let i = choose|i: int| 0 <= i < r.len() && (#[trigger] r[i]).0 <= b < r[i].1;
            if i > 0 {
                assert(r[i] == rest[i - 1]);
            }
        }
        if first.0 <= b < first.1 {
            assert(r[0] == first);
        }
        if covered(rest, b) {
            let i = choose|i: int| 0 <= i < rest.len() && (#[trigger] rest[i]).0 <= b < rest[i].1;
            assert(r[i + 1] == rest[i]);
        }
    }
}

/// A piece of at least one byte is complete exactly when every byte of it has arrived.
pub proof fn complete_iff_every_byte_arrived(b: BufferState)
    requires
        b.wf(),
        b.len > 0,
    ensures
        b.complete() <==> forall|x: int| 0 <= x < b.len ==> #[trigger] covered(b.ranges, x),
{
    if b.complete() {
        assert forall|x: int| 0 <= x < b.len implies #[trigger] covered(b.ranges, x) by {
            assert(b.ranges[0] == (0int, b.len));
        }
    }
    if forall|x: int| 0 <= x < b.len ==> #[trigger] covered(b.ranges, x) {
        assert(covered(b.ranges, 0));
        let i = choose|i: int| 0 <= i < b.ranges.len() && (#[trigger] b.ranges[i]).0 <= 0
            < b.ranges[i].1;
        if i > 0 {
            assert(b.ranges[0].1 < b.ranges[i].0);
        }
        let e = b.ranges[0].1;
        if e < b.len {
            assert(covered(b.ranges, e));
            let j = choose|j: int| 0 <= j < b.ranges.len() && (#[trigger] b.ranges[j]).0 <= e
                < b.ranges[j].1;
            if j > 0 {
                assert(b.ranges[0].1 < b.ranges[j].0);
            }
            assert(false);
        }
        if b.ranges.len() > 1 {
            assert(b.ranges[0].1 < b.ranges[1].0);
            assert(false);
        }
        assert(b.ranges =~= seq![(0int, b.len)]);
    }
}

/// A block that fits leaves its bytes in the buffer and adds exactly them to what has arrived.
pub proof fn block_leaves_its_bytes(b: BufferState, begin: int, data: Seq<u8>)
    requires
        b.wf(),
        0 <= begin,
        begin + data.len() <= b.len,
    ensures
        b.with_block(begin, data).wf(),
        forall|x: int| #[trigger]
            covered(b.with_block(begin, data).ranges, x) <==> covered(b.ranges, x) || begin <= x
                < begin + data.len(),
        forall|x: int|
            0 <= x < b.len ==> #[trigger] b.with_block(begin, data).bytes[x] == if begin <= x
                < begin + data.len() {
                data[x - begin]
            } else {
                b.bytes[x]
            },
{
    placed_keeps_apart(b.ranges, (begin, begin + data.len()), b.len);
}

// ---------------------------------------------------------------------------------------------
// Piece buffers

/// The bytes of a piece, as far as they have arrived.
#[derive(Debug)]
pub struct PieceBuffer {
    pub piece_bytes: Vec<u8>,
    pub completed_ranges: Vec<Range<u32>>,
    pub expected_length: u32,
}

/// What a list of ranges says.
pub open spec fn range_views(l: Seq<Range<u32>>) -> Seq<(int, int)> {
    Seq::new(l.len(), |i: int| (l[i].start as int, l[i].end as int))
}

impl View for PieceBuffer {
    type V = BufferState;

    open spec fn view(&self) -> BufferState {
        BufferState {
            bytes: self.piece_bytes@,
            ranges: range_views(self.completed_ranges@),
            len: self.expected_length as int,
        }
    }
}

impl PieceBuffer {
    /// Create a new piece metadata with the given expected length
    pub fn new(piece_len: usize) -> (r: Self)
        requires
            piece_len <= u32::MAX,
        ensures
            r@ == BufferState::fresh(piece_len as int),
            r@.wf(),
    {
        let r = Self {
            piece_bytes: vec![0u8; piece_len],
            completed_ranges: Vec::new(),
            expected_length: piece_len as u32,
        };
        assert(r@ =~= BufferState::fresh(piece_len as int));
        r
    }

    /// Add a block to the piece, merging ranges; true if the piece is finished by it
    pub fn add_block(&mut self, block: &Block) -> (r: bool)
        requires
            old(self)@.wf(),
        ensures
            final(self)@ == old(self)@.with_block(block.begin as int, bytes_content(block.data)),
            final(self)@.wf(),
            r == (block.begin + bytes_content(block.data).len() <= old(self)@.len
                && final(self)@.complete()),
    {
        let data = bytes_as_slice(&block.data);
        let ghost before = self@;
        let offset: u32 = block.begin;
        // a block that does not fit
        if offset > self.expected_length || data.len() as u64 > (self.expected_length
            - offset) as u64 {
            return false;
        }
        let end: u32 = offset + data.len() as u32;
        proof {
            block_leaves_its_bytes(before, offset as int, data@);
        }
        let mut i: usize = 0;
        while i < data.len()
            invariant
                i <= data.len(),
                offset + data.len() <= self.expected_length,
                self.piece_bytes.len() == self.expected_length,
                self.completed_ranges@ == old(self).completed_ranges@,
                self.expected_length == old(self).expected_length,
                before == old(self)@,
                forall|k: int|
                    0 <= k < self.piece_bytes.len() ==> self.piece_bytes@[k] == if offset <= k
                        < offset + i {
                        data[k - offset]
                    } else {
                        before.bytes[k]
                    },
            decreases data.len() - i,
        {
            self.piece_bytes[offset as usize + i] = data[i];
            i = i + 1;
        }
        proof {
            assert(self.piece_bytes@ =~= before.with_block(offset as int, data@).bytes);
        }
        self.add_range(Range { start: offset, end });
        assert(self@ =~= before.with_block(offset as int, data@));
        self.is_complete()
    }

    /// Check if the piece is fully complete
    pub fn is_complete(&self) -> (r: bool)
        ensures
            r == self@.complete(),
    {
        let r = self.completed_ranges.len() == 1 && self.completed_ranges[0].start == 0
            && self.completed_ranges[0].end == self.expected_length;
        proof {
            if r {
                assert(self@.ranges =~= seq![(0int, self@.len)]);
            } else if self@.complete() {
                let only = seq![(0int, self@.len)];
                assert(only.len() == 1 && range_views(self.completed_ranges@) == only);
                assert(range_views(self.completed_ranges@).len() == self.completed_ranges@.len());
                assert(seq![(0int, self@.len)][0] == (
                    self.completed_ranges@[0].start as int,
                    self.completed_ranges@[0].end as int,
                ));
            }
        }
        r
    }

    /// Get missing byte ranges that haven't been received yet
    pub fn get_missing_ranges(&self) -> (r: Vec<Range<u32>>)
        ensures
            range_views(r@) == if self@.ranges.len() == 0 {
                seq![(0int, self@.len)]
            } else {
                gaps(self@.ranges, 0, self@.len)
            },
    {
        let mut missing: Vec<Range<u32>> = Vec::new();
        if self.completed_ranges.len() == 0 {
            missing.push(Range { start: 0, end: self.expected_length });
            assert(range_views(missing@) =~= seq![(0int, self@.len)]);
            return missing;
        }
        let ghost ranges = self@.ranges;
        let mut current_pos: u32 = 0;
        let mut i: usize = 0;
        proof {
            assert(ranges.skip(0) =~= ranges);
            assert(range_views(missing@) =~= Seq::<(int, int)>::empty());
            assert(range_views(missing@) + gaps(ranges, 0, self@.len) =~= gaps(
                ranges,
                0,
                self@.len,
            ));
        }
        while i < self.completed_ranges.len()
            invariant
                i <= self.completed_ranges.len(),
                ranges == self@.ranges,
                range_views(missing@) + gaps(ranges.skip(i as int), current_pos as int, self@.len)
                    == gaps(ranges, 0, self@.len),
            decreases self.completed_ranges.len() - i,
        {
            let start: u32 = self.completed_ranges[i].start;
            let end: u32 = self.completed_ranges[i].end;
            let ghost rest = ranges.skip(i as int);
            proof {
                assert(rest[0] == (start as int, end as int));
                assert(rest.skip(1) =~= ranges.skip(i + 1));
            }
            let ghost before = range_views(missing@);
            if current_pos < start {
                missing.push(Range { start: current_pos, end: start });
                proof {
                    assert(range_views(missing@) =~= before.push((current_pos as int, start as int)));
                    assert(range_views(missing@) + gaps(ranges.skip(i + 1), end as int, self@.len)
                        =~= before + gaps(rest, current_pos as int, self@.len));
                }
            }
            current_pos = end;
            i = i + 1;
        }
        proof {
            assert(ranges.skip(i as int).len() == 0);
        }
        let ghost before = range_views(missing@);
        if current_pos < self.expected_length {
            missing.push(Range { start: current_pos, end: self.expected_length });
            proof {
                assert(range_views(missing@) =~= before.push((current_pos as int, self@.len)));
                assert(range_views(missing@) =~= before + seq![(current_pos as int, self@.len)]);
            }
        } else {
            assert(before + Seq::<(int, int)>::empty() =~= before);
        }
        missing
    }

    /// Add a range and merge overlapping/adjacent ranges
    pub fn add_range(&mut self, new_range: Range<u32>)
        requires
            apart(old(self)@.ranges, u32::MAX as int),
            new_range.start <= new_range.end,
        ensures
            final(self).piece_bytes@ == old(self).piece_bytes@,
            final(self).expected_length == old(self).expected_length,
            final(self)@.ranges == placed(
                old(self)@.ranges,
                (new_range.start as int, new_range.end as int),
            ),
            apart(final(self)@.ranges, u32::MAX as int),
    {
        proof {
            placed_keeps_apart(
                self@.ranges,
                (new_range.start as int, new_range.end as int),
                u32::MAX as int,
            );
        }
        let ghost ranges = self@.ranges;
        let ghost whole = placed(ranges, (new_range.start as int, new_range.end as int));
        let mut start: u32 = new_range.start;
        let mut end: u32 = new_range.end;
        let mut result: Vec<Range<u32>> = Vec::new();
        let mut i: usize = 0;
        let n: usize = self.completed_ranges.len();
        proof {
            assert(ranges.skip(0) =~= ranges);
            assert(range_views(result@) + whole =~= whole);
        }
        while i < n && !(end < self.completed_ranges[i].start)
            invariant
                i <= n,
                n == self.completed_ranges.len(),
                ranges == self@.ranges,
                self@ == old(self)@,
                apart(ranges, u32::MAX as int),
                start <= end,
                range_views(result@) + placed(ranges.skip(i as int), (start as int, end as int))
                    == whole,
            decreases n - i,
        {
            let s: u32 = self.completed_ranges[i].start;
            let e: u32 = self.completed_ranges[i].end;
            let ghost rest = ranges.skip(i as int);
            let ghost before = range_views(result@);
            proof {
                assert(rest[0] == (s as int, e as int));
                assert(ranges[i as int] == (s as int, e as int));
                assert(rest.skip(1) =~= ranges.skip(i + 1));
            }
            if e < start {
                result.push(Range { start: s, end: e });
                proof {
                    let more = placed(ranges.skip(i + 1), (start as int, end as int));
                    assert(range_views(result@) =~= before.push((s as int, e as int)));
                    assert(range_views(result@) + more =~= before + (seq![(s as int, e as int)]
                        + more));
                }
            } else {
                if s < start {
                    start = s;
                }
                if e > end {
                    end = e;
                }
            }
            i = i + 1;
        }
        let ghost before = range_views(result@);
        let ghost rest = ranges.skip(i as int);
        result.push(Range { start, end });
        proof {
            assert(range_views(result@) =~= before.push((start as int, end as int)));
            if i < n {
                assert(rest[0] == ranges[i as int]);
                assert(rest[0].0 <= rest[0].1);
                assert(placed(rest, (start as int, end as int)) == seq![(start as int, end as int)]
                    + rest);
            }
            assert(whole =~= range_views(result@) + rest);
        }
        let ghost front = range_views(result@);
        let ghost from = i as int;
        assert(front + ranges.subrange(from, from) =~= front);
        while i < n
            invariant
                from <= i <= n,
                0 <= from,
                n == self.completed_ranges.len(),
                ranges == self@.ranges,
                self@ == old(self)@,
                range_views(result@) == front + ranges.subrange(from, i as int),
            decreases n - i,
        {
            let ghost before = range_views(result@);
            result.push(
                Range { start: self.completed_ranges[i].start, end: self.completed_ranges[i].end },
            );
            proof {
                assert(range_views(result@) =~= before.push(ranges[i as int]));
                assert(range_views(result@) =~= front + ranges.subrange(from, i + 1));
            }
            i = i + 1;
        }
        assert(ranges.subrange(from, n as int) =~= rest);
        self.completed_ranges = result;
    }

    /// The bytes of the piece.
    pub fn into_bytes(self) -> (r: Vec<u8>)
        ensures
            r@ == self@.bytes,
    {
        self.piece_bytes
    }
}

// ---------------------------------------------------------------------------------------------
// The model of the picker

/// What the picker knows of a piece.
#[verifier::ext_equal]
pub struct PieceRecord {
    pub len: int,
    pub num_peer: int,
    pub state: PieceState,
    pub blocks: Seq<BlockMetadata>,
    pub buffer: Option<BufferState>,
}

/// What the picker knows: the pieces, and how often each block has been asked for.
#[verifier::ext_equal]
pub struct PickerState {
    pub pieces: Seq<PieceRecord>,
    pub heat: Map<u128, usize>,
}

/// The request for a block.
pub open spec fn request_of(b: BlockInfo) -> BlockRequest {
    BlockRequest { piece_index: b.index, begin: b.begin, length: b.length }
}

/// The number by which a request is found in the heat map.
pub open spec fn request_key(r: BlockRequest) -> u128 {
    (r.piece_index * 0x1_0000_0000_0000_0000 + r.begin * 0x1_0000_0000 + r.length) as u128
}

/// How many blocks a piece has.
pub open spec fn blocks_in(len: int) -> int {
    (len + 16383) / 16384
}

/// The blocks of a piece that nothing has been asked of.
pub open spec fn fresh_blocks(len: int) -> Seq<BlockMetadata> {
    Seq::new(
        blocks_in(len) as nat,
        |k: int|
            BlockMetadata {
                offset: (16384 * k) as u32,
                length: (if len - 16384 * k < 16384 {
                    len - 16384 * k
                } else {
                    16384
                }) as u32,
                state: BlockState::NotRequested,
            },
    )
}

/// The same blocks, all in the given state.
pub open spec fn blocks_as(blocks: Seq<BlockMetadata>, state: BlockState) -> Seq<BlockMetadata> {
    Seq::new(blocks.len(), |k: int| BlockMetadata { state, ..blocks[k] })
}

/// Whether the blocks are those of a piece of the given length, in whatever state.
pub open spec fn laid_out(blocks: Seq<BlockMetadata>, len: int) -> bool {
    blocks_as(blocks, BlockState::NotRequested) == fresh_blocks(len)
}

/// The first block at or behind `i` that starts at the given offset.
pub open spec fn block_index(blocks: Seq<BlockMetadata>, begin: u32, i: int) -> Option<int>
    decreases blocks.len() - i,
{
    if i < 0 || i >= blocks.len() {
        None
    } else if blocks[i].offset == begin {
        Some(i)
    } else {
        block_index(blocks, begin, i + 1)
    }
}

/// What an update says of piece `i`.
pub open spec fn tells(update: AvailabilityUpdate, i: int) -> bool {
    match update {
        AvailabilityUpdate::Bitfield(b) => 0 <= i < b.num_pieces && b.holds(i),
        AvailabilityUpdate::Have(index) => i == index,
    }
}

impl PieceRecord {
    pub open spec fn wf(self) -> bool {
        &&& 0 <= self.len <= u32::MAX
        &&& 0 <= self.num_peer <= usize::MAX
        &&& laid_out(self.blocks, self.len)
        &&& self.buffer matches Some(b) ==> b.wf() && b.len == self.len
    }

    /// A piece that nobody has and nothing has been asked of.
    pub open spec fn fresh(len: int) -> PieceRecord {
        PieceRecord {
            len,
            num_peer: 0,
            state: PieceState::NotRequested,
            blocks: fresh_blocks(len),
            buffer: Some(BufferState::fresh(len)),
        }
    }

    /// A piece that has been there from the start.
    pub open spec fn held(len: int) -> PieceRecord {
        PieceRecord {
            len,
            num_peer: 0,
            state: PieceState::Have,
            blocks: blocks_as(fresh_blocks(len), BlockState::Downloaded),
            buffer: None,
        }
    }

    /// The piece after the picker has been told its state.
    pub open spec fn told(self, state: PieceState) -> PieceRecord {
        PieceRecord {
            state,
            blocks: if state == PieceState::Have {
                blocks_as(self.blocks, BlockState::Downloaded)
            } else {
                self.blocks
            },
            ..self
        }
    }

    /// The piece with one block in another state.
    pub open spec fn with_block_state(self, k: int, state: BlockState) -> PieceRecord {
        PieceRecord {
            blocks: self.blocks.update(k, BlockMetadata { state, ..self.blocks[k] }),
            ..self
        }
    }
}

impl PickerState {
    pub open spec fn wf(self) -> bool {
        &&& forall|i: int| 0 <= i < self.pieces.len() ==> (#[trigger] self.pieces[i]).wf()
        &&& forall|k: u128| #[trigger]
            self.heat.contains_key(k) ==> k < 0x1_0000_0000_0000_0000_0000_0000 && self.heat[k] > 0
        &&& self.heat.dom().finite()
    }

    /// How often a block has been asked for and not been given up.
    pub open spec fn heat_of(self, r: BlockRequest) -> usize {
        if self.heat.contains_key(request_key(r)) {
            self.heat[request_key(r)]
        } else {
            0
        }
    }

    /// Whether one more peer can be counted for each piece that the update tells of.
    pub open spec fn can_count(self, update: AvailabilityUpdate) -> bool {
        forall|i: int|
            0 <= i < self.pieces.len() && tells(update, i) ==> (#[trigger] self.pieces[i]).num_peer
                < usize::MAX
    }

    /// Whether a bitfield of so many bytes speaks of every piece that is not there.
    pub open spec fn in_reach(self, bytes: int) -> bool {
        forall|i: int|
            0 <= i < self.pieces.len() && (#[trigger] self.pieces[i]).state != PieceState::Have
                ==> i / 8 < bytes
    }

    /// The state after peers have turned up that have what the update tells.
    pub open spec fn more_peers(self, update: AvailabilityUpdate) -> PickerState {
        PickerState {
            pieces: Seq::new(
                self.pieces.len(),
                |i: int|
                    if tells(update, i) {
                        PieceRecord { num_peer: self.pieces[i].num_peer + 1, ..self.pieces[i] }
                    } else {
                        self.pieces[i]
                    },
            ),
            ..self
        }
    }

    /// The state after peers have gone that had what the update tells; no count falls below zero.
    pub open spec fn fewer_peers(self, update: AvailabilityUpdate) -> PickerState {
        PickerState {
            pieces: Seq::new(
                self.pieces.len(),
                |i: int|
                    if tells(update, i) && self.pieces[i].num_peer > 0 {
                        PieceRecord { num_peer: self.pieces[i].num_peer - 1, ..self.pieces[i] }
                    } else {
                        self.pieces[i]
                    },
            ),
            ..self
        }
    }

    /// The state after a piece has been told its state; there may be no such piece.
    pub open spec fn told(self, index: int, state: PieceState) -> PickerState {
        if 0 <= index < self.pieces.len() {
            PickerState { pieces: self.pieces.update(index, self.pieces[index].told(state)), ..self }
        } else {
            self
        }
    }

    /// The state after a piece has been given up and is to be fetched again.
    pub open spec fn reset(self, index: int) -> PickerState {
        if 0 <= index < self.pieces.len() {
            PickerState {
                pieces: self.pieces.update(
                    index,
                    PieceRecord {
                        num_peer: self.pieces[index].num_peer,
                        ..PieceRecord::fresh(self.pieces[index].len)
                    },
                ),
                ..self
            }
        } else {
            self
        }
    }

    /// Whether a request can be registered: the piece is still wanted and has such a block.
    pub open spec fn can_request(self, r: BlockRequest) -> bool {
        &&& r.piece_index < self.pieces.len()
        &&& self.pieces[r.piece_index as int].state != PieceState::Have
        &&& block_index(self.pieces[r.piece_index as int].blocks, r.begin, 0) is Some
    }

    /// The state after a request has been registered, where it can be.
    pub open spec fn with_request(self, r: BlockRequest) -> PickerState {
        if !self.can_request(r) {
            self
        } else {
            let i = r.piece_index as int;
            let piece = self.pieces[i];
            let k = block_index(piece.blocks, r.begin, 0)->0;
            let heat = (self.heat_of(r) + 1) as usize;
            PickerState {
                pieces: self.pieces.update(
                    i,
                    PieceRecord {
                        state: if piece.state == PieceState::NotRequested {
                            PieceState::InProgress
                        } else {
                            piece.state
                        },
                        ..piece.with_block_state(k, BlockState::Requested { heat })
                    },
                ),
                heat: self.heat.insert(request_key(r), heat),
            }
        }
    }

    /// The state after a request has been answered or given up.
    pub open spec fn without_request(self, r: BlockRequest) -> PickerState {
        if !self.heat.contains_key(request_key(r)) {
            self
        } else {
            let i = r.piece_index as int;
            let h = self.heat[request_key(r)];
            let heat = if h <= 1 {
                self.heat.remove(request_key(r))
            } else {
                self.heat.insert(request_key(r), (h - 1) as usize)
            };
            if i < self.pieces.len() && block_index(self.pieces[i].blocks, r.begin, 0) is Some {
                let piece = self.pieces[i];
                let k = block_index(piece.blocks, r.begin, 0)->0;
                let state = if h > 1 {
                    BlockState::Requested { heat: (h - 1) as usize }
                } else if piece.blocks[k].state is Requested {
                    BlockState::NotRequested
                } else {
                    piece.blocks[k].state
                };
                PickerState { pieces: self.pieces.update(i, piece.with_block_state(k, state)), heat }
            } else {
                PickerState { heat, ..self }
            }
        }
    }

    /// The state after the first `n` requests of a list have been given up, one after the other.
    pub open spec fn without_requests(self, l: Seq<BlockRequest>, n: int) -> PickerState
        decreases n,
    {
        if n <= 0 || n > l.len() {
            self
        } else {
            self.without_requests(l, n - 1).without_request(l[n - 1])
        }
    }

    /// The state after the first `n` requests of a list have been registered, one after the other.
    pub open spec fn with_requests(self, l: Seq<BlockRequest>, n: int) -> PickerState
        decreases n,
    {
        if n <= 0 || n > l.len() {
            self
        } else {
            self.with_requests(l, n - 1).with_request(l[n - 1])
        }
    }

    /// The state after a block has arrived, and the piece that it completes.
    pub open spec fn with_block(self, index: u32, begin: u32, data: Seq<u8>) -> (
        PickerState,
        Option<Seq<u8>>,
    ) {
        let i = index as int;
        if i >= self.pieces.len() {
            (self, None)
        } else {
            let marked = match block_index(self.pieces[i].blocks, begin, 0) {
                Some(k) => self.pieces[i].with_block_state(k, BlockState::Downloaded),
                None => self.pieces[i],
            };
            let request = BlockRequest { piece_index: index, begin, length: data.len() as u32 };
            let heat = if block_index(self.pieces[i].blocks, begin, 0) is Some {
                self.heat.remove(request_key(request))
            } else {
                self.heat
            };
            match marked.buffer {
                None => (PickerState { pieces: self.pieces.update(i, marked), heat }, None),
                Some(b) => {
                    let filled = b.with_block(begin as int, data);
                    if begin + data.len() <= b.len && filled.complete() {
                        let done = PieceRecord {
                            state: PieceState::Downloaded,
                            buffer: None,
                            ..marked
                        };
                        (
                            PickerState { pieces: self.pieces.update(i, done), heat },
                            Some(filled.bytes),
                        )
                    } else {
                        let more = PieceRecord { buffer: Some(filled), ..marked };
                        (PickerState { pieces: self.pieces.update(i, more), heat }, None)
                    }
                },
            }
        }
    }

    /// How many of the first `n` pieces are in the given state.
    pub open spec fn count(self, state: PieceState, n: int) -> int
        decreases n,
    {
        if n <= 0 {
            0
        } else {
            self.count(state, n - 1) + if self.pieces[n - 1].state == state {
                1int
            } else {
                0int
            }
        }
    }
}

/// No two requests share a key.
pub proof fn request_keys_differ(a: BlockRequest, b: BlockRequest)
    requires
        request_key(a) == request_key(b),
    ensures
        a == b,
{
    let x = a.piece_index * 0x1_0000_0000_0000_0000 + a.begin * 0x1_0000_0000 + a.length;
    let y = b.piece_index * 0x1_0000_0000_0000_0000 + b.begin * 0x1_0000_0000 + b.length;
    assert(x <= u128::MAX && y <= u128::MAX);
    assert(x == y);
}

/// Registering a request for a block that has not arrived and giving it up leaves the heat of
/// every block where it was, and the blocks that have not arrived.
pub proof fn given_up_request_leaves_no_heat(
    s: PickerState,
    r: BlockRequest,
    other: BlockRequest,
    index: u32,
)
    requires
        s.wf(),
        s.can_request(r),
        s.pending_list(r.piece_index).contains(
            BlockInfo { index: r.piece_index, begin: r.begin, length: r.length },
        ),
        s.heat_of(r) < usize::MAX,
    ensures
        s.with_request(r).heat_of(r) == s.heat_of(r) + 1,
        s.with_request(r).without_request(r).heat_of(other) == s.heat_of(other),
        s.with_request(r).without_request(r).pending_list(index) == s.pending_list(index),
{
    if request_key(r) == request_key(other) {
        request_keys_differ(r, other);
    }
    let a = s.with_request(r);
    let z = a.without_request(r);
    let i = r.piece_index as int;
    let blocks = s.pieces[i].blocks;
    let n = blocks.len() as int;
    let b = BlockInfo { index: r.piece_index, begin: r.begin, length: r.length };
    let j = choose|j: int| 0 <= j < s.pending_list(r.piece_index).len() && s.pending_list(
        r.piece_index,
    )[j] == b;
    let k = pending_from(blocks, r.piece_index, n, j);
    let at = block_index(blocks, r.begin, 0)->0;
    assert(s.pieces[i].wf());
    block_at_offset(s.pieces[i], r.begin, k);
    assert(at == k);
    assert(blocks_as(a.pieces[i].blocks, BlockState::NotRequested) =~= blocks_as(
        blocks,
        BlockState::NotRequested,
    ));
    block_at_offset(a.pieces[i], r.begin, k);
    if index == r.piece_index {
        pending_same(blocks, z.pieces[i].blocks, index, n);
    }
}

/// Giving up a request that has no heat changes nothing.
pub proof fn request_without_heat_is_not_given_up(s: PickerState, r: BlockRequest)
    requires
        s.wf(),
        s.heat_of(r) == 0,
    ensures
        s.without_request(r) == s,
{
}

/// A block that has not arrived is in its place among the blocks.
proof fn pending_from(blocks: Seq<BlockMetadata>, index: u32, n: int, j: int) -> (k: int)
    requires
        0 <= n <= blocks.len(),
        0 <= j < pending_infos(blocks, index, n).len(),
    ensures
        0 <= k < n,
        blocks[k].state != BlockState::Downloaded,
        pending_infos(blocks, index, n)[j] == (BlockInfo {
            index,
            begin: blocks[k].offset,
            length: blocks[k].length,
        }),
    decreases n,
{
    if j < pending_infos(blocks, index, n - 1).len() {
        pending_from(blocks, index, n - 1, j)
    } else {
        n - 1
    }
}

proof fn pending_has(blocks: Seq<BlockMetadata>, index: u32, n: int, k: int)
    requires
        0 <= k < n <= blocks.len(),
        blocks[k].state != BlockState::Downloaded,
    ensures
        pending_infos(blocks, index, n).contains(
            BlockInfo { index, begin: blocks[k].offset, length: blocks[k].length },
        ),
    decreases n,
{
    let b = BlockInfo { index, begin: blocks[k].offset, length: blocks[k].length };
    let l = pending_infos(blocks, index, n);
    if k == n - 1 {
        assert(l[l.len() - 1] == b);
    } else {
        pending_has(blocks, index, n - 1, k);
        let shorter = pending_infos(blocks, index, n - 1);
        let j = choose|j: int| 0 <= j < shorter.len() && shorter[j] == b;
        assert(l[j] == b);
    }
}

proof fn pending_same(a: Seq<BlockMetadata>, b: Seq<BlockMetadata>, index: u32, n: int)
    requires
        0 <= n <= a.len(),
        a.len() == b.len(),
        forall|k: int|
            0 <= k < n ==> (#[trigger] a[k]).offset == b[k].offset && a[k].length == b[k].length
                && (a[k].state == BlockState::Downloaded) == (b[k].state == BlockState::Downloaded),
    ensures
        pending_infos(a, index, n) == pending_infos(b, index, n),
    decreases n,
{
    if n > 0 {
        pending_same(a, b, index, n - 1);
        assert(a[n - 1].offset == b[n - 1].offset);
    }
}

proof fn block_at_offset_from(p: PieceRecord, begin: u32, k: int, i: int)
    requires
        laid_out(p.blocks, p.len),
        0 <= p.len <= u32::MAX,
        0 <= i <= k < p.blocks.len(),
        p.blocks[k].offset == begin,
    ensures
        block_index(p.blocks, begin, i) == Some(k),
    decreases k - i,
{
    if i < k {
        let all = blocks_as(p.blocks, BlockState::NotRequested);
        assert(all[i] == fresh_blocks(p.len)[i]);
        assert(all[k] == fresh_blocks(p.len)[k]);
        assert(fresh_blocks(p.len).len() == blocks_in(p.len));
        assert(16384 * k < p.len);
        block_at_offset_from(p, begin, k, i + 1);
    }
}

/// The block at an offset is the only one there.
proof fn block_at_offset(p: PieceRecord, begin: u32, k: int)
    requires
        laid_out(p.blocks, p.len),
        0 <= p.len <= u32::MAX,
        0 <= k < p.blocks.len(),
        p.blocks[k].offset == begin,
    ensures
        block_index(p.blocks, begin, 0) == Some(k),
{
    block_at_offset_from(p, begin, k, 0);
}

// ---------------------------------------------------------------------------------------------
// The picker

/// What the picker keeps of a piece.
#[derive(Debug)]
pub struct PieceMetadata {
    index: usize,
    /// Number of peers that have this piece
    num_peer: usize,
    /// Overall piece state
    state: PieceState,
    /// Block-level tracking
    blocks: Vec<BlockMetadata>,
    /// Buffer for assembling the complete piece
    buffer: Option<PieceBuffer>,
}

/// Keeps track of the pieces of a torrent and decides what to ask peers for.
#[derive(Debug)]
pub struct PieceManager {
    pieces: Vec<PieceMetadata>,
    /// Global heat map tracking how many times each block has been requested
    heat: HashMap<u128, usize>,
    /// Torrent metadata for calculations
    torrent_info: Arc<Info>,
}

pub closed spec fn buffer_view(b: Option<PieceBuffer>) -> Option<BufferState> {
    match b {
        Some(x) => Some(x@),
        None => None,
    }
}

impl PieceMetadata {
    closed spec fn record(&self, len: int) -> PieceRecord {
        PieceRecord {
            len,
            num_peer: self.num_peer as int,
            state: self.state,
            blocks: self.blocks@,
            buffer: buffer_view(self.buffer),
        }
    }
}

closed spec fn length_of(info: Arc<Info>, i: int) -> int {
    piece_span(info.says().mode.total(), info.piece_length as int, i)
}

impl View for PieceManager {
    type V = PickerState;

    closed spec fn view(&self) -> PickerState {
        PickerState {
            pieces: Seq::new(
                self.pieces@.len(),
                |i: int| self.pieces@[i].record(length_of(self.torrent_info, i)),
            ),
            heat: self.heat@,
        }
    }
}

/// The number by which a request is found in the heat map.
fn key_of(r: &BlockRequest) -> (k: u128)
    ensures
        k == request_key(*r),
{
    r.piece_index as u128 * 0x1_0000_0000_0000_0000 + r.begin as u128 * 0x1_0000_0000
        + r.length as u128
}

/// The position of the block that starts at the given offset.
fn find_block(blocks: &Vec<BlockMetadata>, begin: u32) -> (r: Option<usize>)
    ensures
        match r {
            Some(k) => k < blocks.len() && block_index(blocks@, begin, 0) == Some(k as int),
            None => block_index(blocks@, begin, 0) is None,
        },
{
    let mut i: usize = 0;
    while i < blocks.len()
        invariant
            i <= blocks.len(),
            block_index(blocks@, begin, 0) == block_index(blocks@, begin, i as int),
        decreases blocks.len() - i,
    {
        if blocks[i].offset == begin {
            return Some(i);
        }
        i = i + 1;
    }
    None
}

/// Create block metadata for a piece based on its length
pub fn create_blocks_for_piece(piece_len: u32) -> (r: Vec<BlockMetadata>)
    ensures
        r@ == fresh_blocks(piece_len as int),
{
    let mut blocks: Vec<BlockMetadata> = Vec::new();
    let mut offset: u32 = 0;
    let ghost whole = fresh_blocks(piece_len as int);
    while offset < piece_len
        invariant
            offset <= piece_len,
            offset == 16384 * blocks.len() || offset == piece_len,
            whole == fresh_blocks(piece_len as int),
            blocks.len() == blocks_in(offset as int),
            blocks.len() <= whole.len(),
            forall|k: int| 0 <= k < blocks.len() ==> blocks@[k] == whole[k],
        decreases piece_len - offset,
    {
        let left: u32 = piece_len - offset;
        let length: u32 = if left < BLOCK_SIZE {
            left
        } else {
            BLOCK_SIZE
        };
        blocks.push(BlockMetadata { offset, length, state: BlockState::NotRequested });
        offset = offset + length;
    }
    assert(blocks@ =~= whole);
    blocks
}

/// Marks all blocks as downloaded.
fn mark_all_downloaded(blocks: &mut Vec<BlockMetadata>)
    ensures
        final(blocks)@ == blocks_as(old(blocks)@, BlockState::Downloaded),
{
    let ghost before = blocks@;
    let mut i: usize = 0;
    while i < blocks.len()
        invariant
            i <= blocks.len(),
            blocks.len() == before.len(),
            forall|k: int|
                0 <= k < blocks.len() ==> blocks@[k] == if k < i {
                    (BlockMetadata { state: BlockState::Downloaded, ..before[k] })
                } else {
                    before[k]
                },
        decreases blocks.len() - i,
    {
        let b: BlockMetadata = blocks[i];
        blocks[i] = BlockMetadata { offset: b.offset, length: b.length, state: BlockState::Downloaded };
        i = i + 1;
    }
    assert(blocks@ =~= blocks_as(before, BlockState::Downloaded));
}

proof fn layout_survives(blocks: Seq<BlockMetadata>, len: int, k: int, state: BlockState)
    requires
        laid_out(blocks, len),
        0 <= k < blocks.len(),
    ensures
        laid_out(blocks.update(k, BlockMetadata { state, ..blocks[k] }), len),
{
    let next = blocks.update(k, BlockMetadata { state, ..blocks[k] });
    assert(blocks_as(next, BlockState::NotRequested) =~= blocks_as(
        blocks,
        BlockState::NotRequested,
    ));
}

proof fn layout_survives_all(blocks: Seq<BlockMetadata>, len: int, state: BlockState)
    requires
        laid_out(blocks, len),
    ensures
        laid_out(blocks_as(blocks, state), len),
{
    assert(blocks_as(blocks_as(blocks, state), BlockState::NotRequested) =~= blocks_as(
        blocks,
        BlockState::NotRequested,
    ));
}

proof fn fresh_blocks_laid_out(len: int)
    requires
        len <= u32::MAX,
    ensures
        laid_out(fresh_blocks(len), len),
{
    assert(blocks_as(fresh_blocks(len), BlockState::NotRequested) =~= fresh_blocks(len));
}

proof fn found_block_in_range(blocks: Seq<BlockMetadata>, begin: u32, i: int)
    requires
        0 <= i,
    ensures
        block_index(blocks, begin, i) matches Some(k) ==> i <= k < blocks.len(),
    decreases blocks.len() - i,
{
    if i < blocks.len() && blocks[i].offset != begin {
        found_block_in_range(blocks, begin, i + 1);
    }
}

impl PickerState {
    /// The state at the start of a download.
    pub open spec fn fresh(info: crate::metainfo::InfoView) -> PickerState {
        PickerState {
            pieces: Seq::new(
                info.pieces.len(),
                |i: int|
                    PieceRecord::fresh(piece_span(info.mode.total(), info.piece_length, i)),
            ),
            heat: Map::empty(),
        }
    }

    /// The state of a torrent that is there as a whole.
    pub open spec fn held(info: crate::metainfo::InfoView) -> PickerState {
        PickerState {
            pieces: Seq::new(
                info.pieces.len(),
                |i: int| PieceRecord::held(piece_span(info.mode.total(), info.piece_length, i)),
            ),
            heat: Map::empty(),
        }
    }
}

proof fn one_piece_changed(a: PieceManager, b: PieceManager, i: int)
    requires
        0 <= i < a.pieces@.len(),
        b.pieces@ == a.pieces@.update(i, b.pieces@[i]),
        b.torrent_info == a.torrent_info,
    ensures
        b@.pieces == a@.pieces.update(i, b.pieces@[i].record(length_of(a.torrent_info, i))),
{
    assert(b@.pieces =~= a@.pieces.update(i, b.pieces@[i].record(length_of(a.torrent_info, i))));
}

impl PieceManager {
    /// The picker's books agree with each other.
    pub closed spec fn wf(&self) -> bool {
        &&& self@.wf()
        &&& self.torrent_info.says().mode.size_fits()
        &&& forall|i: int| 0 <= i < self.pieces@.len() ==> (#[trigger] self.pieces@[i]).index == i
    }

    /// A picker for a torrent of which nothing is there.
    pub fn new(torrent_info: Arc<Info>) -> (r: Self)
        requires
            torrent_info.says().mode.size_fits(),
        ensures
            r.wf(),
            r@.wf(),
            r@ == PickerState::fresh(torrent_info.says()),
    {
        broadcast use vstd::std_specs::hash::group_hash_axioms;

        let n: usize = torrent_info.num_pieces();
        let mut pieces: Vec<PieceMetadata> = Vec::new();
        let mut i: usize = 0;
        while i < n
            invariant
                i <= n,
                torrent_info.says().mode.size_fits(),
                pieces.len() == i,
                forall|k: int|
                    0 <= k < i ==> (#[trigger] pieces@[k]).index == k && pieces@[k].record(
                        length_of(torrent_info, k),
                    ) == PieceRecord::fresh(length_of(torrent_info, k)),
            decreases n - i,
        {
            let piece_len: u32 = torrent_info.get_piece_len(i);
            let piece = PieceMetadata {
                index: i,
                num_peer: 0,
                state: PieceState::NotRequested,
                blocks: create_blocks_for_piece(piece_len),
                buffer: Some(PieceBuffer::new(piece_len as usize)),
            };
            assert(piece.record(length_of(torrent_info, i as int)) =~= PieceRecord::fresh(
                length_of(torrent_info, i as int),
            ));
            pieces.push(piece);
            i = i + 1;
        }
        let r = Self { pieces, heat: HashMap::new(), torrent_info };
        proof {
            assert(r@ =~= PickerState::fresh(torrent_info.says()));
            assert forall|k: int| 0 <= k < r@.pieces.len() implies (#[trigger] r@.pieces[k]).wf() by {
                fresh_blocks_laid_out(length_of(torrent_info, k));
                assert(r@.pieces[k].buffer->0.wf());
            }
        }
        r
    }

    /// A picker for a torrent that is there as a whole.
    pub fn new_all_have(torrent_info: Arc<Info>) -> (r: Self)
        requires
            torrent_info.says().mode.size_fits(),
        ensures
            r.wf(),
            r@.wf(),
            r@ == PickerState::held(torrent_info.says()),
    {
        broadcast use vstd::std_specs::hash::group_hash_axioms;

        let n: usize = torrent_info.num_pieces();
        let mut pieces: Vec<PieceMetadata> = Vec::new();
        let mut i: usize = 0;
        while i < n
            invariant
                i <= n,
                torrent_info.says().mode.size_fits(),
                pieces.len() == i,
                forall|k: int|
                    0 <= k < i ==> (#[trigger] pieces@[k]).index == k && pieces@[k].record(
                        length_of(torrent_info, k),
                    ) == PieceRecord::held(length_of(torrent_info, k)),
            decreases n - i,
        {
            let piece_len: u32 = torrent_info.get_piece_len(i);
            let mut blocks = create_blocks_for_piece(piece_len);
            mark_all_downloaded(&mut blocks);
            let piece = PieceMetadata {
                index: i,
                num_peer: 0,
                state: PieceState::Have,
                blocks,
                buffer: None,
            };
            assert(piece.record(length_of(torrent_info, i as int)) =~= PieceRecord::held(
                length_of(torrent_info, i as int),
            ));
            pieces.push(piece);
            i = i + 1;
        }
        let r = Self { pieces, heat: HashMap::new(), torrent_info };
        proof {
            assert(r@ =~= PickerState::held(torrent_info.says()));
            assert forall|k: int| 0 <= k < r@.pieces.len() implies (#[trigger] r@.pieces[k]).wf() by {
                let len = length_of(torrent_info, k);
                fresh_blocks_laid_out(len);
                layout_survives_all(fresh_blocks(len), len, BlockState::Downloaded);
            }
        }
        r
    }

    /// Whether every piece is there
    pub fn have_all_pieces(&self) -> (r: bool)
        ensures
            r == (forall|i: int|
                0 <= i < self@.pieces.len() ==> (#[trigger] self@.pieces[i]).state
                    == PieceState::Have),
    {
        let mut i: usize = 0;
        while i < self.pieces.len()
            invariant
                i <= self.pieces.len(),
                forall|k: int| 0 <= k < i ==> (#[trigger] self@.pieces[k]).state == PieceState::Have,
            decreases self.pieces.len() - i,
        {
            if self.pieces[i].state != PieceState::Have {
                assert(self@.pieces[i as int].state != PieceState::Have);
                return false;
            }
            i = i + 1;
        }
        true
    }

    /// How many pieces there are
    pub fn total_pieces(&self) -> (r: usize)
        ensures
            r == self@.pieces.len(),
    {
        self.pieces.len()
    }

    /// How many pieces are in the given state
    pub fn count_in_state(&self, state: PieceState) -> (r: usize)
        ensures
            r == self@.count(state, self@.pieces.len() as int),
            r <= self@.pieces.len(),
    {
        let mut count: usize = 0;
        let mut i: usize = 0;
        while i < self.pieces.len()
            invariant
                i <= self.pieces.len(),
                count <= i,
                count == self@.count(state, i as int),
            decreases self.pieces.len() - i,
        {
            assert(self@.pieces[i as int].state == self.pieces[i as int].state);
            if self.pieces[i].state == state {
                count = count + 1;
            }
            i = i + 1;
        }
        count
    }

    /// How many pieces are there, of how many
    pub fn info_progress(&self) -> (r: (usize, usize))
        ensures
            r.0 == self@.count(PieceState::Have, self@.pieces.len() as int),
            r.1 == self@.pieces.len(),
            r.0 <= r.1,
    {
        (self.count_in_state(PieceState::Have), self.pieces.len())
    }

    /// Whether one more peer with the pieces that the update tells of can be counted
    pub fn can_count(&self, update: AvailabilityUpdate) -> (r: bool)
        requires
            update matches AvailabilityUpdate::Bitfield(b) ==> b.inner.len() >= bytes_needed(
                b.num_pieces as int,
            ),
        ensures
            r == self@.can_count(update),
    {
        let mut i: usize = 0;
        while i < self.pieces.len()
            invariant
                i <= self.pieces.len(),
                update matches AvailabilityUpdate::Bitfield(b) ==> b.inner.len() >= bytes_needed(
                    b.num_pieces as int,
                ),
                forall|k: int|
                    0 <= k < i && tells(update, k) ==> (#[trigger] self@.pieces[k]).num_peer
                        < usize::MAX,
            decreases self.pieces.len() - i,
        {
            let told: bool = match &update {
                AvailabilityUpdate::Bitfield(b) => i < b.num_pieces && b.has(i),
                AvailabilityUpdate::Have(index) => i == *index as usize,
            };
            assert(told == tells(update, i as int));
            assert(self@.pieces[i as int].num_peer == self.pieces[i as int].num_peer);
            if told && self.pieces[i].num_peer == usize::MAX {
                return false;
            }
            i = i + 1;
        }
        true
    }

    /// Whether a bitfield of so many bytes speaks of every piece that is not there
    pub fn in_reach(&self, bytes: usize) -> (r: bool)
        ensures
            r == self@.in_reach(bytes as int),
    {
        let mut i: usize = 0;
        while i < self.pieces.len()
            invariant
                i <= self.pieces.len(),
                forall|k: int|
                    0 <= k < i && (#[trigger] self@.pieces[k]).state != PieceState::Have ==> k / 8
                        < bytes,
            decreases self.pieces.len() - i,
        {
            assert(self@.pieces[i as int].state == self.pieces[i as int].state);
            if self.pieces[i].state != PieceState::Have && i / 8 >= bytes {
                return false;
            }
            i = i + 1;
        }
        true
    }

    /// Notes that a peer has the pieces that the update tells of
    pub fn increment_availability(&mut self, update: AvailabilityUpdate)
        requires
            old(self).wf(),
            update matches AvailabilityUpdate::Bitfield(b) ==> b.inner.len() >= bytes_needed(
                b.num_pieces as int,
            ),
            old(self)@.can_count(update),
        ensures
            final(self).wf(),
            final(self)@.wf(),
            final(self)@ == old(self)@.more_peers(update),
    {
        let ghost before = self@;
        let ghost target = self@.more_peers(update);
        let mut i: usize = 0;
        while i < self.pieces.len()
            invariant
                i <= self.pieces.len(),
                self.wf(),
                self@.heat == before.heat,
                self@.pieces.len() == before.pieces.len(),
                target == before.more_peers(update),
                update matches AvailabilityUpdate::Bitfield(b) ==> b.inner.len() >= bytes_needed(
                    b.num_pieces as int,
                ),
                forall|k: int|
                    0 <= k < before.pieces.len() && tells(update, k) ==> (
                    #[trigger] before.pieces[k]).num_peer < usize::MAX,
                forall|k: int|
                    0 <= k < self@.pieces.len() ==> #[trigger] self@.pieces[k] == if k < i {
                        target.pieces[k]
                    } else {
                        before.pieces[k]
                    },
            decreases self.pieces.len() - i,
        {
            let told: bool = match &update {
                AvailabilityUpdate::Bitfield(b) => i < b.num_pieces && b.has(i),
                AvailabilityUpdate::Have(index) => i == *index as usize,
            };
            assert(told == tells(update, i as int));
            let ghost mid = *self;
            assert(mid@.pieces[i as int] == before.pieces[i as int]);
            assert(mid.pieces@[i as int].num_peer == mid@.pieces[i as int].num_peer);
            if told {
                self.pieces[i].num_peer = self.pieces[i].num_peer + 1;
            }
            proof {
                assert(self.pieces@ =~= mid.pieces@.update(i as int, self.pieces@[i as int]));
                one_piece_changed(mid, *self, i as int);
                assert(self@.pieces[i as int] =~= target.pieces[i as int]);
            }
            i = i + 1;
        }
        assert(self@ =~= target);
    }

    /// Notes that a peer with the pieces that the update tells of has gone
    pub fn decrement_availability(&mut self, update: AvailabilityUpdate)
        requires
            old(self).wf(),
            update matches AvailabilityUpdate::Bitfield(b) ==> b.inner.len() >= bytes_needed(
                b.num_pieces as int,
            ),
        ensures
            final(self).wf(),
            final(self)@.wf(),
            final(self)@ == old(self)@.fewer_peers(update),
    {
        let ghost before = self@;
        let ghost target = self@.fewer_peers(update);
        let mut i: usize = 0;
        while i < self.pieces.len()
            invariant
                i <= self.pieces.len(),
                self.wf(),
                self@.heat == before.heat,
                self@.pieces.len() == before.pieces.len(),
                target == before.fewer_peers(update),
                update matches AvailabilityUpdate::Bitfield(b) ==> b.inner.len() >= bytes_needed(
                    b.num_pieces as int,
                ),
                forall|k: int|
                    0 <= k < self@.pieces.len() ==> #[trigger] self@.pieces[k] == if k < i {
                        target.pieces[k]
                    } else {
                        before.pieces[k]
                    },
            decreases self.pieces.len() - i,
        {
            let told: bool = match &update {
                AvailabilityUpdate::Bitfield(b) => i < b.num_pieces && b.has(i),
                AvailabilityUpdate::Have(index) => i == *index as usize,
            };
            assert(told == tells(update, i as int));
            let ghost mid = *self;
            assert(mid@.pieces[i as int] == before.pieces[i as int]);
            if told {
                self.pieces[i].num_peer = self.pieces[i].num_peer.saturating_sub(1);
            }
            proof {
                assert(self.pieces@ =~= mid.pieces@.update(i as int, self.pieces@[i as int]));
                one_piece_changed(mid, *self, i as int);
                assert(self@.pieces[i as int] =~= target.pieces[i as int]);
            }
            i = i + 1;
        }
        assert(self@ =~= target);
    }

    /// Mark a piece as having a specific state
    pub fn set_piece_as(&mut self, index: usize, state: PieceState)
        requires
            old(self).wf(),
        ensures
            final(self).wf(),
            final(self)@.wf(),
            final(self)@ == old(self)@.told(index as int, state),
    {
        if index < self.pieces.len() {
            let ghost before = *self;
            let ghost len = length_of(self.torrent_info, index as int);
            assert(before@.pieces[index as int].wf());
            self.pieces[index].state = state;
            if state == PieceState::Have {
                mark_all_downloaded(&mut self.pieces[index].blocks);
            }
            proof {
                assert(self.pieces@ =~= before.pieces@.update(
                    index as int,
                    self.pieces@[index as int],
                ));
                one_piece_changed(before, *self, index as int);
                layout_survives_all(before@.pieces[index as int].blocks, len, BlockState::Downloaded);
                assert(self.pieces@[index as int].record(len)
                    =~= before@.pieces[index as int].told(state));
                assert(self@ =~= before@.told(index as int, state));
            }
        }
    }

    /// Forgets what has arrived of a piece, so that it is fetched again
    pub fn reset_piece(&mut self, index: usize)
        requires
            old(self).wf(),
        ensures
            final(self).wf(),
            final(self)@.wf(),
            final(self)@ == old(self)@.reset(index as int),
    {
        if index < self.pieces.len() {
            let ghost before = *self;
            let piece_len: u32 = self.torrent_info.get_piece_len(index);
            let num_peer: usize = self.pieces[index].num_peer;
            assert(before@.pieces[index as int].wf());
            self.pieces[index] =
            PieceMetadata {
                index,
                num_peer,
                state: PieceState::NotRequested,
                blocks: create_blocks_for_piece(piece_len),
                buffer: Some(PieceBuffer::new(piece_len as usize)),
            };
            proof {
                one_piece_changed(before, *self, index as int);
                fresh_blocks_laid_out(piece_len as int);
                assert(self@ =~= before@.reset(index as int));
            }
        }
    }

    /// Register a block request and increment its heat
    pub fn add_request(&mut self, request: BlockRequest) -> (r: bool)
        requires
            old(self).wf(),
            old(self)@.heat_of(request) < usize::MAX,
        ensures
            final(self).wf(),
            final(self)@.wf(),
            r == old(self)@.can_request(request),
            final(self)@ == old(self)@.with_request(request),
    {
        broadcast use vstd::std_specs::hash::group_hash_axioms;

        let piece_idx: usize = request.piece_index as usize;
        if piece_idx >= self.pieces.len() {
            return false;
        }
        assert(self@.pieces[piece_idx as int].state == self.pieces[piece_idx as int].state);
        assert(self@.pieces[piece_idx as int].blocks == self.pieces[piece_idx as int].blocks@);
        if self.pieces[piece_idx].state == PieceState::Have {
            return false;
        }
        match find_block(&self.pieces[piece_idx].blocks, request.begin) {
            None => false,
            Some(k) => {
                let ghost before = *self;
                let ghost len = length_of(self.torrent_info, piece_idx as int);
                assert(before@.pieces[piece_idx as int].wf());
                let heat: usize = self.get_heat(&request) + 1;
                self.heat.insert(key_of(&request), heat);
                let b: BlockMetadata = self.pieces[piece_idx].blocks[k];
                self.pieces[piece_idx].blocks[k] =
                BlockMetadata {
                    offset: b.offset,
                    length: b.length,
                    state: BlockState::Requested { heat },
                };
                if self.pieces[piece_idx].state == PieceState::NotRequested {
                    self.pieces[piece_idx].state = PieceState::InProgress;
                }
                proof {
                    assert(self.pieces@ =~= before.pieces@.update(
                        piece_idx as int,
                        self.pieces@[piece_idx as int],
                    ));
                    one_piece_changed(before, *self, piece_idx as int);
                    layout_survives(
                        before@.pieces[piece_idx as int].blocks,
                        len,
                        k as int,
                        BlockState::Requested { heat },
                    );
                    assert(self@ =~= before@.with_request(request));
                }
                true
            },
        }
    }

    /// Remove a block request and decrement its heat
    pub fn delete_request(&mut self, request: BlockRequest)
        requires
            old(self).wf(),
        ensures
            final(self).wf(),
            final(self)@.wf(),
            final(self)@ == old(self)@.without_request(request),
    {
        broadcast use vstd::std_specs::hash::group_hash_axioms;

        let key: u128 = key_of(&request);
        let heat: usize = match self.heat.get(&key) {
            None => return ,
            Some(h) => *h,
        };
        let ghost before = *self;
        if heat <= 1 {
            self.heat.remove(&key);
        } else {
            self.heat.insert(key, heat - 1);
        }
        let piece_idx: usize = request.piece_index as usize;
        if piece_idx < self.pieces.len() {
            assert(before@.pieces[piece_idx as int].blocks == self.pieces[piece_idx as int].blocks@);
            assert(before@.pieces[piece_idx as int].wf());
            match find_block(&self.pieces[piece_idx].blocks, request.begin) {
                None => {},
                Some(k) => {
                    let b: BlockMetadata = self.pieces[piece_idx].blocks[k];
                    let state: BlockState = if heat > 1 {
                        BlockState::Requested { heat: heat - 1 }
                    } else {
                        match b.state {
                            BlockState::Requested { .. } => BlockState::NotRequested,
                            other => other,
                        }
                    };
                    self.pieces[piece_idx].blocks[k] =
                    BlockMetadata { offset: b.offset, length: b.length, state };
                    proof {
                        assert(self.pieces@ =~= before.pieces@.update(
                            piece_idx as int,
                            self.pieces@[piece_idx as int],
                        ));
                        one_piece_changed(before, *self, piece_idx as int);
                        layout_survives(
                            before@.pieces[piece_idx as int].blocks,
                            length_of(before.torrent_info, piece_idx as int),
                            k as int,
                            state,
                        );
                        assert(self@.pieces[piece_idx as int]
                            =~= before@.pieces[piece_idx as int].with_block_state(k as int, state));
                    }
                },
            }
        }
        assert(self@ =~= before@.without_request(request));
    }

    /// Get the current heat for a block request
    pub fn get_heat(&self, request: &BlockRequest) -> (r: usize)
        ensures
            r == self@.heat_of(*request),
    {
        broadcast use vstd::std_specs::hash::group_hash_axioms;

        match self.heat.get(&key_of(request)) {
            Some(h) => *h,
            None => 0,
        }
    }

    /// Gives up a peer's block requests, one after the other
    pub fn cancel_peer_requests(&mut self, requests: &[BlockRequest])
        requires
            old(self).wf(),
        ensures
            final(self).wf(),
            final(self)@.wf(),
            final(self)@ == old(self)@.without_requests(requests@, requests.len() as int),
    {
        let mut i: usize = 0;
        while i < requests.len()
            invariant
                i <= requests.len(),
                self.wf(),
                self@ == old(self)@.without_requests(requests@, i as int),
            decreases requests.len() - i,
        {
            self.delete_request(requests[i]);
            i = i + 1;
        }
        assert(self@.wf());
    }

    /// Add a received block to its piece buffer
    /// Returns the bytes of the piece in case it is completed
    pub fn add_block(&mut self, block: Block) -> (r: Option<Vec<u8>>)
        requires
            old(self).wf(),
        ensures
            final(self).wf(),
            final(self)@.wf(),
            ({
                let step = old(self)@.with_block(
                    block.index,
                    block.begin,
                    bytes_content(block.data),
                );
                &&& final(self)@ == step.0
                &&& match r {
                    Some(bytes) => step.1 == Some(bytes@),
                    None => step.1 is None,
                }
            }),
    {
        broadcast use vstd::std_specs::hash::group_hash_axioms;

        let i: usize = block.index as usize;
        if i >= self.pieces.len() {
            return None;
        }
        let ghost before = *self;
        let ghost len = length_of(self.torrent_info, i as int);
        let ghost rec = before@.pieces[i as int];
        assert(rec.wf());
        assert(rec == self.pieces@[i as int].record(len));
        match find_block(&self.pieces[i].blocks, block.begin) {
            None => {},
            Some(k) => {
                let b: BlockMetadata = self.pieces[i].blocks[k];
                self.pieces[i].blocks[k] =
                BlockMetadata {
                    offset: b.offset,
                    length: b.length,
                    state: BlockState::Downloaded,
                };
                let request = BlockRequest {
                    piece_index: block.index,
                    begin: block.begin,
                    length: bytes_as_slice(&block.data).len() as u32,
                };
                self.heat.remove(&key_of(&request));
                proof {
                    layout_survives(rec.blocks, len, k as int, BlockState::Downloaded);
                }
            },
        }
        let ghost marked = match block_index(rec.blocks, block.begin, 0) {
            Some(k) => rec.with_block_state(k, BlockState::Downloaded),
            None => rec,
        };
        assert(self.pieces@[i as int].record(len) =~= marked);
        let mut buffer = match self.pieces[i].buffer.take() {
            None => {
                proof {
                    assert(self.pieces@ =~= before.pieces@.update(i as int, self.pieces@[i as int]));
                    one_piece_changed(before, *self, i as int);
                    assert(self.pieces@[i as int].record(len) =~= marked);
                    assert(self@ =~= before@.with_block(
                        block.index,
                        block.begin,
                        bytes_content(block.data),
                    ).0);
                }
                return None;
            },
            Some(b) => b,
        };
        if buffer.add_block(&block) {
            self.pieces[i].state = PieceState::Downloaded;
            proof {
                assert(self.pieces@ =~= before.pieces@.update(i as int, self.pieces@[i as int]));
                one_piece_changed(before, *self, i as int);
                assert(self@ =~= before@.with_block(
                    block.index,
                    block.begin,
                    bytes_content(block.data),
                ).0);
            }
            return Some(buffer.into_bytes());
        }
        self.pieces[i].buffer = Some(buffer);
        proof {
            assert(self.pieces@ =~= before.pieces@.update(i as int, self.pieces@[i as int]));
            one_piece_changed(before, *self, i as int);
            assert(self@ =~= before@.with_block(
                block.index,
                block.begin,
                bytes_content(block.data),
            ).0);
        }
        None
    }

    /// Check if all blocks in a piece have been downloaded
    pub fn is_piece_complete(&self, piece_index: u32) -> (r: bool)
        ensures
            r == (piece_index < self@.pieces.len() && forall|k: int|
                0 <= k < self@.pieces[piece_index as int].blocks.len() ==> (
                #[trigger] self@.pieces[piece_index as int].blocks[k]).state
                    == BlockState::Downloaded),
    {
        let i: usize = piece_index as usize;
        if i >= self.pieces.len() {
            return false;
        }
        let blocks: &Vec<BlockMetadata> = &self.pieces[i].blocks;
        assert(self@.pieces[i as int].blocks == blocks@);
        let mut k: usize = 0;
        while k < blocks.len()
            invariant
                k <= blocks.len(),
                self@.pieces[piece_index as int].blocks == blocks@,
                piece_index < self@.pieces.len(),
                forall|j: int| 0 <= j < k ==> (#[trigger] blocks@[j]).state == BlockState::Downloaded,
            decreases blocks.len() - k,
        {
            if blocks[k].state != BlockState::Downloaded {
                assert(self@.pieces[piece_index as int].blocks[k as int].state
                    != BlockState::Downloaded);
                return false;
            }
            k = k + 1;
        }
        true
    }
}

// ---------------------------------------------------------------------------------------------
// What to ask for next

/// How many of the first `n` blocks have not arrived.
pub open spec fn missing_blocks(blocks: Seq<BlockMetadata>, n: int) -> int
    decreases n,
{
    if n <= 0 {
        0
    } else {
        missing_blocks(blocks, n - 1) + if blocks[n - 1].state == BlockState::Downloaded {
            0int
        } else {
            1int
        }
    }
}

/// The first `n` elements of a list, or all where there are fewer.
pub open spec fn cut<A>(s: Seq<A>, n: int) -> Seq<A> {
    if s.len() <= n {
        s
    } else {
        s.take(n)
    }
}

impl PickerState {
    /// How many blocks of a piece have not arrived.
    pub open spec fn pending(self, i: int) -> int {
        missing_blocks(self.pieces[i].blocks, self.pieces[i].blocks.len() as int)
    }

    /// Whether a piece is wanted and the remote peer has it.
    pub open spec fn eligible(self, remote: Bitfield, i: int) -> bool {
        0 <= i < self.pieces.len() && self.pieces[i].state != PieceState::Have && remote.holds(i)
    }

    /// Whether a piece is asked for before another: pieces in progress first, then the rarest,
    /// then those with the most blocks missing, then in their order.
    pub open spec fn precedes(self, a: int, b: int) -> bool {
        let pa = self.pieces[a];
        let pb = self.pieces[b];
        let ia = pa.state == PieceState::InProgress;
        let ib = pb.state == PieceState::InProgress;
        if ia != ib {
            ia
        } else if pa.num_peer != pb.num_peer {
            pa.num_peer < pb.num_peer
        } else if self.pending(a) != self.pending(b) {
            self.pending(a) > self.pending(b)
        } else {
            a < b
        }
    }

    /// Whether a list holds the eligible pieces in the order in which they are asked for.
    pub open spec fn is_order(self, remote: Bitfield, order: Seq<int>) -> bool {
        &&& forall|i: int, j: int|
            0 <= i < j < order.len() ==> self.precedes(#[trigger] order[i], #[trigger] order[j])
        &&& forall|i: int| 0 <= i < order.len() ==> self.eligible(remote, #[trigger] order[i])
        &&& forall|p: int| #[trigger] self.eligible(remote, p) ==> order.contains(p)
    }

    /// The request for a block.
    pub open spec fn info(self, i: int, k: int) -> BlockInfo {
        BlockInfo {
            index: i as u32,
            begin: self.pieces[i].blocks[k].offset,
            length: self.pieces[i].blocks[k].length,
        }
    }

    /// Whether a block is to be asked for: it has not arrived, and has not been asked for more
    /// often than the threshold.
    pub open spec fn wanted(self, i: int, k: int, threshold: usize) -> bool {
        &&& self.pieces[i].blocks[k].state != BlockState::Downloaded
        &&& self.heat_of(
            BlockRequest {
                piece_index: i as u32,
                begin: self.pieces[i].blocks[k].offset,
                length: self.pieces[i].blocks[k].length,
            },
        ) <= threshold
    }

    /// The wanted blocks among the first `n` of a piece.
    pub open spec fn piece_picks(self, i: int, threshold: usize, n: int) -> Seq<BlockInfo>
        decreases n,
    {
        if n <= 0 {
            Seq::empty()
        } else if self.wanted(i, n - 1, threshold) {
            self.piece_picks(i, threshold, n - 1).push(self.info(i, n - 1))
        } else {
            self.piece_picks(i, threshold, n - 1)
        }
    }

    /// The wanted blocks of the first `m` pieces of a list.
    pub open spec fn order_picks(self, order: Seq<int>, threshold: usize, m: int) -> Seq<BlockInfo>
        decreases m,
    {
        if m <= 0 {
            Seq::empty()
        } else {
            self.order_picks(order, threshold, m - 1) + self.piece_picks(
                order[m - 1],
                threshold,
                self.pieces[order[m - 1]].blocks.len() as int,
            )
        }
    }

    /// The wanted blocks for the first `t` thresholds of a list, one threshold after the other.
    pub open spec fn all_picks(self, order: Seq<int>, thresholds: Seq<usize>, t: int) -> Seq<
        BlockInfo,
    >
        decreases t,
    {
        if t <= 0 {
            Seq::empty()
        } else {
            self.all_picks(order, thresholds, t - 1) + self.order_picks(
                order,
                thresholds[t - 1],
                order.len() as int,
            )
        }
    }

    /// Whether a list of requests is what the picker gives for a peer.
    pub open spec fn picked(
        self,
        remote: Bitfield,
        max: int,
        thresholds: Seq<usize>,
        r: Seq<BlockInfo>,
    ) -> bool {
        exists|order: Seq<int>| #[trigger]
            self.is_order(remote, order) && r == cut(
                self.all_picks(order, thresholds, thresholds.len() as int),
                max,
            )
    }

    /// The key by which pieces are sorted.
    spec fn rank(self, i: int) -> (u128, u128, u128, u128) {
        (
            if self.pieces[i].state == PieceState::InProgress {
                0u128
            } else {
                1u128
            },
            self.pieces[i].num_peer as u128,
            (0xffff_ffff_ffff_ffff - self.pending(i)) as u128,
            i as u128,
        )
    }
}

proof fn missing_blocks_bounds(blocks: Seq<BlockMetadata>, n: int)
    requires
        0 <= n,
    ensures
        0 <= missing_blocks(blocks, n) <= n,
    decreases n,
{
    if n > 0 {
        missing_blocks_bounds(blocks, n - 1);
    }
}

proof fn order_picks_grow(s: PickerState, order: Seq<int>, threshold: usize, m: int, n: int)
    requires
        0 <= m <= n <= order.len(),
    ensures
        s.order_picks(order, threshold, m).len() <= s.order_picks(order, threshold, n).len(),
        s.order_picks(order, threshold, n).take(s.order_picks(order, threshold, m).len() as int)
            == s.order_picks(order, threshold, m),
    decreases n - m,
{
    let a = s.order_picks(order, threshold, m);
    if m < n {
        order_picks_grow(s, order, threshold, m, n - 1);
        let b = s.order_picks(order, threshold, n - 1);
        let c = s.order_picks(order, threshold, n);
        assert(c.take(a.len() as int) =~= b.take(a.len() as int));
    } else {
        assert(a.take(a.len() as int) =~= a);
    }
}

/// There is only one order in which the pieces can be asked for.
pub proof fn order_is_unique(s: PickerState, remote: Bitfield, a: Seq<int>, b: Seq<int>)
    requires
        s.is_order(remote, a),
        s.is_order(remote, b),
    ensures
        a == b,
{
    if a.len() <= b.len() {
        orders_agree(s, remote, a, b, a.len() as int);
        if a.len() < b.len() {
            let x = b[a.len() as int];
            assert(s.eligible(remote, x));
            let i = choose|i: int| 0 <= i < a.len() && a[i] == x;
            assert(b[i] == a[i]);
            assert(s.precedes(b[i], b[a.len() as int]));
        }
    } else {
        orders_agree(s, remote, b, a, b.len() as int);
        let x = a[b.len() as int];
        assert(s.eligible(remote, x));
        let i = choose|i: int| 0 <= i < b.len() && b[i] == x;
        assert(a[i] == b[i]);
        assert(s.precedes(a[i], a[b.len() as int]));
    }
    assert(a =~= b);
}

proof fn orders_agree(s: PickerState, remote: Bitfield, a: Seq<int>, b: Seq<int>, n: int)
    requires
        s.is_order(remote, a),
        s.is_order(remote, b),
        0 <= n <= a.len(),
        a.len() <= b.len(),
    ensures
        forall|i: int| 0 <= i < n ==> a[i] == b[i],
    decreases n,
{
    if n > 0 {
        orders_agree(s, remote, a, b, n - 1);
        let k = n - 1;
        assert(s.eligible(remote, a[k]));
        assert(s.eligible(remote, b[k]));
        let i = choose|i: int| 0 <= i < b.len() && b[i] == a[k];
        let j = choose|j: int| 0 <= j < a.len() && a[j] == b[k];
        if i < k {
            assert(a[i] == b[i]);
            assert(s.precedes(a[i], a[k]));
        }
        if j < k {
            assert(a[j] == b[j]);
            assert(s.precedes(b[j], b[k]));
        }
        if i > k && j > k {
            assert(s.precedes(b[k], b[i]));
            assert(s.precedes(a[k], a[j]));
        }
    }
}

impl PieceManager {
    /// How many blocks of a piece have not arrived.
    fn pending_blocks_of(&self, i: usize) -> (r: usize)
        requires
            i < self@.pieces.len(),
        ensures
            r == self@.pending(i as int),
            r <= self@.pieces[i as int].blocks.len(),
    {
        let blocks: &Vec<BlockMetadata> = &self.pieces[i].blocks;
        assert(self@.pieces[i as int].blocks == blocks@);
        let mut count: usize = 0;
        let mut k: usize = 0;
        while k < blocks.len()
            invariant
                k <= blocks.len(),
                count <= k,
                count == missing_blocks(blocks@, k as int),
            decreases blocks.len() - k,
        {
            if blocks[k].state != BlockState::Downloaded {
                count = count + 1;
            }
            k = k + 1;
        }
        count
    }

    /// The eligible pieces in the order in which they are asked for.
    fn pieces_in_order(&self, remote_bitfield: &Bitfield) -> (r: Vec<usize>)
        requires
            self.wf(),
            self@.in_reach(remote_bitfield.inner.len() as int),
        ensures
            self@.is_order(*remote_bitfield, r@.map_values(|i: usize| i as int)),
            forall|m: int| 0 <= m < r.len() ==> (#[trigger] r[m]) < self@.pieces.len(),
    {
        let ghost st = self@;
        let mut keys: Vec<(u128, u128, u128, u128)> = Vec::new();
        let mut i: usize = 0;
        while i < self.pieces.len()
            invariant
                i <= self.pieces.len(),
                st == self@,
                forall|k: int|
                    0 <= k < st.pieces.len() && (#[trigger] st.pieces[k]).state != PieceState::Have
                        ==> k / 8 < remote_bitfield.inner.len(),
                forall|m: int|
                    0 <= m < keys.len() ==> st.eligible(
                        *remote_bitfield,
                        (#[trigger] keys@[m]).3 as int,
                    ) && keys@[m] == st.rank(keys@[m].3 as int) && keys@[m].3 < i,
                forall|m: int, n: int|
                    0 <= m < n < keys.len() ==> (#[trigger] keys@[m]).3 < (#[trigger] keys@[n]).3,
                forall|p: int|
                    0 <= p < i && #[trigger] st.eligible(*remote_bitfield, p) ==> keys@.contains(
                        st.rank(p),
                    ),
            decreases self.pieces.len() - i,
        {
            assert(st.pieces[i as int].state == self.pieces[i as int].state);
            let ghost before = keys@;
            if self.pieces[i].state != PieceState::Have && remote_bitfield.has(i) {
                let first: u128 = if self.pieces[i].state == PieceState::InProgress {
                    0
                } else {
                    1
                };
                let pending: usize = self.pending_blocks_of(i);
                assert(pending <= 0xffff_ffff_ffff_ffff);
                keys.push(
                    (
                        first,
                        self.pieces[i].num_peer as u128,
                        0xffff_ffff_ffff_ffff - pending as u128,
                        i as u128,
                    ),
                );
                assert(keys@[before.len() as int] == st.rank(i as int));
                assert(st.eligible(*remote_bitfield, i as int));
            }
            proof {
                assert forall|p: int|
                    0 <= p < i + 1 && #[trigger] st.eligible(
                        *remote_bitfield,
                        p,
                    ) implies keys@.contains(st.rank(p)) by {
                    if p < i {
                        let m = choose|m: int| 0 <= m < before.len() && before[m] == st.rank(p);
                        assert(keys@[m] == st.rank(p));
                    }
                }
            }
            i = i + 1;
        }
        let ghost unsorted = keys@;
        assert(unsorted.no_duplicates()) by {
            assert forall|m: int, n: int|
                0 <= m < unsorted.len() && 0 <= n < unsorted.len() && m != n implies unsorted[m]
                != unsorted[n] by {
                if m < n {
                    assert(unsorted[m].3 < unsorted[n].3);
                } else {
                    assert(unsorted[n].3 < unsorted[m].3);
                }
            }
        }
        sort_keys(&mut keys);
        proof {
            same_keys(unsorted, keys@);
        }
        let mut order: Vec<usize> = Vec::new();
        let mut m: usize = 0;
        while m < keys.len()
            invariant
                m <= keys.len(),
                st == self@,
                order.len() == m,
                st.pieces.len() == self.pieces.len(),
                forall|n: int| 0 <= n < keys.len() ==> unsorted.contains(#[trigger] keys@[n]),
                forall|n: int|
                    0 <= n < unsorted.len() ==> (#[trigger] unsorted[n]).3 < st.pieces.len(),
                forall|n: int| 0 <= n < m ==> (#[trigger] order@[n]) as int == keys@[n].3 as int,
                forall|n: int| 0 <= n < m ==> (#[trigger] order@[n]) < st.pieces.len(),
            decreases keys.len() - m,
        {
            let k: u128 = keys[m].3;
            proof {
                assert(unsorted.contains(keys@[m as int]));
                let n = choose|n: int| 0 <= n < unsorted.len() && unsorted[n] == keys@[m as int];
                assert(unsorted[n].3 < st.pieces.len());
            }
            order.push(k as usize);
            m = m + 1;
        }
        proof {
            let o = order@.map_values(|i: usize| i as int);
            assert forall|n: int| 0 <= n < o.len() implies st.eligible(
                *remote_bitfield,
                #[trigger] o[n],
            ) && keys@[n] == st.rank(o[n]) by {
                assert(o[n] == keys@[n].3 as int);
                assert(unsorted.contains(keys@[n]));
                let q = choose|q: int| 0 <= q < unsorted.len() && unsorted[q] == keys@[n];
                assert(st.eligible(*remote_bitfield, unsorted[q].3 as int));
            }
            assert forall|a: int, b: int| 0 <= a < b < o.len() implies st.precedes(
                #[trigger] o[a],
                #[trigger] o[b],
            ) by {
                assert(st.eligible(*remote_bitfield, o[a]) && st.eligible(*remote_bitfield, o[b]));
                assert(key_le(keys@[a], keys@[b]));
                assert(keys@[a] != keys@[b]);
                assert(st.pieces[o[a]].wf() && st.pieces[o[b]].wf());
                missing_blocks_bounds(st.pieces[o[a]].blocks, st.pieces[o[a]].blocks.len() as int);
                missing_blocks_bounds(st.pieces[o[b]].blocks, st.pieces[o[b]].blocks.len() as int);
                layout_is_short(st.pieces[o[a]].blocks, st.pieces[o[a]].len);
                layout_is_short(st.pieces[o[b]].blocks, st.pieces[o[b]].len);
                if o[a] == o[b] {
                    assert(st.rank(o[a]) == st.rank(o[b]));
                }
            }
            assert forall|p: int| #[trigger] st.eligible(
                *remote_bitfield,
                p,
            ) implies o.contains(p) by {
                assert(unsorted.contains(st.rank(p)));
                assert(keys@.contains(st.rank(p)));
                let n = choose|n: int| 0 <= n < keys@.len() && keys@[n] == st.rank(p);
                assert(o[n] == p);
            }
        }
        order
    }

    /// Adds the wanted blocks of a piece, as long as there is room.
    fn pick_from_piece(
        &self,
        i: usize,
        threshold: usize,
        max_requests: usize,
        out: &mut Vec<BlockInfo>,
        Ghost(done): Ghost<Seq<BlockInfo>>,
    )
        requires
            i < self@.pieces.len(),
            old(out)@ == cut(done, max_requests as int),
        ensures
            final(out)@ == cut(
                done + self@.piece_picks(
                    i as int,
                    threshold,
                    self@.pieces[i as int].blocks.len() as int,
                ),
                max_requests as int,
            ),
    {
        let ghost st = self@;
        let blocks: &Vec<BlockMetadata> = &self.pieces[i].blocks;
        assert(st.pieces[i as int].blocks == blocks@);
        assert(done + Seq::<BlockInfo>::empty() =~= done);
        let mut k: usize = 0;
        while k < blocks.len()
            invariant
                k <= blocks.len(),
                i < self@.pieces.len(),
                st == self@,
                st.pieces[i as int].blocks == blocks@,
                out@ == cut(done + st.piece_picks(i as int, threshold, k as int), max_requests as int),
            decreases blocks.len() - k,
        {
            let b: BlockMetadata = blocks[k];
            let request = BlockRequest { piece_index: i as u32, begin: b.offset, length: b.length };
            let ghost so_far = done + st.piece_picks(i as int, threshold, k as int);
            if b.state != BlockState::Downloaded && self.get_heat(&request) <= threshold {
                let info = BlockInfo { index: i as u32, begin: b.offset, length: b.length };
                proof {
                    assert(st.wanted(i as int, k as int, threshold));
                    assert(done + st.piece_picks(i as int, threshold, k + 1) =~= so_far.push(info));
                }
                if out.len() < max_requests {
                    out.push(info);
                    assert(out@ =~= cut(so_far.push(info), max_requests as int));
                } else {
                    assert(cut(so_far.push(info), max_requests as int) =~= cut(
                        so_far,
                        max_requests as int,
                    ));
                }
            } else {
                assert(!st.wanted(i as int, k as int, threshold));
            }
            k = k + 1;
        }
    }

    /// Pick blocks to request based on piece availability and block heat
    /// Returns up to `max_requests` blocks to request
    pub fn pick_blocks(
        &self,
        remote_bitfield: &Bitfield,
        max_requests: usize,
        heat_thresholds: &[usize],
    ) -> (r: Vec<BlockInfo>)
        requires
            self.wf(),
            self@.in_reach(remote_bitfield.inner.len() as int),
        ensures
            self@.picked(*remote_bitfield, max_requests as int, heat_thresholds@, r@),
            r.len() <= max_requests,
    {
        let ghost st = self@;
        let order = self.pieces_in_order(remote_bitfield);
        let ghost o = order@.map_values(|i: usize| i as int);
        let mut out: Vec<BlockInfo> = Vec::new();
        let mut t: usize = 0;
        while t < heat_thresholds.len()
            invariant
                t <= heat_thresholds.len(),
                st == self@,
                o == order@.map_values(|i: usize| i as int),
                forall|m: int| 0 <= m < order.len() ==> (#[trigger] order[m]) < st.pieces.len(),
                out@ == cut(st.all_picks(o, heat_thresholds@, t as int), max_requests as int),
            decreases heat_thresholds.len() - t,
        {
            let threshold: usize = heat_thresholds[t];
            let ghost base = st.all_picks(o, heat_thresholds@, t as int);
            let mut m: usize = 0;
            assert(base + st.order_picks(o, threshold, 0) =~= base);
            while m < order.len() && out.len() < max_requests
                invariant
                    m <= order.len(),
                    st == self@,
                    o == order@.map_values(|i: usize| i as int),
                    forall|m: int| 0 <= m < order.len() ==> (#[trigger] order[m]) < st.pieces.len(),
                    out@ == cut(base + st.order_picks(o, threshold, m as int), max_requests as int),
                decreases order.len() - m,
            {
                let ghost done = base + st.order_picks(o, threshold, m as int);
                self.pick_from_piece(order[m], threshold, max_requests, &mut out, Ghost(done));
                proof {
                    let i = order[m as int] as int;
                    assert(o[m as int] == i);
                    assert(base + st.order_picks(o, threshold, m + 1) =~= done + st.piece_picks(
                        i,
                        threshold,
                        st.pieces[i].blocks.len() as int,
                    ));
                }
                m = m + 1;
            }
            proof {
                let n = order.len() as int;
                order_picks_grow(st, o, threshold, m as int, n);
                let some = st.order_picks(o, threshold, m as int);
                let all = st.order_picks(o, threshold, n);
                if m < n {
                    assert((base + some).len() >= max_requests);
                    assert((base + all).take((base + some).len() as int) =~= base + all.take(
                        some.len() as int,
                    ));
                    assert(cut(base + all, max_requests as int) =~= cut(
                        base + some,
                        max_requests as int,
                    )) by {
                        let x = base + all;
                        let y = base + some;
                        assert(x.take(y.len() as int) == y);
                        assert(x.take(max_requests as int) =~= y.take(max_requests as int));
                    }
                }
                assert(st.all_picks(o, heat_thresholds@, t + 1) == base + all);
            }
            t = t + 1;
        }
        proof {
            assert(st.is_order(*remote_bitfield, o));
        }
        out
    }

    /// Simplified version of pick_blocks with default heat thresholds
    pub fn pick_piece(&self, remote_bitfield: &Bitfield, max_requests: usize) -> (r: Vec<BlockInfo>)
        requires
            self.wf(),
            self@.in_reach(remote_bitfield.inner.len() as int),
        ensures
            self@.picked(
                *remote_bitfield,
                max_requests as int,
                seq![0usize, 1usize, 4usize, 100usize],
                r@,
            ),
            r.len() <= max_requests,
    {
        let thresholds: [usize; 4] = [0, 1, 4, 100];
        assert(thresholds@ =~= seq![0usize, 1usize, 4usize, 100usize]);
        self.pick_blocks(remote_bitfield, max_requests, thresholds.as_slice())
    }
}

/// The blocks of a piece that have not arrived, among the first `n`.
pub open spec fn pending_infos(blocks: Seq<BlockMetadata>, index: u32, n: int) -> Seq<BlockInfo>
    decreases n,
{
    if n <= 0 {
        Seq::empty()
    } else if blocks[n - 1].state == BlockState::Downloaded {
        pending_infos(blocks, index, n - 1)
    } else {
        pending_infos(blocks, index, n - 1).push(
            BlockInfo { index, begin: blocks[n - 1].offset, length: blocks[n - 1].length },
        )
    }
}

/// The bytes of the first `n` blocks that have not arrived.
pub open spec fn missing_bytes(blocks: Seq<BlockMetadata>, n: int) -> int
    decreases n,
{
    if n <= 0 {
        0
    } else {
        missing_bytes(blocks, n - 1) + if blocks[n - 1].state == BlockState::Downloaded {
            0
        } else {
            blocks[n - 1].length as int
        }
    }
}

proof fn missing_bytes_bounds(blocks: Seq<BlockMetadata>, len: int, n: int)
    requires
        laid_out(blocks, len),
        0 <= len <= u32::MAX,
        0 <= n <= blocks.len(),
    ensures
        0 <= missing_bytes(blocks, n) <= 16384 * n,
        missing_bytes(blocks, n) <= len,
    decreases n,
{
    if n > 0 {
        missing_bytes_bounds(blocks, len, n - 1);
        assert(blocks_as(blocks, BlockState::NotRequested)[n - 1] == fresh_blocks(len)[n - 1]);
        assert(16384 * (n - 1) < len) by {
            assert(fresh_blocks(len).len() == blocks_in(len));
        }
    }
}

impl PickerState {
    /// Whether work on a piece has begun and is not over.
    pub open spec fn started(self, i: int) -> bool {
        &&& 0 <= i < self.pieces.len()
        &&& self.pieces[i].state != PieceState::Have
        &&& self.pieces[i].state != PieceState::NotRequested
    }

    /// The blocks of a piece that have not arrived; there may be no such piece.
    pub open spec fn pending_list(self, index: u32) -> Seq<BlockInfo> {
        if index < self.pieces.len() {
            pending_infos(
                self.pieces[index as int].blocks,
                index,
                self.pieces[index as int].blocks.len() as int,
            )
        } else {
            Seq::empty()
        }
    }

    /// Whether a block can be picked for a peer: the peer has its piece, the piece is wanted, the
    /// block has not arrived, and it has not been asked for more often than the limit.
    pub open spec fn pickable(self, remote: Bitfield, limit: usize, b: BlockInfo) -> bool {
        &&& self.eligible(remote, b.index as int)
        &&& self.pending_list(b.index).contains(b)
        &&& self.heat_of(request_of(b)) <= limit
    }

    /// The bytes of a piece that have not arrived.
    pub open spec fn pending_bytes(self, i: int) -> int {
        missing_bytes(self.pieces[i].blocks, self.pieces[i].blocks.len() as int)
    }
}

/// How many of the first `n` blocks are in a state like the given one, whatever their heat.
pub open spec fn blocks_like(blocks: Seq<BlockMetadata>, state: BlockState, n: int) -> int
    decreases n,
{
    if n <= 0 {
        0
    } else {
        blocks_like(blocks, state, n - 1) + if alike(blocks[n - 1].state, state) {
            1int
        } else {
            0int
        }
    }
}

/// Whether two block states differ at most in their heat.
pub open spec fn alike(a: BlockState, b: BlockState) -> bool {
    match a {
        BlockState::NotRequested => b is NotRequested,
        BlockState::Requested { .. } => b is Requested,
        BlockState::Downloaded => b is Downloaded,
    }
}

impl PickerState {
    /// How many blocks of the first `n` pieces are in a state like the given one.
    pub open spec fn block_count(self, state: BlockState, n: int) -> int
        decreases n,
    {
        if n <= 0 {
            0
        } else {
            self.block_count(state, n - 1) + blocks_like(
                self.pieces[n - 1].blocks,
                state,
                self.pieces[n - 1].blocks.len() as int,
            )
        }
    }
}

/// What there is to tell of a piece that is being worked on or done.
#[derive(Debug)]
pub struct PieceDetail {
    pub index: usize,
    pub state: PieceState,
    pub num_peer: usize,
    pub downloaded_blocks: usize,
    pub total_blocks: usize,
    /// The blocks of a piece in progress
    pub blocks: Vec<BlockMetadata>,
}

/// The picker's state in numbers.
#[derive(Debug)]
pub struct PickerSummary {
    pub total_pieces: usize,
    pub heat_entries: usize,
    pub not_requested_pieces: usize,
    pub in_progress_pieces: usize,
    pub downloaded_pieces: usize,
    pub have_pieces: usize,
    pub not_requested_blocks: u128,
    pub requested_blocks: u128,
    pub downloaded_blocks: u128,
    /// The hottest requests, at most twenty of them
    pub hottest: Vec<(BlockRequest, usize)>,
    pub details: Vec<PieceDetail>,
}

/// Whether a list holds the hottest requests, at most twenty, the hottest first.
pub open spec fn hottest_of(heat: Map<u128, usize>, l: Seq<(BlockRequest, usize)>) -> bool {
    &&& l.len() == if heat.dom().len() < 20 {
        heat.dom().len()
    } else {
        20
    }
    &&& forall|i: int|
        0 <= i < l.len() ==> heat.contains_key(request_key((#[trigger] l[i]).0))
            && heat[request_key(l[i].0)] == l[i].1
    &&& forall|i: int, j: int|
        0 <= i < j < l.len() ==> (#[trigger] l[i]).1 >= (#[trigger] l[j]).1 && l[i].0 != l[j].0
    &&& forall|k: u128, i: int|
        #![trigger heat.contains_key(k), l[i]]
        heat.contains_key(k) && 0 <= i < l.len() && heat[k] > l[i].1 ==> exists|j: int|
            0 <= j < i && request_key((#[trigger] l[j]).0) == k
}

impl PieceDetail {
    /// Whether this is what there is to tell of a piece.
    pub open spec fn tells_of(&self, s: PickerState) -> bool {
        &&& self.index < s.pieces.len()
        &&& self.state == s.pieces[self.index as int].state
        &&& self.num_peer == s.pieces[self.index as int].num_peer
        &&& self.total_blocks == s.pieces[self.index as int].blocks.len()
        &&& self.downloaded_blocks == blocks_like(
            s.pieces[self.index as int].blocks,
            BlockState::Downloaded,
            s.pieces[self.index as int].blocks.len() as int,
        )
        &&& self.blocks@ == if self.state == PieceState::InProgress {
            s.pieces[self.index as int].blocks
        } else {
            Seq::empty()
        }
    }
}

/// The request that a key stands for.
fn keyed_request(k: u128) -> (r: BlockRequest)
    requires
        k < 0x1_0000_0000_0000_0000_0000_0000,
    ensures
        request_key(r) == k,
{
    BlockRequest {
        piece_index: (k / 0x1_0000_0000_0000_0000) as u32,
        begin: ((k / 0x1_0000_0000) % 0x1_0000_0000) as u32,
        length: (k % 0x1_0000_0000) as u32,
    }
}

fn count_alike(blocks: &Vec<BlockMetadata>, state: BlockState) -> (r: usize)
    ensures
        r == blocks_like(blocks@, state, blocks.len() as int),
        r <= blocks.len(),
{
    let mut count: usize = 0;
    let mut k: usize = 0;
    while k < blocks.len()
        invariant
            k <= blocks.len(),
            count <= k,
            count == blocks_like(blocks@, state, k as int),
        decreases blocks.len() - k,
    {
        let same: bool = match (blocks[k].state, state) {
            (BlockState::NotRequested, BlockState::NotRequested) => true,
            (BlockState::Requested { .. }, BlockState::Requested { .. }) => true,
            (BlockState::Downloaded, BlockState::Downloaded) => true,
            _ => false,
        };
        assert(same == alike(blocks[k as int].state, state));
        if same {
            count = count + 1;
        }
        k = k + 1;
    }
    count
}

impl PieceManager {
    /// Get all pending blocks for a piece (for debugging/monitoring)
    pub fn get_pending_blocks(&self, piece_index: u32) -> (r: Vec<BlockInfo>)
        ensures
            r@ == self@.pending_list(piece_index),
    {
        let mut r: Vec<BlockInfo> = Vec::new();
        let i: usize = piece_index as usize;
        if i >= self.pieces.len() {
            return r;
        }
        let blocks: &Vec<BlockMetadata> = &self.pieces[i].blocks;
        assert(self@.pieces[i as int].blocks == blocks@);
        let mut k: usize = 0;
        while k < blocks.len()
            invariant
                k <= blocks.len(),
                r@ == pending_infos(blocks@, piece_index, k as int),
            decreases blocks.len() - k,
        {
            let b: BlockMetadata = blocks[k];
            if b.state != BlockState::Downloaded {
                r.push(BlockInfo { index: piece_index, begin: b.offset, length: b.length });
            }
            k = k + 1;
        }
        r
    }

    /// The bytes of a piece that have not arrived.
    fn pending_bytes_of(&self, i: usize) -> (r: usize)
        requires
            self.wf(),
            i < self@.pieces.len(),
        ensures
            r == self@.pending_bytes(i as int),
    {
        let ghost rec = self@.pieces[i as int];
        let blocks: &Vec<BlockMetadata> = &self.pieces[i].blocks;
        assert(rec.wf());
        assert(rec.blocks == blocks@);
        let mut sum: usize = 0;
        let mut k: usize = 0;
        while k < blocks.len()
            invariant
                k <= blocks.len(),
                laid_out(blocks@, rec.len),
                0 <= rec.len <= u32::MAX,
                sum == missing_bytes(blocks@, k as int),
            decreases blocks.len() - k,
        {
            proof {
                missing_bytes_bounds(blocks@, rec.len, k + 1);
            }
            if blocks[k].state != BlockState::Downloaded {
                sum = sum + blocks[k].length as usize;
            }
            k = k + 1;
        }
        sum
    }

    /// Get statistics about pending bytes per piece (for prioritization): the pieces that work
    /// has begun on, those with the fewest bytes missing first
    pub fn pieces_by_pending_bytes(&self) -> (r: Vec<(usize, usize)>)
        requires
            self.wf(),
        ensures
            forall|a: int|
                0 <= a < r.len() ==> self@.started((#[trigger] r[a]).0 as int) && r[a].1
                    == self@.pending_bytes(r[a].0 as int),
            forall|a: int, b: int|
                0 <= a < b < r.len() ==> (#[trigger] r[a]).1 < (#[trigger] r[b]).1 || (r[a].1
                    == r[b].1 && r[a].0 < r[b].0),
            forall|p: int| #[trigger]
                self@.started(p) ==> exists|a: int| 0 <= a < r.len() && (#[trigger] r[a]).0 == p,
    {
        let ghost st = self@;
        let mut keys: Vec<(u128, u128, u128, u128)> = Vec::new();
        let mut i: usize = 0;
        while i < self.pieces.len()
            invariant
                i <= self.pieces.len(),
                st == self@,
                self.wf(),
                forall|m: int|
                    0 <= m < keys.len() ==> st.started((#[trigger] keys@[m]).1 as int)
                        && keys@[m].0 == st.pending_bytes(keys@[m].1 as int) && keys@[m].1 < i
                        && keys@[m].0 <= usize::MAX && keys@[m].2 == 0 && keys@[m].3 == 0,
                forall|m: int, n: int|
                    0 <= m < n < keys.len() ==> (#[trigger] keys@[m]).1 < (#[trigger] keys@[n]).1,
                forall|p: int|
                    0 <= p < i && #[trigger] st.started(p) ==> exists|m: int|
                        0 <= m < keys.len() && (#[trigger] keys@[m]).1 == p,
            decreases self.pieces.len() - i,
        {
            assert(st.pieces[i as int].state == self.pieces[i as int].state);
            let ghost before = keys@;
            if self.pieces[i].state != PieceState::Have && self.pieces[i].state
                != PieceState::NotRequested {
                assert(st.started(i as int));
                let pending: usize = self.pending_bytes_of(i);
                keys.push((pending as u128, i as u128, 0, 0));
                assert(keys@[before.len() as int].1 == i);
            }
            proof {
                assert forall|p: int| 0 <= p < i + 1 && #[trigger] st.started(p) implies exists|
                    m: int,
                | 0 <= m < keys.len() && (#[trigger] keys@[m]).1 == p by {
                    if p < i {
                        let m = choose|m: int| 0 <= m < before.len() && (#[trigger] before[m]).1 == p;
                        assert(keys@[m].1 == p);
                    }
                }
            }
            i = i + 1;
        }
        let ghost unsorted = keys@;
        assert(unsorted.no_duplicates()) by {
            assert forall|m: int, n: int|
                0 <= m < unsorted.len() && 0 <= n < unsorted.len() && m != n implies unsorted[m]
                != unsorted[n] by {
                if m < n {
                    assert(unsorted[m].1 < unsorted[n].1);
                } else {
                    assert(unsorted[n].1 < unsorted[m].1);
                }
            }
        }
        sort_keys(&mut keys);
        proof {
            same_keys(unsorted, keys@);
            assert forall|m: int| 0 <= m < keys.len() implies st.started(
                (#[trigger] keys@[m]).1 as int,
            ) && keys@[m].0 == st.pending_bytes(keys@[m].1 as int) && keys@[m].1 < st.pieces.len()
                && keys@[m].0 <= usize::MAX && keys@[m].2 == 0 && keys@[m].3 == 0 by {
                assert(unsorted.contains(keys@[m]));
                let q = choose|q: int| 0 <= q < unsorted.len() && unsorted[q] == keys@[m];
                assert(st.started(unsorted[q].1 as int));
            }
        }
        let mut r: Vec<(usize, usize)> = Vec::new();
        let mut m: usize = 0;
        while m < keys.len()
            invariant
                m <= keys.len(),
                st == self@,
                st.pieces.len() == self.pieces.len(),
                r.len() == m,
                forall|n: int|
                    0 <= n < keys.len() ==> (#[trigger] keys@[n]).1 < st.pieces.len() && keys@[n].0
                        <= usize::MAX,
                forall|n: int|
                    0 <= n < m ==> (#[trigger] r@[n]).0 as int == keys@[n].1 as int && r@[n].1 as int
                        == keys@[n].0 as int,
            decreases keys.len() - m,
        {
            let k: (u128, u128, u128, u128) = keys[m];
            r.push((k.1 as usize, k.0 as usize));
            m = m + 1;
        }
        proof {
            assert forall|a: int, b: int| 0 <= a < b < r.len() implies (#[trigger] r@[a]).1 < (
            #[trigger] r@[b]).1 || (r@[a].1 == r@[b].1 && r@[a].0 < r@[b].0) by {
                assert(key_le(keys@[a], keys@[b]));
                assert(keys@[a] != keys@[b]);
                assert(keys@[a].2 == keys@[b].2 && keys@[a].3 == keys@[b].3);
            }
            assert forall|p: int| #[trigger] st.started(p) implies exists|a: int|
                0 <= a < r.len() && (#[trigger] r@[a]).0 == p by {
                let q = choose|q: int| 0 <= q < unsorted.len() && (#[trigger] unsorted[q]).1 == p;
                assert(keys@.contains(unsorted[q]));
                let a = choose|a: int| 0 <= a < keys@.len() && keys@[a] == unsorted[q];
                assert(r@[a].0 == p);
            }
        }
        r
    }

    /// How many blocks are in a state like the given one.
    fn count_blocks(&self, state: BlockState) -> (r: u128)
        ensures
            r == self@.block_count(state, self@.pieces.len() as int),
    {
        let mut sum: u128 = 0;
        let mut i: usize = 0;
        while i < self.pieces.len()
            invariant
                i <= self.pieces.len(),
                0 <= sum <= i * 0xffff_ffff_ffff_ffff,
                sum == self@.block_count(state, i as int),
            decreases self.pieces.len() - i,
        {
            assert(self@.pieces[i as int].blocks == self.pieces[i as int].blocks@);
            proof {
                let n = i as int;
                assert(n * 0xffff_ffff_ffff_ffff <= 0xffff_ffff_ffff_ffff * 0xffff_ffff_ffff_ffff)
                    by (nonlinear_arith)
                    requires
                        0 <= n <= 0xffff_ffff_ffff_ffff,
                ;
                assert((n + 1) * 0xffff_ffff_ffff_ffff == n * 0xffff_ffff_ffff_ffff
                    + 0xffff_ffff_ffff_ffff) by (nonlinear_arith);
            }
            sum = sum + count_alike(&self.pieces[i].blocks, state) as u128;
            i = i + 1;
        }
        sum
    }
}

impl PieceManager {
    /// The hottest requests, at most twenty, the hottest first.
    fn hottest(&self) -> (r: Vec<(BlockRequest, usize)>)
        requires
            self.wf(),
        ensures
            hottest_of(self@.heat, r@),
    {
        broadcast use vstd::std_specs::hash::group_hash_axioms;

        let ghost heat = self@.heat;
        let mut keys: Vec<(u128, u128, u128, u128)> = Vec::new();
        let entries = self.heat.iter();
        let ghost all = vstd::std_specs::iter::IteratorSpec::remaining(&entries);
        for (k, h) in it: entries
            invariant
                it.seq() == all,
                keys.len() == it.index(),
                forall|m: int|
                    0 <= m < keys.len() ==> #[trigger] keys@[m] == (
                        (0xffff_ffff_ffff_ffff - *all[m].1) as u128,
                        *all[m].0,
                        0u128,
                        0u128,
                    ),
        {
            keys.push((0xffff_ffff_ffff_ffff - *h as u128, *k, 0, 0));
        }
        let ghost unsorted = keys@;
        proof {
            assert forall|m: int| 0 <= m < unsorted.len() implies heat.contains_key(
                (#[trigger] unsorted[m]).1,
            ) && unsorted[m].0 == 0xffff_ffff_ffff_ffff - heat[unsorted[m].1] && unsorted[m].2 == 0
                && unsorted[m].3 == 0 by {
                assert(heat.contains_key(*all[m].0));
                assert(heat[*all[m].0] == *all[m].1);
            }
            assert(unsorted.no_duplicates()) by {
                assert forall|m: int, n: int|
                    0 <= m < unsorted.len() && 0 <= n < unsorted.len() && m != n implies unsorted[m]
                    != unsorted[n] by {
                    if unsorted[m] == unsorted[n] {
                        assert(heat[*all[m].0] == *all[m].1);
                        assert(heat[*all[n].0] == *all[n].1);
                        assert(all[m] == all[n]);
                    }
                }
            }
            assert forall|k: u128| #[trigger] heat.contains_key(k) implies unsorted.contains(
                ((0xffff_ffff_ffff_ffff - heat[k]) as u128, k, 0u128, 0u128),
            ) by {
                assert(all.contains((&k, &heat[k])));
                let m = choose|m: int| 0 <= m < all.len() && all[m] == (&k, &heat[k]);
                assert(unsorted[m] == (
                    (0xffff_ffff_ffff_ffff - heat[k]) as u128,
                    k,
                    0u128,
                    0u128,
                ));
            }
        }
        sort_keys(&mut keys);
        proof {
            same_keys(unsorted, keys@);
            assert forall|m: int| 0 <= m < keys.len() implies heat.contains_key(
                (#[trigger] keys@[m]).1,
            ) && keys@[m].0 == 0xffff_ffff_ffff_ffff - heat[keys@[m].1] && keys@[m].2 == 0
                && keys@[m].3 == 0 by {
                assert(unsorted.contains(keys@[m]));
                let q = choose|q: int| 0 <= q < unsorted.len() && unsorted[q] == keys@[m];
                assert(heat.contains_key(unsorted[q].1));
            }
        }
        let mut r: Vec<(BlockRequest, usize)> = Vec::new();
        let mut m: usize = 0;
        while m < keys.len() && m < 20
            invariant
                m <= keys.len(),
                m <= 20,
                r.len() == m,
                self.wf(),
                heat == self@.heat,
                forall|n: int|
                    0 <= n < keys.len() ==> heat.contains_key((#[trigger] keys@[n]).1) && keys@[n].0
                        == 0xffff_ffff_ffff_ffff - heat[keys@[n].1],
                forall|n: int|
                    0 <= n < m ==> request_key((#[trigger] r@[n]).0) == keys@[n].1 && r@[n].1
                        == heat[keys@[n].1],
            decreases keys.len() - m,
        {
            let k: (u128, u128, u128, u128) = keys[m];
            assert(heat.contains_key(keys@[m as int].1));
            let h: usize = (0xffff_ffff_ffff_ffff - k.0) as usize;
            r.push((keyed_request(k.1), h));
            m = m + 1;
        }
        proof {
            assert forall|i: int, j: int| 0 <= i < j < r@.len() implies (#[trigger] r@[i]).1 >= (
            #[trigger] r@[j]).1 && r@[i].0 != r@[j].0 by {
                assert(key_le(keys@[i], keys@[j]));
                assert(keys@[i] != keys@[j]);
            }
            assert forall|k: u128, i: int|
                #![trigger heat.contains_key(k), r@[i]]
                heat.contains_key(k) && 0 <= i < r@.len() && heat[k] > r@[i].1 implies exists|j: int|
                0 <= j < i && request_key((#[trigger] r@[j]).0) == k by {
                let wanted = ((0xffff_ffff_ffff_ffff - heat[k]) as u128, k, 0u128, 0u128);
                assert(unsorted.contains(wanted));
                assert(keys@.contains(wanted));
                let q = choose|q: int| 0 <= q < keys@.len() && keys@[q] == wanted;
                if q > i {
                    assert(key_le(keys@[i], keys@[q]));
                }
                assert(q < i);
                assert(request_key(r@[q].0) == k);
            }
        }
        r
    }

    /// What there is to tell of the pieces that anything has been asked of, in their order.
    fn details(&self) -> (r: Vec<PieceDetail>)
        ensures
            forall|a: int| 0 <= a < r.len() ==> (#[trigger] r[a]).tells_of(self@) && r[a].state
                != PieceState::NotRequested,
            forall|a: int, b: int|
                0 <= a < b < r.len() ==> (#[trigger] r[a]).index < (#[trigger] r[b]).index,
            forall|p: int|
                0 <= p < self@.pieces.len() && (#[trigger] self@.pieces[p]).state
                    != PieceState::NotRequested ==> exists|a: int|
                    0 <= a < r.len() && (#[trigger] r[a]).index == p,
    {
        let ghost st = self@;
        let mut r: Vec<PieceDetail> = Vec::new();
        let mut i: usize = 0;
        while i < self.pieces.len()
            invariant
                i <= self.pieces.len(),
                st == self@,
                forall|a: int|
                    0 <= a < r.len() ==> (#[trigger] r@[a]).tells_of(st) && r@[a].state
                        != PieceState::NotRequested && r@[a].index < i,
                forall|a: int, b: int|
                    0 <= a < b < r.len() ==> (#[trigger] r@[a]).index < (#[trigger] r@[b]).index,
                forall|p: int|
                    0 <= p < i && (#[trigger] st.pieces[p]).state != PieceState::NotRequested
                        ==> exists|a: int| 0 <= a < r.len() && (#[trigger] r@[a]).index == p,
            decreases self.pieces.len() - i,
        {
            let ghost before = r@;
            let piece: &PieceMetadata = &self.pieces[i];
            assert(st.pieces[i as int].state == piece.state);
            assert(st.pieces[i as int].blocks == piece.blocks@);
            assert(st.pieces[i as int].num_peer == piece.num_peer);
            if piece.state != PieceState::NotRequested {
                let mut blocks: Vec<BlockMetadata> = Vec::new();
                if piece.state == PieceState::InProgress {
                    let mut k: usize = 0;
                    while k < piece.blocks.len()
                        invariant
                            k <= piece.blocks.len(),
                            blocks@ == piece.blocks@.take(k as int),
                        decreases piece.blocks.len() - k,
                    {
                        blocks.push(piece.blocks[k]);
                        k = k + 1;
                        assert(blocks@ =~= piece.blocks@.take(k as int));
                    }
                    assert(blocks@ =~= piece.blocks@);
                }
                let detail = PieceDetail {
                    index: i,
                    state: piece.state,
                    num_peer: piece.num_peer,
                    downloaded_blocks: count_alike(&piece.blocks, BlockState::Downloaded),
                    total_blocks: piece.blocks.len(),
                    blocks,
                };
                assert(detail.tells_of(st));
                r.push(detail);
                assert(r@[before.len() as int].index == i);
            }
            proof {
                assert forall|p: int|
                    0 <= p < i + 1 && (#[trigger] st.pieces[p]).state
                        != PieceState::NotRequested implies exists|a: int|
                    0 <= a < r.len() && (#[trigger] r@[a]).index == p by {
                    if p < i {
                        let a = choose|a: int|
                            0 <= a < before.len() && (#[trigger] before[a]).index == p;
                        assert(r@[a].index == p);
                    }
                }
            }
            i = i + 1;
        }
        r
    }

    /// What there is to print of the picker: its state in numbers
    pub fn debug_print_state(&self) -> (r: PickerSummary)
        requires
            self.wf(),
        ensures
            r.total_pieces == self@.pieces.len(),
            r.heat_entries == self@.heat.dom().len(),
            r.not_requested_pieces == self@.count(
                PieceState::NotRequested,
                self@.pieces.len() as int,
            ),
            r.in_progress_pieces == self@.count(PieceState::InProgress, self@.pieces.len() as int),
            r.downloaded_pieces == self@.count(PieceState::Downloaded, self@.pieces.len() as int),
            r.have_pieces == self@.count(PieceState::Have, self@.pieces.len() as int),
            r.not_requested_blocks == self@.block_count(
                BlockState::NotRequested,
                self@.pieces.len() as int,
            ),
            r.requested_blocks == self@.block_count(
                BlockState::Requested { heat: 0 },
                self@.pieces.len() as int,
            ),
            r.downloaded_blocks == self@.block_count(
                BlockState::Downloaded,
                self@.pieces.len() as int,
            ),
            hottest_of(self@.heat, r.hottest@),
            forall|a: int|
                0 <= a < r.details.len() ==> (#[trigger] r.details[a]).tells_of(self@)
                    && r.details[a].state != PieceState::NotRequested,
            forall|a: int, b: int|
                0 <= a < b < r.details.len() ==> (#[trigger] r.details[a]).index < (
                #[trigger] r.details[b]).index,
            forall|p: int|
                0 <= p < self@.pieces.len() && (#[trigger] self@.pieces[p]).state
                    != PieceState::NotRequested ==> exists|a: int|
                    0 <= a < r.details.len() && (#[trigger] r.details[a]).index == p,
    {
        broadcast use vstd::std_specs::hash::group_hash_axioms;

        PickerSummary {
            total_pieces: self.pieces.len(),
            heat_entries: self.heat.len(),
            not_requested_pieces: self.count_in_state(PieceState::NotRequested),
            in_progress_pieces: self.count_in_state(PieceState::InProgress),
            downloaded_pieces: self.count_in_state(PieceState::Downloaded),
            have_pieces: self.count_in_state(PieceState::Have),
            not_requested_blocks: self.count_blocks(BlockState::NotRequested),
            requested_blocks: self.count_blocks(BlockState::Requested { heat: 0 }),
            downloaded_blocks: self.count_blocks(BlockState::Downloaded),
            hottest: self.hottest(),
            details: self.details(),
        }
    }
}

proof fn layout_is_short(blocks: Seq<BlockMetadata>, len: int)
    requires
        laid_out(blocks, len),
        0 <= len <= u32::MAX,
    ensures
        blocks.len() == blocks_in(len),
        blocks.len() <= 262144,
{
    assert(blocks_as(blocks, BlockState::NotRequested).len() == fresh_blocks(len).len());
}

proof fn piece_picks_are_cool(s: PickerState, i: int, threshold: usize, n: int, j: int)
    requires
        0 <= j < s.piece_picks(i, threshold, n).len(),
    ensures
        s.heat_of(request_of(s.piece_picks(i, threshold, n)[j])) <= threshold,
    decreases n,
{
    if n > 0 && j < s.piece_picks(i, threshold, n - 1).len() {
        piece_picks_are_cool(s, i, threshold, n - 1, j);
    }
}

proof fn order_picks_are_cool(s: PickerState, order: Seq<int>, threshold: usize, m: int, j: int)
    requires
        0 <= j < s.order_picks(order, threshold, m).len(),
    ensures
        s.heat_of(request_of(s.order_picks(order, threshold, m)[j])) <= threshold,
    decreases m,
{
    if m > 0 {
        let before = s.order_picks(order, threshold, m - 1).len();
        if j < before {
            order_picks_are_cool(s, order, threshold, m - 1, j);
        } else {
            piece_picks_are_cool(
                s,
                order[m - 1],
                threshold,
                s.pieces[order[m - 1]].blocks.len() as int,
                j - before,
            );
        }
    }
}

proof fn all_picks_are_cool(
    s: PickerState,
    order: Seq<int>,
    thresholds: Seq<usize>,
    t: int,
    limit: usize,
    j: int,
)
    requires
        0 <= t <= thresholds.len(),
        forall|k: int| 0 <= k < thresholds.len() ==> #[trigger] thresholds[k] <= limit,
        0 <= j < s.all_picks(order, thresholds, t).len(),
    ensures
        s.heat_of(request_of(s.all_picks(order, thresholds, t)[j])) <= limit,
    decreases t,
{
    if t > 0 {
        let before = s.all_picks(order, thresholds, t - 1).len();
        if j < before {
            all_picks_are_cool(s, order, thresholds, t - 1, limit, j);
        } else {
            order_picks_are_cool(s, order, thresholds[t - 1], order.len() as int, j - before);
        }
    }
}

/// No block is picked that has been asked for more often than the highest threshold says.
pub proof fn picked_blocks_are_cool(
    s: PickerState,
    remote: Bitfield,
    max: int,
    thresholds: Seq<usize>,
    r: Seq<BlockInfo>,
    limit: usize,
    j: int,
)
    requires
        0 <= max,
        s.picked(remote, max, thresholds, r),
        forall|k: int| 0 <= k < thresholds.len() ==> #[trigger] thresholds[k] <= limit,
        0 <= j < r.len(),
    ensures
        s.heat_of(request_of(r[j])) <= limit,
{
    let order = choose|order: Seq<int>| #[trigger]
        s.is_order(remote, order) && r == cut(
            s.all_picks(order, thresholds, thresholds.len() as int),
            max,
        );
    all_picks_are_cool(s, order, thresholds, thresholds.len() as int, limit, j);
}

proof fn piece_pick_from(s: PickerState, i: int, threshold: usize, n: int, j: int) -> (k: int)
    requires
        0 <= j < s.piece_picks(i, threshold, n).len(),
    ensures
        0 <= k < n,
        s.wanted(i, k, threshold),
        s.piece_picks(i, threshold, n)[j] == s.info(i, k),
    decreases n,
{
    if j < s.piece_picks(i, threshold, n - 1).len() {
        piece_pick_from(s, i, threshold, n - 1, j)
    } else {
        n - 1
    }
}

proof fn order_pick_is_pickable(
    s: PickerState,
    remote: Bitfield,
    order: Seq<int>,
    threshold: usize,
    limit: usize,
    m: int,
    j: int,
)
    requires
        s.pieces.len() <= 0x1_0000_0000,
        s.is_order(remote, order),
        threshold <= limit,
        0 <= m <= order.len(),
        0 <= j < s.order_picks(order, threshold, m).len(),
    ensures
        s.pickable(remote, limit, s.order_picks(order, threshold, m)[j]),
    decreases m,
{
    let before = s.order_picks(order, threshold, m - 1).len();
    if j < before {
        order_pick_is_pickable(s, remote, order, threshold, limit, m - 1, j);
    } else {
        let i = order[m - 1];
        let n = s.pieces[i].blocks.len() as int;
        assert(s.eligible(remote, i));
        let k = piece_pick_from(s, i, threshold, n, j - before);
        pending_has(s.pieces[i].blocks, i as u32, n, k);
    }
}

proof fn all_pick_is_pickable(
    s: PickerState,
    remote: Bitfield,
    order: Seq<int>,
    thresholds: Seq<usize>,
    t: int,
    limit: usize,
    j: int,
)
    requires
        s.pieces.len() <= 0x1_0000_0000,
        s.is_order(remote, order),
        0 <= t <= thresholds.len(),
        forall|k: int| 0 <= k < thresholds.len() ==> #[trigger] thresholds[k] <= limit,
        0 <= j < s.all_picks(order, thresholds, t).len(),
    ensures
        s.pickable(remote, limit, s.all_picks(order, thresholds, t)[j]),
    decreases t,
{
    let before = s.all_picks(order, thresholds, t - 1).len();
    if j < before {
        all_pick_is_pickable(s, remote, order, thresholds, t - 1, limit, j);
    } else {
        order_pick_is_pickable(
            s,
            remote,
            order,
            thresholds[t - 1],
            limit,
            order.len() as int,
            j - before,
        );
    }
}

proof fn wanted_block_is_picked(s: PickerState, i: int, threshold: usize, n: int, k: int)
    requires
        0 <= k < n,
        s.wanted(i, k, threshold),
    ensures
        s.piece_picks(i, threshold, n).len() > 0,
    decreases n,
{
    if k < n - 1 {
        wanted_block_is_picked(s, i, threshold, n - 1, k);
    }
}

proof fn all_picks_grow(s: PickerState, order: Seq<int>, thresholds: Seq<usize>, t: int, u: int)
    requires
        0 <= t <= u,
    ensures
        s.all_picks(order, thresholds, t).len() <= s.all_picks(order, thresholds, u).len(),
    decreases u - t,
{
    if t < u {
        all_picks_grow(s, order, thresholds, t, u - 1);
    }
}

/// Every pick is a block that can be picked for the peer, there are no more than asked for, and
/// there is none only where none was asked for or none can be picked.
pub proof fn picks_are_wanted(
    s: PickerState,
    remote: Bitfield,
    max: int,
    thresholds: Seq<usize>,
    r: Seq<BlockInfo>,
    limit: usize,
)
    requires
        0 <= max,
        s.pieces.len() <= 0x1_0000_0000,
        s.picked(remote, max, thresholds, r),
        thresholds.contains(limit),
        forall|k: int| 0 <= k < thresholds.len() ==> #[trigger] thresholds[k] <= limit,
    ensures
        r.len() <= max,
        forall|j: int| 0 <= j < r.len() ==> s.pickable(remote, limit, #[trigger] r[j]),
        r.len() == 0 <==> max == 0 || !exists|b: BlockInfo| #[trigger] s.pickable(remote, limit, b),
{
    let n = thresholds.len() as int;
    let order = choose|order: Seq<int>| #[trigger]
        s.is_order(remote, order) && r == cut(s.all_picks(order, thresholds, n), max);
    let all = s.all_picks(order, thresholds, n);
    assert forall|j: int| 0 <= j < r.len() implies s.pickable(remote, limit, #[trigger] r[j]) by {
        all_pick_is_pickable(s, remote, order, thresholds, n, limit, j);
        assert(r[j] == all[j]);
    }
    if r.len() > 0 {
        assert(s.pickable(remote, limit, r[0]));
    }
    if exists|b: BlockInfo| #[trigger] s.pickable(remote, limit, b) {
        let b = choose|b: BlockInfo| #[trigger] s.pickable(remote, limit, b);
        let i = b.index as int;
        let blocks = s.pieces[i].blocks;
        let pending = s.pending_list(b.index);
        let j = choose|j: int| 0 <= j < pending.len() && pending[j] == b;
        let k = pending_from(blocks, b.index, blocks.len() as int, j);
        assert(s.wanted(i, k, limit));
        wanted_block_is_picked(s, i, limit, blocks.len() as int, k);
        assert(order.contains(i));
        let m = choose|m: int| 0 <= m < order.len() && order[m] == i;
        order_picks_grow(s, order, limit, m + 1, order.len() as int);
        let t = choose|t: int| 0 <= t < thresholds.len() && thresholds[t] == limit;
        all_picks_grow(s, order, thresholds, t + 1, n);
        assert(all.len() > 0);
    }
}

/// `n` requests raise the heat of no block by more than `n`.
pub proof fn requests_raise_heat(s: PickerState, l: Seq<BlockRequest>, n: int, r: BlockRequest)
    requires
        0 <= n <= l.len(),
        s.heat_of(r) + n <= usize::MAX,
    ensures
        s.with_requests(l, n).heat_of(r) <= s.heat_of(r) + n,
    decreases n,
{
    if n > 0 {
        requests_raise_heat(s, l, n - 1, r);
        let before = s.with_requests(l, n - 1);
        if request_key(l[n - 1]) == request_key(r) {
            request_keys_differ(l[n - 1], r);
        }
    }
}

} // verus!
