//! Which piece to download next from a peer, whole pieces at a time: the rarest first.

use crate::bitfield::{bytes_needed, Bitfield};
use crate::metainfo::{piece_count, piece_span, TorrentInfo};
use crate::protocol::BlockInfo;
use std::sync::Arc;
use vstd::prelude::*;

verus! {

/// The number of bytes in a block
pub const BLOCK_SIZE: u32 = 16384;

/// How far a piece has come.
#[derive(Debug, Clone, Copy, PartialEq, Eq, Structural)]
pub enum PieceState {
    NotRequested,
    Requested,
    Writing,
    Finished,
}

/// What is known of a piece.
#[derive(Debug, Clone, Copy, PartialEq, Eq, Structural)]
pub struct PieceIndex {
    /// How many peers have it
    pub availability: usize,
    pub partial: bool,
    pub state: PieceState,
    /// How many bytes it has
    pub size: usize,
}

/// Which pieces a peer has, or has got or lost.
pub enum AvailabilityUpdate<'a> {
    Bitfield(&'a Bitfield),
    Index(u32),
}

/// The pieces of a torrent, and who has them.
#[derive(Debug)]
pub struct Picker {
    pub torrent: Arc<TorrentInfo>,
    pub num_pieces: usize,
    pub piece_availability: Vec<PieceIndex>,
}

/// Whether a bitfield speaks of every piece.
pub open spec fn full(b: Bitfield) -> bool {
    forall|i: int| 0 <= i < b.num_pieces ==> #[trigger] b.holds(i)
}

/// Whether a bitfield has piece `i`.
pub open spec fn owns(b: Bitfield, i: int) -> bool {
    0 <= i < b.num_pieces && b.holds(i)
}

/// Whether an update is about piece `i`.
pub open spec fn about(u: AvailabilityUpdate, i: int) -> bool {
    match u {
        AvailabilityUpdate::Bitfield(b) => full(*b) || owns(*b, i),
        AvailabilityUpdate::Index(k) => i == k,
    }
}

/// Whether a bitfield has bytes for its pieces and speaks of no piece beyond the first `n`.
pub open spec fn fits(b: Bitfield, n: int) -> bool {
    &&& b.inner.len() >= bytes_needed(b.num_pieces as int)
    &&& forall|i: int| #[trigger] owns(b, i) ==> i < n
}

/// The pieces after a peer with some of them has come.
pub open spec fn with_peer(s: Seq<PieceIndex>, u: AvailabilityUpdate) -> Seq<PieceIndex> {
    Seq::new(
        s.len(),
        |i: int|
            PieceIndex {
                availability: if about(u, i) {
                    (s[i].availability + 1) as usize
                } else {
                    s[i].availability
                },
                ..s[i]
            },
    )
}

/// The pieces after a peer with some of them has gone.
pub open spec fn without_peer(s: Seq<PieceIndex>, u: AvailabilityUpdate) -> Seq<PieceIndex> {
    Seq::new(
        s.len(),
        |i: int|
            PieceIndex {
                availability: if about(u, i) && s[i].availability > 0 {
                    (s[i].availability - 1) as usize
                } else {
                    s[i].availability
                },
                ..s[i]
            },
    )
}

/// How many of the first `n` pieces are in a state.
pub open spec fn in_state(s: Seq<PieceIndex>, state: PieceState, n: int) -> int
    decreases n,
{
    if n <= 0 {
        0
    } else {
        in_state(s, state, n - 1) + if s[n - 1].state == state {
            1int
        } else {
            0
        }
    }
}

/// Whether piece `i` is wanted and a peer has it.
pub open spec fn wanted(s: Seq<PieceIndex>, b: Bitfield, i: int) -> bool {
    owns(b, i) && s[i].state == PieceState::NotRequested
}

/// Whether a peer has a piece that is wanted.
pub open spec fn wants_any(s: Seq<PieceIndex>, b: Bitfield) -> bool {
    exists|i: int| #[trigger] wanted(s, b, i)
}

/// Whether an update speaks of a piece that is wanted.
pub open spec fn interesting(s: Seq<PieceIndex>, u: AvailabilityUpdate) -> bool {
    match u {
        AvailabilityUpdate::Bitfield(b) => wants_any(s, *b),
        AvailabilityUpdate::Index(i) => s[i as int].state == PieceState::NotRequested,
    }
}

/// Whether piece `k` is the one to take: of those that are wanted none is rarer, and none before
/// it is as rare.
pub open spec fn rarest(s: Seq<PieceIndex>, b: Bitfield, k: int) -> bool {
    &&& wanted(s, b, k)
    &&& forall|i: int|
        #[trigger] wanted(s, b, i) ==> s[k].availability <= s[i].availability && (i < k
            ==> s[k].availability < s[i].availability)
}

/// The blocks of a piece of `size` bytes.
pub open spec fn blocks_of(piece: usize, size: int) -> Seq<BlockInfo> {
    Seq::new(
        ((size + 16383) / 16384) as nat,
        |j: int|
            BlockInfo {
                index: piece as u32,
                begin: (16384 * j) as u32,
                length: if size - 16384 * j < 16384 {
                    (size - 16384 * j) as u32
                } else {
                    16384
                },
            },
    )
}

impl Picker {
    /// There is an entry for every piece, and no piece is too large.
    pub open spec fn wf(&self) -> bool {
        &&& self.piece_availability.len() == self.num_pieces
        &&& forall|i: int|
            0 <= i < self.num_pieces ==> (#[trigger] self.piece_availability@[i]).size <= u32::MAX
    }

    /// No piece has been asked for, and no peer has any
    pub fn new(torrent: Arc<TorrentInfo>) -> (r: Self)
        requires
            torrent.says().info.mode.size_fits(),
        ensures
            r.wf(),
            r.torrent == torrent,
            r.num_pieces == piece_count(
                torrent.says().info.mode.total(),
                torrent.info.piece_length as int,
            ),
            forall|i: int|
                0 <= i < r.num_pieces ==> #[trigger] r.piece_availability@[i] == (PieceIndex {
                    availability: 0,
                    partial: false,
                    state: PieceState::NotRequested,
                    size: piece_span(
                        torrent.says().info.mode.total(),
                        torrent.info.piece_length as int,
                        i,
                    ) as usize,
                }),
    {
        let total_pieces: usize = torrent.num_pieces();
        let mut pieces: Vec<PieceIndex> = Vec::new();
        let mut i: usize = 0;
        while i < total_pieces
            invariant
                i <= total_pieces,
                pieces.len() == i,
                torrent.says().info.mode.size_fits(),
                forall|k: int|
                    0 <= k < i ==> #[trigger] pieces@[k] == (PieceIndex {
                        availability: 0,
                        partial: false,
                        state: PieceState::NotRequested,
                        size: piece_span(
                            torrent.says().info.mode.total(),
                            torrent.info.piece_length as int,
                            k,
                        ) as usize,
                    }),
            decreases total_pieces - i,
        {
            let size: u32 = torrent.info.get_piece_len(i);
            pieces.push(
                PieceIndex {
                    availability: 0,
                    partial: false,
                    state: PieceState::NotRequested,
                    size: size as usize,
                },
            );
            i = i + 1;
        }
        Picker { torrent, num_pieces: total_pieces, piece_availability: pieces }
    }

    /// How many pieces are not finished
    pub fn remaining(&self) -> (r: usize)
        requires
            self.wf(),
        ensures
            r == self.num_pieces - in_state(
                self.piece_availability@,
                PieceState::Finished,
                self.num_pieces as int,
            ),
    {
        let mut n: usize = 0;
        let mut i: usize = 0;
        while i < self.piece_availability.len()
            invariant
                i <= self.piece_availability.len(),
                n == i - in_state(self.piece_availability@, PieceState::Finished, i as int),
                n <= i,
            decreases self.piece_availability.len() - i,
        {
            if self.piece_availability[i].state != PieceState::Finished {
                n = n + 1;
            }
            i = i + 1;
        }
        n
    }

    /// A peer has come with these pieces, or has got one
    pub fn increment_availability(&mut self, update: AvailabilityUpdate)
        requires
            old(self).wf(),
            update matches AvailabilityUpdate::Bitfield(b) ==> b.inner.len() >= bytes_needed(
                b.num_pieces as int,
            ) && (full(*b) || fits(*b, old(self).num_pieces as int)),
            forall|i: int|
                0 <= i < old(self).num_pieces && #[trigger] about(update, i) ==> old(
                    self,
                ).piece_availability@[i].availability < usize::MAX,
        ensures
            final(self).wf(),
            final(self).torrent == old(self).torrent,
            final(self).num_pieces == old(self).num_pieces,
            final(self).piece_availability@ == with_peer(old(self).piece_availability@, update),
    {
        let ghost before = self.piece_availability@;
        match update {
            AvailabilityUpdate::Bitfield(bitfield) => {
                let all = bitfield.all_set();
                let mut i: usize = 0;
                while i < self.piece_availability.len()
                    invariant
                        i <= self.piece_availability.len(),
                        self.wf(),
                        self.torrent == old(self).torrent,
                        self.num_pieces == old(self).num_pieces,
                        before.len() == self.piece_availability.len(),
                        bitfield.inner.len() >= bytes_needed(bitfield.num_pieces as int),
                        all == full(*bitfield),
                        update == AvailabilityUpdate::Bitfield(bitfield),
                        forall|k: int|
                            0 <= k < self.num_pieces && #[trigger] about(update, k)
                                ==> before[k].availability < usize::MAX,
                        forall|k: int|
                            0 <= k < i ==> #[trigger] self.piece_availability@[k] == with_peer(
                                before,
                                update,
                            )[k],
                        forall|k: int|
                            i <= k < before.len() ==> #[trigger] self.piece_availability@[k]
                                == before[k],
                    decreases self.piece_availability.len() - i,
                {
                    let hit: bool = all || (i < bitfield.num_pieces && bitfield.has(i));
                    assert(hit == about(update, i as int));
                    if hit {
                        self.piece_availability[i].availability =
                        self.piece_availability[i].availability + 1;
                    }
                    i = i + 1;
                }
            },
            AvailabilityUpdate::Index(idx) => {
                assert(about(update, idx as int));
                if (idx as usize) < self.piece_availability.len() {
                    self.piece_availability[idx as usize].availability =
                    self.piece_availability[idx as usize].availability + 1;
                }
            },
        }
        assert(self.piece_availability@ =~= with_peer(before, update));
    }

    /// Whether a peer has a piece that is not asked for: it could be of interest
    pub fn send_interest(&self, update: AvailabilityUpdate) -> (r: bool)
        requires
            self.wf(),
            match update {
                AvailabilityUpdate::Bitfield(b) => fits(*b, self.num_pieces as int),
                AvailabilityUpdate::Index(i) => i < self.num_pieces,
            },
        ensures
            r == interesting(self.piece_availability@, update),
    {
        match update {
            AvailabilityUpdate::Bitfield(bitfield) => {
                let set = bitfield.iter_set();
                let mut n: usize = 0;
                while n < set.len()
                    invariant
                        n <= set.len(),
                        self.wf(),
                        update == AvailabilityUpdate::Bitfield(bitfield),
                        fits(*bitfield, self.num_pieces as int),
                        forall|a: int|
                            0 <= a < set.len() ==> set[a] < bitfield.num_pieces && bitfield.holds(
                                #[trigger] set[a] as int,
                            ),
                        forall|a: int|
                            0 <= a < n ==> !wanted(
                                self.piece_availability@,
                                *bitfield,
                                (#[trigger] set@[a]) as int,
                            ),
                    decreases set.len() - n,
                {
                    assert(owns(*bitfield, set[n as int] as int));
                    if self.piece_availability[set[n]].state == PieceState::NotRequested {
                        assert(wanted(self.piece_availability@, *bitfield, set[n as int] as int));
                        assert(wants_any(self.piece_availability@, *bitfield));
                        return true;
                    }
                    n = n + 1;
                }
                assert forall|i: int| !#[trigger] wanted(
                    self.piece_availability@,
                    *bitfield,
                    i,
                ) by {
                    if owns(*bitfield, i) {
                        assert(set@.contains(i as usize));
                    }
                }
                false
            },
            AvailabilityUpdate::Index(idx) => {
                self.piece_availability[idx as usize].state == PieceState::NotRequested
            },
        }
    }

    /// A peer with these pieces has gone, or has lost one
    pub fn decrement_availability(&mut self, update: AvailabilityUpdate)
        requires
            old(self).wf(),
            update matches AvailabilityUpdate::Bitfield(b) ==> b.inner.len() >= bytes_needed(
                b.num_pieces as int,
            ) && (full(*b) || fits(*b, old(self).num_pieces as int)),
        ensures
            final(self).wf(),
            final(self).torrent == old(self).torrent,
            final(self).num_pieces == old(self).num_pieces,
            final(self).piece_availability@ == without_peer(old(self).piece_availability@, update),
    {
        let ghost before = self.piece_availability@;
        match update {
            AvailabilityUpdate::Bitfield(bitfield) => {
                let all = bitfield.all_set();
                let mut i: usize = 0;
                while i < self.piece_availability.len()
                    invariant
                        i <= self.piece_availability.len(),
                        self.wf(),
                        self.torrent == old(self).torrent,
                        self.num_pieces == old(self).num_pieces,
                        before.len() == self.piece_availability.len(),
                        bitfield.inner.len() >= bytes_needed(bitfield.num_pieces as int),
                        all == full(*bitfield),
                        update == AvailabilityUpdate::Bitfield(bitfield),
                        forall|k: int|
                            0 <= k < i ==> #[trigger] self.piece_availability@[k] == without_peer(
                                before,
                                update,
                            )[k],
                        forall|k: int|
                            i <= k < before.len() ==> #[trigger] self.piece_availability@[k]
                                == before[k],
                    decreases self.piece_availability.len() - i,
                {
                    let hit: bool = all || (i < bitfield.num_pieces && bitfield.has(i));
                    assert(hit == about(update, i as int));
                    if hit {
                        self.piece_availability[i].availability =
                        self.piece_availability[i].availability.saturating_sub(1);
                    }
                    i = i + 1;
                }
            },
            AvailabilityUpdate::Index(idx) => {
                if (idx as usize) < self.piece_availability.len() {
                    self.piece_availability[idx as usize].availability =
                    self.piece_availability[idx as usize].availability.saturating_sub(1);
                }
            },
        }
        assert(self.piece_availability@ =~= without_peer(before, update));
    }

    /// The blocks of a piece
    pub fn get_blocks(&self, piece_idx: usize) -> (r: Vec<BlockInfo>)
        requires
            self.wf(),
            piece_idx < self.num_pieces,
        ensures
            r@ == blocks_of(piece_idx, self.piece_availability@[piece_idx as int].size as int),
    {
        let piece_size: usize = self.piece_availability[piece_idx].size;
        let ghost meant = blocks_of(piece_idx, piece_size as int);
        let mut left: usize = piece_size;
        let mut r: Vec<BlockInfo> = Vec::new();
        assert(piece_size <= u32::MAX);
        while left > 0
            invariant
                left <= piece_size <= u32::MAX,
                left > 0 ==> piece_size - left == 16384 * r.len(),
                left == 0 ==> r.len() == meant.len(),
                r.len() <= meant.len(),
                meant == blocks_of(piece_idx, piece_size as int),
                forall|k: int| 0 <= k < r.len() ==> #[trigger] r@[k] == meant[k],
            decreases left,
        {
            let length: usize = if left < BLOCK_SIZE as usize {
                left
            } else {
                BLOCK_SIZE as usize
            };
            r.push(
                BlockInfo {
                    index: piece_idx as u32,
                    begin: (piece_size - left) as u32,
                    length: length as u32,
                },
            );
            left = left - length;
        }
        assert(r@ =~= meant);
        r
    }

    /// The piece to ask a peer for, and its blocks: the rarest among those that are not asked for
    /// and that the peer has
    pub fn pick_piece(&self, peer_bitfield: &Bitfield) -> (r: Option<(usize, Vec<BlockInfo>)>)
        requires
            self.wf(),
            fits(*peer_bitfield, self.num_pieces as int),
        ensures
            match r {
                Some((k, blocks)) => {
                    &&& k < self.num_pieces
                    &&& rarest(self.piece_availability@, *peer_bitfield, k as int)
                    &&& blocks@ == blocks_of(k, self.piece_availability@[k as int].size as int)
                },
                None => forall|i: int|
                    !#[trigger] wanted(self.piece_availability@, *peer_bitfield, i),
            },
    {
        let ghost s = self.piece_availability@;
        let set = peer_bitfield.iter_set();
        let mut best: Option<usize> = None;
        let mut n: usize = 0;
        while n < set.len()
            invariant
                n <= set.len(),
                self.wf(),
                s == self.piece_availability@,
                fits(*peer_bitfield, self.num_pieces as int),
                forall|a: int, b: int| 0 <= a < b < set.len() ==> set[a] < set[b],
                forall|a: int|
                    0 <= a < set.len() ==> set[a] < peer_bitfield.num_pieces && peer_bitfield.holds(
                        #[trigger] set[a] as int,
                    ),
                match best {
                    None => forall|a: int|
                        0 <= a < n ==> !wanted(s, *peer_bitfield, (#[trigger] set@[a]) as int),
                    Some(k) => {
                        &&& wanted(s, *peer_bitfield, k as int)
                        &&& exists|a: int| 0 <= a < n && #[trigger] set@[a] == k
                        &&& forall|a: int|
                            0 <= a < n && wanted(s, *peer_bitfield, (#[trigger] set@[a]) as int)
                                ==> s[k as int].availability <= s[set@[a] as int].availability && (
                            set@[a] < k ==> s[k as int].availability < s[set@[a] as int].availability)
                    },
                },
            decreases set.len() - n,
        {
            let i: usize = set[n];
            assert(owns(*peer_bitfield, i as int));
            if self.piece_availability[i].state == PieceState::NotRequested {
                assert(wanted(s, *peer_bitfield, i as int));
                match best {
                    None => {
                        best = Some(i);
                        assert(set@[n as int] == i);
                    },
                    Some(k) => {
                        assert(owns(*peer_bitfield, k as int));
                        assert(k < i);
                        if self.piece_availability[i].availability
                            < self.piece_availability[k].availability {
                            best = Some(i);
                            assert(set@[n as int] == i);
                        }
                    },
                }
            }
            n = n + 1;
        }
        proof {
            assert forall|i: int| #[trigger] wanted(s, *peer_bitfield, i) implies exists|a: int|
                0 <= a < set.len() && #[trigger] set@[a] == i by {
                assert(set@.contains(i as usize));
            }
        }
        match best {
            None => None,
            Some(k) => {
                assert(owns(*peer_bitfield, k as int));
                assert(rarest(s, *peer_bitfield, k as int));
                let blocks = self.get_blocks(k);
                Some((k, blocks))
            },
        }
    }

    /// Puts a piece in a state
    pub fn mark_piece_as(&mut self, piece_idx: usize, state: PieceState)
        requires
            old(self).wf(),
        ensures
            final(self).wf(),
            final(self).torrent == old(self).torrent,
            final(self).num_pieces == old(self).num_pieces,
            final(self).piece_availability@ == if piece_idx < old(self).num_pieces {
                old(self).piece_availability@.update(
                    piece_idx as int,
                    PieceIndex { state, ..old(self).piece_availability@[piece_idx as int] },
                )
            } else {
                old(self).piece_availability@
            },
    {
        if piece_idx < self.piece_availability.len() {
            let ghost before = self.piece_availability@;
            self.piece_availability[piece_idx].state = state;
            assert(self.piece_availability@ =~= before.update(
                piece_idx as int,
                PieceIndex { state, ..before[piece_idx as int] },
            ));
        }
    }

    /// How many pieces are in each state
    pub fn summary(&self) -> (r: (usize, usize, usize, usize))
        requires
            self.wf(),
        ensures
            ({
                let s = self.piece_availability@;
                let n = self.num_pieces as int;
                &&& r.0 == in_state(s, PieceState::NotRequested, n)
                &&& r.1 == in_state(s, PieceState::Requested, n)
                &&& r.2 == in_state(s, PieceState::Writing, n)
                &&& r.3 == in_state(s, PieceState::Finished, n)
            }),
    {
        let mut none: usize = 0;
        let mut requested: usize = 0;
        let mut writing: usize = 0;
        let mut finished: usize = 0;
        let mut i: usize = 0;
        while i < self.piece_availability.len()
            invariant
                i <= self.piece_availability.len(),
                none == in_state(self.piece_availability@, PieceState::NotRequested, i as int),
                requested == in_state(self.piece_availability@, PieceState::Requested, i as int),
                writing == in_state(self.piece_availability@, PieceState::Writing, i as int),
                finished == in_state(self.piece_availability@, PieceState::Finished, i as int),
                none + requested + writing + finished == i,
            decreases self.piece_availability.len() - i,
        {
            match self.piece_availability[i].state {
                PieceState::NotRequested => none = none + 1,
                PieceState::Requested => requested = requested + 1,
                PieceState::Writing => writing = writing + 1,
                PieceState::Finished => finished = finished + 1,
            }
            i = i + 1;
        }
        (none, requested, writing, finished)
    }
}

// ---------------------------------------------------------------------------------------------
// Laws

/// A peer that comes and goes again leaves the availability as it was.
pub proof fn peer_comes_and_goes(s: Seq<PieceIndex>, u: AvailabilityUpdate)
    requires
        forall|i: int|
            0 <= i < s.len() && #[trigger] about(u, i) ==> s[i].availability < usize::MAX,
    ensures
        without_peer(with_peer(s, u), u) == s,
{
    let t = without_peer(with_peer(s, u), u);
    assert forall|i: int| 0 <= i < s.len() implies #[trigger] t[i] == s[i] by {
        assert(with_peer(s, u)[i].state == s[i].state);
        if about(u, i) {
        }
    }
    assert(t =~= s);
}

/// The blocks of a piece lie one behind the other and make up the piece.
pub proof fn blocks_make_up_the_piece(piece: usize, size: int)
    requires
        0 <= size <= u32::MAX,
    ensures
        ({
            let b = blocks_of(piece, size);
            &&& forall|j: int|
                0 <= j < b.len() ==> (#[trigger] b[j]).begin == 16384 * j && b[j].length > 0
                    && b[j].begin + b[j].length == if j + 1 < b.len() {
                    16384 * (j + 1)
                } else {
                    size
                }
            &&& size > 0 <==> b.len() > 0
        }),
{
    let b = blocks_of(piece, size);
    assert forall|j: int| 0 <= j < b.len() implies (#[trigger] b[j]).begin == 16384 * j
        && b[j].length > 0 && b[j].begin + b[j].length == (if j + 1 < b.len() {
        16384 * (j + 1)
    } else {
        size
    }) by {
        assert(16384 * j < size);
    }
}

} // verus!
