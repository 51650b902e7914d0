//! How pieces are picked one whole piece at a time.

use crate::bitfield::Bitfield;
use crate::peer::piece_picker::{
    in_state, interesting, rarest, wanted, with_peer, without_peer, AvailabilityUpdate, PieceIndex,
    PieceState,
};
use vstd::prelude::*;

verus! {

/// A peer that comes counts once for each piece that it has and for no other; nothing else
/// changes.
pub proof fn coming_peer_counts(s: Seq<PieceIndex>, b: Bitfield, i: int)
    requires
        0 <= i < s.len(),
        s[i].availability < usize::MAX,
        b.num_pieces == s.len(),
    ensures
        ({
            let t = with_peer(s, AvailabilityUpdate::Bitfield(&b));
            &&& t.len() == s.len()
            &&& b.holds(i) ==> t[i].availability == s[i].availability + 1
            &&& !b.holds(i) ==> t[i].availability == s[i].availability
            &&& t[i].state == s[i].state && t[i].size == s[i].size && t[i].partial == s[i].partial
        }),
{
}

/// A peer that goes counts no more for each piece that it has.
pub proof fn going_peer_counts_no_more(s: Seq<PieceIndex>, b: Bitfield, i: int)
    requires
        0 <= i < s.len(),
        b.num_pieces == s.len(),
    ensures
        ({
            let t = without_peer(s, AvailabilityUpdate::Bitfield(&b));
            &&& t.len() == s.len()
            &&& b.holds(i) && s[i].availability > 0 ==> t[i].availability == s[i].availability - 1
            &&& b.holds(i) && s[i].availability == 0 ==> t[i].availability == 0
            &&& !b.holds(i) ==> t[i].availability == s[i].availability
            &&& t[i].state == s[i].state && t[i].size == s[i].size && t[i].partial == s[i].partial
        }),
{
}

/// A single piece that a peer has got, or lost, counts alone.
pub proof fn single_piece_counts_alone(s: Seq<PieceIndex>, k: u32, i: int)
    requires
        0 <= i < s.len(),
        s[i].availability < usize::MAX,
    ensures
        ({
            let u = AvailabilityUpdate::Index(k);
            &&& with_peer(s, u).len() == s.len() && without_peer(s, u).len() == s.len()
            &&& i != k ==> with_peer(s, u)[i] == s[i] && without_peer(s, u)[i] == s[i]
            &&& i == k ==> with_peer(s, u)[i].availability == s[i].availability + 1
            &&& i == k && s[i].availability > 0 ==> without_peer(s, u)[i].availability
                == s[i].availability - 1
        }),
{
}

/// A peer is of interest exactly where it has a piece that nobody has been asked for.
pub proof fn peer_with_a_wanted_piece_is_of_interest(s: Seq<PieceIndex>, b: Bitfield, i: int, k: u32)
    ensures
        0 <= i < b.num_pieces && b.holds(i) && s[i].state is NotRequested ==> interesting(
            s,
            AvailabilityUpdate::Bitfield(&b),
        ),
        (forall|j: int|
            0 <= j < b.num_pieces && #[trigger] b.holds(j) ==> !(s[j].state is NotRequested))
            ==> !interesting(s, AvailabilityUpdate::Bitfield(&b)),
        interesting(s, AvailabilityUpdate::Index(k)) == (s[k as int].state is NotRequested),
{
    if 0 <= i < b.num_pieces && b.holds(i) && s[i].state is NotRequested {
        assert(wanted(s, b, i));
    }
}

/// The piece that is picked is one that the peer has and nobody has been asked for, and no other
/// such piece is with fewer peers; of those as rare it is the first.
pub proof fn rarest_piece_is_picked(s: Seq<PieceIndex>, b: Bitfield, k: int, i: int)
    requires
        rarest(s, b, k),
    ensures
        0 <= k < b.num_pieces && b.holds(k) && s[k].state is NotRequested,
        0 <= i < b.num_pieces && b.holds(i) && s[i].state is NotRequested ==> s[k].availability
            <= s[i].availability,
        0 <= i < k && b.holds(i) && s[i].state is NotRequested ==> s[k].availability
            < s[i].availability,
{
    if 0 <= i < b.num_pieces && b.holds(i) && s[i].state is NotRequested {
        assert(wanted(s, b, i));
    }
}

/// Nothing is picked only where the peer has no piece that nobody has been asked for.
pub proof fn nothing_wanted_is_nothing_had(s: Seq<PieceIndex>, b: Bitfield, i: int)
    ensures
        wanted(s, b, i) <==> 0 <= i < b.num_pieces && b.holds(i) && s[i].state is NotRequested,
{
}

/// The pieces in a state are counted one by one.
pub proof fn states_are_counted(s: Seq<PieceIndex>, state: PieceState, n: int)
    requires
        0 <= n <= s.len(),
    ensures
        in_state(s, state, n) == s.take(n).filter(|p: PieceIndex| p.state == state).len(),
    decreases n,
{
    reveal(Seq::filter);
    if n > 0 {
        states_are_counted(s, state, n - 1);
        assert(s.take(n).drop_last() =~= s.take(n - 1));
        assert(s.take(n).last() == s[n - 1]);
    } else {
        assert(s.take(0) =~= Seq::<PieceIndex>::empty());
    }
}

} // verus!
