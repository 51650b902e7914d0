//! Sorting by keys.

use vstd::prelude::*;

verus! {

/// Whether a key of four numbers comes before another or is equal to it.
pub open spec fn key_le(a: (u128, u128, u128, u128), b: (u128, u128, u128, u128)) -> bool {
    a.0 < b.0 || (a.0 == b.0 && (a.1 < b.1 || (a.1 == b.1 && (a.2 < b.2 || (a.2 == b.2 && a.3
        <= b.3)))))
}

/// Whether the keys ascend.
pub open spec fn sorted(s: Seq<(u128, u128, u128, u128)>) -> bool {
    forall|i: int, j: int| 0 <= i < j < s.len() ==> key_le(#[trigger] s[i], #[trigger] s[j])
}

/// `<[T]>::sort` on tuples of integers, which std orders by the first component that differs:
/// the same keys, in ascending order.
#[verifier::external_body]
pub(crate) fn sort_keys(v: &mut Vec<(u128, u128, u128, u128)>)
    ensures
        final(v)@.to_multiset() == old(v)@.to_multiset(),
        sorted(final(v)@),
{
    v.sort();
}

/// Sorting neither loses a key nor makes one up, and keeps keys apart that were apart.
pub proof fn same_keys(a: Seq<(u128, u128, u128, u128)>, b: Seq<(u128, u128, u128, u128)>)
    requires
        a.to_multiset() == b.to_multiset(),
    ensures
        a.len() == b.len(),
        forall|k: (u128, u128, u128, u128)| a.contains(k) <==> b.contains(k),
        a.no_duplicates() ==> b.no_duplicates(),
{
    a.to_multiset_ensures();
    b.to_multiset_ensures();
    assert forall|k: (u128, u128, u128, u128)| a.contains(k) <==> b.contains(k) by {
        assert(a.contains(k) <==> a.to_multiset().count(k) > 0);
        assert(b.contains(k) <==> b.to_multiset().count(k) > 0);
    }
    if a.no_duplicates() {
        a.lemma_multiset_has_no_duplicates();
        b.lemma_multiset_has_no_duplicates_conv();
    }
}

} // verus!
