//! The books of a choker that goes by rounds.

use std::collections::HashSet;
use vstd::prelude::*;

verus! {

/// Who is unchoked and who is interested, and how many rounds have passed.
#[derive(Debug)]
pub struct Choker {
    /// Currently unchoked peers
    pub unchoked: HashSet<usize>,
    /// Peers that have expressed interest
    pub interested: HashSet<usize>,
    /// Round counter for optimistic unchoke timing
    pub round_counter: u32,
    /// The peer selected for optimistic unchoke (lasts for 3 rounds)
    pub planned_optimistic_peer: Option<usize>,
}

impl Choker {
    /// A choker that knows of no peer
    pub fn new() -> (r: Self)
        ensures
            r.unchoked@ == Set::<usize>::empty(),
            r.interested@ == Set::<usize>::empty(),
            r.round_counter == 0,
            r.planned_optimistic_peer is None,
    {
        Self {
            unchoked: HashSet::new(),
            interested: HashSet::new(),
            round_counter: 0,
            planned_optimistic_peer: None,
        }
    }
}

} // verus!
