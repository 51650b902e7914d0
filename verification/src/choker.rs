//! The choker is responsible for:
//! - Deciding which peers receive upload bandwidth (unchoked)
//! - Which peers are denied upload bandwidth (choked)
//! - Managing upload slots dynamically

use std::collections::HashSet;
use std::collections::VecDeque;
use vstd::prelude::*;
use crate::torrent::Pid;

verus! {

/// What a choker holds: the number of slots, who has one, and who waits for one, first come first.
#[verifier::ext_equal]
pub struct ChokerState {
    pub slots: int,
    pub unchoked: Set<usize>,
    pub queue: Seq<usize>,
}

impl ChokerState {
    /// The peers that are interested: those with a slot and those that wait.
    pub open spec fn interested(self) -> Set<usize> {
        self.unchoked.union(self.queue.to_set())
    }

    /// No more peers are unchoked than there are slots, nobody waits twice or with a slot, and
    /// nobody waits while a slot is free.
    pub open spec fn wf(self) -> bool {
        &&& self.unchoked.finite()
        &&& self.unchoked.len() <= self.slots
        &&& self.queue.no_duplicates()
        &&& forall|i: int| 0 <= i < self.queue.len() ==> !self.unchoked.contains(#[trigger] self.queue[i])
        &&& self.queue.len() > 0 ==> self.unchoked.len() == self.slots
    }

    /// The state after a peer has said that it is interested.
    pub open spec fn with_interest(self, pid: usize) -> ChokerState {
        if self.interested().contains(pid) {
            self
        } else if self.unchoked.len() < self.slots {
            ChokerState { unchoked: self.unchoked.insert(pid), ..self }
        } else {
            ChokerState { queue: self.queue.push(pid), ..self }
        }
    }

    /// The state after a peer has lost interest or has gone: its slot passes to the first that
    /// waits.
    pub open spec fn without_peer(self, pid: usize) -> ChokerState {
        if self.unchoked.contains(pid) {
            if self.queue.len() > 0 {
                ChokerState {
                    unchoked: self.unchoked.remove(pid).insert(self.queue[0]),
                    queue: self.queue.subrange(1, self.queue.len() as int),
                    ..self
                }
            } else {
                ChokerState { unchoked: self.unchoked.remove(pid), ..self }
            }
        } else if self.queue.contains(pid) {
            ChokerState { queue: self.queue.remove(self.queue.index_of(pid)), ..self }
        } else {
            self
        }
    }
}

/// Simple choker that maintains a fixed number of upload slots.
/// Uses round-robin for slot assignment when there are more interested peers than slots.
#[derive(Debug)]
pub struct Choker {
    /// Maximum number of peers to unchoke simultaneously
    upload_slots: usize,
    /// Set of peers that are currently unchoked
    unchoked_peers: HashSet<usize>,
    /// Queue of interested peers waiting for a slot (FIFO for round-robin)
    interested_queue: VecDeque<usize>,
    /// Set of peers that have expressed interest (currently interested)
    interested_peers: HashSet<usize>,
}

impl View for Choker {
    type V = ChokerState;

    closed spec fn view(&self) -> ChokerState {
        ChokerState {
            slots: self.upload_slots as int,
            unchoked: self.unchoked_peers@,
            queue: self.interested_queue@,
        }
    }
}

impl Choker {
    /// The choker's books agree with each other.
    pub closed spec fn wf(&self) -> bool {
        &&& self@.wf()
        &&& self.interested_peers@ == self@.interested()
    }

    /// A choker with the given number of upload slots, all of them free.
    #[must_use]
    pub fn new(upload_slots: usize) -> (r: Self)
        ensures
            r.wf(),
            r@.wf(),
            r@ == (ChokerState {
                slots: upload_slots as int,
                unchoked: Set::empty(),
                queue: Seq::empty(),
            }),
    {
        broadcast use vstd::std_specs::hash::group_hash_axioms;

        let r = Self {
            upload_slots,
            unchoked_peers: HashSet::new(),
            interested_queue: VecDeque::new(),
            interested_peers: HashSet::new(),
        };
        assert(r.interested_peers@ =~= r@.interested());
        r
    }

    /// Called when a peer expresses interest in our pieces
    /// Returns true if the peer should be unchoked immediately
    pub fn on_peer_interested(&mut self, pid: Pid) -> (r: bool)
        requires
            old(self).wf(),
        ensures
            final(self).wf(),
            final(self)@.wf(),
            final(self)@ == old(self)@.with_interest(pid.0),
            r == final(self)@.unchoked.contains(pid.0),
    {
        broadcast use vstd::std_specs::hash::group_hash_axioms;

        if self.interested_peers.contains(&pid.0) {
            return self.unchoked_peers.contains(&pid.0);
        }
        self.interested_peers.insert(pid.0);
        if self.unchoked_peers.len() < self.upload_slots {
            self.unchoked_peers.insert(pid.0);
            assert(self.interested_peers@ =~= self@.interested());
            return true;
        }
        let ghost before = self.interested_queue@;
        self.interested_queue.push_back(pid.0);
        proof {
            assert forall|i: int, j: int|
                0 <= i < before.len() + 1 && 0 <= j < before.len() + 1 && i
                    != j implies self.interested_queue@[i] != self.interested_queue@[j] by {
                if i == before.len() {
                    assert(before.to_set().contains(before[j]));
                } else if j == before.len() {
                    assert(before.to_set().contains(before[i]));
                }
            }
            assert(self.interested_queue@[before.len() as int] == pid.0);
            assert forall|x: usize| self.interested_queue@.to_set().contains(x) == (x == pid.0
                || before.to_set().contains(x)) by {
                if before.contains(x) {
                    let k = choose|k: int| 0 <= k < before.len() && before[k] == x;
                    assert(self.interested_queue@[k] == x);
                }
            }
            assert(self.interested_peers@ =~= self@.interested());
        }
        false
    }

    /// Takes a peer off the books; gives whether it was unchoked, and who has its slot now.
    fn remove_peer(&mut self, pid: usize) -> (r: (bool, Option<Pid>))
        requires
            old(self).wf(),
        ensures
            final(self).wf(),
            final(self)@.wf(),
            final(self)@ == old(self)@.without_peer(pid),
            r.0 == old(self)@.unchoked.contains(pid),
            r.1 == if old(self)@.unchoked.contains(pid) && old(self)@.queue.len() > 0 {
                Some(Pid(old(self)@.queue[0]))
            } else {
                None
            },
    {
        broadcast use vstd::std_specs::hash::group_hash_axioms;

        let ghost q = self.interested_queue@;
        let ghost u = self.unchoked_peers@;
        self.interested_peers.remove(&pid);
        let mut pos: usize = 0;
        while pos < self.interested_queue.len() && self.interested_queue[pos] != pid
            invariant
                pos <= self.interested_queue.len(),
                self.interested_queue@ == q,
                forall|j: int| 0 <= j < pos ==> q[j] != pid,
            decreases self.interested_queue.len() - pos,
        {
            pos = pos + 1;
        }
        if pos < self.interested_queue.len() {
            self.interested_queue.remove(pos);
            proof {
                assert(q[pos as int] == pid);
                assert(q.contains(pid));
                assert(q.index_of(pid) == pos);
                assert(self.interested_queue@ == q.remove(pos as int));
            }
        }
        let ghost q1 = self.interested_queue@;
        let was_unchoked = self.unchoked_peers.remove(&pid);
        proof {
            assert(u.contains(pid) ==> !q.contains(pid));
            assert forall|x: usize| q1.contains(x) == (q.contains(x) && x != pid) by {
                if q1.contains(x) {
                    let k = choose|k: int| 0 <= k < q1.len() && q1[k] == x;
                    if pos < q.len() {
                        assert(q[if k < pos {
                            k
                        } else {
                            k + 1
                        }] == x);
                    }
                }
                if q.contains(x) && x != pid {
                    let k = choose|k: int| 0 <= k < q.len() && q[k] == x;
                    if pos < q.len() {
                        assert(q1[if k < pos {
                            k
                        } else {
                            k - 1
                        }] == x);
                    }
                }
            }
        }
        let mut next: Option<Pid> = None;
        if was_unchoked {
            match self.interested_queue.pop_front() {
                Some(next_pid) => {
                    proof {
                        assert(q[0] == next_pid);
                        assert(!u.contains(next_pid));
                    }
                    self.unchoked_peers.insert(next_pid);
                    next = Some(Pid(next_pid));
                    proof {
                        let q2 = self.interested_queue@;
                        assert(q2 == q.subrange(1, q.len() as int));
                        assert forall|x: usize| q2.contains(x) == (q.contains(x) && x != q[0]) by {
                            if q2.contains(x) {
                                let k = choose|k: int| 0 <= k < q2.len() && q2[k] == x;
                                assert(q[k + 1] == x);
                            }
                            if q.contains(x) && x != q[0] {
                                let k = choose|k: int| 0 <= k < q.len() && q[k] == x;
                                assert(q2[k - 1] == x);
                            }
                        }
                        assert(self@ =~= old(self)@.without_peer(pid));
                    }
                },
                None => {},
            }
        }
        proof {
            assert(self@ =~= old(self)@.without_peer(pid));
            assert(self.interested_peers@ =~= self@.interested());
        }
        (was_unchoked, next)
    }

    /// Called when a peer is no longer interested in our pieces
    /// Returns true if the peer was unchoked and should now be choked
    pub fn on_peer_not_interested(&mut self, pid: Pid) -> (r: bool)
        requires
            old(self).wf(),
        ensures
            final(self).wf(),
            final(self)@.wf(),
            final(self)@ == old(self)@.without_peer(pid.0),
            r == old(self)@.unchoked.contains(pid.0),
    {
        self.remove_peer(pid.0).0
    }

    /// Called when a peer disconnects; gives the peer that has its slot now
    pub fn on_peer_disconnected(&mut self, pid: Pid) -> (r: Option<Pid>)
        requires
            old(self).wf(),
        ensures
            final(self).wf(),
            final(self)@.wf(),
            final(self)@ == old(self)@.without_peer(pid.0),
            r == if old(self)@.unchoked.contains(pid.0) && old(self)@.queue.len() > 0 {
                Some(Pid(old(self)@.queue[0]))
            } else {
                None
            },
    {
        self.remove_peer(pid.0).1
    }

    /// Returns true if the peer is currently unchoked
    #[must_use]
    pub fn is_unchoked(&self, pid: Pid) -> (r: bool)
        ensures
            r == self@.unchoked.contains(pid.0),
    {
        broadcast use vstd::std_specs::hash::group_hash_axioms;

        self.unchoked_peers.contains(&pid.0)
    }

    /// Returns the number of available upload slots
    #[must_use]
    pub fn available_slots(&self) -> (r: usize)
        requires
            self.wf(),
        ensures
            r == self@.slots - self@.unchoked.len(),
    {
        broadcast use vstd::std_specs::hash::group_hash_axioms;

        self.upload_slots.saturating_sub(self.unchoked_peers.len())
    }

    /// Returns the set of currently unchoked peers, by number
    #[must_use]
    pub fn unchoked_peers(&self) -> (r: &HashSet<usize>)
        ensures
            r@ == self@.unchoked,
    {
        &self.unchoked_peers
    }
}

/// Whoever comes or goes, the slots are never overdrawn, and nobody waits while a slot is free.
pub proof fn slots_are_never_overdrawn(s: ChokerState, pid: usize)
    requires
        s.wf(),
    ensures
        s.with_interest(pid).wf(),
        s.without_peer(pid).wf(),
        s.with_interest(pid).interested() == s.interested().insert(pid),
        s.without_peer(pid).interested() == s.interested().remove(pid),
{
    let a = s.with_interest(pid);
    let b = s.without_peer(pid);
    assert(a.interested() =~= s.interested().insert(pid)) by {
        if a.queue != s.queue {
            assert(a.queue[s.queue.len() as int] == pid);
            assert forall|x: usize| a.queue.contains(x) == (x == pid || s.queue.contains(x)) by {
                if s.queue.contains(x) {
                    let k = choose|k: int| 0 <= k < s.queue.len() && s.queue[k] == x;
                    assert(a.queue[k] == x);
                }
            }
        }
    }
    assert forall|i: int, j: int|
        0 <= i < a.queue.len() && 0 <= j < a.queue.len() && i != j implies a.queue[i]
        != a.queue[j] by {
        if a.queue != s.queue {
            if i == s.queue.len() {
                assert(s.queue.to_set().contains(s.queue[j]));
            } else if j == s.queue.len() {
                assert(s.queue.to_set().contains(s.queue[i]));
            }
        }
    }
    assert forall|x: usize| b.queue.contains(x) == (s.queue.contains(x) && x != pid && !(
    s.unchoked.contains(pid) && x == s.queue[0])) by {
        if s.unchoked.contains(pid) {
            if s.queue.len() > 0 {
                if b.queue.contains(x) {
                    let k = choose|k: int| 0 <= k < b.queue.len() && b.queue[k] == x;
                    assert(s.queue[k + 1] == x);
                }
                if s.queue.contains(x) && x != s.queue[0] {
                    let k = choose|k: int| 0 <= k < s.queue.len() && s.queue[k] == x;
                    assert(b.queue[k - 1] == x);
                }
            }
        } else if s.queue.contains(pid) {
            let p = s.queue.index_of(pid);
            if b.queue.contains(x) {
                let k = choose|k: int| 0 <= k < b.queue.len() && b.queue[k] == x;
                assert(s.queue[if k < p {
                    k
                } else {
                    k + 1
                }] == x);
            }
            if s.queue.contains(x) && x != pid {
                let k = choose|k: int| 0 <= k < s.queue.len() && s.queue[k] == x;
                assert(b.queue[if k < p {
                    k
                } else {
                    k - 1
                }] == x);
            }
        }
    }
    assert(b.interested() =~= s.interested().remove(pid));
}

} // verus!
