//! Requests that are outstanding, each once.

use crate::protocol::BlockInfo;
use vstd::prelude::*;

verus! {

/// The requests with one more, where it is not there yet.
pub open spec fn with_request(s: Seq<BlockInfo>, b: BlockInfo) -> Seq<BlockInfo> {
    if s.contains(b) {
        s
    } else {
        s.push(b)
    }
}

/// The requests without one.
pub open spec fn without_request(s: Seq<BlockInfo>, b: BlockInfo) -> Seq<BlockInfo> {
    if s.contains(b) {
        s.remove(s.index_of(b))
    } else {
        s
    }
}

/// Requests in the order in which they were made.
#[derive(Debug)]
pub struct Requests {
    blocks: Vec<BlockInfo>,
}

impl View for Requests {
    type V = Seq<BlockInfo>;

    closed spec fn view(&self) -> Seq<BlockInfo> {
        self.blocks@
    }
}

impl Requests {
    /// Nothing occurs twice.
    pub open spec fn wf(&self) -> bool {
        self@.no_duplicates()
    }

    /// No requests
    pub fn new() -> (r: Self)
        ensures
            r@ == Seq::<BlockInfo>::empty(),
            r.wf(),
    {
        Requests { blocks: Vec::new() }
    }

    /// How many requests there are
    pub fn len(&self) -> (r: usize)
        ensures
            r == self@.len(),
    {
        self.blocks.len()
    }

    /// Whether there is none
    pub fn is_empty(&self) -> (r: bool)
        ensures
            r == (self@.len() == 0),
    {
        self.blocks.len() == 0
    }

    fn find(&self, b: BlockInfo) -> (r: Option<usize>)
        requires
            self.wf(),
        ensures
            match r {
                Some(k) => k < self@.len() && self@[k as int] == b && self@.contains(b)
                    && self@.index_of(b) == k,
                None => !self@.contains(b),
            },
    {
        let mut i: usize = 0;
        while i < self.blocks.len()
            invariant
                i <= self.blocks.len(),
                self.wf(),
                forall|j: int| 0 <= j < i ==> self@[j] != b,
            decreases self.blocks.len() - i,
        {
            if self.blocks[i] == b {
                proof {
                    assert(self@[i as int] == b);
                    let k = self@.index_of(b);
                    assert(self@[k] == b);
                }
                return Some(i);
            }
            i = i + 1;
        }
        None
    }

    /// Whether a request is there
    pub fn contains(&self, b: BlockInfo) -> (r: bool)
        requires
            self.wf(),
        ensures
            r == self@.contains(b),
    {
        self.find(b).is_some()
    }

    /// Puts a request in; says whether it is new
    pub fn insert(&mut self, b: BlockInfo) -> (r: bool)
        requires
            old(self).wf(),
        ensures
            final(self).wf(),
            r == !old(self)@.contains(b),
            final(self)@ == with_request(old(self)@, b),
    {
        if self.contains(b) {
            return false;
        }
        self.blocks.push(b);
        true
    }

    /// Takes a request out; says whether it was there
    pub fn remove(&mut self, b: BlockInfo) -> (r: bool)
        requires
            old(self).wf(),
        ensures
            final(self).wf(),
            r == old(self)@.contains(b),
            final(self)@ == without_request(old(self)@, b),
    {
        match self.find(b) {
            Some(k) => {
                self.blocks.remove(k);
                true
            },
            None => false,
        }
    }

    /// Takes all requests out
    pub fn drain(&mut self) -> (r: Vec<BlockInfo>)
        ensures
            r@ == old(self)@,
            final(self)@ == Seq::<BlockInfo>::empty(),
            final(self).wf(),
    {
        let mut taken: Vec<BlockInfo> = Vec::new();
        std::mem::swap(&mut taken, &mut self.blocks);
        taken
    }
}

/// A request that was put in and taken out again leaves what was there.
pub proof fn request_put_in_and_taken_out(s: Seq<BlockInfo>, b: BlockInfo)
    requires
        s.no_duplicates(),
        !s.contains(b),
    ensures
        without_request(with_request(s, b), b) == s,
        !without_request(with_request(s, b), b).contains(b),
{
    let t = s.push(b);
    assert(t[s.len() as int] == b);
    let k = t.index_of(b);
    assert(t[k] == b);
    assert(k == s.len()) by {
        if k < s.len() {
            assert(s[k] == b);
        }
    }
    assert(t.remove(k) =~= s);
}

} // verus!
