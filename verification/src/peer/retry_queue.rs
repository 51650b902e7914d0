//! Peers that could not be reached, and when to try them again.

use crate::net::SocketAddr;
use crate::text::opt_text;
use vstd::prelude::*;

verus! {

/// Maximum number of peers to track in the retry queue
pub const MAX_RETRY_QUEUE_SIZE: usize = 1000;

/// Maximum number of connection attempts before giving up on a peer
pub const MAX_RETRY_ATTEMPTS: u32 = 5;

/// Initial delay before first retry, in seconds
pub const INITIAL_RETRY_DELAY: u64 = 5;

/// Maximum delay between retries (10 minutes), in seconds
pub const MAX_RETRY_DELAY: u64 = 600;

/// Entry for a peer that failed to connect; times are in milliseconds
#[derive(Debug)]
pub struct FailedPeerEntry {
    pub addr: SocketAddr,
    pub failed_attempts: u32,
    pub last_attempt: u64,
    pub next_retry: u64,
    pub last_error: Option<String>,
}

/// What an entry says.
#[verifier::ext_equal]
pub struct EntryView {
    pub addr: SocketAddr,
    pub failed_attempts: u32,
    pub last_attempt: u64,
    pub next_retry: u64,
    pub last_error: Option<Seq<char>>,
}

impl View for FailedPeerEntry {
    type V = EntryView;

    open spec fn view(&self) -> EntryView {
        EntryView {
            addr: self.addr,
            failed_attempts: self.failed_attempts,
            last_attempt: self.last_attempt,
            next_retry: self.next_retry,
            last_error: opt_text(self.last_error),
        }
    }
}

/// Two to the power of `n`.
pub open spec fn doubled(n: int) -> int
    decreases n,
{
    if n <= 0 {
        1
    } else {
        2 * doubled(n - 1)
    }
}

/// How long to wait after so many failures, in seconds: five at first, each time twice as long,
/// ten minutes at most.
pub open spec fn backoff(attempts: u32) -> int {
    let delay = 5 * doubled(attempts - 1);
    if delay < 600 {
        delay
    } else {
        600
    }
}

/// The position at or behind `i` of an address.
pub open spec fn position(s: Seq<EntryView>, addr: SocketAddr, i: int) -> Option<int>
    decreases s.len() - i,
{
    if i < 0 || i >= s.len() {
        None
    } else if s[i].addr == addr {
        Some(i)
    } else {
        position(s, addr, i + 1)
    }
}

/// The position of the entry among the first `n` that was tried the longest ago, the first of
/// several.
pub open spec fn oldest(s: Seq<EntryView>, n: int) -> int
    decreases n,
{
    if n <= 1 {
        0
    } else {
        let k = oldest(s, n - 1);
        if s[n - 1].last_attempt < s[k].last_attempt {
            n - 1
        } else {
            k
        }
    }
}

/// The entries with room for one more: where they are too many, the oldest gives way.
pub open spec fn with_room(s: Seq<EntryView>) -> Seq<EntryView> {
    if s.len() >= 1000 {
        s.remove(oldest(s, s.len() as int))
    } else {
        s
    }
}

/// The entries after a failure.
pub open spec fn after_failure(
    s: Seq<EntryView>,
    addr: SocketAddr,
    error: Option<Seq<char>>,
    now: u64,
) -> Seq<EntryView> {
    match position(s, addr, 0) {
        Some(k) => {
            let attempts = (s[k].failed_attempts + 1) as u32;
            s.update(
                k,
                EntryView {
                    addr,
                    failed_attempts: attempts,
                    last_attempt: now,
                    next_retry: (now + 1000 * backoff(attempts)) as u64,
                    last_error: match error {
                        Some(e) => Some(e),
                        None => s[k].last_error,
                    },
                },
            )
        },
        None => with_room(s).push(
            EntryView {
                addr,
                failed_attempts: 1,
                last_attempt: now,
                next_retry: (now + 5000) as u64,
                last_error: error,
            },
        ),
    }
}

/// The entries among the first `n` that have not failed too often.
pub open spec fn alive(s: Seq<EntryView>, n: int) -> Seq<EntryView>
    decreases n,
{
    if n <= 0 {
        Seq::empty()
    } else if s[n - 1].failed_attempts >= 5 {
        alive(s, n - 1)
    } else {
        alive(s, n - 1).push(s[n - 1])
    }
}

/// The addresses among the first `n` entries whose time has come and which have not failed too
/// often.
pub open spec fn ready(s: Seq<EntryView>, now: u64, n: int) -> Seq<SocketAddr>
    decreases n,
{
    if n <= 0 {
        Seq::empty()
    } else if s[n - 1].failed_attempts < 5 && now >= s[n - 1].next_retry {
        ready(s, now, n - 1).push(s[n - 1].addr)
    } else {
        ready(s, now, n - 1)
    }
}

/// Whether no address occurs twice.
pub open spec fn addresses_differ(s: Seq<EntryView>) -> bool {
    forall|i: int, j: int| 0 <= i < j < s.len() ==> (#[trigger] s[i]).addr != (#[trigger] s[j]).addr
}

/// Queue for managing peers that failed to connect, with exponential backoff
#[derive(Debug)]
pub struct PeerRetryQueue {
    peers: Vec<FailedPeerEntry>,
}

impl View for PeerRetryQueue {
    type V = Seq<EntryView>;

    closed spec fn view(&self) -> Seq<EntryView> {
        Seq::new(self.peers@.len(), |i: int| self.peers@[i]@)
    }
}

proof fn position_bounds(s: Seq<EntryView>, addr: SocketAddr, i: int)
    requires
        0 <= i,
    ensures
        position(s, addr, i) matches Some(k) ==> i <= k < s.len() && s[k].addr == addr,
        position(s, addr, i) is None ==> forall|j: int|
            i <= j < s.len() ==> (#[trigger] s[j]).addr != addr,
    decreases s.len() - i,
{
    if i < s.len() && s[i].addr != addr {
        position_bounds(s, addr, i + 1);
    }
}

proof fn oldest_bounds(s: Seq<EntryView>, n: int)
    requires
        0 < n <= s.len(),
    ensures
        0 <= oldest(s, n) < n,
    decreases n,
{
    if n > 1 {
        oldest_bounds(s, n - 1);
    }
}

/// A failure leaves the addresses distinct, the queue within its limit, and the peer in it.
pub proof fn failure_keeps_the_books(
    s: Seq<EntryView>,
    addr: SocketAddr,
    error: Option<Seq<char>>,
    now: u64,
)
    requires
        addresses_differ(s),
        s.len() <= 1000,
    ensures
        addresses_differ(after_failure(s, addr, error, now)),
        after_failure(s, addr, error, now).len() <= 1000,
        position(after_failure(s, addr, error, now), addr, 0) is Some,
{
    let t = after_failure(s, addr, error, now);
    position_bounds(s, addr, 0);
    position_bounds(t, addr, 0);
    match position(s, addr, 0) {
        Some(k) => {
            assert(t[k].addr == addr);
            assert forall|i: int, j: int| 0 <= i < j < t.len() implies (#[trigger] t[i]).addr != (
            #[trigger] t[j]).addr by {
                assert(s[i].addr != s[j].addr);
            }
        },
        None => {
            if s.len() >= 1000 {
                oldest_bounds(s, s.len() as int);
            }
            let u = with_room(s);
            let o = oldest(s, s.len() as int);
            assert(t[u.len() as int].addr == addr);
            assert forall|i: int| 0 <= i < u.len() implies u[i] == s[if s.len() >= 1000 && i >= o {
                i + 1
            } else {
                i
            }] by {}
            assert forall|i: int, j: int| 0 <= i < j < t.len() implies (#[trigger] t[i]).addr != (
            #[trigger] t[j]).addr by {
                let a = if s.len() >= 1000 && i >= o {
                    i + 1
                } else {
                    i
                };
                assert(t[i] == s[a]);
                if j < u.len() {
                    let b = if s.len() >= 1000 && j >= o {
                        j + 1
                    } else {
                        j
                    };
                    assert(t[j] == s[b]);
                    assert(s[a].addr != s[b].addr);
                } else {
                    assert(s[a].addr != addr);
                }
            }
        },
    }
}

proof fn alive_is_part(s: Seq<EntryView>, n: int)
    requires
        0 <= n <= s.len(),
        addresses_differ(s),
    ensures
        addresses_differ(alive(s, n)),
        alive(s, n).len() <= n,
        forall|i: int|
            0 <= i < alive(s, n).len() ==> exists|j: int|
                0 <= j < n && #[trigger] alive(s, n)[i] == #[trigger] s[j],
    decreases n,
{
    if n > 0 {
        alive_is_part(s, n - 1);
        let a = alive(s, n - 1);
        let b = alive(s, n);
        if s[n - 1].failed_attempts < 5 {
            assert forall|i: int| 0 <= i < b.len() implies exists|j: int|
                0 <= j < n && #[trigger] b[i] == #[trigger] s[j] by {
                if i < a.len() {
                    let j = choose|j: int| 0 <= j < n - 1 && a[i] == #[trigger] s[j];
                    assert(b[i] == s[j]);
                } else {
                    assert(b[i] == s[n - 1]);
                }
            }
            assert forall|i: int, j: int| 0 <= i < j < b.len() implies (#[trigger] b[i]).addr != (
            #[trigger] b[j]).addr by {
                if j == a.len() {
                    let k = choose|k: int| 0 <= k < n - 1 && a[i] == #[trigger] s[k];
                    assert(s[k].addr != s[n - 1].addr);
                }
            }
        }
    }
}

impl PeerRetryQueue {
    /// No address occurs twice, and there are not too many.
    pub open spec fn wf(&self) -> bool {
        addresses_differ(self@) && self@.len() <= 1000
    }

    /// A queue of no peers
    pub fn new() -> (r: Self)
        ensures
            r.wf(),
            r@ == Seq::<EntryView>::empty(),
    {
        let r = PeerRetryQueue { peers: Vec::new() };
        assert(r@ =~= Seq::<EntryView>::empty());
        r
    }

    fn find(&self, addr: &SocketAddr) -> (r: Option<usize>)
        ensures
            match r {
                Some(k) => k < self@.len() && position(self@, *addr, 0) == Some(k as int),
                None => position(self@, *addr, 0) is None,
            },
    {
        let ghost s = self@;
        let mut i: usize = 0;
        while i < self.peers.len()
            invariant
                i <= self.peers.len(),
                s == self@,
                position(s, *addr, 0) == position(s, *addr, i as int),
            decreases self.peers.len() - i,
        {
            assert(s[i as int].addr == self.peers[i as int].addr);
            if self.peers[i].addr == *addr {
                return Some(i);
            }
            i = i + 1;
        }
        None
    }

    fn find_oldest(&self) -> (r: usize)
        requires
            self@.len() > 0,
        ensures
            r < self@.len(),
            r == oldest(self@, self@.len() as int),
    {
        let ghost s = self@;
        let mut k: usize = 0;
        let mut n: usize = 1;
        while n < self.peers.len()
            invariant
                1 <= n <= self.peers.len(),
                k < n,
                s == self@,
                k == oldest(s, n as int),
            decreases self.peers.len() - n,
        {
            assert(s[n as int].last_attempt == self.peers[n as int].last_attempt);
            assert(s[k as int].last_attempt == self.peers[k as int].last_attempt);
            if self.peers[n].last_attempt < self.peers[k].last_attempt {
                k = n;
            }
            n = n + 1;
        }
        k
    }

    /// Add a failed peer to the retry queue
    pub fn add_failed_peer(&mut self, addr: SocketAddr, error: Option<String>, now: u64)
        requires
            old(self).wf(),
            now + 600_000 <= u64::MAX,
            forall|i: int|
                0 <= i < old(self)@.len() && (#[trigger] old(self)@[i]).addr == addr ==> old(
                    self)@[i].failed_attempts < u32::MAX,
        ensures
            final(self).wf(),
            final(self)@ == after_failure(old(self)@, addr, opt_text(error), now),
    {
        let ghost s = self@;
        let ghost said = opt_text(error);
        proof {
            failure_keeps_the_books(s, addr, said, now);
            position_bounds(s, addr, 0);
        }
        match self.find(&addr) {
            Some(k) => {
                assert(s[k as int].failed_attempts == self.peers[k as int].failed_attempts);
                let attempts: u32 = self.peers[k].failed_attempts + 1;
                self.peers[k].failed_attempts = attempts;
                self.peers[k].last_attempt = now;
                self.peers[k].next_retry = now + 1000 * Self::calculate_backoff(attempts);
                if error.is_some() {
                    self.peers[k].last_error = error;
                }
                assert(self@ =~= after_failure(s, addr, said, now));
            },
            None => {
                if self.peers.len() >= MAX_RETRY_QUEUE_SIZE {
                    let o: usize = self.find_oldest();
                    self.peers.remove(o);
                    assert(self@ =~= with_room(s));
                }
                self.peers.push(
                    FailedPeerEntry {
                        addr,
                        failed_attempts: 1,
                        last_attempt: now,
                        next_retry: now + 1000 * INITIAL_RETRY_DELAY,
                        last_error: error,
                    },
                );
                assert(self@ =~= after_failure(s, addr, said, now));
            },
        }
    }

    /// Get peers that are ready to be retried; those that have failed too often are dropped
    pub fn get_ready_peers(&mut self, now: u64) -> (r: Vec<SocketAddr>)
        requires
            old(self).wf(),
        ensures
            final(self).wf(),
            final(self)@ == alive(old(self)@, old(self)@.len() as int),
            r@ == ready(old(self)@, now, old(self)@.len() as int),
    {
        let ghost s = self@;
        let mut ready_peers: Vec<SocketAddr> = Vec::new();
        let mut kept: usize = 0;
        let mut done: usize = 0;
        let total: usize = self.peers.len();
        proof {
            alive_is_part(s, s.len() as int);
            assert(self@.take(0) =~= alive(s, 0));
            assert(self@.skip(0) =~= s.skip(0));
        }
        while done < total
            invariant
                kept <= self.peers.len(),
                done <= total,
                total == s.len(),
                self.peers.len() - kept == total - done,
                self@.take(kept as int) == alive(s, done as int),
                self@.skip(kept as int) == s.skip(done as int),
                ready_peers@ == ready(s, now, done as int),
            decreases total - done,
        {
            let ghost before = self@;
            proof {
                assert(before.skip(kept as int)[0] == s.skip(done as int)[0]);
                assert(before[kept as int] == s[done as int]);
                assert(before[kept as int] == self.peers@[kept as int]@);
            }
            if self.peers[kept].failed_attempts >= MAX_RETRY_ATTEMPTS {
                self.peers.remove(kept);
                proof {
                    assert(self@ =~= before.remove(kept as int));
                    assert(self@.take(kept as int) =~= before.take(kept as int));
                    assert(self@.skip(kept as int) =~= s.skip(done + 1)) by {
                        assert forall|i: int| 0 <= i < self@.skip(kept as int).len() implies (
                        #[trigger] self@.skip(kept as int)[i]) == s.skip(done + 1)[i] by {
                            assert(before.skip(kept as int)[i + 1] == s.skip(done as int)[i + 1]);
                        }
                    }
                }
            } else {
                if now >= self.peers[kept].next_retry {
                    ready_peers.push(self.peers[kept].addr);
                }
                proof {
                    assert(self@.take(kept + 1) =~= before.take(kept as int).push(s[done as int]));
                    assert(self@.skip(kept + 1) =~= s.skip(done + 1)) by {
                        assert forall|i: int| 0 <= i < self@.skip(kept + 1).len() implies (
                        #[trigger] self@.skip(kept + 1)[i]) == s.skip(done + 1)[i] by {
                            assert(before.skip(kept as int)[i + 1] == s.skip(done as int)[i + 1]);
                        }
                    }
                }
                kept = kept + 1;
            }
            done = done + 1;
        }
        proof {
            assert(self@.take(kept as int) =~= self@);
        }
        ready_peers
    }

    /// Check if a peer should be retried (exists in queue and hasn't exceeded max attempts)
    pub fn should_retry(&self, addr: &SocketAddr) -> (r: bool)
        ensures
            r == match position(self@, *addr, 0) {
                Some(k) => self@[k].failed_attempts < 5,
                None => false,
            },
    {
        match self.find(addr) {
            Some(k) => self.peers[k].failed_attempts < MAX_RETRY_ATTEMPTS,
            None => false,
        }
    }

    /// Remove a peer from the retry queue (e.g., when successfully connected)
    pub fn remove_peer(&mut self, addr: &SocketAddr)
        requires
            old(self).wf(),
        ensures
            final(self).wf(),
            final(self)@ == match position(old(self)@, *addr, 0) {
                Some(k) => old(self)@.remove(k),
                None => old(self)@,
            },
    {
        let ghost s = self@;
        match self.find(addr) {
            Some(k) => {
                self.peers.remove(k);
                proof {
                    assert(self@ =~= s.remove(k as int));
                    assert forall|i: int, j: int| 0 <= i < j < self@.len() implies (
                    #[trigger] self@[i]).addr != (#[trigger] self@[j]).addr by {
                        let a = if i >= k {
                            i + 1
                        } else {
                            i
                        };
                        let b = if j >= k {
                            j + 1
                        } else {
                            j
                        };
                        assert(s[a].addr != s[b].addr);
                    }
                }
            },
            None => {},
        }
    }

    /// Check if a peer is in the retry queue
    pub fn contains(&self, addr: &SocketAddr) -> (r: bool)
        ensures
            r == (position(self@, *addr, 0) is Some),
    {
        self.find(addr).is_some()
    }

    /// Get the number of peers in the retry queue
    pub fn len(&self) -> (r: usize)
        ensures
            r == self@.len(),
    {
        self.peers.len()
    }

    /// Check if the retry queue is empty
    pub fn is_empty(&self) -> (r: bool)
        ensures
            r == (self@.len() == 0),
    {
        self.peers.len() == 0
    }

    /// Calculate backoff delay using exponential backoff, in seconds
    pub fn calculate_backoff(attempts: u32) -> (r: u64)
        ensures
            r == backoff(attempts),
            r <= 600,
    {
        let exponent: u32 = attempts.saturating_sub(1);
        let mut delay: u64 = INITIAL_RETRY_DELAY;
        let mut i: u32 = 0;
        assert(doubled(0) == 1);
        while i < exponent && delay < MAX_RETRY_DELAY
            invariant
                i <= exponent,
                delay <= 2 * MAX_RETRY_DELAY,
                delay == 5 * doubled(i as int),
            decreases exponent - i,
        {
            delay = delay * 2;
            i = i + 1;
        }
        proof {
            doubling_grows(i as int, exponent as int);
            if attempts == 0 {
                assert(doubled(-1) == 1);
            }
        }
        if delay < MAX_RETRY_DELAY {
            delay
        } else {
            MAX_RETRY_DELAY
        }
    }

    /// Mark a peer as successfully connected (removes from retry queue)
    pub fn mark_success(&mut self, addr: &SocketAddr)
        requires
            old(self).wf(),
        ensures
            final(self).wf(),
            final(self)@ == match position(old(self)@, *addr, 0) {
                Some(k) => old(self)@.remove(k),
                None => old(self)@,
            },
    {
        self.remove_peer(addr);
    }
}

proof fn doubling_grows(a: int, b: int)
    requires
        0 <= a <= b,
    ensures
        doubled(a) <= doubled(b),
        doubled(a) >= 1,
    decreases b,
{
    if a < b {
        doubling_grows(a, b - 1);
    } else if a > 0 {
        doubling_grows(a - 1, a - 1);
    }
}

/// The wait never gets shorter as failures mount.
pub proof fn backoff_never_shrinks(a: u32, b: u32)
    requires
        1 <= a <= b,
    ensures
        5 <= backoff(a) <= backoff(b) <= 600,
{
    doubling_grows(a - 1, b - 1);
}

} // verus!
