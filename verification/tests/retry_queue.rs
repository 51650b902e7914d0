use std::time::Duration;
use torrent_rs::net::{IpAddr, SocketAddr};
use torrent_rs::peer::retry_queue::{PeerRetryQueue, MAX_RETRY_ATTEMPTS};

fn address() -> SocketAddr {
    SocketAddr { ip: IpAddr::V4(0x7f000001), port: 6881 }
}

#[test]
fn test_calculate_backoff() {
    assert_eq!(Duration::from_secs(PeerRetryQueue::calculate_backoff(1)), Duration::from_secs(5));
    assert_eq!(Duration::from_secs(PeerRetryQueue::calculate_backoff(2)), Duration::from_secs(10));
    assert_eq!(Duration::from_secs(PeerRetryQueue::calculate_backoff(3)), Duration::from_secs(20));
    assert_eq!(Duration::from_secs(PeerRetryQueue::calculate_backoff(4)), Duration::from_secs(40));
    assert_eq!(Duration::from_secs(PeerRetryQueue::calculate_backoff(5)), Duration::from_secs(80));
}

#[test]
fn test_add_and_get_ready_peers() {
    let mut queue = PeerRetryQueue::new();
    let addr = address();
    let now = 1_000_000;

    queue.add_failed_peer(addr, None, now);
    assert!(queue.contains(&addr));

    // Immediately after adding, peer should not be ready (needs to wait INITIAL_RETRY_DELAY)
    let ready = queue.get_ready_peers(now);
    assert!(ready.is_empty());

    // After enough time passes, peer should be ready
    let future = now + 10 * 1000;
    let ready = queue.get_ready_peers(future);
    assert_eq!(ready.len(), 1);
    assert_eq!(ready[0], addr);
}

#[test]
fn test_max_retry_attempts() {
    let mut queue = PeerRetryQueue::new();
    let addr = address();

    // Add peer MAX_RETRY_ATTEMPTS times
    for _ in 0..MAX_RETRY_ATTEMPTS {
        queue.add_failed_peer(addr, None, 0);
    }

    // Peer should still be in queue
    assert!(queue.contains(&addr));

    // Add one more time to exceed max attempts
    queue.add_failed_peer(addr, None, 0);

    // Now when we get ready peers, it should be removed
    let future = 1000 * 1000;
    let ready = queue.get_ready_peers(future);
    assert!(ready.is_empty());
    assert!(!queue.contains(&addr));
}

#[test]
fn waits_never_shrink_and_have_an_end() {
    let mut last = 0;
    for attempts in 0..40 {
        let wait = PeerRetryQueue::calculate_backoff(attempts);
        assert!(wait >= last && wait <= 600);
        last = wait;
    }
    assert_eq!(PeerRetryQueue::calculate_backoff(u32::MAX), 600);
}

#[test]
fn a_peer_that_answers_is_forgotten() {
    let mut queue = PeerRetryQueue::new();
    let addr = address();
    let other = SocketAddr { ip: IpAddr::V6(1), port: 1 };
    queue.add_failed_peer(addr, Some("refused".to_string()), 0);
    queue.add_failed_peer(other, None, 0);
    assert_eq!(queue.len(), 2);
    assert!(queue.should_retry(&addr));
    queue.mark_success(&addr);
    assert!(!queue.should_retry(&addr));
    assert!(queue.contains(&other));
    queue.remove_peer(&other);
    assert!(queue.is_empty());
}
