use torrent_rs::choker::Choker;
use torrent_rs::torrent::Pid;

#[test]
fn test_simple_interest() {
    let mut choker = Choker::new(4);

    let pid1 = Pid(1);
    let pid2 = Pid(2);

    // Both interested, within slot limit
    assert!(choker.on_peer_interested(pid1));
    assert!(choker.on_peer_interested(pid2));

    assert!(choker.is_unchoked(pid1));
    assert!(choker.is_unchoked(pid2));
}

#[test]
fn test_slot_limit() {
    let mut choker = Choker::new(2);

    let pid1 = Pid(1);
    let pid2 = Pid(2);
    let pid3 = Pid(3);

    // First two get slots
    assert!(choker.on_peer_interested(pid1));
    assert!(choker.on_peer_interested(pid2));

    // Third goes to queue
    assert!(!choker.on_peer_interested(pid3));
    assert!(!choker.is_unchoked(pid3));
}

#[test]
fn test_not_interested_frees_slot() {
    let mut choker = Choker::new(2);

    let pid1 = Pid(1);
    let pid2 = Pid(2);
    let pid3 = Pid(3);

    choker.on_peer_interested(pid1);
    choker.on_peer_interested(pid2);
    choker.on_peer_interested(pid3); // Queued

    assert!(choker.is_unchoked(pid1));
    assert!(choker.is_unchoked(pid2));
    assert!(!choker.is_unchoked(pid3));

    // pid1 becomes not interested
    assert!(choker.on_peer_not_interested(pid1));
    assert!(!choker.is_unchoked(pid1));

    // pid3 should now be unchoked
    assert!(choker.is_unchoked(pid3));
}

#[test]
fn test_disconnect() {
    let mut choker = Choker::new(2);

    let pid1 = Pid(1);
    let pid2 = Pid(2);
    let pid3 = Pid(3);

    choker.on_peer_interested(pid1);
    choker.on_peer_interested(pid2);
    choker.on_peer_interested(pid3); // Queued

    // pid2 disconnects
    choker.on_peer_disconnected(pid2);

    assert!(choker.is_unchoked(pid1));
    assert!(!choker.is_unchoked(pid2));
    assert!(choker.is_unchoked(pid3)); // Should get the slot
}

#[test]
fn slots_pass_on_in_the_order_of_asking() {
    let mut choker = Choker::new(1);
    assert!(choker.on_peer_interested(Pid(1)));
    assert!(!choker.on_peer_interested(Pid(2)));
    assert!(!choker.on_peer_interested(Pid(3)));
    assert_eq!(choker.available_slots(), 0);
    // one that waits leaves the line
    assert_eq!(choker.on_peer_disconnected(Pid(2)), None);
    assert_eq!(choker.on_peer_disconnected(Pid(1)), Some(Pid(3)));
    assert!(choker.is_unchoked(Pid(3)));
    assert!(!choker.on_peer_not_interested(Pid(9)));
    assert!(choker.on_peer_not_interested(Pid(3)));
    assert_eq!(choker.available_slots(), 1);
    assert!(choker.unchoked_peers().is_empty());
}
