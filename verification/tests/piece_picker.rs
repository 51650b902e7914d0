use bytes::Bytes;
use std::sync::Arc;
use torrent_rs::bitfield::Bitfield;
use torrent_rs::metainfo::{FileMode, Info};
use torrent_rs::piece_picker::{
    AvailabilityUpdate, BlockRequest, PieceBuffer, PieceManager, PieceState, create_blocks_for_piece,
};
use torrent_rs::protocol::{Block, BlockInfo};

fn info(length: i64, piece_length: i64) -> Arc<Info> {
    let count = ((length + piece_length - 1) / piece_length) as usize;
    Arc::new(Info {
        piece_length,
        pieces: vec![[0u8; 20]; count],
        private: None,
        mode: FileMode::SingleFile { name: "f".to_string(), length, md5sum: None },
    })
}

fn block(index: u32, begin: u32, data: Vec<u8>) -> Block {
    Block { index, begin, data: Bytes::from(data) }
}

#[test]
fn pieces_are_split_in_blocks() {
    let blocks = create_blocks_for_piece(40000);
    let spans: Vec<(u32, u32)> = blocks.iter().map(|b| (b.offset, b.length)).collect();
    assert_eq!(spans, vec![(0, 16384), (16384, 16384), (32768, 7232)]);
    assert!(create_blocks_for_piece(0).is_empty());
}

#[test]
fn rare_pieces_come_first_and_started_ones_before() {
    let mut p = PieceManager::new(info(4 * 16384, 16384));
    let mut b = Bitfield::with_size(4);
    b.set(0);
    b.set(1);
    b.set(3);
    p.increment_availability(AvailabilityUpdate::Bitfield(&b));
    p.increment_availability(AvailabilityUpdate::Have(0));
    let picks = p.pick_piece(&b, 10);
    // the piece with two peers last; the same blocks again for the higher thresholds
    assert_eq!(picks[0].index, 1);
    assert_eq!(picks[1].index, 3);
    assert_eq!(picks[2].index, 0);
    assert!(p.add_request(BlockRequest::from(picks[2])));
    assert_eq!(p.get_heat(&BlockRequest::from(picks[2])), 1);
    let picks = p.pick_piece(&b, 3);
    assert_eq!(picks.len(), 3);
    assert_eq!(picks[0].index, 1);
    let hot = BlockInfo { index: 0, begin: 0, length: 16384 };
    assert_eq!(picks[2], hot);
    p.delete_request(BlockRequest::from(hot));
    assert_eq!(p.get_heat(&BlockRequest::from(hot)), 0);
}

#[test]
fn blocks_make_up_a_piece_in_any_order() {
    let mut p = PieceManager::new(info(20000, 20000));
    let data: Vec<u8> = (0..20000).map(|i| (i % 253) as u8).collect();
    assert!(p.add_block(block(0, 16384, data[16384..].to_vec())).is_none());
    assert!(!p.is_piece_complete(0));
    assert_eq!(p.get_pending_blocks(0).len(), 1);
    assert!(p.pieces_by_pending_bytes().is_empty());
    p.set_piece_as(0, PieceState::InProgress);
    assert_eq!(p.pieces_by_pending_bytes(), vec![(0, 16384)]);
    // too long a block and one of a piece that does not exist are not taken
    assert!(p.add_block(block(0, 16384, data.clone())).is_none());
    assert!(p.add_block(block(5, 0, data.clone())).is_none());
    let piece = p.add_block(block(0, 0, data[..16384].to_vec())).unwrap();
    assert_eq!(piece, data);
    p.set_piece_as(0, PieceState::Have);
    assert!(p.have_all_pieces());
    assert_eq!(p.info_progress(), (1, 1));
    p.reset_piece(0);
    assert!(!p.have_all_pieces());
    assert_eq!(p.count_in_state(PieceState::NotRequested), 1);
}

#[test]
fn given_up_requests_leave_no_trace() {
    let mut p = PieceManager::new(info(3 * 16384, 16384));
    let b = Bitfield::with_all_set(3);
    let picks = p.pick_piece(&b, 3);
    let requests: Vec<BlockRequest> = picks.iter().map(|i| BlockRequest::from(*i)).collect();
    for r in &requests {
        assert!(p.add_request(*r));
    }
    p.cancel_peer_requests(&requests);
    for r in &requests {
        assert_eq!(p.get_heat(r), 0);
    }
    let summary = p.debug_print_state();
    assert_eq!(summary.hottest.len(), 0);
    // one that has no heat changes nothing
    assert!(p.add_request(requests[0]));
    p.delete_request(requests[1]);
    assert_eq!((p.get_heat(&requests[0]), p.get_heat(&requests[1])), (1, 0));
    assert_eq!(p.get_pending_blocks(1).len(), 1);
}

#[test]
fn counts_of_peers_go_up_and_down() {
    let mut p = PieceManager::new(info(2 * 16384, 16384));
    let b = Bitfield::with_all_set(2);
    assert!(p.can_count(AvailabilityUpdate::Bitfield(&b)));
    p.increment_availability(AvailabilityUpdate::Bitfield(&b));
    p.decrement_availability(AvailabilityUpdate::Bitfield(&b));
    p.decrement_availability(AvailabilityUpdate::Bitfield(&b));
    p.increment_availability(AvailabilityUpdate::Have(9));
    assert!(p.in_reach(1));
    assert!(!p.in_reach(0));
    let whole = PieceManager::new_all_have(info(2 * 16384, 16384));
    assert!(whole.have_all_pieces() && whole.in_reach(0));
    assert_eq!(whole.total_pieces(), 2);
    assert!(whole.pick_piece(&b, 5).is_empty());
}

#[test]
fn gaps_of_a_piece_are_known() {
    let mut b = PieceBuffer::new(100);
    assert_eq!(b.get_missing_ranges(), vec![0..100]);
    assert!(!b.add_block(&block(0, 10, vec![1; 20])));
    assert!(!b.add_block(&block(0, 50, vec![2; 50])));
    assert_eq!(b.get_missing_ranges(), vec![0..10, 30..50]);
    assert!(!b.add_block(&block(0, 90, vec![3; 20])));
    assert!(!b.add_block(&block(0, 0, vec![4; 10])));
    assert!(b.add_block(&block(0, 30, vec![5; 20])));
    assert!(b.get_missing_ranges().is_empty());
    assert!(b.is_complete());
}

#[test]
fn only_wanted_blocks_of_the_peer_are_picked() {
    let mut p = PieceManager::new(info(3 * 16384, 16384));
    let mut b = Bitfield::with_size(3);
    assert!(p.pick_piece(&b, 5).is_empty());
    b.set(1);
    b.set(2);
    assert!(p.pick_piece(&b, 0).is_empty());
    p.set_piece_as(1, PieceState::Have);
    let only = BlockInfo { index: 2, begin: 0, length: 16384 };
    assert_eq!(p.pick_piece(&b, 1), vec![only]);
    for _ in 0..101 {
        assert!(p.add_request(BlockRequest::from(only)));
    }
    // the block has been asked for too often
    assert!(p.pick_piece(&b, 5).is_empty());
    p.delete_request(BlockRequest::from(only));
    assert_eq!(p.pick_piece(&b, 5), vec![only]);
}

#[test]
fn ranges_are_joined_with_those_that_they_touch() {
    let mut b = PieceBuffer::new(40);
    for range in [0..10, 20..30, 40..50, 10..20] {
        b.add_range(range);
    }
    assert_eq!(b.completed_ranges, vec![0..30, 40..50]);
}
