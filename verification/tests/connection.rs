use bytes::Bytes;
use torrent_rs::bitfield::{Bitfield, BitfieldError};
use torrent_rs::net::{IpAddr, SocketAddr};
use torrent_rs::peer::bitfield_state::BitfieldState;
use torrent_rs::peer::connection::{Id, Peer, PeerCommand, PeerError, PeerEvent, PeerInfo, Step};
use torrent_rs::peer::error::{ConnectionError, HandshakeError, IoKind, ProtocolViolation};
use torrent_rs::protocol::{Block, BlockInfo, Handshake, Message};
use torrent_rs::types::{InfoHash, PeerID};

fn peer_info() -> PeerInfo {
    let addr = SocketAddr { ip: IpAddr::V4(0x01020304), port: 5 };
    PeerInfo::new(Id(4), InfoHash::new([6u8; 20]), addr)
}

#[test]
fn connections_begin_with_handshakes() {
    let peer = Peer::new(peer_info()).connect();
    let hello = peer.greeting(PeerID::new([1u8; 20]));
    assert_eq!(&hello[28..48], &[6u8; 20]);
    let other = Handshake::new(PeerID::new([2u8; 20]), InfoHash::new([7u8; 20])).to_bytes();
    assert!(matches!(peer.handshake(&other, 0), Err(PeerError::InvalidHandshake)));
    let peer = Peer::new(peer_info()).connect();
    let right = Handshake::new(PeerID::new([2u8; 20]), InfoHash::new([6u8; 20])).to_bytes();
    let peer = peer.handshake(&right, 0).unwrap();
    assert_eq!(peer.check_timeout(120_000), Ok(()));
    assert_eq!(peer.check_timeout(120_001), Err(PeerError::Timeout));
    assert!(matches!(peer.heartbeat(), Message::KeepAlive));
    assert!(matches!(peer.start()[0], Step::Send(Message::Extended(_))));
}

fn requests(steps: &[Step]) -> Vec<BlockInfo> {
    steps
        .iter()
        .filter_map(|s| match s {
            Step::Send(Message::Request(b)) => Some(*b),
            _ => None,
        })
        .collect()
}

#[test]
fn requests_wait_until_they_are_let() {
    let mut peer = Peer::from_incoming(false, peer_info(), 0);
    assert!(peer.start().is_empty());
    let block = BlockInfo { index: 1, begin: 0, length: 3 };
    let r = peer.handle_cmd(Some(PeerCommand::AvailableTask(vec![block]))).unwrap();
    assert!(requests(&r).is_empty());
    peer.handle_cmd(Some(PeerCommand::SendMessage(Message::Interested))).unwrap();
    let r = peer.handle_msg(Message::Unchoke, 1);
    assert_eq!(requests(&r), vec![block]);
    let r = peer.handle_msg(
        Message::Piece(Block { index: 1, begin: 0, data: Bytes::from(vec![1, 2, 3]) }),
        2,
    );
    assert!(matches!(&r[0], Step::Tell(PeerEvent::AddBlock(Id(4), _))));
    assert!(matches!(&r[1], Step::Tell(PeerEvent::NeedTask(Id(4)))));
    assert!(peer.handle_cmd(None).is_none());
}

#[test]
fn choking_gives_requests_up() {
    let mut peer = Peer::from_incoming(false, peer_info(), 0);
    let block = BlockInfo { index: 1, begin: 0, length: 3 };
    peer.handle_cmd(Some(PeerCommand::SendMessage(Message::Interested))).unwrap();
    peer.handle_msg(Message::Unchoke, 1);
    peer.handle_cmd(Some(PeerCommand::AvailableTask(vec![block]))).unwrap();
    let r = peer.handle_msg(Message::Choke, 2);
    if !r.is_empty() {
        assert!(matches!(r[0], Step::Send(Message::Cancel(_))));
    }
    // what a choked peer asks for is not passed on
    assert!(peer.handle_msg(Message::Request(block), 3).is_empty());
    let r = peer.handle_msg(Message::Interested, 3);
    assert!(matches!(r[0], Step::Tell(PeerEvent::Interest(_))));
    let r = peer.handle_msg(Message::NotInterested, 3);
    assert!(matches!(r[0], Step::Tell(PeerEvent::NotInterest(_))));
    assert!(peer.handle_msg(Message::NotInterested, 3).is_empty());
}

#[test]
fn bitfields_grow_until_they_are_checked() {
    let mut s = BitfieldState::new();
    assert!(!s.is_received());
    assert!(s.get_bitfield_mut().is_none());
    s.ensure_capacity(10);
    s.get_bitfield_mut().unwrap().set(9);
    s.ensure_capacity(20);
    assert_eq!(s.get_bitfield_mut().unwrap().iter_set(), vec![9]);
    assert!(s.validate(20).is_ok());
    let mut s = BitfieldState::new();
    s.set_received(Bitfield::from_bytes_unchecked(Bytes::from(vec![0xFF])));
    assert_eq!(s.validate(3), Err(BitfieldError::NonZeroSpareBits));
    assert!(s.validate(8).is_ok());
}

#[test]
fn errors_tell_whether_to_try_again() {
    let io = |kind| ConnectionError::Io(kind, "broken pipe".to_string());
    assert!(io(IoKind::TimedOut).is_transient());
    assert!(!io(IoKind::Other).is_transient());
    assert!(ConnectionError::Idle.is_transient());
    assert!(!ConnectionError::SelfConnection.is_transient());
    assert_eq!(HandshakeError::InfoHashMismatch.message(), "Info hash mismatch");
    assert_eq!(ProtocolViolation::DuplicateBitfield.message(), "Duplicate bitfield");
    assert_eq!(
        ProtocolViolation::InvalidPieceIndex { index: 7, total: 5 }.message(),
        "HAVE piece index 7 out of range (have 5 pieces)"
    );
}

#[test]
fn errors_say_what_went_wrong() {
    let length = BitfieldError::InvalidLength { expected_len: 2, actual_len: 1 };
    for (e, text) in [
        (
            ConnectionError::Io(IoKind::Other, "broken pipe".to_string()),
            "I/O error: broken pipe",
        ),
        (ConnectionError::HandshakeTimeout, "Handshake timed out"),
        (ConnectionError::WriteStalled, "Write stalled"),
        (
            ConnectionError::Handshake(HandshakeError::ParseFailure),
            "Handshake failed: Parse failure: incomplete or malformed bytes",
        ),
        (
            ConnectionError::Protocol(ProtocolViolation::UnknownMetadataMsgType(-3)),
            "Protocol violation: Unknown metadata msg_type: -3",
        ),
        (
            ConnectionError::Bitfield(BitfieldError::NonZeroSpareBits),
            "Bitfield error: Non zero spare bits",
        ),
        (
            ConnectionError::Bitfield(length),
            "Bitfield error: Invalid Length expected2, got 1",
        ),
        (ConnectionError::SelfConnection, "Self-connection detected"),
        (ConnectionError::Idle, "Idle timeout"),
    ] {
        assert_eq!(e.message(), text);
    }
}
