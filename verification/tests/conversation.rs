use bytes::Bytes;
use std::sync::Arc;
use torrent_rs::bitfield::{Bitfield, BitfieldError};
use torrent_rs::events::peer::Direction;
use torrent_rs::metainfo::{FileMode, Info};
use torrent_rs::net::{IpAddr, SocketAddr};
use torrent_rs::peer::peer_connection::{Action, ConnectionError, PeerConnection, PeerInfo};
use torrent_rs::peer::PeerMessage;
use torrent_rs::protocol::{
    Block, BlockInfo, ExtendedHandshake, ExtendedMessage, Handshake, Message, RawExtendedMessage,
};
use torrent_rs::torrent::Pid;
use torrent_rs::types::{InfoHash, PeerID};

fn info(pieces: usize) -> Arc<Info> {
    Arc::new(Info {
        piece_length: 16384,
        pieces: vec![[0u8; 20]; pieces],
        private: None,
        mode: FileMode::SingleFile {
            name: "f".to_string(),
            length: pieces as i64 * 16384,
            md5sum: None,
        },
    })
}

fn talk(metadata: Option<Arc<Info>>) -> PeerConnection {
    let addr = SocketAddr { ip: IpAddr::V4(0x0a000001), port: 51413 };
    let peer = PeerInfo::new(PeerID::new([3u8; 20]), Direction::Outbound);
    let mut c = PeerConnection::new(Pid(1), addr, peer, true, 0);
    let first = c.start(metadata);
    assert!(matches!(
        first[0],
        Action::Send(Message::Extended(ExtendedMessage::Handshake(_)))
    ));
    c
}

fn sent(actions: &[Action]) -> Vec<BlockInfo> {
    actions
        .iter()
        .filter_map(|a| match a {
            Action::Send(Message::Request(b)) => Some(*b),
            _ => None,
        })
        .collect()
}

#[test]
fn handshakes_are_held_against_the_torrent() {
    let us = PeerID::new([1u8; 20]);
    let hash = InfoHash::new([2u8; 20]);
    let good = Handshake::new(PeerID::new([9u8; 20]), hash).to_bytes();
    let (id, extended) = PeerConnection::handshake(&good, us, hash).unwrap();
    assert_eq!(id.as_bytes(), &[9u8; 20]);
    assert!(extended);
    let own = PeerConnection::greeting(us, hash);
    assert!(matches!(
        PeerConnection::handshake(&own, us, hash),
        Err(ConnectionError::SelfConnection)
    ));
    let other = Handshake::new(PeerID::new([9u8; 20]), InfoHash::new([7u8; 20])).to_bytes();
    assert!(matches!(
        PeerConnection::handshake(&other, us, hash),
        Err(ConnectionError::InvalidHandshake)
    ));
    assert!(matches!(
        PeerConnection::handshake(&good[1..], us, hash),
        Err(ConnectionError::InvalidHandshake)
    ));
}

#[test]
fn blocks_are_asked_for_and_taken() {
    let mut c = talk(Some(info(3)));
    let r = c.handle_msg(Message::Bitfield(Bytes::from(vec![0b11100000])), 10).unwrap();
    assert!(matches!(r[0], Action::AskInterest(_)));
    let r = c.on_interest(true, 10);
    assert!(matches!(r[0], Action::AskBlocks { .. }));
    assert!(c.info().am_interested);
    let blocks: Vec<BlockInfo> =
        (0..3).map(|i| BlockInfo { index: i, begin: 0, length: 16384 }).collect();
    let r = c.on_blocks(blocks.clone(), 11);
    let mut asked = sent(&r);
    asked.reverse();
    assert_eq!(asked, blocks);
    // a block that was not asked for is counted, and goes no further
    let stray = Block { index: 2, begin: 5, data: Bytes::from(vec![0u8; 4]) };
    assert!(c.handle_msg(Message::Piece(stray), 12).unwrap().is_empty());
    let right = Block { index: 2, begin: 0, data: Bytes::from(vec![0u8; 16384]) };
    let r = c.handle_msg(Message::Piece(right), 13).unwrap();
    assert!(matches!(&r[0], Action::ReceiveBlock(b) if b.index == 2));
    let r = c.handle_msg(Message::Choke, 14).unwrap();
    assert!(matches!(r[0], Action::ClearRequests));
}

#[test]
fn bitfields_come_once_and_are_checked() {
    let mut c = talk(Some(info(3)));
    assert!(matches!(
        c.handle_msg(Message::Bitfield(Bytes::from(vec![0xFF])), 1),
        Err(ConnectionError::BitfieldError(BitfieldError::NonZeroSpareBits))
    ));
    c.handle_msg(Message::Bitfield(Bytes::from(vec![0x80])), 1).unwrap();
    match c.handle_msg(Message::Bitfield(Bytes::from(vec![0x80])), 1) {
        Err(e) => assert_eq!(e.message(), "Protocol error: Duplicate bitfield"),
        Ok(_) => panic!("a second bitfield"),
    }
    match c.handle_msg(Message::Have { piece_index: 3 }, 1) {
        Err(e) => assert_eq!(e.message(), "Protocol error: HAVE piece index 3 >= num_pieces 3"),
        Ok(_) => panic!("no such piece"),
    }
    let r = c.handle_msg(Message::Have { piece_index: 2 }, 1).unwrap();
    assert!(matches!(r[0], Action::Have(2)));
    let field: Bitfield = c.into_bitfield().unwrap();
    assert_eq!(field.iter_set(), vec![0, 2]);
}

#[test]
fn pieces_are_noted_before_the_torrent_is_known() {
    let mut c = talk(None);
    assert!(c.handle_msg(Message::Have { piece_index: 9 }, 1).unwrap().is_empty());
    let r = c.handle_cmd(PeerMessage::HaveMetadata(info(12))).unwrap();
    assert!(matches!(r[0], Action::AskInterest(_)));

    // a number that is too high ends the conversation, but is noted
    let mut c = talk(None);
    match c.handle_msg(Message::Have { piece_index: 70000 }, 1) {
        Err(e) => assert_eq!(
            e.message(),
            "Protocol error: HAVE piece index 70000 exceeds pre-metadata limit"
        ),
        Ok(_) => panic!("no piece has that number"),
    }
    match c.handle_msg(Message::Bitfield(Bytes::from(vec![0x80])), 1) {
        Err(e) => assert_eq!(e.message(), "Protocol error: Duplicate bitfield"),
        Ok(_) => panic!("pieces are known already"),
    }
}

#[test]
fn metadata_is_asked_for_and_handed_on() {
    let mut c = talk(None);
    let hello = ExtendedHandshake {
        m: Some(vec![(b"ut_metadata".to_vec(), 3)]),
        metadata_size: Some(20000),
        reqq: Some(500),
        v: None,
        yourip: None,
    };
    let r = c.handle_msg(Message::Extended(ExtendedMessage::Handshake(hello)), 1).unwrap();
    assert!(matches!(r[0], Action::PeerWithMetadata(20000)));
    assert!(matches!(r[1], Action::AskMetadataPiece));
    assert!(c.maybe_request_metadata());
    let r = c.request_metadata(Some(1));
    match &r[0] {
        Action::Send(Message::Extended(ExtendedMessage::ExtensionMessage(m))) => {
            assert_eq!(m.id, 3);
            assert_eq!(&m.payload[..], b"d8:msg_typei0e5:piecei1ee");
        }
        _ => panic!("no request"),
    }
    let mut payload = b"d8:msg_typei1e5:piecei1e10:total_sizei20000ee".to_vec();
    payload.extend_from_slice(&[7, 8, 9]);
    let m = RawExtendedMessage { id: 1, payload: Bytes::from(payload) };
    let r = c.handle_msg(Message::Extended(ExtendedMessage::ExtensionMessage(m)), 2).unwrap();
    match &r[0] {
        Action::ReceiveMetadata { piece, data } => {
            assert_eq!(*piece, 1);
            assert_eq!(&data[..], &[7, 8, 9]);
        }
        _ => panic!("no metadata"),
    }
    let r = c.handle_metadata_message(Bytes::from_static(b"d8:msg_typei2e5:piecei0ee")).unwrap();
    assert!(matches!(r[0], Action::MetadataRejected(0)));
    let r = c.handle_metadata_message(Bytes::from_static(b"d8:msg_typei0e5:piecei0ee")).unwrap();
    assert!(matches!(r[0], Action::Send(_)));
    for (bad, text) in [
        (&b"i1e"[..], "metadata message not a dict"),
        (&b"d5:piecei0ee"[..], "missing msg_type"),
        (&b"d8:msg_typei1ee"[..], "missing piece"),
        (&b"d8:msg_typei1e5:piecei0ee"[..], "missing total_size"),
        (&b"d8:msg_typei1e5:piecei0e10:total_sizei1ee"[..], "no data after bencode header"),
        (&b"d8:msg_typei-4e5:piecei0ee"[..], "unknown metadata msg_type: -4"),
    ] {
        match c.handle_metadata_message(Bytes::copy_from_slice(bad)) {
            Err(e) => assert_eq!(e.message(), format!("Protocol error: {}", text)),
            Ok(_) => panic!("{}", text),
        }
    }
}

#[test]
fn commands_are_carried_out() {
    let mut c = talk(Some(info(3)));
    let r = c.handle_cmd(PeerMessage::SendUnchoke).unwrap();
    assert!(matches!(r[0], Action::Send(Message::Unchoke)));
    let b = BlockInfo { index: 0, begin: 0, length: 1 };
    let r = c.handle_msg(Message::Request(b), 1).unwrap();
    assert!(matches!(r[0], Action::BlockRequest(_)));
    let r = c.handle_cmd(PeerMessage::SendChoke).unwrap();
    assert!(matches!(r[0], Action::Send(Message::Choke)));
    assert!(c.handle_msg(Message::Request(b), 1).unwrap().is_empty());
    let r = c.handle_msg(Message::Port { port: 99 }, 1).unwrap();
    assert!(matches!(r[0], Action::AddNode(SocketAddr { port: 99, .. })));
    assert!(c.handle_cmd(PeerMessage::Disconnect).unwrap().is_empty());
    assert!(c.accepts_cmd(&PeerMessage::SendHave { piece_index: 1 }));
    assert!(c.handle_cmd(PeerMessage::SendHave { piece_index: 1 }).unwrap().is_empty());
    c.handle_msg(Message::Bitfield(Bytes::from(vec![0x40])), 2).unwrap();
    assert!(!c.accepts_cmd(&PeerMessage::SendHave { piece_index: 8 }));
    let r = c.handle_cmd(PeerMessage::SendHave { piece_index: 1 }).unwrap();
    assert!(matches!(r[0], Action::Send(Message::Have { piece_index: 1 })));
    let block = Block { index: 0, begin: 0, data: Bytes::from(vec![0; 4]) };
    assert!(c.accepts_msg(&Message::Piece(block)));
}

#[test]
fn silence_ends_a_conversation() {
    let mut c = talk(Some(info(3)));
    assert!(matches!(c.heartbeat(45_000), Some(Message::KeepAlive)));
    assert!(c.heartbeat(45_001).is_none());
    c.handle_msg(Message::KeepAlive, 40_000).unwrap();
    assert!(c.heartbeat(80_000).is_some());
    c.on_interest(true, 40_000);
    assert!(c.heartbeat(80_000).is_none());
}
