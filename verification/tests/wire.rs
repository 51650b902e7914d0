use bytes::Bytes;
use torrent_rs::bencode::{Bencode, Encode};
use torrent_rs::protocol::{
    Block, BlockInfo, ExtendedHandshake, ExtendedMessage, Handshake, Message, MetadataMessage,
    RawExtendedMessage, WireError,
};
use torrent_rs::types::{InfoHash, PeerID};

fn messages() -> Vec<Message> {
    vec![
        Message::KeepAlive,
        Message::Choke,
        Message::Unchoke,
        Message::Interested,
        Message::NotInterested,
        Message::Have { piece_index: 0x01020304 },
        Message::Bitfield(Bytes::from(vec![0xF0, 0x0F])),
        Message::Request(BlockInfo { index: 1, begin: 2, length: 3 }),
        Message::Piece(Block { index: 1, begin: 16384, data: Bytes::from(vec![9, 8, 7]) }),
        Message::Cancel(BlockInfo { index: u32::MAX, begin: 0, length: 16384 }),
        Message::Port { port: 6881 },
        Message::Extended(ExtendedMessage::Handshake(ExtendedHandshake {
            m: Some(vec![(b"ut_metadata".to_vec(), 1)]),
            metadata_size: Some(31235),
            reqq: Some(250),
            v: None,
            yourip: Some(vec![1, 2, 3, 4]),
        })),
        Message::Extended(ExtendedMessage::ExtensionMessage(RawExtendedMessage {
            id: 3,
            payload: Bytes::from(vec![1, 2, 3]),
        })),
    ]
}

#[test]
fn messages_read_back() {
    let mut stream = Vec::new();
    for m in messages() {
        stream.extend_from_slice(&m.to_bytes().unwrap());
    }
    let mut at = 0;
    for m in messages() {
        let (read, len) = Message::read(&stream[at..]).unwrap().unwrap();
        assert_eq!(read, m);
        at += len;
    }
    assert_eq!(at, stream.len());
    assert_eq!(Message::read(&[]), Ok(None));
}

#[test]
fn messages_have_their_bytes() {
    assert_eq!(Message::KeepAlive.to_bytes().unwrap(), vec![0, 0, 0, 0]);
    assert_eq!(Message::Unchoke.to_bytes().unwrap(), vec![0, 0, 0, 1, 1]);
    let request = Message::Request(BlockInfo { index: 1, begin: 0x4000, length: 0x4000 });
    assert_eq!(
        request.to_bytes().unwrap(),
        vec![0, 0, 0, 13, 6, 0, 0, 0, 1, 0, 0, 0x40, 0, 0, 0, 0x40, 0]
    );
}

#[test]
fn incomplete_and_broken_messages() {
    assert_eq!(Message::read(&[0, 0, 0, 5, 4, 0, 0]), Ok(None));
    assert_eq!(Message::read(&[0, 0]), Ok(None));
    assert_eq!(Message::from_body(&[99]), Err(WireError::UnknownId(99)));
    assert_eq!(Message::from_body(&[4, 0, 0]), Err(WireError::InvalidLength(4)));
    assert_eq!(Message::from_body(&[20, 0, b'i', b'1', b'e']), Err(WireError::InvalidExtension));
}

#[test]
fn handshakes_read_back() {
    let h = Handshake::new(PeerID::new([7u8; 20]), InfoHash::new([8u8; 20]));
    let bytes = h.to_bytes();
    assert_eq!(bytes.len(), Handshake::HANDSHAKE_LEN);
    assert_eq!(&bytes[0..20], b"\x13BitTorrent protocol");
    let read = Handshake::from_bytes(&bytes).unwrap();
    assert_eq!(read, h);
    assert!(read.support_extended_message() && read.support_dht());
    let mut bad = bytes.clone();
    bad[0] = 18;
    assert!(Handshake::from_bytes(&bad).is_none());
    assert!(Handshake::from_bytes(&bytes[0..67]).is_none());
}

#[test]
fn metadata_messages_have_their_bytes() {
    let request = MetadataMessage::Request { piece: 2 };
    assert_eq!(Bencode::encode(&request), b"d8:msg_typei0e5:piecei2ee".to_vec());
    let data = MetadataMessage::Data { piece: 0, total_size: 34256 };
    assert_eq!(
        Bencode::encode(&data),
        b"d8:msg_typei1e5:piecei0e10:total_sizei34256ee".to_vec()
    );
    let reject = MetadataMessage::Reject { piece: 1 };
    assert_eq!(reject.to_bencode(), Bencode::decode(b"d8:msg_typei2e5:piecei1ee").unwrap());
}
