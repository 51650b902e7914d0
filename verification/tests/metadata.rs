use bytes::Bytes;
use sha1::{Digest, Sha1};
use torrent_rs::magnet::Magnet;
use torrent_rs::metadata::{Metadata, MetadataState};
use torrent_rs::types::InfoHash;

/// An info dictionary that takes two pieces of metadata.
fn dictionary() -> Vec<u8> {
    let count = 900;
    let mut b = format!("d6:lengthi{}e4:name1:x12:piece lengthi4e6:pieces{}:", count * 4, count * 20)
        .into_bytes();
    for i in 0..count * 20 {
        b.push((i % 251) as u8);
    }
    b.push(b'e');
    b
}

fn magnet(data: &[u8]) -> Magnet {
    let mut hasher = Sha1::new();
    hasher.update(data);
    Magnet {
        hash: Some(InfoHash::new(hasher.finalize().into())),
        display_name: Some("shown".to_string()),
        trackers: Vec::new(),
    }
}

fn pending(data: &[u8]) -> Metadata {
    Metadata::MagnetUri { magnet: magnet(data), metadata_state: MetadataState::Pending }
}

#[test]
fn metadata_is_put_together() {
    let data = dictionary();
    let mut m = pending(&data);
    assert!(m.needs_metadata() && !m.has_metadata());
    assert_eq!(m.get_piece(0), None);
    m.set_metadata_size(data.len(), 0).unwrap();
    assert!(!m.needs_metadata());
    // each piece is asked for twice, then the one that was asked for the longest ago
    let asked: Vec<Option<u32>> = (1..7).map(|now| m.get_piece(now)).collect();
    assert_eq!(asked, vec![Some(0), Some(0), Some(1), Some(1), Some(0), Some(1)]);
    m.put_metadata_piece(Bytes::copy_from_slice(&data[16384..]), 1).unwrap();
    assert_eq!(m.mark_metadata_piece(1), Ok(false));
    assert!(m.construct_info().is_err());
    m.put_metadata_piece(Bytes::copy_from_slice(&data[..16384]), 0).unwrap();
    assert_eq!(m.mark_metadata_piece(0), Ok(true));
    assert!(m.is_valid());
    m.construct_info().unwrap();
    assert!(m.has_metadata());
    let info = m.info().unwrap();
    assert_eq!(info.piece_length, 4);
    assert_eq!(info.pieces.len(), 900);
    assert_eq!(m.display_name(), Some("shown"));
}

#[test]
fn pieces_that_are_not_wanted_are_refused() {
    let data = dictionary();
    let mut m = pending(&data);
    assert_eq!(m.set_metadata_size(0, 0), Err("Metadata size cannot be zero".to_string()));
    assert!(m.put_metadata_piece(Bytes::new(), 0).is_err());
    m.set_metadata_size(data.len(), 0).unwrap();
    assert!(m.set_metadata_size(data.len(), 0).is_err());
    assert!(m.put_metadata_piece(Bytes::copy_from_slice(&data[..100]), 0).is_err());
    assert!(m.put_metadata_piece(Bytes::copy_from_slice(&data[..100]), 7).is_err());
    assert!(m.mark_metadata_piece(7).is_err());
    assert!(m.metadata_request_reject(7, 0).is_err());
    assert!(m.metadata_request_reject(1, 0).is_ok());
    assert!(m.has_room());
}

#[test]
fn forged_metadata_is_not_taken() {
    let data = dictionary();
    let mut m = pending(&data);
    m.set_metadata_size(data.len(), 0).unwrap();
    let mut forged = data.clone();
    let last = forged.len() - 2;
    forged[last] ^= 1;
    for (i, piece) in forged.chunks(16384).enumerate() {
        m.put_metadata_piece(Bytes::copy_from_slice(piece), i as u32).unwrap();
        m.mark_metadata_piece(i as u32).unwrap();
    }
    assert_eq!(
        m.construct_info(),
        Err("Cannot construct info: metadata validation failed".to_string())
    );
    assert!(!m.has_metadata());
    assert!(!Metadata::validate_metadata_hash(&magnet(&data), &forged));
    assert!(Metadata::validate_metadata_hash(&magnet(&data), &data));
}
