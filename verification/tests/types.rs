use sha1::{Digest, Sha1};
use std::sync::Arc;
use torrent_rs::bencode::Bencode;
use torrent_rs::metainfo::{calculate_info_hash, FileMode, Info};
use torrent_rs::storage::storage_manager::{StorageManager, StorageState};
use torrent_rs::path::FilePath;
use torrent_rs::types::{same_bytes, HexError, InfoHash, PeerID};

#[test]
fn test_identify_client() {
    // qBittorrent
    let mut qb_id = [0u8; 20];
    qb_id[0..8].copy_from_slice(b"-qB4310-");
    let peer_id = PeerID::new(qb_id);
    assert_eq!(peer_id.identify_client(), Some("qBittorrent"));

    // Transmission
    let mut tr_id = [0u8; 20];
    tr_id[0..8].copy_from_slice(b"-TR2940-");
    let peer_id = PeerID::new(tr_id);
    assert_eq!(peer_id.identify_client(), Some("Transmission"));

    // uTorrent
    let mut ut_id = [0u8; 20];
    ut_id[0..8].copy_from_slice(b"-UT3550-");
    let peer_id = PeerID::new(ut_id);
    assert_eq!(peer_id.identify_client(), Some("µTorrent"));

    // Shadow style
    let mut sh_id = [0u8; 20];
    sh_id[0] = b'S';
    let peer_id = PeerID::new(sh_id);
    assert_eq!(peer_id.identify_client(), Some("Shadow"));

    // Unknown
    let mut un_id = [0u8; 20];
    un_id[0..8].copy_from_slice(b"-ZZ9999-");
    let peer_id = PeerID::new(un_id);
    assert_eq!(peer_id.identify_client(), None);
}

#[test]
fn hashes_read_back_from_hex() {
    let mut raw = [0u8; 20];
    for i in 0..20 {
        raw[i] = (i * 13 + 200) as u8;
    }
    let hash = InfoHash::new(raw);
    let hex = hash.to_hex();
    assert_eq!(hex, "c8d5e2effc091623303d4a5764717e8b98a5b2bf");
    assert!(InfoHash::from_hex(&hex).unwrap().same(&hash));
    assert!(InfoHash::from_hex("C8D5E2EFFC091623303D4A5764717E8B98A5B2BF").unwrap().same(&hash));
    assert_eq!(PeerID::new(raw).to_hex(), hex);
    assert_eq!(PeerID::from_hex(&hex).unwrap().as_bytes(), &raw);
}

#[test]
fn hex_that_is_none_is_refused() {
    assert!(matches!(InfoHash::from_hex("c8d5"), Err(HexError::InvalidStringLength)));
    assert!(matches!(InfoHash::from_hex("c8d"), Err(HexError::OddLength)));
    let bad = "zzd5e2effc091623303d4a5764717e8b98a5b2bf";
    assert!(matches!(
        InfoHash::from_hex(bad),
        Err(HexError::InvalidHexCharacter { .. })
    ));
}

#[test]
fn hashes_read_from_base32() {
    // twenty times the byte 0xff, then a text with other letters
    let all = InfoHash::from_base32("77777777777777777777777777777777").unwrap();
    assert_eq!(all.as_bytes(), &[255u8; 20]);
    let none = InfoHash::from_base32("AAAAAAAAAAAAAAAAAAAAAAAAAAAAAAAA").unwrap();
    assert_eq!(none.as_bytes(), &[0u8; 20]);
    let counted = InfoHash::from_base32("AEBAGBAFAYDQQCIKBMGA2DQPCAIREEYU").unwrap();
    let bytes: Vec<u8> = (1..=20).collect();
    assert_eq!(counted.as_bytes().to_vec(), bytes);
    assert!(InfoHash::from_base32("aebagbafaydqqcikbmga2dqpcaireeyu").is_none());
    assert!(InfoHash::from_base32("AEBAGBAFAYDQQCIKBMGA2DQPCAIREEY=").is_none());
    assert!(InfoHash::from_base32("AAAA").is_none());
    assert!(InfoHash::from_base32("0AAAAAAAAAAAAAAAAAAAAAAAAAAAAAAA").is_none());
}

#[test]
fn slices_of_the_right_length_are_ids() {
    assert!(InfoHash::from_slice(&[1u8; 20]).is_some());
    assert!(InfoHash::from_slice(&[1u8; 19]).is_none());
    assert!(PeerID::from_slice(&[1u8; 20]).is_some());
    assert!(PeerID::from_slice(&[1u8; 21]).is_none());
    assert!(same_bytes(InfoHash::new([7u8; 20]).as_slice(), &[7u8; 20]));
    assert!(!same_bytes(&[1, 2], &[1, 2, 3]));
}

#[test]
fn generated_ids_name_this_client() {
    let a = PeerID::generate();
    let b = PeerID::generate();
    assert_eq!(a.as_bytes()[0..8], PeerID::with_tail([0u8; 12]).as_bytes()[0..8]);
    assert_eq!(a.as_bytes()[0], b'-');
    assert_eq!(a.as_bytes()[7], b'-');
    assert_ne!(a.as_bytes(), b.as_bytes());
}

#[test]
fn digest_of_known_text() {
    let mut known = [0u8; 20];
    let hex = "a9993e364706816aba3e25717850c26c9cd0d89d";
    known.copy_from_slice(InfoHash::from_hex(hex).unwrap().as_slice());
    let info = Arc::new(Info {
        piece_length: 3,
        pieces: vec![known],
        private: None,
        mode: FileMode::SingleFile { name: "abc".to_string(), length: 3, md5sum: None },
    });
    let mut state = StorageState::new(FilePath::from_text("/"));
    state.add_torrent(InfoHash::new([0u8; 20]), info);
    let cache = state.get_torrent(&InfoHash::new([0u8; 20])).unwrap();
    assert!(StorageManager::verify(&cache, 0, b"abc").unwrap());
    assert!(!StorageManager::verify(&cache, 0, b"abd").unwrap());
    assert!(StorageManager::verify(&cache, 1, b"abc").is_err());
}

#[test]
fn info_hash_is_the_digest_of_the_dictionary() {
    let value = Bencode::Dict(vec![(b"name".to_vec(), Bencode::Bytes(b"x".to_vec()))]);
    let mut hasher = Sha1::new();
    hasher.update(b"d4:name1:xe");
    let expected: [u8; 20] = hasher.finalize().into();
    assert_eq!(calculate_info_hash(&value), expected);
}
