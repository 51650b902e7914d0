use torrent_rs::bencode::{Bencode, BencodeError};
use torrent_rs::metainfo::{
    calculate_info_hash, parse_info_dict, parse_pieces, parse_torrent_from_bytes,
    torrent_file, FileMode, TorrentParseError,
};

fn info(single: bool) -> Vec<u8> {
    let mut b = Vec::new();
    if single {
        b.extend_from_slice(b"d6:lengthi700e4:name5:a.bin12:piece lengthi512e6:pieces40:");
    } else {
        b.extend_from_slice(b"d5:filesld6:lengthi300e4:pathl1:a5:b.binee");
        b.extend_from_slice(b"d6:lengthi400e4:pathl5:c.binee");
        b.extend_from_slice(b"e4:name3:dir12:piece lengthi512e6:pieces40:");
    }
    b.extend_from_slice(&[1u8; 20]);
    b.extend_from_slice(&[2u8; 20]);
    b.extend_from_slice(b"7:privatei1ee");
    b
}

fn file(single: bool) -> Vec<u8> {
    let mut b = b"d8:announce15:http://a.b/ann113:announce-listll15:http://a.b/ann1".to_vec();
    b.extend_from_slice(b"13:udp://c.d:800el13:udp://c.d:801ee7:comment2:hi4:info");
    b.extend_from_slice(&info(single));
    b.extend_from_slice(b"e");
    b
}

#[test]
fn torrent_of_one_file() {
    let t = parse_torrent_from_bytes(&file(true)).unwrap();
    assert_eq!(t.announce, "http://a.b/ann1");
    assert_eq!(t.comment.as_deref(), Some("hi"));
    assert_eq!(t.created_by, None);
    assert!(t.is_private());
    assert_eq!(t.num_pieces(), 2);
    assert_eq!(t.total_size(), 700);
    assert!(t.info.mode.is_single_file() && !t.info.mode.is_multi_file());
    assert_eq!(t.info.get_piece_len(0), 512);
    assert_eq!(t.info.get_piece_len(1), 188);
    assert_eq!(t.info.get_piece_hash(1), Some(&[2u8; 20]));
    assert_eq!(t.info.get_piece_hash(2), None);
    assert!(t.info.mode.size_fits());
    // the tracker of the file first, and none twice
    let trackers = t.all_trackers();
    assert_eq!(trackers[0], "http://a.b/ann1");
    assert!(trackers.contains(&"udp://c.d:800".to_string()));
    assert!(trackers.contains(&"udp://c.d:801".to_string()));
    let dict = Bencode::decode(&info(true)).unwrap();
    assert_eq!(t.info_hash.as_bytes(), &calculate_info_hash(&dict));
}

#[test]
fn torrent_of_several_files() {
    let t = parse_torrent_from_bytes(&file(false)).unwrap();
    assert_eq!(t.info.mode.name(), "dir");
    let files = t.files();
    assert_eq!(files.len(), 2);
    assert_eq!(files[0].path.as_str(), "a/b.bin");
    assert_eq!(files[0].filename(), Some("b.bin"));
    assert_eq!(files[0].extension(), Some("bin"));
    assert_eq!(files[0].path_str(), Some("a/b.bin"));
    assert_eq!(files[0].directory_path().unwrap().as_str(), "a");
    assert_eq!(files[0].path_components(), vec!["a".to_string(), "b.bin".to_string()]);
    assert_eq!((files[0].length, files[1].length), (300, 400));
    assert_eq!(t.total_size(), 700);
    assert!(matches!(t.info.mode, FileMode::MultiFile { .. }));
}

#[test]
fn what_is_no_torrent_is_refused() {
    assert!(matches!(
        parse_torrent_from_bytes(b"d8:announce"),
        Err(TorrentParseError::BencodeError(BencodeError::UnexpectedEnd))
    ));
    match parse_torrent_from_bytes(b"d8:announce1:xe") {
        Err(TorrentParseError::MissingField(m)) => assert_eq!(m, "info"),
        _ => panic!("a field is missing"),
    }
    assert!(matches!(
        parse_torrent_from_bytes(b"i1e"),
        Err(TorrentParseError::InvalidFieldType(_))
    ));
    assert!(matches!(parse_pieces(&[0u8; 21]), Err(TorrentParseError::InvalidFieldType(_))));
    assert_eq!(parse_pieces(&[5u8; 40]).unwrap(), vec![[5u8; 20]; 2]);
    let bad = Bencode::decode(b"d6:lengthi1e4:name1:\xff12:piece lengthi1e6:pieces0:e").unwrap();
    assert!(matches!(parse_info_dict(&bad), Err(TorrentParseError::InvalidUtf8)));
    assert_eq!(TorrentParseError::InvalidUtf8.message(), "Invalid UTF-8 string");
    assert_eq!(
        TorrentParseError::MissingField("name".to_string()).message(),
        "Missing required field: name"
    );
}

#[test]
fn sizes_that_cannot_be_counted_are_noticed() {
    let mode = |lengths: &[i64]| FileMode::MultiFile {
        name: "x".to_string(),
        files: lengths
            .iter()
            .map(|l| torrent_rs::metainfo::FileInfo {
                length: *l,
                md5sum: None,
                path: torrent_rs::path::FilePath::from_text("f"),
            })
            .collect(),
    };
    assert!(mode(&[i64::MAX]).size_fits());
    assert!(!mode(&[i64::MAX, 1]).size_fits());
    assert!(!mode(&[i64::MAX, 1, -1]).size_fits());
    assert!(mode(&[i64::MAX, -1, 1]).size_fits());
}

#[test]
fn torrent_files_are_put_together() {
    let t = parse_torrent_from_bytes(&file(true)).unwrap();
    let urls = vec!["http://a".to_string(), "udp://b:1".to_string()];
    let written = Bencode::encoder(&torrent_file(&urls, &t.info));
    assert!(written.starts_with(b"d8:announce8:http://a13:announce-listll8:http://ael9:udp://b:1ee4:infod"));
    let read = parse_torrent_from_bytes(&written).unwrap();
    assert_eq!(read.announce, "http://a");
    assert_eq!(read.all_trackers(), urls);
    assert_eq!(read.info.mode.name(), t.info.mode.name());
    assert_eq!(read.info.pieces, t.info.pieces);
    let written = Bencode::encoder(&torrent_file(&Vec::new(), &t.info));
    assert!(written.starts_with(b"d8:announce0:13:announce-listle4:infod"));
}

#[test]
fn written_torrents_keep_their_hash() {
    for single in [true, false] {
        let t = parse_torrent_from_bytes(&file(single)).unwrap();
        assert_eq!(Bencode::encode(&*t.info), info(single));
        let urls = vec!["http://a".to_string()];
        let written = Bencode::encoder(&torrent_file(&urls, &t.info));
        let read = parse_torrent_from_bytes(&written).unwrap();
        assert_eq!(read.info_hash, t.info_hash);
        assert!(read.is_private());
        assert_eq!(read.files().len(), t.files().len());
    }
    for dict in [
        &b"d6:lengthi3e6:md5sum4:abcd4:name1:x12:piece lengthi2e6:pieces0:e"[..],
        &b"d5:filesld6:lengthi3e6:md5sum4:abcd4:pathl1:a2:..eee4:name1:x12:piece lengthi2e6:pieces0:e"[..],
    ] {
        let read = parse_info_dict(&Bencode::decode(dict).unwrap()).unwrap();
        assert_eq!(Bencode::encode(&read), dict);
    }
}
