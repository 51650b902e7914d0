use sha1::{Digest, Sha1};
use std::sync::Arc;
use torrent_rs::metainfo::{FileInfo, FileMode, Info, TorrentInfo};
use torrent_rs::path::FilePath;
use torrent_rs::types::InfoHash;
use torrent_rs::verify_torrent_file::{
    calculate_piece_length, content_root, verify_content, ContentCheck,
};

fn compute_piece_hashes(data: &[u8], piece_length: i64) -> Vec<[u8; 20]> {
    data.chunks(piece_length as usize)
        .map(|chunk| {
            let mut hasher = Sha1::new();
            hasher.update(chunk);
            hasher.finalize().into()
        })
        .collect()
}

fn torrent(mode: FileMode, pieces: Vec<[u8; 20]>, piece_length: i64) -> Arc<TorrentInfo> {
    Arc::new(TorrentInfo {
        info: Arc::new(Info { piece_length, pieces, private: None, mode }),
        announce: "http://tracker.example.com/announce".to_string(),
        announce_list: None,
        creation_date: None,
        comment: None,
        created_by: None,
        encoding: None,
        info_hash: InfoHash::new([0u8; 20]),
    })
}

fn create_test_torrent_info_single(name: &str, data: &[u8], piece_length: i64) -> Arc<TorrentInfo> {
    torrent(
        FileMode::SingleFile { name: name.to_string(), length: data.len() as i64, md5sum: None },
        compute_piece_hashes(data, piece_length),
        piece_length,
    )
}

fn create_test_torrent_info_multi(
    name: &str,
    files: &[(&str, &[u8])],
    piece_length: i64,
) -> Arc<TorrentInfo> {
    let mut concatenated = Vec::new();
    let mut file_infos = Vec::new();
    for (path, data) in files {
        concatenated.extend_from_slice(data);
        file_infos.push(FileInfo {
            length: data.len() as i64,
            md5sum: None,
            path: FilePath::from_text(path),
        });
    }
    let pieces = compute_piece_hashes(&concatenated, piece_length);
    torrent(
        FileMode::MultiFile { name: name.to_string(), files: file_infos },
        pieces,
        piece_length,
    )
}

/// Checks content piece by piece, reading each piece from the files that it lies in.
fn verify(files: &[&[u8]], metainfo: &Arc<TorrentInfo>) -> bool {
    let mut check = ContentCheck::new(Arc::clone(metainfo));
    let mut pieces = Vec::new();
    let mut verdict = true;
    while let Some((len, segments)) = check.read_piece() {
        let mut piece = vec![0u8; len];
        for s in &segments {
            piece[s.at..s.at + s.len].copy_from_slice(&files[s.file][s.start..s.start + s.len]);
        }
        let result = check.take(&piece);
        if result == Some(false) {
            verdict = false;
            break;
        }
        pieces.push(piece);
    }
    if verdict {
        assert!(verify_content(&pieces, metainfo));
    }
    verdict
}

#[test]
fn test_verify_single_file_valid() {
    let piece_length = 512i64;
    let data: Vec<u8> = (0..1024).map(|i| i as u8).collect();
    let metainfo = create_test_torrent_info_single("test.bin", &data, piece_length);
    let result = verify(&[&data], &metainfo);
    assert!(result);
}

#[test]
fn test_verify_single_file_invalid() {
    let piece_length = 512i64;
    let original_data: Vec<u8> = (0..1024).map(|i| i as u8).collect();
    let metainfo = create_test_torrent_info_single("test.bin", &original_data, piece_length);
    let corrupted_data: Vec<u8> = (0..1024).map(|i| (i + 1) as u8).collect();
    let result = verify(&[&corrupted_data], &metainfo);
    assert!(!result);
}

#[test]
fn test_verify_multi_file_valid() {
    let piece_length = 512i64;

    let file1_data: Vec<u8> = (0..300).map(|i| i as u8).collect();
    let file2_data: Vec<u8> = (0..400).map(|i| (i + 100) as u8).collect();
    let file3_data: Vec<u8> = (0..200).map(|i| (i + 200) as u8).collect();

    let files = vec![
        ("file1.bin", file1_data.as_slice()),
        ("subdir/file2.bin", file2_data.as_slice()),
        ("file3.bin", file3_data.as_slice()),
    ];

    let metainfo = create_test_torrent_info_multi("test_multi", &files, piece_length);
    assert_eq!(
        content_root(&FilePath::from_text("/tmp"), &metainfo).join("subdir").as_str(),
        "/tmp/test_multi/subdir"
    );
    let result = verify(&[&file1_data, &file2_data, &file3_data], &metainfo);
    assert!(result);
}

#[test]
fn test_verify_multi_file_piece_spans_files() {
    let piece_length = 256i64;

    let file1_data: Vec<u8> = (0..200).map(|i| i as u8).collect();
    let file2_data: Vec<u8> = (0..300).map(|i| (i + 100) as u8).collect();

    let files = vec![
        ("file1.bin", file1_data.as_slice()),
        ("file2.bin", file2_data.as_slice()),
    ];

    let metainfo = create_test_torrent_info_multi("test_span", &files, piece_length);
    let result = verify(&[&file1_data, &file2_data], &metainfo);
    assert!(result);
}

#[test]
fn test_verify_multi_file_invalid() {
    let piece_length = 512i64;

    let file1_data: Vec<u8> = (0..300).map(|i| i as u8).collect();
    let file2_data: Vec<u8> = (0..400).map(|i| (i + 100) as u8).collect();

    let files = vec![
        ("file1.bin", file1_data.as_slice()),
        ("file2.bin", file2_data.as_slice()),
    ];

    let metainfo = create_test_torrent_info_multi("test_invalid", &files, piece_length);
    let corrupted_file2: Vec<u8> = (0..400).map(|i| (i + 200) as u8).collect();
    let result = verify(&[&file1_data, &corrupted_file2], &metainfo);
    assert!(!result);
}

#[test]
fn test_verify_last_piece_smaller() {
    let piece_length = 512i64;
    let data: Vec<u8> = (0..700).map(|i| i as u8).collect();
    let metainfo = create_test_torrent_info_single("test.bin", &data, piece_length);
    let result = verify(&[&data], &metainfo);
    assert!(result);
    assert_eq!(metainfo.num_pieces(), 2);
}

#[test]
fn pieces_have_their_lengths() {
    assert_eq!(calculate_piece_length(0, 512, 700), 512);
    assert_eq!(calculate_piece_length(1, 512, 700), 188);
    assert_eq!(calculate_piece_length(2, 512, 700), 0);
}

#[test]
fn content_without_a_hash_cannot_be_checked() {
    let mode = FileMode::SingleFile { name: "f".to_string(), length: 21, md5sum: None };
    let data = vec![7u8; 21];
    let mut hashes = compute_piece_hashes(&data, 10);
    hashes.pop();
    let metainfo = torrent(mode, hashes, 10);

    // the first pieces can be checked all the same, and a wrong one is found
    let mut check = ContentCheck::new(Arc::clone(&metainfo));
    assert!(check.can_read() && check.can_take());
    assert_eq!(check.take(&data[0..10]), None);
    assert!(check.can_take());
    assert_eq!(check.take(&[0u8; 10]), Some(false));
    assert_eq!(check.take(&data[10..20]), None);
    assert_eq!(check.read_piece().unwrap().0, 1);
    assert!(!check.can_take());
    let pieces = vec![data[0..10].to_vec(), vec![0u8; 10], vec![7u8]];
    assert!(!verify_content(&pieces, &metainfo));
}
