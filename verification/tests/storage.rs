use std::collections::HashMap;
use std::sync::Arc;
use torrent_rs::metainfo::{FileInfo, FileMode, Info};
use torrent_rs::path::FilePath;
use torrent_rs::protocol::Block;
use torrent_rs::storage::segments::Segment;
use torrent_rs::storage::storage_manager::{
    gather, StorageAction, StorageManager, StorageState, TorrentCache,
};
use torrent_rs::storage::{get_download_dir, StorageError, StorageMessage};
use torrent_rs::types::InfoHash;

/// Files that are held in memory, by their paths.
struct Files {
    held: HashMap<String, Vec<u8>>,
}

impl Files {
    fn new() -> Self {
        Files { held: HashMap::new() }
    }

    fn put(&mut self, path: &FilePath, start: usize, data: &[u8]) {
        let file = self.held.entry(path.as_str().to_string()).or_insert_with(Vec::new);
        if file.len() < start + data.len() {
            file.resize(start + data.len(), 0);
        }
        file[start..start + data.len()].copy_from_slice(data);
    }

    fn get(&self, path: &FilePath, start: usize, len: usize) -> Vec<u8> {
        self.held[path.as_str()][start..start + len].to_vec()
    }
}

fn write(
    state: &StorageState,
    files: &mut Files,
    cache: &TorrentCache,
    piece: u32,
    data: &[u8],
) -> Option<()> {
    let (segments, complete) = StorageState::write(cache, piece, data.len());
    for s in &segments {
        let path = state.file_path(cache, s.file);
        files.put(&path, s.start, &data[s.at..s.at + s.len]);
    }
    complete.then_some(())
}

fn read(
    state: &StorageState,
    files: &Files,
    cache: &TorrentCache,
    piece: u32,
    begin: u32,
    length: u32,
) -> Option<Block> {
    let (segments, complete) = StorageState::read(cache, piece, begin, length);
    if !complete {
        return None;
    }
    let parts: Vec<Vec<u8>> = segments
        .iter()
        .map(|s| files.get(&state.file_path(cache, s.file), s.start, s.len))
        .collect();
    Some(gather(piece, begin, length, &segments, &parts))
}

#[test]
fn test_read_and_write_single_file_mode() {
    let piece_length = 512i64;
    let total_length = 1024i64;
    let num_pieces = (total_length as f64 / piece_length as f64).ceil() as usize;
    let pieces = vec![[0u8; 20]; num_pieces];

    let info = Arc::new(Info {
        piece_length,
        pieces,
        private: None,
        mode: FileMode::SingleFile {
            name: "test_single.bin".to_string(),
            length: total_length,
            md5sum: None,
        },
    });

    let info_hash = InfoHash::new([0u8; 20]);

    let mut files = Files::new();
    let mut state = StorageState::new(FilePath::from_text("bt_storage_single"));
    state.add_torrent(info_hash, info);
    let cache = state.get_torrent(&info_hash).unwrap();

    let piece0_data: Vec<u8> = (0..piece_length).map(|i| i as u8).collect();
    let piece1_data: Vec<u8> = (0..piece_length).map(|i| (i + 128) as u8).collect();

    write(&state, &mut files, &cache, 0, &piece0_data).expect("write piece 0 failed");
    write(&state, &mut files, &cache, 1, &piece1_data).expect("write piece 1 failed");

    let read_piece0 =
        read(&state, &files, &cache, 0, 0, piece_length as u32).expect("read piece0 failed");
    assert_eq!(read_piece0.data, piece0_data);

    let read_piece1 =
        read(&state, &files, &cache, 1, 0, piece_length as u32).expect("read piece1 failed");
    assert_eq!(read_piece1.data, piece1_data);

    let block = read(&state, &files, &cache, 0, 256, 256).expect("read block failed");
    assert_eq!(block.data, &piece0_data[256..512]);
}

#[test]
fn test_read_and_write_multi_file_mode() {
    let f1 = FileInfo { length: 600, md5sum: None, path: FilePath::from_text("file1.bin") };
    let f2 = FileInfo {
        length: 500,
        md5sum: None,
        path: FilePath::from_text("subdir").join("file2.bin"),
    };

    let total_length = f1.length + f2.length;
    let piece_length = 512i64;
    let num_pieces = (total_length as f64 / piece_length as f64).ceil() as usize;
    let pieces = vec![[0u8; 20]; num_pieces];

    let info = Arc::new(Info {
        piece_length,
        pieces,
        private: None,
        mode: FileMode::MultiFile { name: "test_multi".to_string(), files: vec![f1, f2] },
    });

    let id = InfoHash::new([1u8; 20]);

    let mut files = Files::new();
    let mut state = StorageState::new(FilePath::from_text("bt_storage_multi"));
    state.add_torrent(id, info);
    let cache = state.get_torrent(&id).unwrap();

    let piece0_data: Vec<u8> = (0..512).map(|i| i as u8).collect();
    let piece1_data: Vec<u8> = (0..512).map(|i| (i + 100) as u8).collect();
    let piece2_data: Vec<u8> = (0..76).map(|i| (i + 200) as u8).collect();

    write(&state, &mut files, &cache, 0, &piece0_data).expect("write piece 0 failed");
    write(&state, &mut files, &cache, 1, &piece1_data).expect("write piece 1 failed");
    write(&state, &mut files, &cache, 2, &piece2_data).expect("write piece 2 failed");

    let read_p0 = read(&state, &files, &cache, 0, 0, 512).expect("read p0 failed");
    assert_eq!(read_p0.data, piece0_data);

    let read_p1 = read(&state, &files, &cache, 1, 0, 512).expect("read p1 failed");
    assert_eq!(read_p1.data, piece1_data);

    let read_p2 = read(&state, &files, &cache, 2, 0, 76).expect("read p2 failed");
    assert_eq!(read_p2.data, piece2_data);

    let spanning_block = read(&state, &files, &cache, 1, 88, 100).expect("spanning read failed");
    assert_eq!(spanning_block.data.len(), 100);
}

fn two_files() -> Arc<Info> {
    Arc::new(Info {
        piece_length: 10,
        pieces: vec![[0u8; 20]; 2],
        private: None,
        mode: FileMode::MultiFile {
            name: "pair".to_string(),
            files: vec![
                FileInfo { length: 7, md5sum: None, path: FilePath::from_text("a/one") },
                FileInfo { length: 0, md5sum: None, path: FilePath::from_text("none") },
                FileInfo { length: 8, md5sum: None, path: FilePath::from_text("a/two") },
            ],
        },
    })
}

#[test]
fn pieces_are_split_at_the_ends_of_files() {
    let mut state = StorageState::new(FilePath::from_text("/d"));
    let directories = state.add_torrent(InfoHash::new([2u8; 20]), two_files());
    let texts: Vec<&str> = directories.iter().map(|d| d.as_str()).collect();
    assert!(texts.contains(&"/d/pair/a"));
    let cache = state.get_torrent(&InfoHash::new([2u8; 20])).unwrap();
    let (segments, complete) = StorageState::write(&cache, 0, 10);
    assert!(complete);
    assert_eq!(
        segments,
        vec![
            Segment { file: 0, start: 0, at: 0, len: 7 },
            Segment { file: 2, start: 0, at: 7, len: 3 },
        ]
    );
    // the last piece has five bytes, not ten
    let (segments, complete) = StorageState::write(&cache, 1, 10);
    assert!(!complete);
    assert_eq!(segments, vec![Segment { file: 2, start: 3, at: 0, len: 5 }]);
    assert_eq!(state.torrent_root(&cache).as_str(), "/d/pair");
    assert_eq!(state.file_path(&cache, 2).as_str(), "/d/pair/a/two");
}

#[test]
fn messages_lead_to_actions() {
    let mut manager = StorageManager::new(FilePath::from_text("/d"));
    let id = InfoHash::new([3u8; 20]);
    let r = manager.handle(StorageMessage::Read { id, piece_index: 0, begin: 0, length: 5 });
    assert!(matches!(r, StorageAction::Refused(StorageError::TorrentNotFound(_))));
    let r = manager.handle(StorageMessage::AddTorrent { info_hash: id, meta: two_files() });
    assert!(matches!(r, StorageAction::Registered { .. }));
    let r = manager.handle(StorageMessage::Read { id, piece_index: 0, begin: 5, length: 5 });
    match r {
        StorageAction::Read { segments, complete, .. } => {
            assert!(complete);
            assert_eq!(segments.len(), 2);
        }
        _ => panic!("nothing to read"),
    }
    let data = vec![1u8; 10];
    let r = manager.handle(StorageMessage::Write { info_hash: id, piece: 0, data });
    assert!(matches!(r, StorageAction::Write { complete: true, .. }));
    let r = manager.handle(StorageMessage::Verify { info_hash: id, piece: 0, data: vec![1u8; 10] });
    assert!(matches!(r, StorageAction::Verified(false)));
    let r = manager.handle(StorageMessage::Verify { info_hash: id, piece: 9, data: vec![1u8; 10] });
    assert!(matches!(r, StorageAction::Refused(StorageError::PieceNotFound(9))));
    let r = manager.handle(StorageMessage::RemoveTorrent { id });
    assert!(matches!(r, StorageAction::Removed));
    assert!(manager.storage.get_torrent(&id).is_none());
}

#[test]
fn storage_errors_have_messages() {
    assert_eq!(StorageError::ChannelClosed.message(), "Storage channel closed");
    assert_eq!(StorageError::PieceNotFound(12).message(), "Piece index out of bounds: 12");
    assert_eq!(StorageError::Io("gone".to_string()).message(), "I/O error: gone");
    assert_eq!(
        StorageError::TorrentNotFound(InfoHash::new([255u8; 20])).message(),
        "Torrent not found: ffffffffffffffffffffffffffffffffffffffff"
    );
    assert_eq!(get_download_dir("/home/u").as_str(), "/home/u/Downloads/Torrents");
}

#[test]
fn places_that_cannot_be_counted_are_noticed() {
    let mut manager = StorageManager::new(FilePath::from_text("/d"));
    let id = InfoHash::new([3u8; 20]);
    let far = |id| StorageMessage::Read { id, piece_index: u32::MAX, begin: 0, length: 1 };
    assert!(manager.accepts(&far(id)));
    let mode = FileMode::SingleFile { name: "f".to_string(), length: 1, md5sum: None };
    let meta = Info { piece_length: i64::MAX, pieces: vec![[0u8; 20]], private: None, mode };
    manager.handle(StorageMessage::AddTorrent { info_hash: id, meta: Arc::new(meta) });
    assert!(!manager.accepts(&far(id)));
    assert!(!manager.accepts(&StorageMessage::Write { info_hash: id, piece: 9, data: vec![1] }));
    assert!(manager.accepts(&StorageMessage::Write { info_hash: id, piece: 0, data: vec![1] }));
}
