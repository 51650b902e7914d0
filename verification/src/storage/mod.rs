//! What a client keeps on disk.

pub mod segments;
pub mod storage_manager;

use crate::metainfo::Info;
use crate::path::{pushed, FilePath};
use crate::text::{joined, number, number_text};
use crate::types::{hex_text, InfoHash};
use std::sync::Arc;
use vstd::prelude::*;
use vstd::string::*;

verus! {

/// Errors that can occur during storage operations.
#[derive(Debug)]
pub enum StorageError {
    /// Storage channel closed
    ChannelClosed,
    /// Torrent not found
    TorrentNotFound(InfoHash),
    /// Piece index out of bounds
    PieceNotFound(u32),
    /// I/O error
    Io(String),
}

impl StorageError {
    /// What the error reads like
    pub fn message(&self) -> (r: String)
        ensures
            r@ == match self {
                StorageError::ChannelClosed => "Storage channel closed"@,
                StorageError::TorrentNotFound(h) => "Torrent not found: "@ + hex_text(h@),
                StorageError::PieceNotFound(i) => "Piece index out of bounds: "@ + number_text(
                    *i as nat,
                ),
                StorageError::Io(m) => "I/O error: "@ + m@,
            },
    {
        match self {
            StorageError::ChannelClosed => String::from_str("Storage channel closed"),
            StorageError::TorrentNotFound(h) => joined("Torrent not found: ", h.to_hex().as_str()),
            StorageError::PieceNotFound(i) => joined(
                "Piece index out of bounds: ",
                number(*i as u64).as_str(),
            ),
            StorageError::Io(m) => joined("I/O error: ", m.as_str()),
        }
    }
}

/// What the storage is asked to do.
#[derive(Debug)]
pub enum StorageMessage {
    AddTorrent { info_hash: InfoHash, meta: Arc<Info> },
    RemoveTorrent { id: InfoHash },
    Read { id: InfoHash, piece_index: u32, begin: u32, length: u32 },
    Write { info_hash: InfoHash, piece: u32, data: Vec<u8> },
    Verify { info_hash: InfoHash, piece: u32, data: Vec<u8> },
}

/// Where downloads go where nothing else is said, below the user's home directory
pub fn get_download_dir(home: &str) -> (r: FilePath)
    ensures
        r@ == pushed(pushed(home@, "Downloads"@), "Torrents"@),
{
    let mut p = FilePath::from_text(home);
    p.push("Downloads");
    p.push("Torrents");
    p
}

} // verus!
