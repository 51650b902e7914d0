//! What the operations of the library are for, stated of what goes in and what comes out.

pub mod addresses;
pub mod answers;
pub mod conversation;
pub mod leeching;
pub mod link;
pub mod metadata;
pub mod peers_again;
pub mod picker;
pub mod pieces;
pub mod session;
pub mod storage;
pub mod swarm;
pub mod texts;
pub mod torrent;
pub mod torrent_bytes;
pub mod torrent_files;
pub mod trackers;
pub mod whole_pieces;
pub mod wire;
