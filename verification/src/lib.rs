//! The verified core of a BitTorrent client.
//!
//! The library holds the data structures, the wire grammars and the decisions of the client.
//! Sockets, files, timers and the command line are the business of the programs around it.

pub mod bencode;
pub mod bitfield;
pub mod buffers;
pub mod choker;
pub mod client;
pub mod decimal;
pub mod detail;
pub mod endian;
pub mod events;
pub mod hashing;
pub mod ip_text;
pub mod laws;
pub mod leecher;
pub mod magnet;
pub mod metadata;
pub mod metainfo;
pub mod metrics;
pub mod net;
pub mod path;
pub mod peer;
pub mod piece_picker;
pub mod port_mapping;
pub mod protocol;
pub mod rounding;
pub mod session;
pub mod session_config;
pub mod shared;
pub mod sorting;
pub mod status_line;
pub mod storage;
pub mod text;
pub mod torrent;
pub mod tracker;
pub mod trackers;
pub mod types;
pub mod urls;
pub mod utils;
pub mod verify_torrent_file;
