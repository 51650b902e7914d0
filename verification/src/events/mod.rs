//! What happens in a session, for those who listen.

pub mod peer;
pub mod session;
pub mod torrent;

pub use self::peer::PeerEvent;
pub use self::session::SessionEvent;
pub use self::torrent::TorrentEvent;

use vstd::prelude::*;

verus! {

/// How many torrent events wait for a listener before the oldest are dropped
pub const TORRENT_EVENT_CAPACITY: usize = 256;

/// How many peer events wait for a listener before the oldest are dropped
pub const PEER_EVENT_CAPACITY: usize = 512;

/// How many session events wait for a listener before the oldest are dropped
pub const SESSION_EVENT_CAPACITY: usize = 64;

} // verus!
