//! Datagrams to trackers, field by field.

use crate::buffers::{bytes_content, bytes_mut_content, bytes_mut_extend, bytes_mut_freeze};
use crate::buffers::bytes_mut_with_capacity;
use crate::endian::{be16, be32, be64, push_be16, push_be32, push_be64, to_unsigned32, unsigned32};
use crate::net::SocketAddr;
use crate::tracker::{Actions, Events, TrackerClient};
use crate::trackers::udp::{random_number, PROTOCOL_ID};
use crate::types::{InfoHash, PeerID};
use bytes::Bytes;
use vstd::prelude::*;

verus! {

/// How far a conversation with a tracker has come.
#[derive(Debug, Clone, Copy, PartialEq, Eq, Structural)]
pub enum TrackerState {
    ConnectSent { txd_id: i32 },
    AnnounceSent { txn_id: i32, connection_id: i64 },
    AnnounceReceived { timestamp: i64, num_peers: i32 },
}

/// An announcement.
#[derive(Debug, Clone, Copy)]
pub struct AnnounceRequest {
    pub connection_id: u64,
    pub action: Actions,
    pub tx_id: u32,
    pub info_hash: InfoHash,
    pub peer_id: PeerID,
    pub downloaded: u64,
    pub left: u64,
    pub uploaded: u64,
    pub event: Events,
    /// The client's own address, zero where the tracker is to find it out
    pub ip_address: u32,
    pub key: u32,
    /// How many peers are wanted, minus one where the tracker is to decide
    pub num_want: i32,
    pub port: u16,
}

/// A request for a connection.
#[derive(Debug, Clone, Copy, PartialEq, Eq, Structural)]
pub struct ConnectionRequest {
    pub action: u32,
    pub transaction_id: i32,
}

/// The bytes of a request for a connection.
pub open spec fn connection_bytes(c: ConnectionRequest) -> Seq<u8> {
    be64(0x417_2710_1980) + be32(c.action) + be32(unsigned32(c.transaction_id))
}

/// The bytes of an announcement.
pub open spec fn request_bytes(a: AnnounceRequest) -> Seq<u8> {
    be64(a.connection_id) + be32(a.action.number()) + be32(a.tx_id) + a.info_hash@ + a.peer_id@
        + be64(a.downloaded) + be64(a.left) + be64(a.uploaded) + be32(a.event.number()) + be32(
        a.ip_address,
    ) + be32(a.key) + be32(unsigned32(a.num_want)) + be16(a.port)
}

impl ConnectionRequest {
    /// A request under a number that nobody can guess
    pub fn new() -> (r: Self)
        ensures
            r.action == 0,
    {
        ConnectionRequest { action: u32::from(&Actions::Connect), transaction_id: random_number() }
    }

    /// The bytes of the request
    pub fn to_bytes(&self) -> (r: Bytes)
        ensures
            bytes_content(r) == connection_bytes(*self),
    {
        let mut fields: Vec<u8> = Vec::new();
        push_be64(&mut fields, PROTOCOL_ID);
        push_be32(&mut fields, self.action);
        push_be32(&mut fields, to_unsigned32(self.transaction_id));
        let mut buff = bytes_mut_with_capacity(16);
        bytes_mut_extend(&mut buff, fields.as_slice());
        assert(bytes_mut_content(buff) =~= connection_bytes(*self));
        bytes_mut_freeze(buff)
    }
}

impl AnnounceRequest {
    /// The bytes of the announcement
    pub fn to_bytes(&self) -> (r: Bytes)
        ensures
            bytes_content(r) == request_bytes(*self),
    {
        let mut fields: Vec<u8> = Vec::new();
        push_be64(&mut fields, self.connection_id);
        push_be32(&mut fields, u32::from(&self.action));
        push_be32(&mut fields, self.tx_id);
        fields.extend_from_slice(self.info_hash.as_slice());
        fields.extend_from_slice(self.peer_id.as_slice());
        push_be64(&mut fields, self.downloaded);
        push_be64(&mut fields, self.left);
        push_be64(&mut fields, self.uploaded);
        push_be32(&mut fields, u32::from(&self.event));
        push_be32(&mut fields, self.ip_address);
        push_be32(&mut fields, self.key);
        push_be32(&mut fields, to_unsigned32(self.num_want));
        push_be16(&mut fields, self.port);
        let mut buff = bytes_mut_with_capacity(98);
        bytes_mut_extend(&mut buff, fields.as_slice());
        assert(bytes_mut_content(buff) =~= request_bytes(*self));
        bytes_mut_freeze(buff)
    }
}

/// The position at or behind `i` of a tracker.
pub open spec fn state_position(
    s: Seq<(SocketAddr, TrackerState)>,
    tracker: SocketAddr,
    i: int,
) -> Option<int>
    decreases s.len() - i,
{
    if i < 0 || i >= s.len() {
        None
    } else if s[i].0 == tracker {
        Some(i)
    } else {
        state_position(s, tracker, i + 1)
    }
}

/// How far the conversations with trackers have come.
#[derive(Debug)]
pub struct UdpTrackerClient {
    pub state: Vec<(SocketAddr, TrackerState)>,
}

impl TrackerClient for UdpTrackerClient {

}

impl UdpTrackerClient {
    /// A client that has spoken to no tracker
    pub fn new() -> (r: Self)
        ensures
            r.state@ == Seq::<(SocketAddr, TrackerState)>::empty(),
    {
        UdpTrackerClient { state: Vec::new() }
    }

    /// The datagram that asks a tracker for a connection; the conversation begins with it, unless
    /// it has begun before
    pub fn connect(&mut self, tracker: SocketAddr) -> (r: Bytes)
        ensures
            exists|c: ConnectionRequest|
                {
                    &&& c.action == 0
                    &&& bytes_content(r) == #[trigger] connection_bytes(c)
                    &&& final(self).state@ == match state_position(old(self).state@, tracker, 0) {
                        Some(_) => old(self).state@,
                        None => old(self).state@.push(
                            (tracker, TrackerState::ConnectSent { txd_id: c.transaction_id }),
                        ),
                    }
                },
    {
        let connect_req = ConnectionRequest::new();
        let mut known: bool = false;
        let mut i: usize = 0;
        while i < self.state.len() && !known
            invariant
                i <= self.state.len(),
                self.state@ == old(self).state@,
                known ==> state_position(self.state@, tracker, 0) is Some,
                !known ==> state_position(self.state@, tracker, 0) == state_position(
                    self.state@,
                    tracker,
                    i as int,
                ),
            decreases self.state.len() - i,
        {
            if self.state[i].0 == tracker {
                known = true;
            }
            i = i + 1;
        }
        if !known {
            self.state.push(
                (tracker, TrackerState::ConnectSent { txd_id: connect_req.transaction_id }),
            );
        }
        connect_req.to_bytes()
    }
}

} // verus!
