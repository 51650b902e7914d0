//! What trackers that speak UDP are asked, and how they answer.

use crate::buffers::{bytes_content, bytes_mut_content, bytes_mut_extend, bytes_mut_freeze};
use crate::buffers::bytes_mut_with_capacity;
use crate::endian::{be16, be32, be32_reads_back, be64, be64_reads_back, get_be16, get_be32};
use crate::endian::{get_be64, push_be16, push_be32, push_be64, read32, read64, signed32};
use crate::endian::{signed64, to_signed32, to_signed64, to_unsigned32, to_unsigned64, unsigned32};
use crate::endian::unsigned64;
use crate::net::{IpAddr, SocketAddr};
use crate::trackers::http::compact_peers;
use crate::trackers::{answer, invalid_response, AnnounceData, AnnounceResponse};
use crate::trackers::{ResponseView, TrackerError, TrackerFault};
use crate::urls::{read_url, url_read, url_view, ParsedUrl, UrlView};
use bytes::{Bytes, BytesMut};
use vstd::prelude::*;
use vstd::string::*;

verus! {

/// What a request for a connection starts with
pub const PROTOCOL_ID: u64 = 0x417_2710_1980;

/// How long a connection can be used, in milliseconds
pub const CONNECTION_EXPIRATION_MS: u64 = 60_000;

/// How often a request is repeated
pub const MAX_RETRIES: usize = 8;

/// The largest datagram
pub const MAX_UDP_PAYLOAD: usize = 65507;

/// `random` of the thread's generator in `rand`: a number, any of them.
#[verifier::external_body]
pub(crate) fn random_number() -> (r: i32) {
    rand::RngExt::random(&mut rand::rng())
}

// ---------------------------------------------------------------------------------------------
// Requests

/// The bytes of a request for a connection.
pub open spec fn connect_bytes(tx_id: i32) -> Seq<u8> {
    be64(0x417_2710_1980) + be32(0) + be32(unsigned32(tx_id))
}

/// The bytes of an announcement.
pub open spec fn announce_bytes(connection_id: i64, tx_id: i32, d: AnnounceData) -> Seq<u8> {
    be64(unsigned64(connection_id)) + be32(1) + be32(unsigned32(tx_id)) + d.info_hash@ + d.peer_id@
        + be64(unsigned64(d.downloaded)) + be64(unsigned64(d.left)) + be64(unsigned64(d.uploaded))
        + be32(d.event.number()) + be32(0) + be32(0) + be32(0xffff_ffff) + be16(d.port)
}

fn put32(buf: &mut BytesMut, n: u32)
    requires
        bytes_mut_content(*old(buf)).len() <= MAX_UDP_PAYLOAD,
    ensures
        bytes_mut_content(*final(buf)) == bytes_mut_content(*old(buf)) + be32(n),
{
    let mut b: Vec<u8> = Vec::new();
    push_be32(&mut b, n);
    assert(b@ =~= be32(n));
    bytes_mut_extend(buf, b.as_slice());
}

fn put64(buf: &mut BytesMut, n: u64)
    requires
        bytes_mut_content(*old(buf)).len() <= MAX_UDP_PAYLOAD,
    ensures
        bytes_mut_content(*final(buf)) == bytes_mut_content(*old(buf)) + be64(n),
{
    let mut b: Vec<u8> = Vec::new();
    push_be64(&mut b, n);
    assert(b@ =~= be64(n));
    bytes_mut_extend(buf, b.as_slice());
}

fn put16(buf: &mut BytesMut, n: u16)
    requires
        bytes_mut_content(*old(buf)).len() <= MAX_UDP_PAYLOAD,
    ensures
        bytes_mut_content(*final(buf)) == bytes_mut_content(*old(buf)) + be16(n),
{
    let mut b: Vec<u8> = Vec::new();
    push_be16(&mut b, n);
    assert(b@ =~= be16(n));
    bytes_mut_extend(buf, b.as_slice());
}

/// The request for a connection
pub fn build_connect_request(tx_id: i32) -> (r: Bytes)
    ensures
        bytes_content(r) == connect_bytes(tx_id),
{
    let mut buf = bytes_mut_with_capacity(16);
    put64(&mut buf, PROTOCOL_ID);
    put32(&mut buf, 0);
    put32(&mut buf, to_unsigned32(tx_id));
    assert(bytes_mut_content(buf) =~= connect_bytes(tx_id));
    bytes_mut_freeze(buf)
}

/// An announcement
pub fn build_announce_request(connection_id: i64, tx_id: i32, data: &AnnounceData) -> (r: Bytes)
    ensures
        bytes_content(r) == announce_bytes(connection_id, tx_id, *data),
{
    let mut buf = bytes_mut_with_capacity(98);
    put64(&mut buf, to_unsigned64(connection_id));
    put32(&mut buf, 1);
    put32(&mut buf, to_unsigned32(tx_id));
    bytes_mut_extend(&mut buf, data.info_hash.as_slice());
    bytes_mut_extend(&mut buf, data.peer_id.as_slice());
    put64(&mut buf, to_unsigned64(data.downloaded));
    put64(&mut buf, to_unsigned64(data.left));
    put64(&mut buf, to_unsigned64(data.uploaded));
    put32(&mut buf, data.event.as_int());
    put32(&mut buf, 0);
    put32(&mut buf, 0);
    put32(&mut buf, 0xffff_ffff);
    put16(&mut buf, data.port);
    assert(bytes_mut_content(buf) =~= announce_bytes(connection_id, tx_id, *data));
    bytes_mut_freeze(buf)
}

// ---------------------------------------------------------------------------------------------
// Answers

/// A connection that a tracker has granted.
#[derive(Debug, Clone, Copy, PartialEq, Eq, Structural)]
pub struct ConnectionResponse {
    pub connection_id: i64,
}

/// What a tracker has answered.
#[derive(Debug)]
pub enum ResponseKind {
    Connect(ConnectionResponse),
    Announce(AnnounceResponse),
}

/// What a tracker has answered.
#[verifier::ext_equal]
pub enum KindView {
    Connect(i64),
    Announce(ResponseView),
}

impl View for ResponseKind {
    type V = KindView;

    open spec fn view(&self) -> KindView {
        match self {
            ResponseKind::Connect(c) => KindView::Connect(c.connection_id),
            ResponseKind::Announce(a) => KindView::Announce(a@),
        }
    }
}

/// The connection that an answer grants.
pub open spec fn connection_of(b: Seq<u8>) -> Result<i64, TrackerFault> {
    if b.len() < 16 {
        Err(TrackerFault::TooShort)
    } else if read32(b, 0) != 0 {
        Err(TrackerFault::InvalidResponse("not connect action"@))
    } else {
        Ok(signed64(read64(b, 8) as u64))
    }
}

/// What an answer to an announcement says; bytes behind the last whole peer are ignored.
pub open spec fn announcement_of(b: Seq<u8>) -> Result<ResponseView, TrackerFault> {
    if b.len() < 20 {
        Err(TrackerFault::TooShort)
    } else if read32(b, 0) != 1 {
        Err(TrackerFault::InvalidResponse("not announce action"@))
    } else {
        Ok(
            ResponseView {
                peers: compact_peers(b.skip(20)),
                interval: signed32(read32(b, 8) as u32),
                leechers: signed32(read32(b, 12) as u32),
                seeders: signed32(read32(b, 16) as u32),
            },
        )
    }
}

/// Which request a datagram answers, and how, where it is an answer.
pub open spec fn datagram_of(b: Seq<u8>) -> Option<(i32, KindView)> {
    if b.len() < 8 {
        None
    } else if read32(b, 0) == 0 {
        match connection_of(b) {
            Ok(id) => Some((signed32(read32(b, 4) as u32), KindView::Connect(id))),
            Err(_) => None,
        }
    } else if read32(b, 0) == 1 {
        match announcement_of(b) {
            Ok(a) => Some((signed32(read32(b, 4) as u32), KindView::Announce(a))),
            Err(_) => None,
        }
    } else {
        None
    }
}

impl ConnectionResponse {
    /// The connection that an answer grants
    pub fn parse(buf: &[u8]) -> (r: Result<Self, TrackerError>)
        ensures
            match r {
                Ok(c) => connection_of(buf@) == Ok::<i64, TrackerFault>(c.connection_id),
                Err(e) => connection_of(buf@) == Err::<i64, TrackerFault>(e@),
            },
    {
        if buf.len() < 16 {
            return Err(TrackerError::TooShort);
        }
        if get_be32(buf, 0) != 0 {
            return Err(invalid_response("not connect action"));
        }
        Ok(ConnectionResponse { connection_id: to_signed64(get_be64(buf, 8)) })
    }
}

impl AnnounceResponse {
    /// What an answer to an announcement says
    pub fn parse(buf: &[u8]) -> (r: Result<Self, TrackerError>)
        ensures
            answer(r) == announcement_of(buf@),
    {
        if buf.len() < 20 {
            return Err(TrackerError::TooShort);
        }
        let interval: i32 = to_signed32(get_be32(buf, 8));
        let leechers: i32 = to_signed32(get_be32(buf, 12));
        let seeders: i32 = to_signed32(get_be32(buf, 16));
        if get_be32(buf, 0) != 1 {
            return Err(invalid_response("not announce action"));
        }
        let ghost all = compact_peers(buf@.skip(20));
        let n: usize = (buf.len() - 20) / 6;
        let mut peers: Vec<SocketAddr> = Vec::new();
        let mut i: usize = 0;
        while i < n
            invariant
                i <= n,
                buf.len() >= 20,
                n == (buf.len() - 20) / 6,
                all == compact_peers(buf@.skip(20)),
                peers.len() == i,
                forall|k: int| 0 <= k < i ==> #[trigger] peers@[k] == all[k],
            decreases n - i,
        {
            let offset: usize = 20 + 6 * i;
            let ip: u32 = get_be32(buf, offset);
            let port: u16 = get_be16(buf, offset + 4);
            proof {
                let rest = buf@.skip(20);
                assert(rest[6 * i] == buf@[offset as int]);
                assert(rest[6 * i + 1] == buf@[offset + 1]);
                assert(rest[6 * i + 2] == buf@[offset + 2]);
                assert(rest[6 * i + 3] == buf@[offset + 3]);
                assert(rest[6 * i + 4] == buf@[offset + 4]);
                assert(rest[6 * i + 5] == buf@[offset + 5]);
            }
            peers.push(SocketAddr { ip: IpAddr::V4(ip), port });
            i = i + 1;
        }
        assert(peers@ =~= all);
        Ok(AnnounceResponse { peers, interval, leechers, seeders })
    }
}

/// Which request a datagram answers, and how, where it is an answer
pub fn read_datagram(buf: &[u8]) -> (r: Option<(i32, ResponseKind)>)
    ensures
        match r {
            Some((tx_id, k)) => datagram_of(buf@) == Some((tx_id, k@)),
            None => datagram_of(buf@) is None,
        },
{
    if buf.len() < 8 {
        return None;
    }
    let transaction_id: i32 = to_signed32(get_be32(buf, 4));
    let action: u32 = get_be32(buf, 0);
    if action == 0 {
        match ConnectionResponse::parse(buf) {
            Ok(c) => Some((transaction_id, ResponseKind::Connect(c))),
            Err(_) => None,
        }
    } else if action == 1 {
        match AnnounceResponse::parse(buf) {
            Ok(a) => Some((transaction_id, ResponseKind::Announce(a))),
            Err(_) => None,
        }
    } else {
        None
    }
}

// ---------------------------------------------------------------------------------------------
// The client

/// A connection that was granted, and until when it can be used.
#[derive(Debug, Clone, Copy, PartialEq, Eq, Structural)]
pub struct CachedConnection {
    pub id: i64,
    pub expires_at: u64,
}

/// The connections that are known.
#[derive(Debug)]
pub struct UdpClient {
    connections: Vec<(SocketAddr, CachedConnection)>,
}

/// The position at or behind `i` of a tracker.
pub open spec fn tracker_position(
    s: Seq<(SocketAddr, CachedConnection)>,
    addr: SocketAddr,
    i: int,
) -> Option<int>
    decreases s.len() - i,
{
    if i < 0 || i >= s.len() {
        None
    } else if s[i].0 == addr {
        Some(i)
    } else {
        tracker_position(s, addr, i + 1)
    }
}

/// The connections with one more; an earlier one with the same tracker gives way.
pub open spec fn with_connection(
    s: Seq<(SocketAddr, CachedConnection)>,
    addr: SocketAddr,
    c: CachedConnection,
) -> Seq<(SocketAddr, CachedConnection)> {
    match tracker_position(s, addr, 0) {
        Some(k) => s.update(k, (addr, c)),
        None => s.push((addr, c)),
    }
}

/// The connection with a tracker that can still be used.
pub open spec fn usable(s: Seq<(SocketAddr, CachedConnection)>, addr: SocketAddr, now: u64) -> Option<
    i64,
> {
    match tracker_position(s, addr, 0) {
        Some(k) => if s[k].1.expires_at > now {
            Some(s[k].1.id)
        } else {
            None
        },
        None => None,
    }
}

/// How long the answer to a request is waited for after so many attempts, in seconds: a quarter of
/// a minute at first, each time twice as long; nothing where it was repeated often enough.
pub open spec fn patience(attempt: int) -> Option<int>
    decreases attempt,
{
    if attempt > 8 {
        None
    } else if attempt <= 0 {
        Some(15)
    } else {
        match patience(attempt - 1) {
            Some(n) => Some(2 * n),
            None => None,
        }
    }
}

impl View for UdpClient {
    type V = Seq<(SocketAddr, CachedConnection)>;

    closed spec fn view(&self) -> Seq<(SocketAddr, CachedConnection)> {
        self.connections@
    }
}

impl UdpClient {
    /// A client that knows no connection
    pub fn new() -> (r: Self)
        ensures
            r@ == Seq::<(SocketAddr, CachedConnection)>::empty(),
    {
        UdpClient { connections: Vec::new() }
    }

    fn find(&self, addr: SocketAddr) -> (r: Option<usize>)
        ensures
            match r {
                Some(k) => k < self@.len() && tracker_position(self@, addr, 0) == Some(k as int),
                None => tracker_position(self@, addr, 0) is None,
            },
    {
        let mut i: usize = 0;
        while i < self.connections.len()
            invariant
                i <= self.connections.len(),
                tracker_position(self@, addr, 0) == tracker_position(self@, addr, i as int),
            decreases self.connections.len() - i,
        {
            if self.connections[i].0 == addr {
                return Some(i);
            }
            i = i + 1;
        }
        None
    }

    /// The connection with a tracker that can still be used
    pub fn get_connection(&self, addr: SocketAddr, now: u64) -> (r: Option<i64>)
        ensures
            r == usable(self@, addr, now),
    {
        match self.find(addr) {
            Some(k) => {
                if self.connections[k].1.expires_at > now {
                    Some(self.connections[k].1.id)
                } else {
                    None
                }
            },
            None => None,
        }
    }

    /// A tracker has granted a connection
    pub fn connected(&mut self, addr: SocketAddr, id: i64, now: u64)
        requires
            now + 60_000 <= u64::MAX,
        ensures
            final(self)@ == with_connection(
                old(self)@,
                addr,
                CachedConnection { id, expires_at: (now + 60_000) as u64 },
            ),
    {
        let c = CachedConnection { id, expires_at: now + CONNECTION_EXPIRATION_MS };
        match self.find(addr) {
            Some(k) => {
                self.connections.set(k, (addr, c));
            },
            None => {
                self.connections.push((addr, c));
            },
        }
    }

    /// How long the answer to a request is waited for, in seconds, or that it is given up
    pub fn wait(attempt: usize) -> (r: Result<u64, TrackerError>)
        ensures
            match r {
                Ok(n) => patience(attempt as int) == Some(n as int),
                Err(e) => patience(attempt as int) is None && e@ == TrackerFault::Timeout,
            },
    {
        if attempt > MAX_RETRIES {
            return Err(TrackerError::Timeout);
        }
        let mut n: u64 = 15;
        let mut i: usize = 0;
        while i < attempt
            invariant
                i <= attempt <= 8,
                patience(i as int) == Some(n as int),
                i == 0 ==> n == 15,
                i == 1 ==> n == 30,
                i == 2 ==> n == 60,
                i == 3 ==> n == 120,
                i == 4 ==> n == 240,
                i == 5 ==> n == 480,
                i == 6 ==> n == 960,
                i == 7 ==> n == 1920,
                n <= 3840,
            decreases attempt - i,
        {
            n = 2 * n;
            i = i + 1;
        }
        Ok(n)
    }

    /// A request for a connection, under a number that nobody can guess
    pub fn connect_request() -> (r: (i32, Bytes))
        ensures
            bytes_content(r.1) == connect_bytes(r.0),
    {
        let tx_id: i32 = random_number();
        (tx_id, build_connect_request(tx_id))
    }

    /// An announcement, under a number that nobody can guess
    pub fn announce_request(connection_id: i64, data: &AnnounceData) -> (r: (i32, Bytes))
        ensures
            bytes_content(r.1) == announce_bytes(connection_id, r.0, *data),
    {
        let tx_id: i32 = random_number();
        (tx_id, build_announce_request(connection_id, tx_id, data))
    }
}

/// The host and the port that a url names, and its normal form, given what the url is made of.
pub open spec fn udp_host_of(text: Seq<char>, u: Result<UrlView, Seq<char>>) -> Result<
    (Seq<char>, u16, Seq<char>),
    TrackerFault,
> {
    match u {
        Err(_) => Err(TrackerFault::InvalidUrl(text)),
        Ok(v) => match (v.host, v.port) {
            (Some(host), Some(port)) => Ok((host, port, v.text)),
            _ => Err(TrackerFault::InvalidUrl(v.text)),
        },
    }
}

/// The host and the port that a url names, and its normal form, given what the url is made of
pub fn udp_host(text: &str, u: Result<ParsedUrl, String>) -> (r: Result<
    (String, u16, String),
    TrackerError,
>)
    ensures
        match r {
            Ok((h, p, t)) => udp_host_of(text@, url_view(u)) == Ok::<
                (Seq<char>, u16, Seq<char>),
                TrackerFault,
            >((h@, p, t@)),
            Err(e) => udp_host_of(text@, url_view(u)) == Err::<
                (Seq<char>, u16, Seq<char>),
                TrackerFault,
            >(e@),
        },
{
    match u {
        Err(_) => Err(TrackerError::InvalidUrl(String::from_str(text))),
        Ok(v) => {
            match (v.host, v.port) {
                (Some(host), Some(port)) => Ok((host, port, v.text)),
                _ => Err(TrackerError::InvalidUrl(v.text)),
            }
        },
    }
}

/// The host and the port that a url names, and its normal form
pub fn parse_udp_url(url: &str) -> (r: Result<(String, u16, String), TrackerError>)
    ensures
        match r {
            Ok((h, p, t)) => udp_host_of(url@, url_read(url@)) == Ok::<
                (Seq<char>, u16, Seq<char>),
                TrackerFault,
            >((h@, p, t@)),
            Err(e) => udp_host_of(url@, url_read(url@)) == Err::<
                (Seq<char>, u16, Seq<char>),
                TrackerFault,
            >(e@),
        },
{
    let u = read_url(url);
    udp_host(url, u)
}

/// The first address among those of a host that is a short one, or that the url is of no use
pub fn first_ipv4(url: &str, addrs: &Vec<SocketAddr>) -> (r: Result<SocketAddr, TrackerError>)
    ensures
        match r {
            Ok(a) => exists|k: int|
                0 <= k < addrs.len() && #[trigger] addrs@[k] == a && a.ip is V4 && forall|j: int|
                    0 <= j < k ==> (#[trigger] addrs@[j]).ip is V6,
            Err(e) => e@ == TrackerFault::InvalidUrl(url@) && forall|j: int|
                0 <= j < addrs.len() ==> (#[trigger] addrs@[j]).ip is V6,
        },
{
    let mut i: usize = 0;
    while i < addrs.len()
        invariant
            i <= addrs.len(),
            forall|j: int| 0 <= j < i ==> (#[trigger] addrs@[j]).ip is V6,
        decreases addrs.len() - i,
    {
        let a: SocketAddr = addrs[i];
        match a.ip {
            IpAddr::V4(_) => {
                assert(addrs@[i as int] == a);
                return Ok(a);
            },
            IpAddr::V6(_) => {},
        }
        i = i + 1;
    }
    Err(TrackerError::InvalidUrl(String::from_str(url)))
}

// ---------------------------------------------------------------------------------------------
// Laws

/// Requests have the lengths that trackers expect.
pub proof fn requests_have_their_lengths(connection_id: i64, tx_id: i32, d: AnnounceData)
    ensures
        connect_bytes(tx_id).len() == 16,
        announce_bytes(connection_id, tx_id, d).len() == 98,
{
}

/// The answer to a request for a connection is told by the request's number, and grants the
/// connection that the tracker has written into it.
pub proof fn connection_is_granted(tx_id: i32, connection_id: i64, rest: Seq<u8>)
    ensures
        datagram_of(
            be32(0) + be32(unsigned32(tx_id)) + be64(unsigned64(connection_id)) + rest,
        ) == Some((tx_id, KindView::Connect(connection_id))),
{
    let b = be32(0) + be32(unsigned32(tx_id)) + be64(unsigned64(connection_id)) + rest;
    assert(b.subrange(0, 4) =~= be32(0));
    assert(b.subrange(4, 8) =~= be32(unsigned32(tx_id)));
    assert(b.subrange(8, 16) =~= be64(unsigned64(connection_id)));
    be32_reads_back(0, b, 0);
    be32_reads_back(unsigned32(tx_id), b, 4);
    be64_reads_back(unsigned64(connection_id), b, 8);
}

/// Peers in their short form.
pub open spec fn peer_bytes(peers: Seq<SocketAddr>) -> Seq<u8>
    decreases peers.len(),
{
    if peers.len() == 0 {
        Seq::empty()
    } else {
        peer_bytes(peers.drop_last()) + match peers.last().ip {
            IpAddr::V4(a) => be32(a),
            IpAddr::V6(_) => be32(0),
        } + be16(peers.last().port)
    }
}

/// Peers are read back from their short form.
pub proof fn peers_read_back(peers: Seq<SocketAddr>)
    requires
        forall|i: int| 0 <= i < peers.len() ==> (#[trigger] peers[i]).ip is V4,
    ensures
        peer_bytes(peers).len() == 6 * peers.len(),
        compact_peers(peer_bytes(peers)) == peers,
    decreases peers.len(),
{
    let b = peer_bytes(peers);
    if peers.len() == 0 {
        assert(compact_peers(b) =~= peers);
    } else {
        let init = peers.drop_last();
        assert forall|i: int| 0 <= i < init.len() implies (#[trigger] init[i]).ip is V4 by {
            assert(init[i] == peers[i]);
        }
        peers_read_back(init);
        let c = peer_bytes(init);
        let n = init.len() as int;
        let last = peers.last();
        assert(last == peers[n]);
        let a = last.ip->V4_0;
        assert(b.subrange(6 * n, 6 * n + 4) =~= be32(a));
        assert(b.subrange(6 * n + 4, 6 * n + 6) =~= be16(last.port));
        be32_reads_back(a, b, 6 * n);
        crate::endian::be16_reads_back(last.port, b, 6 * n + 4);
        let r = compact_peers(b);
        assert forall|i: int| 0 <= i < peers.len() implies #[trigger] r[i] == peers[i] by {
            if i < n {
                assert(compact_peers(c)[i] == init[i]);
                assert(b[6 * i] == c[6 * i]);
                assert(b[6 * i + 1] == c[6 * i + 1]);
                assert(b[6 * i + 2] == c[6 * i + 2]);
                assert(b[6 * i + 3] == c[6 * i + 3]);
                assert(b[6 * i + 4] == c[6 * i + 4]);
                assert(b[6 * i + 5] == c[6 * i + 5]);
            }
        }
        assert(r =~= peers);
    }
}

/// The answer to an announcement is told by the request's number, and says what the tracker has
/// written into it.
pub proof fn announcement_is_answered(
    tx_id: i32,
    interval: i32,
    leechers: i32,
    seeders: i32,
    peers: Seq<SocketAddr>,
)
    requires
        forall|i: int| 0 <= i < peers.len() ==> (#[trigger] peers[i]).ip is V4,
    ensures
        datagram_of(
            be32(1) + be32(unsigned32(tx_id)) + be32(unsigned32(interval)) + be32(
                unsigned32(leechers),
            ) + be32(unsigned32(seeders)) + peer_bytes(peers),
        ) == Some(
            (tx_id, KindView::Announce(ResponseView { peers, interval, leechers, seeders })),
        ),
{
    let b = be32(1) + be32(unsigned32(tx_id)) + be32(unsigned32(interval)) + be32(
        unsigned32(leechers),
    ) + be32(unsigned32(seeders)) + peer_bytes(peers);
    assert(b.subrange(0, 4) =~= be32(1));
    assert(b.subrange(4, 8) =~= be32(unsigned32(tx_id)));
    assert(b.subrange(8, 12) =~= be32(unsigned32(interval)));
    assert(b.subrange(12, 16) =~= be32(unsigned32(leechers)));
    assert(b.subrange(16, 20) =~= be32(unsigned32(seeders)));
    be32_reads_back(1, b, 0);
    be32_reads_back(unsigned32(tx_id), b, 4);
    be32_reads_back(unsigned32(interval), b, 8);
    be32_reads_back(unsigned32(leechers), b, 12);
    be32_reads_back(unsigned32(seeders), b, 16);
    peers_read_back(peers);
    assert(b.skip(20) =~= peer_bytes(peers));
}

} // verus!
