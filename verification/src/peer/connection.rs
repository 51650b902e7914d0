//! A connection that is told by a manager what to download: its states, and what each message and
//! each command does to it.

use crate::buffers::{bytes_as_slice, bytes_content};
use crate::net::{IpAddr, SocketAddr};
use crate::peer::error::IoKind;
use crate::peer::requests::{with_request, without_request, Requests};
use crate::protocol::{is_handshake, Block, BlockInfo, ExtendedHandshake, ExtendedMessage};
use crate::protocol::{ExtendedView, Handshake, Message, MessageView};
use crate::types::{same_bytes, InfoHash, PeerID};
use bytes::Bytes;
use vstd::prelude::*;
use vstd::string::*;
use vstd::utf8::*;

verus! {

/// How many requests may be outstanding where the peer does not say
pub const DEFAULT_REQQ_SIZE: usize = 250;

/// How long nothing may come before the connection is given up, in milliseconds
pub const CONNECTION_TIMEOUT_MS: u64 = 120_000;

/// The number that a manager knows a peer by.
#[derive(Debug, Clone, Copy, PartialEq, Eq, Hash, Structural)]
pub struct Id(pub usize);

/// Why a connection ends.
#[derive(Debug, Clone, Copy, PartialEq, Eq, Structural)]
pub enum PeerError {
    Timeout,
    IoError(IoKind),
    InvalidHandshake,
    Disconnected,
}

/// Which peer a connection is with, and which torrent it is about.
#[derive(Debug, Clone, Copy, PartialEq, Eq, Hash)]
pub struct PeerInfo {
    pub remote_pid: Id,
    pub info_hash: InfoHash,
    pub addr: SocketAddr,
}

impl PeerInfo {
    /// A peer and a torrent
    pub fn new(remote_pid: Id, info_hash: InfoHash, addr: SocketAddr) -> (r: Self)
        ensures
            r == (PeerInfo { remote_pid, info_hash, addr }),
    {
        PeerInfo { remote_pid, info_hash, addr }
    }

    /// Retrieve the peer address.
    pub fn addr(&self) -> (r: &SocketAddr)
        ensures
            *r == self.addr,
    {
        &self.addr
    }

    /// Retrieve the peer info hash.
    pub fn info_hash(&self) -> (r: &InfoHash)
        ensures
            *r == self.info_hash,
    {
        &self.info_hash
    }
}

/// How the two sides stand to each other.
#[derive(Debug, Clone, Copy, PartialEq, Eq, Structural)]
pub struct PeerState {
    /// This client is choking the peer
    pub am_choking: bool,
    /// This client is interested in the peer
    pub am_interested: bool,
    /// The peer is choking this client
    pub peer_choking: bool,
    /// The peer is interested in this client
    pub peer_interested: bool,
}

impl Default for PeerState {
    /// Client connections start out as "choked" and "not interested".
    fn default() -> (r: Self)
        ensures
            r == (PeerState {
                am_choking: true,
                am_interested: false,
                peer_choking: true,
                peer_interested: false,
            }),
    {
        PeerState {
            am_choking: true,
            am_interested: false,
            peer_choking: true,
            peer_interested: false,
        }
    }
}

/// What a connection tells its manager.
#[derive(Debug)]
pub enum PeerEvent {
    Have { pid: Id, piece_idx: u32 },
    Bitfield(Id, Bytes),
    PeerError(Id, PeerError),
    AddBlock(Id, Block),
    BlockRequest(Id, BlockInfo),
    Interest(Id),
    NotInterest(Id),
    NeedTask(Id),
}

/// What a manager tells a connection.
#[derive(Debug)]
pub enum PeerCommand {
    SendMessage(Message),
    RejectRequest(BlockInfo),
    Disconnect,
    AvailableTask(Vec<BlockInfo>),
}

/// What a connection asks to be done.
#[derive(Debug)]
pub enum Step {
    Send(Message),
    Tell(PeerEvent),
}

/// What a connection asks to be done.
#[verifier::ext_equal]
pub enum StepView {
    Send(MessageView),
    Have(Id, u32),
    Bitfield(Id, Seq<u8>),
    PeerError(Id, PeerError),
    AddBlock(Id, u32, u32, Seq<u8>),
    BlockRequest(Id, BlockInfo),
    Interest(Id),
    NotInterest(Id),
    NeedTask(Id),
}

impl View for Step {
    type V = StepView;

    open spec fn view(&self) -> StepView {
        match self {
            Step::Send(m) => StepView::Send(m@),
            Step::Tell(PeerEvent::Have { pid, piece_idx }) => StepView::Have(*pid, *piece_idx),
            Step::Tell(PeerEvent::Bitfield(pid, b)) => StepView::Bitfield(*pid, bytes_content(*b)),
            Step::Tell(PeerEvent::PeerError(pid, e)) => StepView::PeerError(*pid, *e),
            Step::Tell(PeerEvent::AddBlock(pid, b)) => StepView::AddBlock(
                *pid,
                b.index,
                b.begin,
                bytes_content(b.data),
            ),
            Step::Tell(PeerEvent::BlockRequest(pid, b)) => StepView::BlockRequest(*pid, *b),
            Step::Tell(PeerEvent::Interest(pid)) => StepView::Interest(*pid),
            Step::Tell(PeerEvent::NotInterest(pid)) => StepView::NotInterest(*pid),
            Step::Tell(PeerEvent::NeedTask(pid)) => StepView::NeedTask(*pid),
        }
    }
}

/// What a list of steps asks for.
pub open spec fn steps(s: Seq<Step>) -> Seq<StepView> {
    Seq::new(s.len(), |i: int| s[i]@)
}

/// A state that a connection can be in.
pub trait State {

}

/// There is no connection yet.
#[derive(Debug)]
pub struct New {}

impl State for New {

}

/// There is a connection, and the handshakes are under way.
#[derive(Debug)]
pub struct Handshaking {}

impl State for Handshaking {

}

/// The handshakes are done.
#[derive(Debug)]
pub struct Connected {
    peer_state: PeerState,
    download_queue: Option<Vec<BlockInfo>>,
    outbound_requests: Requests,
    incoming_request: Requests,
    last_recv_msg: u64,
    supports_extended: bool,
    max_reqq_size: usize,
}

impl State for Connected {

}

/// What a connection is about and how it stands.
#[verifier::ext_equal]
pub struct Link {
    pub state: PeerState,
    pub queue: Option<Seq<BlockInfo>>,
    pub outbound: Seq<BlockInfo>,
    pub incoming: Seq<BlockInfo>,
    pub last_recv: u64,
    pub extended: bool,
    pub limit: int,
}

impl View for Connected {
    type V = Link;

    closed spec fn view(&self) -> Link {
        Link {
            state: self.peer_state,
            queue: match self.download_queue {
                Some(q) => Some(q@),
                None => None,
            },
            outbound: self.outbound_requests@,
            incoming: self.incoming_request@,
            last_recv: self.last_recv_msg,
            extended: self.supports_extended,
            limit: self.max_reqq_size as int,
        }
    }
}

/// What is requested while there is room and the queue, whose last comes first, is not empty: the
/// queue and the outstanding requests afterwards, what was requested, and whether the queue ran
/// dry while there was room.
pub open spec fn drawn(queue: Seq<BlockInfo>, outbound: Seq<BlockInfo>, limit: int) -> (
    Seq<BlockInfo>,
    Seq<BlockInfo>,
    Seq<BlockInfo>,
    bool,
)
    decreases queue.len(),
{
    if outbound.len() >= limit {
        (queue, outbound, Seq::empty(), false)
    } else if queue.len() == 0 {
        (queue, outbound, Seq::empty(), true)
    } else {
        let (q, o, sent, dry) = drawn(
            queue.drop_last(),
            with_request(outbound, queue.last()),
            limit,
        );
        (q, o, seq![queue.last()] + sent, dry)
    }
}

/// The requests for blocks.
pub open spec fn request_steps(s: Seq<BlockInfo>) -> Seq<StepView> {
    Seq::new(s.len(), |i: int| StepView::Send(MessageView::Request(s[i])))
}

/// The cancellations of requests.
pub open spec fn cancel_steps(s: Seq<BlockInfo>) -> Seq<StepView> {
    Seq::new(s.len(), |i: int| StepView::Send(MessageView::Cancel(s[i])))
}

/// The bytes of an address.
pub open spec fn address_bytes(ip: IpAddr) -> Seq<u8> {
    match ip {
        IpAddr::V4(a) => crate::endian::be32(a),
        IpAddr::V6(a) => crate::endian::be64((a / 0x1_0000_0000_0000_0000) as u64)
            + crate::endian::be64((a % 0x1_0000_0000_0000_0000) as u64),
    }
}

impl Link {
    /// Requests blocks where we are interested and are let.
    pub open spec fn tried(self, pid: Id) -> (Link, Seq<StepView>) {
        match self.queue {
            Some(queue) => if self.state.am_interested && !self.state.peer_choking {
                let (q, o, sent, dry) = drawn(queue, self.outbound, self.limit);
                (
                    Link { queue: Some(q), outbound: o, ..self },
                    request_steps(sent) + if dry && o.len() == 0 {
                        seq![StepView::NeedTask(pid)]
                    } else {
                        Seq::empty()
                    },
                )
            } else {
                (self, Seq::empty())
            },
            None => (self, Seq::empty()),
        }
    }

    /// What comes of a message.
    pub open spec fn after_msg(self, pid: Id, m: MessageView, now: u64) -> (Link, Seq<StepView>) {
        let s = Link { last_recv: now, ..self };
        match m {
            MessageView::Choke => (
                Link {
                    state: PeerState { peer_choking: true, ..s.state },
                    outbound: Seq::empty(),
                    ..s
                },
                cancel_steps(s.outbound),
            ),
            MessageView::Unchoke => (Link {
                state: PeerState { peer_choking: false, ..s.state },
                ..s
            }).tried(pid),
            MessageView::Interested => (
                Link { state: PeerState { peer_interested: true, ..s.state }, ..s },
                seq![StepView::Interest(pid)],
            ),
            MessageView::NotInterested => if s.state.peer_interested {
                (
                    Link { state: PeerState { peer_interested: false, ..s.state }, ..s },
                    seq![StepView::NotInterest(pid)],
                )
            } else {
                (s, Seq::empty())
            },
            MessageView::Have(i) => (s, seq![StepView::Have(pid, i)]),
            MessageView::Bitfield(b) => (s, seq![StepView::Bitfield(pid, b)]),
            MessageView::Request(b) => if s.state.am_choking || s.incoming.contains(b) {
                (s, Seq::empty())
            } else {
                (
                    Link { incoming: with_request(s.incoming, b), ..s },
                    seq![StepView::BlockRequest(pid, b)],
                )
            },
            MessageView::Piece(index, begin, data) => {
                let b = BlockInfo { index, begin, length: data.len() as u32 };
                if s.outbound.contains(b) {
                    let (t, more) = (Link {
                        outbound: without_request(s.outbound, b),
                        ..s
                    }).tried(pid);
                    (t, seq![StepView::AddBlock(pid, index, begin, data)] + more)
                } else {
                    (s, Seq::empty())
                }
            },
            MessageView::ExtensionHandshake(h) => (
                Link {
                    limit: match h.reqq {
                        Some(n) => if (n as usize) > s.limit {
                            (n as usize) as int
                        } else {
                            s.limit
                        },
                        None => s.limit,
                    },
                    ..s
                },
                Seq::empty(),
            ),
            _ => (s, Seq::empty()),
        }
    }

    /// What sending a message does to the connection.
    pub open spec fn sending(self, m: MessageView) -> Link {
        match m {
            MessageView::Interested => Link {
                state: PeerState { am_interested: true, ..self.state },
                ..self
            },
            MessageView::NotInterested => Link {
                state: PeerState { am_interested: false, ..self.state },
                ..self
            },
            MessageView::Choke => Link { state: PeerState { am_choking: true, ..self.state }, ..self },
            MessageView::Unchoke => Link {
                state: PeerState { am_choking: false, ..self.state },
                ..self
            },
            MessageView::Piece(index, begin, data) => Link {
                incoming: without_request(
                    self.incoming,
                    BlockInfo { index, begin, length: data.len() as u32 },
                ),
                ..self
            },
            _ => self,
        }
    }
}

fn one(a: Step) -> (r: Vec<Step>)
    ensures
        steps(r@) == seq![a@],
{
    let mut v: Vec<Step> = Vec::new();
    v.push(a);
    assert(steps(v@) =~= seq![a@]);
    v
}

fn none() -> (r: Vec<Step>)
    ensures
        steps(r@) == Seq::<StepView>::empty(),
{
    let v: Vec<Step> = Vec::new();
    assert(steps(v@) =~= Seq::<StepView>::empty());
    v
}

impl Connected {
    /// No request is outstanding twice.
    pub closed spec fn wf(&self) -> bool {
        self.outbound_requests.wf() && self.incoming_request.wf()
    }

    /// A connection on which nothing was said yet
    pub fn new(supports_extended: bool, now: u64) -> (r: Self)
        ensures
            r.wf(),
            r@ == (Link {
                state: PeerState {
                    am_choking: true,
                    am_interested: false,
                    peer_choking: true,
                    peer_interested: false,
                },
                queue: None,
                outbound: Seq::empty(),
                incoming: Seq::empty(),
                last_recv: now,
                extended: supports_extended,
                limit: 250,
            }),
    {
        Connected {
            peer_state: PeerState::default(),
            download_queue: None,
            outbound_requests: Requests::new(),
            incoming_request: Requests::new(),
            last_recv_msg: now,
            supports_extended,
            max_reqq_size: DEFAULT_REQQ_SIZE,
        }
    }
}

/// A connection in one of its states.
#[derive(Debug)]
pub struct Peer<S: State> {
    pub state: S,
    pub peer_info: PeerInfo,
}

impl Peer<New> {
    /// A peer that is not connected yet
    pub fn new(peer_info: PeerInfo) -> (r: Self)
        ensures
            r.peer_info == peer_info,
    {
        Peer { state: New {  }, peer_info }
    }

    /// The connection has been made
    pub fn connect(self) -> (r: Peer<Handshaking>)
        ensures
            r.peer_info == self.peer_info,
    {
        Peer { state: Handshaking {  }, peer_info: self.peer_info }
    }
}

impl Peer<Handshaking> {
    /// The first bytes to send
    pub fn greeting(&self, client_id: PeerID) -> (r: Vec<u8>)
        ensures
            exists|h: Handshake|
                {
                    &&& h.peer_id == client_id
                    &&& h.info_hash == self.peer_info.info_hash
                    &&& h.reserved@ == seq![0u8, 0, 0, 0, 0, 16, 0, 1]
                    &&& r@ == #[trigger] crate::protocol::handshake_bytes(h)
                },
    {
        let h = Handshake::new(client_id, self.peer_info.info_hash);
        h.to_bytes()
    }

    /// The other side's first bytes have come
    pub fn handshake(self, buf: &[u8], now: u64) -> (r: Result<Peer<Connected>, PeerError>)
        ensures
            match r {
                Ok(p) => {
                    &&& is_handshake(buf@)
                    &&& buf@.subrange(28, 48) == self.peer_info.info_hash@
                    &&& p.peer_info == self.peer_info
                    &&& p.state.wf()
                    &&& p.state@ == (Link {
                        state: PeerState {
                            am_choking: true,
                            am_interested: false,
                            peer_choking: true,
                            peer_interested: false,
                        },
                        queue: None,
                        outbound: Seq::empty(),
                        incoming: Seq::empty(),
                        last_recv: now,
                        extended: buf@[25] & 16 != 0,
                        limit: 250,
                    })
                },
                Err(e) => e == PeerError::InvalidHandshake && !(is_handshake(buf@) && buf@.subrange(
                    28,
                    48,
                ) == self.peer_info.info_hash@),
            },
    {
        let remote_handshake = match Handshake::from_bytes(buf) {
            Some(h) => h,
            None => return Err(PeerError::InvalidHandshake),
        };
        if !same_bytes(
            remote_handshake.info_hash.as_slice(),
            self.peer_info.info_hash.as_slice(),
        ) {
            return Err(PeerError::InvalidHandshake);
        }
        assert(remote_handshake.reserved@[5] == buf@[25]);
        let supports_extended = remote_handshake.support_extended_message();
        Ok(Peer { state: Connected::new(supports_extended, now), peer_info: self.peer_info })
    }
}

impl Peer<Connected> {
    /// The other side has connected and shaken hands
    pub fn from_incoming(supports_extended: bool, peer_info: PeerInfo, now: u64) -> (r: Self)
        ensures
            r.peer_info == peer_info,
            r.state.wf(),
            r.state@ == (Link {
                state: PeerState {
                    am_choking: true,
                    am_interested: false,
                    peer_choking: true,
                    peer_interested: false,
                },
                queue: None,
                outbound: Seq::empty(),
                incoming: Seq::empty(),
                last_recv: now,
                extended: supports_extended,
                limit: 250,
            }),
    {
        Peer { state: Connected::new(supports_extended, now), peer_info }
    }

    /// What is sent first
    pub fn start(&self) -> (r: Vec<Step>)
        ensures
            steps(r@) == if self.state@.extended {
                seq![
                    StepView::Send(
                        MessageView::ExtensionHandshake(
                            ExtendedView {
                                m: None,
                                metadata_size: None,
                                reqq: None,
                                v: Some(encode_utf8("rust.torrent dev"@)),
                                yourip: Some(address_bytes(self.peer_info.addr.ip)),
                            },
                        ),
                    ),
                ]
            } else {
                Seq::<StepView>::empty()
            },
    {
        if self.state.supports_extended {
            self.send_extended_handshake()
        } else {
            none()
        }
    }

    fn send_extended_handshake(&self) -> (r: Vec<Step>)
        ensures
            steps(r@) == seq![
                StepView::Send(
                    MessageView::ExtensionHandshake(
                        ExtendedView {
                            m: None,
                            metadata_size: None,
                            reqq: None,
                            v: Some(encode_utf8("rust.torrent dev"@)),
                            yourip: Some(address_bytes(self.peer_info.addr.ip)),
                        },
                    ),
                ),
            ],
    {
        let mut ip: Vec<u8> = Vec::new();
        match self.peer_info.addr.ip {
            IpAddr::V4(a) => {
                crate::endian::push_be32(&mut ip, a);
            },
            IpAddr::V6(a) => {
                crate::endian::push_be64(&mut ip, (a / 0x1_0000_0000_0000_0000) as u64);
                crate::endian::push_be64(&mut ip, (a % 0x1_0000_0000_0000_0000) as u64);
            },
        }
        assert(ip@ =~= address_bytes(self.peer_info.addr.ip));
        let hs = ExtendedHandshake {
            m: None,
            metadata_size: None,
            reqq: None,
            v: Some("rust.torrent dev".as_bytes_vec()),
            yourip: Some(ip),
        };
        one(Step::Send(Message::Extended(ExtendedMessage::Handshake(hs))))
    }

    /// What keeps the connection alive
    pub fn heartbeat(&self) -> (r: Message)
        ensures
            r@ == MessageView::KeepAlive,
    {
        Message::KeepAlive
    }

    /// Whether nothing has come for so long that the connection is given up
    pub fn check_timeout(&self, now: u64) -> (r: Result<(), PeerError>)
        ensures
            r == if now - self.state@.last_recv > 120_000 {
                Err::<(), PeerError>(PeerError::Timeout)
            } else {
                Ok(())
            },
    {
        if now.saturating_sub(self.state.last_recv_msg) > CONNECTION_TIMEOUT_MS {
            Err(PeerError::Timeout)
        } else {
            Ok(())
        }
    }

    fn try_request_blocks(&mut self) -> (r: Vec<Step>)
        requires
            old(self).state.wf(),
        ensures
            final(self).state.wf(),
            final(self).peer_info == old(self).peer_info,
            (final(self).state@, steps(r@)) == old(self).state@.tried(old(self).peer_info.remote_pid),
    {
        let am_interested = self.state.peer_state.am_interested;
        let peer_not_choking = !self.state.peer_state.peer_choking;
        let has_queue = self.state.download_queue.is_some();
        if am_interested && peer_not_choking && has_queue {
            self.request_blocks()
        } else {
            none()
        }
    }

    fn request_blocks(&mut self) -> (r: Vec<Step>)
        requires
            old(self).state.wf(),
            old(self).state@.queue is Some,
            old(self).state@.state.am_interested,
            !old(self).state@.state.peer_choking,
        ensures
            final(self).state.wf(),
            final(self).peer_info == old(self).peer_info,
            (final(self).state@, steps(r@)) == old(self).state@.tried(old(self).peer_info.remote_pid),
    {
        let mut queue: Vec<BlockInfo> = match self.state.download_queue.take() {
            Some(q) => q,
            None => Vec::new(),
        };
        let ghost start = old(self).state@;
        let ghost meant = drawn(start.queue->0, start.outbound, start.limit);
        let ghost mut went: Seq<BlockInfo> = Seq::empty();
        let mut sent: Vec<Step> = Vec::new();
        proof {
            assert(queue@ == start.queue->0);
            assert(went + meant.2 =~= meant.2);
            assert(steps(sent@) =~= request_steps(went));
        }
        while self.state.outbound_requests.len() < self.state.max_reqq_size && queue.len() > 0
            invariant
                self.state.wf(),
                self.peer_info == old(self).peer_info,
                self.state@ == (Link {
                    queue: None,
                    outbound: self.state@.outbound,
                    ..start
                }),
                meant.0 == drawn(queue@, self.state@.outbound, start.limit).0,
                meant.1 == drawn(queue@, self.state@.outbound, start.limit).1,
                meant.2 == went + drawn(queue@, self.state@.outbound, start.limit).2,
                meant.3 == drawn(queue@, self.state@.outbound, start.limit).3,
                steps(sent@) == request_steps(went),
            decreases queue.len(),
        {
            let ghost queue_before = queue@;
            let ghost sent_before = sent@;
            match queue.pop() {
                Some(block) => {
                    self.state.outbound_requests.insert(block);
                    sent.push(Step::Send(Message::Request(block)));
                    proof {
                        assert(queue@ =~= queue_before.drop_last());
                        assert(block == queue_before.last());
                        let rest = drawn(queue@, self.state@.outbound, start.limit);
                        let earlier = went;
                        assert(went + (seq![block] + rest.2) =~= went.push(block) + rest.2);
                        went = went.push(block);
                        assert(steps(sent_before).len() == request_steps(earlier).len());
                        assert(steps(sent@) =~= request_steps(went)) by {
                            assert forall|i: int| 0 <= i < sent@.len() implies (#[trigger] steps(
                                sent@,
                            )[i]) == request_steps(went)[i] by {
                                if i < sent_before.len() {
                                    assert(steps(sent_before)[i] == request_steps(earlier)[i]);
                                }
                            }
                        }
                    }
                },
                None => {},
            }
        }
        let ghost outbound = self.state@.outbound;
        proof {
            assert(went + drawn(queue@, outbound, start.limit).2 =~= went);
        }
        let dry = self.state.outbound_requests.len() < self.state.max_reqq_size;
        self.state.download_queue = Some(queue);
        if dry && self.refill_download_queue() {
            let ghost before = sent@;
            sent.push(Step::Tell(PeerEvent::NeedTask(self.peer_info.remote_pid)));
            assert(steps(sent@) =~= steps(before) + seq![
                StepView::NeedTask(self.peer_info.remote_pid),
            ]);
        } else {
            assert(request_steps(went) + Seq::<StepView>::empty() =~= request_steps(went));
        }
        sent
    }

    fn refill_download_queue(&self) -> (r: bool)
        ensures
            r == (self.state@.outbound.len() == 0),
    {
        self.state.outbound_requests.is_empty()
    }

    /// Clears what was asked for; each request is cancelled
    fn delete_all_requests(&mut self) -> (r: Vec<Step>)
        requires
            old(self).state.wf(),
        ensures
            final(self).state.wf(),
            final(self).peer_info == old(self).peer_info,
            final(self).state@ == (Link { outbound: Seq::empty(), ..old(self).state@ }),
            steps(r@) == cancel_steps(old(self).state@.outbound),
    {
        let pending = self.state.outbound_requests.drain();
        let mut sent: Vec<Step> = Vec::new();
        let mut i: usize = 0;
        while i < pending.len()
            invariant
                i <= pending.len(),
                sent.len() == i,
                forall|k: int|
                    0 <= k < i ==> (#[trigger] sent@[k])@ == StepView::Send(
                        MessageView::Cancel(pending@[k]),
                    ),
            decreases pending.len() - i,
        {
            sent.push(Step::Send(Message::Cancel(pending[i])));
            i = i + 1;
        }
        assert(steps(sent@) =~= cancel_steps(pending@));
        sent
    }

    /// A message has come
    pub fn handle_msg(&mut self, msg: Message, now: u64) -> (r: Vec<Step>)
        requires
            old(self).state.wf(),
        ensures
            final(self).state.wf(),
            final(self).peer_info == old(self).peer_info,
            (final(self).state@, steps(r@)) == old(self).state@.after_msg(
                old(self).peer_info.remote_pid,
                msg@,
                now,
            ),
    {
        self.state.last_recv_msg = now;
        let pid = self.peer_info.remote_pid;
        match msg {
            Message::Choke => {
                let cancelled = self.delete_all_requests();
                self.state.peer_state.peer_choking = true;
                cancelled
            },
            Message::Unchoke => {
                self.state.peer_state.peer_choking = false;
                self.try_request_blocks()
            },
            Message::Interested => {
                self.state.peer_state.peer_interested = true;
                one(Step::Tell(PeerEvent::Interest(pid)))
            },
            Message::NotInterested => {
                if self.state.peer_state.peer_interested {
                    self.state.peer_state.peer_interested = false;
                    one(Step::Tell(PeerEvent::NotInterest(pid)))
                } else {
                    none()
                }
            },
            Message::Have { piece_index } => one(
                Step::Tell(PeerEvent::Have { pid, piece_idx: piece_index }),
            ),
            Message::Bitfield(payload) => one(Step::Tell(PeerEvent::Bitfield(pid, payload))),
            Message::Request(block_info) => {
                if self.state.peer_state.am_choking {
                    return none();
                }
                if self.state.incoming_request.contains(block_info) {
                    return none();
                }
                self.state.incoming_request.insert(block_info);
                one(Step::Tell(PeerEvent::BlockRequest(pid, block_info)))
            },
            Message::Piece(block) => {
                let block_info = BlockInfo {
                    index: block.index,
                    begin: block.begin,
                    length: bytes_as_slice(&block.data).len() as u32,
                };
                if self.state.outbound_requests.remove(block_info) {
                    let mut all: Vec<Step> = Vec::new();
                    let ghost first = Step::Tell(PeerEvent::AddBlock(pid, block))@;
                    all.push(Step::Tell(PeerEvent::AddBlock(pid, block)));
                    let mut more = self.try_request_blocks();
                    let ghost tail = more@;
                    all.append(&mut more);
                    assert(steps(all@) =~= seq![first] + steps(tail));
                    all
                } else {
                    none()
                }
            },
            Message::Extended(ExtendedMessage::Handshake(ext_handshake)) => {
                match ext_handshake.reqq {
                    Some(reqq) => {
                        let asked_for: usize = reqq as usize;
                        if asked_for > self.state.max_reqq_size {
                            self.state.max_reqq_size = asked_for;
                        }
                    },
                    None => {},
                }
                none()
            },
            _ => none(),
        }
    }

    /// The manager has given a command, or has gone; nothing is given back where the connection
    /// is to end
    pub fn handle_cmd(&mut self, cmd: Option<PeerCommand>) -> (r: Option<Vec<Step>>)
        requires
            old(self).state.wf(),
        ensures
            final(self).state.wf(),
            final(self).peer_info == old(self).peer_info,
            match cmd {
                Some(PeerCommand::SendMessage(m)) => {
                    &&& final(self).state@ == old(self).state@.sending(m@)
                    &&& r matches Some(v) && steps(v@) == seq![StepView::Send(m@)]
                },
                Some(PeerCommand::RejectRequest(b)) => {
                    &&& final(self).state@ == (Link {
                        incoming: without_request(old(self).state@.incoming, b),
                        ..old(self).state@
                    })
                    &&& r matches Some(v) && steps(v@) == Seq::<StepView>::empty()
                },
                Some(PeerCommand::AvailableTask(tasks)) => r matches Some(v) && (
                    final(self).state@,
                    steps(v@),
                ) == (Link { queue: Some(tasks@), ..old(self).state@ }).tried(
                    old(self).peer_info.remote_pid,
                ),
                Some(PeerCommand::Disconnect) => r is None && final(self).state@ == old(
                    self,
                ).state@,
                None => r is None && final(self).state@ == old(self).state@,
            },
    {
        match cmd {
            Some(PeerCommand::SendMessage(msg)) => {
                match &msg {
                    Message::Interested => {
                        self.state.peer_state.am_interested = true;
                    },
                    Message::NotInterested => {
                        self.state.peer_state.am_interested = false;
                    },
                    Message::Choke => {
                        self.state.peer_state.am_choking = true;
                    },
                    Message::Unchoke => {
                        self.state.peer_state.am_choking = false;
                    },
                    Message::Piece(block) => {
                        let block_info = BlockInfo {
                            index: block.index,
                            begin: block.begin,
                            length: bytes_as_slice(&block.data).len() as u32,
                        };
                        self.state.incoming_request.remove(block_info);
                    },
                    _ => {},
                }
                Some(one(Step::Send(msg)))
            },
            Some(PeerCommand::RejectRequest(block_info)) => {
                if !self.state.incoming_request.is_empty() {
                    self.state.incoming_request.remove(block_info);
                }
                Some(none())
            },
            Some(PeerCommand::AvailableTask(tasks)) => {
                self.state.download_queue = Some(tasks);
                Some(self.try_request_blocks())
            },
            Some(PeerCommand::Disconnect) => None,
            None => None,
        }
    }
}

// ---------------------------------------------------------------------------------------------
// Laws

/// No more requests are ever outstanding than the peer allows.
pub proof fn requests_keep_to_the_limit(queue: Seq<BlockInfo>, outbound: Seq<BlockInfo>, limit: int)
    requires
        outbound.len() <= limit,
    ensures
        drawn(queue, outbound, limit).1.len() <= limit,
    decreases queue.len(),
{
    if outbound.len() < limit && queue.len() > 0 {
        requests_keep_to_the_limit(
            queue.drop_last(),
            with_request(outbound, queue.last()),
            limit,
        );
    }
}

/// A choked connection asks for nothing more: every outstanding request is cancelled, and none
/// is made until the peer unchokes.
pub proof fn choking_halts_requests(s: Link, pid: Id, now: u64)
    ensures
        s.after_msg(pid, MessageView::Choke, now).0.outbound.len() == 0,
        s.after_msg(pid, MessageView::Choke, now).0.tried(pid) == (
            s.after_msg(pid, MessageView::Choke, now).0,
            Seq::<StepView>::empty(),
        ),
{
}

} // verus!
