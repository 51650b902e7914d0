//! One conversation with a peer: what each message and each command does to it, and what is to be
//! done about it.

use crate::bencode::{copy_range, dict_get, encoded, entry, parsed, Bencode, Value};
use crate::bitfield::{bitfield_verdict, bits, Bitfield, BitfieldError};
use crate::buffers::{bytes_as_slice, bytes_content, bytes_from_vec};
use crate::events::peer::Direction;
use crate::metadata::bencode_message;
use crate::metainfo::Info;
use crate::net::SocketAddr;
use crate::peer::bitfield_state::{no_bits, BitfieldState, FieldView};
use crate::peer::metrics::PeerMetrics;
use crate::peer::requests::{with_request, without_request, Requests};
use crate::peer::{PeerMessage, PeerMessageView};
use crate::protocol::{extension_views, is_handshake, metadata_value};
use crate::protocol::{Block, BlockInfo, ExtendedHandshake, ExtendedMessage, ExtendedView, Handshake};
use crate::protocol::{Message, MessageView, MetadataMessage, RawExtendedMessage, DATA_ID};
use crate::protocol::{REJECT_ID, REQUEST_ID};
use crate::text::{joined, number, number_text};
use crate::torrent::Pid;
use crate::types::{same_bytes, InfoHash, PeerID};
use bytes::Bytes;
use std::sync::Arc;
use vstd::prelude::*;
use vstd::string::*;
use vstd::utf8::*;

verus! {

/// The extension that carries metadata
pub const EXTENSION_NAME_METADATA: &'static str = "ut_metadata";

/// The extension by which peers tell of other peers
pub const EXTENSION_NAME_PEX: &'static str = "ut_pex";

/// The id under which this client wants to see messages on metadata
pub const UT_METADATA_ID: u8 = 1;

/// How many requests may be outstanding at least
pub const DEFAULT_MAX_REQUESTS: usize = 250;

/// Why a conversation ends early.
#[derive(Debug)]
pub enum ConnectionError {
    /// Network error
    Network(String),
    /// Protocol error
    Protocol(String),
    /// Connection timeout
    Timeout,
    /// Invalid handshake
    InvalidHandshake,
    /// Bitfield error
    BitfieldError(BitfieldError),
    /// Self connection detected
    SelfConnection,
}

/// Why a conversation ends early.
#[verifier::ext_equal]
pub enum Fault {
    Network(Seq<char>),
    Protocol(Seq<char>),
    Timeout,
    InvalidHandshake,
    Bitfield(BitfieldError),
    SelfConnection,
}

impl View for ConnectionError {
    type V = Fault;

    open spec fn view(&self) -> Fault {
        match self {
            ConnectionError::Network(m) => Fault::Network(m@),
            ConnectionError::Protocol(m) => Fault::Protocol(m@),
            ConnectionError::Timeout => Fault::Timeout,
            ConnectionError::InvalidHandshake => Fault::InvalidHandshake,
            ConnectionError::BitfieldError(e) => Fault::Bitfield(*e),
            ConnectionError::SelfConnection => Fault::SelfConnection,
        }
    }
}

impl ConnectionError {
    /// What the error reads like
    pub fn message(&self) -> (r: String)
        ensures
            r@ == match self@ {
                Fault::Network(m) => "Network error: "@ + m,
                Fault::Protocol(m) => "Protocol error: "@ + m,
                Fault::Timeout => "Connection timeout"@,
                Fault::InvalidHandshake => "Invalid handshake"@,
                Fault::Bitfield(e) => "Bitfield error"@,
                Fault::SelfConnection => "Self connection detected"@,
            },
    {
        match self {
            ConnectionError::Network(m) => joined("Network error: ", m.as_str()),
            ConnectionError::Protocol(m) => joined("Protocol error: ", m.as_str()),
            ConnectionError::Timeout => String::from_str("Connection timeout"),
            ConnectionError::InvalidHandshake => String::from_str("Invalid handshake"),
            ConnectionError::BitfieldError(_) => String::from_str("Bitfield error"),
            ConnectionError::SelfConnection => String::from_str("Self connection detected"),
        }
    }
}

/// Who a peer is, and how the two sides stand to each other.
#[derive(Debug, Clone, Copy)]
pub struct PeerInfo {
    pub peer_id: PeerID,
    pub source: Direction,
    /// They are choking us
    pub remote_choking: bool,
    /// They are interested in us
    pub remote_interested: bool,
    /// We are choking them
    pub am_choking: bool,
    /// We are interested in them
    pub am_interested: bool,
    /// No piece has come for long
    pub snubbed: bool,
}

impl PeerInfo {
    /// How two peers stand to each other at first
    pub fn new(peer_id: PeerID, source: Direction) -> (r: Self)
        ensures
            r == (PeerInfo {
                peer_id,
                source,
                remote_choking: true,
                remote_interested: false,
                am_choking: true,
                am_interested: false,
                snubbed: false,
            }),
    {
        PeerInfo {
            peer_id,
            source,
            remote_choking: true,
            remote_interested: false,
            am_choking: true,
            am_interested: false,
            snubbed: false,
        }
    }
}

/// What a conversation asks to be done.
#[derive(Debug)]
pub enum Action {
    /// Send the peer a message
    Send(Message),
    /// Tell the torrent that what was asked of this peer will not come
    ClearRequests,
    /// Tell the torrent that the peer is interested
    Interest,
    /// Tell the torrent that the peer is not interested
    NotInterest,
    /// Tell the torrent that the peer has a piece
    Have(u32),
    /// Tell the torrent that the peer asks for a block
    BlockRequest(BlockInfo),
    /// Give the torrent a block
    ReceiveBlock(Block),
    /// Tell the torrent of a node of the DHT
    AddNode(SocketAddr),
    /// Tell the torrent that the peer has the metadata, and its size
    PeerWithMetadata(usize),
    /// Give the torrent a piece of the metadata
    ReceiveMetadata { piece: u32, data: Bytes },
    /// Tell the torrent that a piece of the metadata was refused
    MetadataRejected(u32),
    /// Ask the torrent whether a peer with these pieces is of interest
    AskInterest(Bitfield),
    /// Ask the torrent for blocks to ask of a peer with these pieces
    AskBlocks { max_requests: usize, bitfield: Bitfield },
    /// Ask the torrent which piece of the metadata to ask for
    AskMetadataPiece,
}

/// What a conversation asks to be done.
#[verifier::ext_equal]
pub enum ActionView {
    Send(MessageView),
    ClearRequests,
    Interest,
    NotInterest,
    Have(u32),
    BlockRequest(BlockInfo),
    ReceiveBlock(u32, u32, Seq<u8>),
    AddNode(SocketAddr),
    PeerWithMetadata(usize),
    ReceiveMetadata(u32, Seq<u8>),
    MetadataRejected(u32),
    AskInterest(Seq<bool>, int),
    AskBlocks(int, Seq<bool>, int),
    AskMetadataPiece,
}

impl View for Action {
    type V = ActionView;

    open spec fn view(&self) -> ActionView {
        match self {
            Action::Send(m) => ActionView::Send(m@),
            Action::ClearRequests => ActionView::ClearRequests,
            Action::Interest => ActionView::Interest,
            Action::NotInterest => ActionView::NotInterest,
            Action::Have(i) => ActionView::Have(*i),
            Action::BlockRequest(b) => ActionView::BlockRequest(*b),
            Action::ReceiveBlock(b) => ActionView::ReceiveBlock(
                b.index,
                b.begin,
                bytes_content(b.data),
            ),
            Action::AddNode(a) => ActionView::AddNode(*a),
            Action::PeerWithMetadata(n) => ActionView::PeerWithMetadata(*n),
            Action::ReceiveMetadata { piece, data } => ActionView::ReceiveMetadata(
                *piece,
                bytes_content(*data),
            ),
            Action::MetadataRejected(i) => ActionView::MetadataRejected(*i),
            Action::AskInterest(b) => ActionView::AskInterest(b.bits(), b.num_pieces as int),
            Action::AskBlocks { max_requests, bitfield } => ActionView::AskBlocks(
                *max_requests as int,
                bitfield.bits(),
                bitfield.num_pieces as int,
            ),
            Action::AskMetadataPiece => ActionView::AskMetadataPiece,
        }
    }
}

/// What a list of actions asks for.
pub open spec fn asked(s: Seq<Action>) -> Seq<ActionView> {
    Seq::new(s.len(), |i: int| s[i]@)
}

/// What comes of a message or a command.
pub open spec fn told(r: Result<Vec<Action>, ConnectionError>) -> Result<Seq<ActionView>, Fault> {
    match r {
        Ok(v) => Ok(asked(v@)),
        Err(e) => Err(e@),
    }
}

// ---------------------------------------------------------------------------------------------
// The states of a conversation, and what leads from one to another

/// The state of a conversation; times are in milliseconds.
#[verifier::ext_equal]
pub struct Talk {
    pub pid: Pid,
    pub addr: SocketAddr,
    pub info: PeerInfo,
    /// The id under which the peer wants to see messages on metadata
    pub metadata_id: Option<i64>,
    pub extended: bool,
    pub field: FieldView,
    pub metadata: Option<Arc<Info>>,
    pub metadata_size: usize,
    /// Blocks that are to be asked for
    pub queue: Seq<BlockInfo>,
    /// Blocks that were asked for
    pub outgoing: Seq<BlockInfo>,
    /// How many requests are meant to be outstanding
    pub target: int,
    /// How many requests may be outstanding
    pub limit: int,
    pub metrics: PeerMetrics,
    pub slow_start: bool,
    pub last_recv: u64,
    pub last_request: u64,
}

/// What goes out of a queue of requests: the queue and the outstanding requests afterwards, and
/// what is sent. The last comes first; a request that finds too many outstanding is dropped.
pub open spec fn popped(queue: Seq<BlockInfo>, outgoing: Seq<BlockInfo>, limit: int) -> (
    Seq<BlockInfo>,
    Seq<BlockInfo>,
    Seq<BlockInfo>,
)
    decreases queue.len(),
{
    if queue.len() == 0 {
        (queue, outgoing, Seq::empty())
    } else if outgoing.len() > limit {
        (queue.drop_last(), outgoing, Seq::empty())
    } else {
        let (q, o, sent) = popped(
            queue.drop_last(),
            with_request(outgoing, queue.last()),
            limit,
        );
        (q, o, seq![queue.last()] + sent)
    }
}

/// The requests for blocks.
pub open spec fn request_actions(s: Seq<BlockInfo>) -> Seq<ActionView> {
    Seq::new(s.len(), |i: int| ActionView::Send(MessageView::Request(s[i])))
}

/// The id of an extension, among those at or behind `i`.
pub open spec fn extension_id(m: Seq<(Seq<u8>, int)>, name: Seq<u8>, i: int) -> Option<int>
    decreases m.len() - i,
{
    if i < 0 || i >= m.len() {
        None
    } else if m[i].0 == name {
        Some(m[i].1)
    } else {
        extension_id(m, name, i + 1)
    }
}

/// The number under a key.
pub open spec fn number_under(d: Seq<(Seq<u8>, Value)>, key: Seq<char>) -> Option<int> {
    match entry(d, encode_utf8(key)) {
        Some(Value::Int(n)) => Some(n),
        _ => None,
    }
}

/// What a peer has said that a piece number beyond the torrent's is answered with.
pub open spec fn beyond_torrent(i: u32, n: int) -> Seq<char> {
    "HAVE piece index "@ + number_text(i as nat) + " >= num_pieces "@ + number_text(n as nat)
}

/// What a piece number is answered with that is too large while the torrent is not known.
pub open spec fn beyond_limit(i: u32) -> Seq<char> {
    "HAVE piece index "@ + number_text(i as nat) + " exceeds pre-metadata limit"@
}

impl Talk {
    /// How many blocks to ask the torrent for, where it is to be asked.
    pub open spec fn slots(self) -> Option<int> {
        if self.metadata is None || self.queue.len() > 0 || self.outgoing.len() >= self.target {
            None
        } else if self.field is Validated {
            Some(self.target - self.outgoing.len())
        } else {
            None
        }
    }

    /// Sends what is in the queue.
    pub open spec fn flushed(self, now: u64) -> (Talk, Seq<ActionView>) {
        let (q, o, sent) = popped(self.queue, self.outgoing, self.limit);
        (
            Talk {
                queue: q,
                outgoing: o,
                last_request: if sent.len() > 0 {
                    now
                } else {
                    self.last_request
                },
                ..self
            },
            request_actions(sent),
        )
    }

    /// Asks for more blocks, or sends what is in the queue where none are to be asked for.
    pub open spec fn refilled(self, now: u64) -> (Talk, Seq<ActionView>) {
        match self.slots() {
            Some(n) => (
                self,
                seq![ActionView::AskBlocks(n, self.field->Validated_0, self.field->Validated_1)],
            ),
            None => self.flushed(now),
        }
    }

    /// The torrent has named blocks.
    pub open spec fn after_blocks(self, blocks: Seq<BlockInfo>, now: u64) -> (
        Talk,
        Seq<ActionView>,
    ) {
        (Talk { queue: self.queue + blocks, ..self }).flushed(now)
    }

    /// What is asked where the peer may have become interesting.
    pub open spec fn interest_question(self) -> Seq<ActionView> {
        if self.info.am_interested {
            Seq::empty()
        } else {
            match self.field {
                FieldView::Validated(s, n) => seq![ActionView::AskInterest(s, n)],
                _ => Seq::empty(),
            }
        }
    }

    /// The torrent has said whether the peer is interesting.
    pub open spec fn after_interest(self, interested: bool, now: u64) -> (Talk, Seq<ActionView>) {
        let s = Talk { info: PeerInfo { am_interested: interested, ..self.info }, ..self };
        if interested {
            s.refilled(now)
        } else {
            (s, Seq::empty())
        }
    }

    /// Whether a piece of the metadata is to be asked for.
    pub open spec fn wants_metadata(self) -> bool {
        self.metadata is None && (self.metadata_id matches Some(id) && id != 0)
    }

    /// The torrent has said which piece of the metadata to ask for.
    pub open spec fn metadata_request(self, piece: Option<u32>) -> Seq<ActionView> {
        match (self.metadata_id, piece) {
            (Some(id), Some(p)) => seq![
                ActionView::Send(
                    MessageView::Extension(
                        id as u8,
                        encoded(metadata_value(MetadataMessage::Request { piece: p })),
                    ),
                ),
            ],
            _ => Seq::empty(),
        }
    }

    /// What is known of the peer's pieces once it has named one, where they can be counted.
    pub open spec fn field_for(self, i: u32) -> FieldView {
        let first = if self.field.received() {
            self.field
        } else {
            FieldView::Received(no_bits(i + 1), i + 1)
        };
        if i + 1 > usize::MAX {
            self.field
        } else if self.metadata is None {
            first.with_capacity(i + 1)
        } else {
            first
        }
    }

    /// The peer has a piece. That it has named one is noted before its number is looked at.
    pub open spec fn after_have(self, i: u32) -> (Talk, Result<Seq<ActionView>, Fault>) {
        let field = self.field_for(i);
        let noted = Talk { field, ..self };
        if self.metadata matches Some(m) && i >= m.pieces.len() {
            (noted, Err(Fault::Protocol(beyond_torrent(i, self.metadata->0.pieces.len() as int))))
        } else if self.metadata is None && i >= 65536 {
            (noted, Err(Fault::Protocol(beyond_limit(i))))
        } else if i >= field.size() || field.has(i as int) {
            (noted, Ok(Seq::empty()))
        } else {
            let s = Talk { field: field.with_piece(i as int), ..self };
            let told = if self.metadata is Some {
                seq![ActionView::Have(i)]
            } else {
                Seq::empty()
            };
            (s, Ok(told + s.interest_question()))
        }
    }

    /// The peer's bitfield has come.
    pub open spec fn after_bitfield(self, payload: Seq<u8>) -> (
        Talk,
        Result<Seq<ActionView>, Fault>,
    ) {
        if self.field.received() {
            (self, Err(Fault::Protocol("Duplicate bitfield"@)))
        } else {
            match self.metadata {
                Some(m) => match bitfield_verdict(payload, m.pieces.len()) {
                    Err(e) => (self, Err(Fault::Bitfield(e))),
                    Ok(_) => {
                        let s = Talk {
                            field: FieldView::Validated(bits(payload), m.pieces.len() as int),
                            ..self
                        };
                        (s, Ok(s.interest_question()))
                    },
                },
                None => (
                    Talk { field: FieldView::Received(bits(payload), 0), ..self },
                    Ok(Seq::empty()),
                ),
            }
        }
    }

    /// A block has come.
    pub open spec fn after_piece(self, index: u32, begin: u32, data: Seq<u8>, now: u64) -> (
        Talk,
        Seq<ActionView>,
    ) {
        let b = BlockInfo { index, begin, length: data.len() as u32 };
        let counted = Talk {
            metrics: PeerMetrics {
                download: crate::metrics::rate::RateWindow {
                    window_bytes: (self.metrics.download.window_bytes + data.len()) as u64,
                    ..self.metrics.download
                },
                total_downloaded: (self.metrics.total_downloaded + data.len()) as u64,
                ..self.metrics
            },
            ..self
        };
        if self.outgoing.contains(b) {
            let (s, more) = (Talk {
                outgoing: without_request(self.outgoing, b),
                target: if self.slow_start {
                    if self.target < self.limit {
                        self.target + 1
                    } else {
                        self.limit
                    }
                } else {
                    self.target
                },
                ..counted
            }).refilled(now);
            (s, seq![ActionView::ReceiveBlock(index, begin, data)] + more)
        } else {
            (counted, Seq::empty())
        }
    }

    /// The peer has spoken of its extensions.
    pub open spec fn after_extensions(self, h: ExtendedView) -> (Talk, Seq<ActionView>) {
        let limit = if h.reqq matches Some(n) && n > 0 && (n as usize) > self.limit {
            (h.reqq->0 as usize) as int
        } else {
            self.limit
        };
        match h.m {
            None => (Talk { limit, ..self }, Seq::empty()),
            Some(m) => {
                let s = Talk {
                    metadata_id: match extension_id(m, encode_utf8(EXTENSION_NAME_METADATA@), 0) {
                        Some(id) => Some(id as i64),
                        None => self.metadata_id,
                    },
                    metadata_size: if h.metadata_size matches Some(n) && n > 0 {
                        h.metadata_size->0 as usize
                    } else {
                        self.metadata_size
                    },
                    limit,
                    ..self
                };
                let told = if self.metadata is None {
                    seq![ActionView::PeerWithMetadata(s.metadata_size)]
                } else {
                    Seq::empty()
                };
                let question = if s.wants_metadata() {
                    seq![ActionView::AskMetadataPiece]
                } else {
                    Seq::empty()
                };
                (s, told + question)
            },
        }
    }

    /// What comes of a message on metadata.
    pub open spec fn metadata_answer(self, payload: Seq<u8>) -> Result<Seq<ActionView>, Fault> {
        match parsed(payload) {
            Err(e) => Err(Fault::Protocol("bad metadata bencode: "@ + bencode_message(e))),
            Ok((v, _)) => match v {
                Value::Dict(d) => match number_under(d, "msg_type"@) {
                    None => Err(Fault::Protocol("missing msg_type"@)),
                    Some(t) => match number_under(d, "piece"@) {
                        None => Err(Fault::Protocol("missing piece"@)),
                        Some(p) => self.metadata_word(t, p as u32, v, d, payload),
                    },
                },
                _ => Err(Fault::Protocol("metadata message not a dict"@)),
            },
        }
    }

    /// What comes of a message on metadata that says what it is and which piece it is about.
    pub open spec fn metadata_word(
        self,
        t: int,
        piece: u32,
        v: Value,
        d: Seq<(Seq<u8>, Value)>,
        payload: Seq<u8>,
    ) -> Result<Seq<ActionView>, Fault> {
        if t == 0 {
            match self.metadata_id {
                None => Err(Fault::Protocol("no id for ut_metadata"@)),
                Some(id) => Ok(
                    seq![
                        ActionView::Send(
                            MessageView::Extension(
                                id as u8,
                                encoded(metadata_value(MetadataMessage::Reject { piece })),
                            ),
                        ),
                    ],
                ),
            }
        } else if t == 1 {
            if number_under(d, "total_size"@) is None {
                Err(Fault::Protocol("missing total_size"@))
            } else if payload.len() <= encoded(v).len() {
                Err(Fault::Protocol("no data after bencode header"@))
            } else {
                Ok(
                    seq![ActionView::ReceiveMetadata(piece, payload.skip(encoded(v).len() as int))],
                )
            }
        } else if t == 2 {
            Ok(seq![ActionView::MetadataRejected(piece)])
        } else {
            Err(
                Fault::Protocol(
                    "unknown metadata msg_type: "@ + crate::peer::error::signed_text(t),
                ),
            )
        }
    }

    /// What comes of a message.
    pub open spec fn after_msg(self, m: MessageView, now: u64) -> (
        Talk,
        Result<Seq<ActionView>, Fault>,
    ) {
        let s = Talk { last_recv: now, ..self };
        match m {
            MessageView::KeepAlive => (s, Ok(Seq::empty())),
            MessageView::Choke => (
                Talk {
                    info: PeerInfo { remote_choking: true, ..s.info },
                    queue: Seq::empty(),
                    ..s
                },
                Ok(seq![ActionView::ClearRequests]),
            ),
            MessageView::Unchoke => {
                let t = Talk { info: PeerInfo { remote_choking: false, ..s.info }, ..s };
                if t.info.am_interested {
                    let (u, more) = t.refilled(now);
                    (u, Ok(more))
                } else {
                    (t, Ok(t.interest_question()))
                }
            },
            MessageView::Interested => (
                Talk { info: PeerInfo { remote_interested: true, ..s.info }, ..s },
                Ok(seq![ActionView::Interest]),
            ),
            MessageView::NotInterested => (
                Talk { info: PeerInfo { remote_interested: false, ..s.info }, ..s },
                Ok(seq![ActionView::NotInterest]),
            ),
            MessageView::Have(i) => s.after_have(i),
            MessageView::Bitfield(payload) => s.after_bitfield(payload),
            MessageView::Request(b) => (
                s,
                Ok(
                    if s.info.am_choking {
                        Seq::empty()
                    } else {
                        seq![ActionView::BlockRequest(b)]
                    },
                ),
            ),
            MessageView::Piece(index, begin, data) => {
                let (t, more) = s.after_piece(index, begin, data, now);
                (t, Ok(more))
            },
            MessageView::Cancel(_) => (s, Ok(Seq::empty())),
            MessageView::Port(port) => (
                s,
                Ok(seq![ActionView::AddNode(SocketAddr { ip: s.addr.ip, port })]),
            ),
            MessageView::ExtensionHandshake(h) => {
                let (t, more) = s.after_extensions(h);
                (t, Ok(more))
            },
            MessageView::Extension(id, payload) => (
                s,
                if id == 1 {
                    s.metadata_answer(payload)
                } else {
                    Ok(Seq::empty())
                },
            ),
        }
    }

    /// What comes of a command.
    pub open spec fn after_cmd(self, c: PeerMessageView) -> (Talk, Result<Seq<ActionView>, Fault>) {
        match c {
            PeerMessageView::SendHave(i) => (
                self,
                Ok(
                    if self.field is Validated && self.field.has(i as int) {
                        seq![ActionView::Send(MessageView::Have(i))]
                    } else {
                        Seq::empty()
                    },
                ),
            ),
            PeerMessageView::SendBitfield(bytes) => (
                self,
                Ok(
                    if bytes.len() > 0 {
                        seq![ActionView::Send(MessageView::Bitfield(bytes))]
                    } else {
                        Seq::empty()
                    },
                ),
            ),
            PeerMessageView::SendChoke => (
                Talk {
                    info: PeerInfo { am_choking: true, ..self.info },
                    metrics: PeerMetrics { uploaded_since_unchoked: 0, ..self.metrics },
                    ..self
                },
                Ok(seq![ActionView::Send(MessageView::Choke)]),
            ),
            PeerMessageView::SendUnchoke => (
                Talk { info: PeerInfo { am_choking: false, ..self.info }, ..self },
                Ok(seq![ActionView::Send(MessageView::Unchoke)]),
            ),
            PeerMessageView::Disconnect => (self, Ok(Seq::empty())),
            PeerMessageView::SendMessage(m) => (self, Ok(seq![ActionView::Send(m)])),
            PeerMessageView::HaveMetadata(info) => {
                let (field, verdict) = self.field.validated(info.pieces.len());
                let s = Talk { metadata: Some(info), field, ..self };
                match verdict {
                    Ok(_) => (s, Ok(s.interest_question())),
                    Err(e) => (s, Err(Fault::Bitfield(e))),
                }
            },
        }
    }
}

// ---------------------------------------------------------------------------------------------
// The conversation itself

/// A conversation with a peer.
#[derive(Debug)]
pub struct PeerConnection {
    pid: Pid,
    peer_addr: SocketAddr,
    peer_info: PeerInfo,
    remote_metadata_id: Option<i64>,
    supports_extended: bool,
    bitfield: BitfieldState,
    metadata: Option<Arc<Info>>,
    metadata_size: usize,
    request_queue: Vec<BlockInfo>,
    outgoing_requests: Requests,
    target_request_queue: usize,
    max_outgoing_request: usize,
    metrics: PeerMetrics,
    slow_start: bool,
    last_recv_msg: u64,
    last_block_request: u64,
}

impl View for PeerConnection {
    type V = Talk;

    closed spec fn view(&self) -> Talk {
        Talk {
            pid: self.pid,
            addr: self.peer_addr,
            info: self.peer_info,
            metadata_id: self.remote_metadata_id,
            extended: self.supports_extended,
            field: self.bitfield@,
            metadata: self.metadata,
            metadata_size: self.metadata_size,
            queue: self.request_queue@,
            outgoing: self.outgoing_requests@,
            target: self.target_request_queue as int,
            limit: self.max_outgoing_request as int,
            metrics: self.metrics,
            slow_start: self.slow_start,
            last_recv: self.last_recv_msg,
            last_request: self.last_block_request,
        }
    }
}

fn single(a: Action) -> (r: Vec<Action>)
    ensures
        asked(r@) == seq![a@],
{
    let mut v: Vec<Action> = Vec::new();
    v.push(a);
    assert(asked(v@) =~= seq![a@]);
    v
}

fn nothing() -> (r: Vec<Action>)
    ensures
        asked(r@) == Seq::<ActionView>::empty(),
{
    let v: Vec<Action> = Vec::new();
    assert(asked(v@) =~= Seq::<ActionView>::empty());
    v
}

fn followed(a: Action, rest: Vec<Action>) -> (r: Vec<Action>)
    ensures
        asked(r@) == seq![a@] + asked(rest@),
{
    let mut v: Vec<Action> = Vec::new();
    let ghost tail = rest@;
    v.push(a);
    let mut rest = rest;
    v.append(&mut rest);
    assert(asked(v@) =~= seq![a@] + asked(tail));
    v
}

fn int_under(d: &Vec<(Vec<u8>, Bencode)>, key: &str) -> (r: Option<i64>)
    ensures
        match r {
            Some(n) => number_under(crate::bencode::dict_value(d@), key@) == Some(n as int),
            None => number_under(crate::bencode::dict_value(d@), key@) is None,
        },
{
    match dict_get(d, key.as_bytes()) {
        Some(Bencode::Int(n)) => Some(*n),
        _ => None,
    }
}

fn protocol(m: &str) -> (r: ConnectionError)
    ensures
        r@ == Fault::Protocol(m@),
{
    ConnectionError::Protocol(String::from_str(m))
}

impl PeerConnection {
    /// No request is outstanding twice, there are bytes for all pieces of the bitfield, and no
    /// more requests are meant to be outstanding than may be.
    pub closed spec fn wf(&self) -> bool {
        &&& self.outgoing_requests.wf()
        &&& self.bitfield.wf()
        &&& self.target_request_queue <= self.max_outgoing_request
    }

    /// A conversation that is about to begin
    pub fn new(
        pid: Pid,
        peer_addr: SocketAddr,
        peer_info: PeerInfo,
        supports_extended: bool,
        now: u64,
    ) -> (r: Self)
        ensures
            r.wf(),
            r@.pid == pid,
            r@.addr == peer_addr,
            r@.info == peer_info,
            r@.metadata_id is None,
            r@.extended == supports_extended,
            r@.field == FieldView::NotReceived,
            r@.metadata is None,
            r@.metadata_size == 0,
            r@.queue == Seq::<BlockInfo>::empty(),
            r@.outgoing == Seq::<BlockInfo>::empty(),
            r@.target == 4,
            r@.limit == 250,
            r@.metrics == (PeerMetrics {
                download: crate::metrics::rate::RateWindow { window_bytes: 0, last_update_ms: now },
                total_downloaded: 0,
                upload: crate::metrics::rate::RateWindow { window_bytes: 0, last_update_ms: now },
                total_uploaded: 0,
                uploaded_in_last_round: 0,
                uploaded_since_unchoked: 0,
            }),
            r@.slow_start,
            r@.last_recv == now,
            r@.last_request == now,
    {
        PeerConnection {
            pid,
            peer_addr,
            peer_info,
            remote_metadata_id: None,
            supports_extended,
            bitfield: BitfieldState::new(),
            metadata: None,
            metadata_size: 0,
            request_queue: Vec::new(),
            outgoing_requests: Requests::new(),
            target_request_queue: 4,
            max_outgoing_request: DEFAULT_MAX_REQUESTS,
            metrics: PeerMetrics::new(now),
            slow_start: true,
            last_recv_msg: now,
            last_block_request: now,
        }
    }

    /// The first bytes to send: which torrent is meant and who is speaking
    pub fn greeting(local_peer_id: PeerID, info_hash: InfoHash) -> (r: Vec<u8>)
        ensures
            exists|h: Handshake|
                {
                    &&& h.peer_id == local_peer_id
                    &&& h.info_hash == info_hash
                    &&& h.reserved@ == seq![0u8, 0, 0, 0, 0, 16, 0, 1]
                    &&& r@ == #[trigger] crate::protocol::handshake_bytes(h)
                },
    {
        let h = Handshake::new(local_peer_id, info_hash);
        h.to_bytes()
    }

    /// What the first bytes of the other side come to: who it is, and whether it knows extensions
    pub fn handshake(buf: &[u8], local_peer_id: PeerID, info_hash: InfoHash) -> (r: Result<
        (PeerID, bool),
        ConnectionError,
    >)
        ensures
            match r {
                Ok((id, extended)) => {
                    &&& is_handshake(buf@)
                    &&& buf@.subrange(28, 48) == info_hash@
                    &&& buf@.subrange(48, 68) != local_peer_id@
                    &&& id@ == buf@.subrange(48, 68)
                    &&& extended == (buf@[25] & 16 != 0)
                },
                Err(e) => e@ == if !is_handshake(buf@) || buf@.subrange(28, 48) != info_hash@ {
                    Fault::InvalidHandshake
                } else {
                    Fault::SelfConnection
                } && !(is_handshake(buf@) && buf@.subrange(28, 48) == info_hash@ && buf@.subrange(
                    48,
                    68,
                ) != local_peer_id@),
            },
    {
        let remote = match Handshake::from_bytes(buf) {
            Some(h) => h,
            None => return Err(ConnectionError::InvalidHandshake),
        };
        if !same_bytes(remote.info_hash.as_slice(), info_hash.as_slice()) {
            return Err(ConnectionError::InvalidHandshake);
        }
        if same_bytes(remote.peer_id.as_slice(), local_peer_id.as_slice()) {
            return Err(ConnectionError::SelfConnection);
        }
        assert(remote.reserved@[5] == buf@[25]);
        Ok((remote.peer_id, remote.support_extended_message()))
    }

    /// What the torrent's metadata is at first, and what is sent first
    pub fn start(&mut self, metadata: Option<Arc<Info>>) -> (r: Vec<Action>)
        requires
            old(self).wf(),
        ensures
            final(self).wf(),
            final(self)@ == (Talk { metadata, ..old(self)@ }),
            asked(r@) == if old(self)@.extended {
                seq![
                    ActionView::Send(
                        MessageView::ExtensionHandshake(
                            ExtendedView {
                                m: Some(seq![(encode_utf8(EXTENSION_NAME_METADATA@), 1int)]),
                                metadata_size: None,
                                reqq: Some(250),
                                v: Some(encode_utf8("torrent-rs 0.1.0"@)),
                            yourip: None,
                            },
                        ),
                    ),
                ]
            } else {
                Seq::<ActionView>::empty()
            },
    {
        self.metadata = metadata;
        if self.supports_extended {
            self.send_extended_handshake()
        } else {
            nothing()
        }
    }

    fn send_extended_handshake(&self) -> (r: Vec<Action>)
        ensures
            asked(r@) == seq![
                ActionView::Send(
                    MessageView::ExtensionHandshake(
                        ExtendedView {
                            m: Some(seq![(encode_utf8(EXTENSION_NAME_METADATA@), 1int)]),
                            metadata_size: None,
                            reqq: Some(250),
                            v: Some(encode_utf8("torrent-rs 0.1.0"@)),
                            yourip: None,
                        },
                    ),
                ),
            ],
    {
        let mut extensions: Vec<(Vec<u8>, i64)> = Vec::new();
        extensions.push((EXTENSION_NAME_METADATA.as_bytes_vec(), UT_METADATA_ID as i64));
        assert(extension_views(extensions@) =~= seq![
            (encode_utf8(EXTENSION_NAME_METADATA@), 1int),
        ]);
        let hs = ExtendedHandshake {
            m: Some(extensions),
            metadata_size: None,
            reqq: Some(250),
            v: Some("torrent-rs 0.1.0".as_bytes_vec()),
            yourip: None,
        };
        single(Action::Send(Message::Extended(ExtendedMessage::Handshake(hs))))
    }

    /// What to send when nothing has happened for a minute, or nothing where the conversation is
    /// over: we are interested and have not asked for long, or nothing has come for long
    pub fn heartbeat(&self, now: u64) -> (r: Option<Message>)
        ensures
            match r {
                Some(m) => m@ == MessageView::KeepAlive && !((self@.info.am_interested && now
                    - self@.last_request > 30_000) || now - self@.last_recv > 45_000),
                None => (self@.info.am_interested && now - self@.last_request > 30_000) || now
                    - self@.last_recv > 45_000,
            },
    {
        let elapsed_request: u64 = now.saturating_sub(self.last_block_request);
        let elapsed_recv: u64 = now.saturating_sub(self.last_recv_msg);
        if (self.peer_info.am_interested && elapsed_request > 30_000) || elapsed_recv > 45_000 {
            None
        } else {
            Some(Message::KeepAlive)
        }
    }

    /// The bitfield to hand back when the conversation is over
    pub fn into_bitfield(self) -> (r: Option<Bitfield>)
        requires
            self.wf(),
        ensures
            match r {
                Some(b) => b.wf() && self@.field == FieldView::Validated(
                    b.bits(),
                    b.num_pieces as int,
                ),
                None => !(self@.field is Validated),
            },
    {
        match self.bitfield {
            BitfieldState::Validated(b) => Some(b),
            _ => None,
        }
    }

    /// How the two sides stand to each other
    pub fn info(&self) -> (r: PeerInfo)
        ensures
            r == self@.info,
    {
        self.peer_info
    }

    /// Closes the windows of the rates; gives the bytes and milliseconds of each
    pub fn update_rates(&mut self, now: u64) -> (r: (Option<(u64, u64)>, Option<(u64, u64)>))
        requires
            old(self).wf(),
        ensures
            final(self).wf(),
            ({
                let m = old(self)@.metrics;
                let down = now - m.download.last_update_ms;
                let up = now - m.upload.last_update_ms;
                &&& r.0 == if down < 500 {
                    None
                } else {
                    Some((m.download.window_bytes, down as u64))
                }
                &&& r.1 == if up < 500 {
                    None
                } else {
                    Some((m.upload.window_bytes, up as u64))
                }
                &&& final(self)@ == (Talk { metrics: final(self)@.metrics, ..old(self)@ })
                &&& final(self)@.metrics == (PeerMetrics {
                    download: if down < 500 {
                        m.download
                    } else {
                        crate::metrics::rate::RateWindow { window_bytes: 0, last_update_ms: now }
                    },
                    upload: if up < 500 {
                        m.upload
                    } else {
                        crate::metrics::rate::RateWindow { window_bytes: 0, last_update_ms: now }
                    },
                    ..m
                })
            }),
    {
        self.metrics.update_rates(now)
    }

    /// Adjusts how many requests are meant to be outstanding: while the conversation gathers
    /// speed, it stops doing so once data flows and the rate no longer grows; afterwards the
    /// number follows from the rate
    pub fn metric_update(&mut self, flowing: bool, plateaued: bool, raw_target: usize)
        requires
            old(self).wf(),
        ensures
            final(self)@ == if old(self)@.slow_start {
                Talk {
                    slow_start: !(!old(self)@.info.remote_choking && flowing && plateaued),
                    ..old(self)@
                }
            } else {
                Talk {
                    target: {
                        let t = if raw_target < 4 {
                            4
                        } else {
                            raw_target as int
                        };
                        if t > old(self)@.limit {
                            old(self)@.limit
                        } else {
                            t
                        }
                    },
                    ..old(self)@
                }
            },
            final(self).wf(),
    {
        if self.slow_start {
            if !self.peer_info.remote_choking && flowing && plateaued {
                self.slow_start = false;
            }
        } else {
            let floor: usize = if raw_target < 4 {
                4
            } else {
                raw_target
            };
            self.target_request_queue = if floor > self.max_outgoing_request {
                self.max_outgoing_request
            } else {
                floor
            };
        }
    }

    fn adjust_pipeline_on_piece(&mut self)
        requires
            old(self).wf(),
        ensures
            final(self).wf(),
            final(self)@ == (Talk {
                target: if old(self)@.slow_start {
                    if old(self)@.target < old(self)@.limit {
                        old(self)@.target + 1
                    } else {
                        old(self)@.limit
                    }
                } else {
                    old(self)@.target
                },
                ..old(self)@
            }),
    {
        if self.slow_start {
            if self.target_request_queue < self.max_outgoing_request {
                self.target_request_queue = self.target_request_queue + 1;
            } else {
                self.target_request_queue = self.max_outgoing_request;
            }
        }
    }

    fn send_block_requests(&mut self, now: u64) -> (r: Vec<Action>)
        requires
            old(self).wf(),
        ensures
            final(self).wf(),
            (final(self)@, asked(r@)) == old(self)@.flushed(now),
    {
        let mut sent: Vec<Action> = Vec::new();
        let ghost start = self@;
        let ghost mut went: Seq<BlockInfo> = Seq::empty();
        let ghost meant = popped(self@.queue, self@.outgoing, self@.limit);
        proof {
            assert(went + meant.2 =~= meant.2);
            assert(asked(sent@) =~= request_actions(went));
        }
        while self.request_queue.len() > 0 && self.outgoing_requests.len()
            <= self.max_outgoing_request
            invariant
                self.wf(),
                start.limit == self@.limit,
                self@ == (Talk {
                    queue: self@.queue,
                    outgoing: self@.outgoing,
                    last_request: if went.len() > 0 {
                        now
                    } else {
                        start.last_request
                    },
                    ..start
                }),
                meant.0 == popped(self@.queue, self@.outgoing, self@.limit).0,
                meant.1 == popped(self@.queue, self@.outgoing, self@.limit).1,
                meant.2 == went + popped(self@.queue, self@.outgoing, self@.limit).2,
                asked(sent@) == request_actions(went),
            decreases self.request_queue.len(),
        {
            let ghost before = self@;
            let ghost sent_before = sent@;
            match self.request_queue.pop() {
                Some(block) => {
                    self.outgoing_requests.insert(block);
                    self.last_block_request = now;
                    sent.push(Action::Send(Message::Request(block)));
                    proof {
                        assert(self@.queue =~= before.queue.drop_last());
                        assert(block == before.queue.last());
                        let rest = popped(self@.queue, self@.outgoing, self@.limit);
                        let earlier = went;
                        assert(went + (seq![block] + rest.2) =~= went.push(block) + rest.2);
                        went = went.push(block);
                        assert(asked(sent_before).len() == request_actions(earlier).len());
                        assert(asked(sent@) =~= request_actions(went)) by {
                            assert forall|i: int| 0 <= i < sent@.len() implies (#[trigger] asked(
                                sent@,
                            )[i]) == request_actions(went)[i] by {
                                if i < sent_before.len() {
                                    assert(asked(sent_before)[i] == request_actions(
                                        earlier,
                                    )[i]);
                                }
                            }
                        }
                    }
                },
                None => {},
            }
        }
        let ghost before = self@;
        if self.request_queue.len() > 0 {
            let dropped = self.request_queue.pop();
            assert(self@.queue =~= before.queue.drop_last());
        }
        proof {
            assert(went + popped(before.queue, before.outgoing, before.limit).2 =~= went);
        }
        sent
    }

    /// Asks the torrent for blocks where there is room for more requests, and sends those that
    /// wait otherwise
    fn request_block(&mut self, now: u64) -> (r: Vec<Action>)
        requires
            old(self).wf(),
        ensures
            final(self).wf(),
            (final(self)@, asked(r@)) == old(self)@.refilled(now),
    {
        if self.metadata.is_none() || self.request_queue.len() > 0 {
            return self.send_block_requests(now);
        }
        let in_flight: usize = self.outgoing_requests.len();
        if in_flight >= self.target_request_queue {
            return self.send_block_requests(now);
        }
        let slots: usize = self.target_request_queue - in_flight;
        match &self.bitfield {
            BitfieldState::Validated(bitfield) => {
                let copy = bitfield.copy();
                return single(Action::AskBlocks { max_requests: slots, bitfield: copy });
            },
            _ => {},
        }
        self.send_block_requests(now)
    }

    /// The torrent has named blocks to ask for
    pub fn on_blocks(&mut self, blocks: Vec<BlockInfo>, now: u64) -> (r: Vec<Action>)
        requires
            old(self).wf(),
        ensures
            final(self).wf(),
            (final(self)@, asked(r@)) == old(self)@.after_blocks(blocks@, now),
    {
        let mut blocks = blocks;
        let ghost before = self@;
        self.request_queue.append(&mut blocks);
        self.send_block_requests(now)
    }

    fn update_interest(&self) -> (r: Vec<Action>)
        ensures
            asked(r@) == self@.interest_question(),
    {
        if self.peer_info.am_interested {
            return nothing();
        }
        match &self.bitfield {
            BitfieldState::Validated(bf) => single(Action::AskInterest(bf.copy())),
            _ => nothing(),
        }
    }

    /// The torrent has said whether the peer is interesting
    pub fn on_interest(&mut self, interested: bool, now: u64) -> (r: Vec<Action>)
        requires
            old(self).wf(),
        ensures
            final(self).wf(),
            (final(self)@, asked(r@)) == old(self)@.after_interest(interested, now),
    {
        self.peer_info.am_interested = interested;
        if interested {
            self.request_block(now)
        } else {
            nothing()
        }
    }

    /// Whether the torrent is to be asked for a piece of the metadata
    pub fn maybe_request_metadata(&self) -> (r: bool)
        ensures
            r == self@.wants_metadata(),
    {
        if self.metadata.is_some() {
            return false;
        }
        match self.remote_metadata_id {
            Some(id) => id != 0,
            None => false,
        }
    }

    /// The torrent has said which piece of the metadata to ask for
    pub fn request_metadata(&self, piece: Option<u32>) -> (r: Vec<Action>)
        ensures
            asked(r@) == self@.metadata_request(piece),
    {
        match (self.remote_metadata_id, piece) {
            (Some(id), Some(p)) => {
                let payload = bytes_from_vec(
                    Bencode::encode(&MetadataMessage::Request { piece: p }),
                );
                single(
                    Action::Send(
                        Message::Extended(
                            ExtendedMessage::ExtensionMessage(
                                RawExtendedMessage { id: id as u8, payload },
                            ),
                        ),
                    ),
                )
            },
            _ => nothing(),
        }
    }

    fn on_choke(&mut self) -> (r: Vec<Action>)
        requires
            old(self).wf(),
        ensures
            final(self).wf(),
            final(self)@ == (Talk {
                info: PeerInfo { remote_choking: true, ..old(self)@.info },
                queue: Seq::empty(),
                ..old(self)@
            }),
            asked(r@) == seq![ActionView::ClearRequests],
    {
        self.peer_info.remote_choking = true;
        self.request_queue.clear();
        single(Action::ClearRequests)
    }

    fn on_unchoke(&mut self, now: u64) -> (r: Vec<Action>)
        requires
            old(self).wf(),
        ensures
            final(self).wf(),
            ({
                let t = Talk {
                    info: PeerInfo { remote_choking: false, ..old(self)@.info },
                    ..old(self)@
                };
                (final(self)@, asked(r@)) == if t.info.am_interested {
                    t.refilled(now)
                } else {
                    (t, t.interest_question())
                }
            }),
    {
        self.peer_info.remote_choking = false;
        if self.peer_info.am_interested {
            self.request_block(now)
        } else {
            self.update_interest()
        }
    }

    fn on_have(&mut self, piece_index: u32) -> (r: Result<Vec<Action>, ConnectionError>)
        requires
            old(self).wf(),
        ensures
            final(self).wf(),
            (final(self)@, told(r)) == old(self)@.after_have(piece_index),
    {
        let index: usize = piece_index as usize;
        if index < usize::MAX {
            let needed: usize = index + 1;
            if !self.bitfield.is_received() {
                let b = Bitfield::with_size(needed);
                assert(b.bits() =~= no_bits(needed as int)) by {
                    assert forall|i: int| 0 <= i < 8 * b.inner.len() implies !#[trigger] b.bits()[i] by {
                        assert(!b.holds(i));
                    }
                }
                self.bitfield.set_received(b);
            }
            if self.metadata.is_none() {
                self.bitfield.ensure_capacity(needed);
            }
        }
        match &self.metadata {
            Some(meta) => {
                let n: usize = meta.pieces.len();
                if index >= n {
                    let text = joined("HAVE piece index ", number(piece_index as u64).as_str()).concat(
                        " >= num_pieces ",
                    ).concat(number(n as u64).as_str());
                    return Err(ConnectionError::Protocol(text));
                }
            },
            None => {
                if piece_index >= 65536 {
                    let text = joined("HAVE piece index ", number(piece_index as u64).as_str()).concat(
                        " exceeds pre-metadata limit",
                    );
                    return Err(ConnectionError::Protocol(text));
                }
            },
        }
        let ghost field = self.bitfield@;
        let mut new: bool = false;
        match self.bitfield.get_bitfield_mut() {
            None => {},
            Some(bf) => {
                if index < bf.num_pieces {
                    let ghost before = *bf;
                    assert(bf.bits()[index as int] == bf.holds(index as int));
                    if !bf.has(index) {
                        bf.set(index);
                        new = true;
                        assert(bf.bits() =~= before.bits().update(index as int, true)) by {
                            assert forall|i: int| 0 <= i < 8 * bf.inner.len() implies (
                            #[trigger] bf.bits()[i]) == before.bits().update(index as int, true)[i] by {
                                assert(bf.holds(i) == (i == index || before.holds(i)));
                            }
                        }
                        assert(before.wf() ==> bf.wf()) by {
                            if before.wf() {
                                assert forall|i: int|
                                    bf.num_pieces <= i < 8 * bf.inner.len() implies !#[trigger] crate::bitfield::bit(bf.inner@, i) by {
                                    assert(bf.holds(i) == (i == index || before.holds(i)));
                                    assert(!crate::bitfield::bit(before.inner@, i));
                                }
                            }
                        }
                    }
                }
            },
        }
        if !new {
            return Ok(nothing());
        }
        let question = self.update_interest();
        if self.metadata.is_some() {
            Ok(followed(Action::Have(piece_index), question))
        } else {
            proof {
                assert(Seq::<ActionView>::empty() + asked(question@) =~= asked(question@));
            }
            Ok(question)
        }
    }

    fn on_bitfield(&mut self, payload: Bytes) -> (r: Result<Vec<Action>, ConnectionError>)
        requires
            old(self).wf(),
        ensures
            final(self).wf(),
            (final(self)@, told(r)) == old(self)@.after_bitfield(bytes_content(payload)),
    {
        if self.bitfield.is_received() {
            return Err(protocol("Duplicate bitfield"));
        }
        match &self.metadata {
            Some(meta) => match Bitfield::from_bytes_checked(payload, meta.pieces.len()) {
                Ok(bf) => {
                    self.bitfield = BitfieldState::Validated(bf);
                },
                Err(e) => {
                    return Err(ConnectionError::BitfieldError(e));
                },
            },
            None => {
                self.bitfield.set_received(Bitfield::from_bytes_unchecked(payload));
            },
        }
        Ok(self.update_interest())
    }

    fn on_request(&self, block_info: BlockInfo) -> (r: Vec<Action>)
        ensures
            asked(r@) == if self@.info.am_choking {
                Seq::<ActionView>::empty()
            } else {
                seq![ActionView::BlockRequest(block_info)]
            },
    {
        if self.peer_info.am_choking {
            nothing()
        } else {
            single(Action::BlockRequest(block_info))
        }
    }

    fn on_piece(&mut self, block: Block, now: u64) -> (r: Vec<Action>)
        requires
            old(self).wf(),
            bytes_content(block.data).len() <= u32::MAX,
            old(self)@.metrics.has_room(bytes_content(block.data).len() as int),
        ensures
            final(self).wf(),
            (final(self)@, asked(r@)) == old(self)@.after_piece(
                block.index,
                block.begin,
                bytes_content(block.data),
                now,
            ),
    {
        let len: usize = bytes_as_slice(&block.data).len();
        self.metrics.record_download(len as u64);
        let block_info = BlockInfo { index: block.index, begin: block.begin, length: len as u32 };
        if !self.outgoing_requests.remove(block_info) {
            return nothing();
        }
        self.adjust_pipeline_on_piece();
        let more = self.request_block(now);
        followed(Action::ReceiveBlock(block), more)
    }

    fn on_extended_handshake(&mut self, hs: ExtendedHandshake) -> (r: Vec<Action>)
        requires
            old(self).wf(),
        ensures
            final(self).wf(),
            (final(self)@, asked(r@)) == old(self)@.after_extensions(hs@),
    {
        match hs.reqq {
            Some(reqq) => {
                if reqq > 0 {
                    let asked_for: usize = reqq as usize;
                    if asked_for > self.max_outgoing_request {
                        self.max_outgoing_request = asked_for;
                    }
                }
            },
            None => {},
        }
        match &hs.m {
            None => nothing(),
            Some(m) => {
                let ghost views = extension_views(m@);
                let ghost name = encode_utf8(EXTENSION_NAME_METADATA@);
                let mut found: Option<i64> = None;
                let mut i: usize = 0;
                while i < m.len() && found.is_none()
                    invariant
                        i <= m.len(),
                        views == extension_views(m@),
                        name == encode_utf8(EXTENSION_NAME_METADATA@),
                        match found {
                            Some(id) => extension_id(views, name, 0) == Some(id as int),
                            None => extension_id(views, name, 0) == extension_id(
                                views,
                                name,
                                i as int,
                            ),
                        },
                    decreases m.len() - i,
                {
                    assert(views[i as int] == (m@[i as int].0@, m@[i as int].1 as int));
                    if same_bytes(m[i].0.as_slice(), EXTENSION_NAME_METADATA.as_bytes()) {
                        found = Some(m[i].1);
                    }
                    i = i + 1;
                }
                if found.is_some() {
                    self.remote_metadata_id = found;
                }
                match hs.metadata_size {
                    Some(sz) => {
                        if sz > 0 {
                            self.metadata_size = sz as usize;
                        }
                    },
                    None => {},
                }
                if self.metadata.is_none() {
                    let question = if self.maybe_request_metadata() {
                        single(Action::AskMetadataPiece)
                    } else {
                        nothing()
                    };
                    followed(Action::PeerWithMetadata(self.metadata_size), question)
                } else {
                    proof {
                        assert(Seq::<ActionView>::empty() + Seq::<ActionView>::empty() =~= Seq::<
                            ActionView,
                        >::empty());
                    }
                    nothing()
                }
            },
        }
    }

    /// What comes of a message on metadata
    pub fn handle_metadata_message(&self, payload: Bytes) -> (r: Result<
        Vec<Action>,
        ConnectionError,
    >)
        ensures
            told(r) == self@.metadata_answer(bytes_content(payload)),
    {
        let data = bytes_as_slice(&payload);
        let decoded = match Bencode::decode(data) {
            Ok(v) => v,
            Err(e) => {
                return Err(
                    ConnectionError::Protocol(
                        joined("bad metadata bencode: ", e.message().as_str()),
                    ),
                );
            },
        };
        let header = Bencode::encoder(&decoded);
        let data_start: usize = header.len();
        let dict = match &decoded {
            Bencode::Dict(d) => d,
            _ => return Err(protocol("metadata message not a dict")),
        };
        proof {
            reveal_with_fuel(Bencode::value, 2);
            assert(decoded.value()->Dict_0 =~= crate::bencode::dict_value(dict@));
        }
        let msg_type: i64 = match int_under(dict, "msg_type") {
            Some(t) => t,
            None => return Err(protocol("missing msg_type")),
        };
        let piece: u32 = match int_under(dict, "piece") {
            Some(p) => p as u32,
            None => return Err(protocol("missing piece")),
        };
        if msg_type == REQUEST_ID {
            match self.remote_metadata_id {
                None => Err(protocol("no id for ut_metadata")),
                Some(id) => {
                    let payload = bytes_from_vec(Bencode::encode(&MetadataMessage::Reject { piece }));
                    Ok(
                        single(
                            Action::Send(
                                Message::Extended(
                                    ExtendedMessage::ExtensionMessage(
                                        RawExtendedMessage { id: id as u8, payload },
                                    ),
                                ),
                            ),
                        ),
                    )
                },
            }
        } else if msg_type == DATA_ID {
            if int_under(dict, "total_size").is_none() {
                return Err(protocol("missing total_size"));
            }
            if data.len() <= data_start {
                return Err(protocol("no data after bencode header"));
            }
            let rest = copy_range(data, data_start, data.len());
            assert(rest@ =~= bytes_content(payload).skip(data_start as int));
            Ok(single(Action::ReceiveMetadata { piece, data: bytes_from_vec(rest) }))
        } else if msg_type == REJECT_ID {
            Ok(single(Action::MetadataRejected(piece)))
        } else {
            Err(
                ConnectionError::Protocol(
                    joined(
                        "unknown metadata msg_type: ",
                        crate::peer::error::signed_number(msg_type).as_str(),
                    ),
                ),
            )
        }
    }

    fn on_extension(&self, raw: RawExtendedMessage) -> (r: Result<Vec<Action>, ConnectionError>)
        ensures
            told(r) == if raw.id == 1 {
                self@.metadata_answer(bytes_content(raw.payload))
            } else {
                Ok(Seq::<ActionView>::empty())
            },
    {
        if raw.id == UT_METADATA_ID {
            self.handle_metadata_message(raw.payload)
        } else {
            Ok(nothing())
        }
    }

    /// Whether the counts have room for what a message brings
    pub fn accepts_msg(&self, msg: &Message) -> (r: bool)
        ensures
            r == (msg@ matches MessageView::Piece(_, _, data) ==> data.len() <= u32::MAX
                && self@.metrics.has_room(data.len() as int)),
    {
        match msg {
            Message::Piece(block) => {
                let len: usize = bytes_as_slice(&block.data).len();
                len as u64 <= u32::MAX as u64 && self.metrics.room_for(len as u64)
            },
            _ => true,
        }
    }

    /// A message has come
    pub fn handle_msg(&mut self, msg: Message, now: u64) -> (r: Result<Vec<Action>, ConnectionError>)
        requires
            old(self).wf(),
            msg@ matches MessageView::Piece(_, _, data) ==> data.len() <= u32::MAX && old(
                self,
            )@.metrics.has_room(data.len() as int),
        ensures
            final(self).wf(),
            (final(self)@, told(r)) == old(self)@.after_msg(msg@, now),
    {
        self.last_recv_msg = now;
        match msg {
            Message::KeepAlive => Ok(nothing()),
            Message::Choke => Ok(self.on_choke()),
            Message::Unchoke => Ok(self.on_unchoke(now)),
            Message::Interested => {
                self.peer_info.remote_interested = true;
                Ok(single(Action::Interest))
            },
            Message::NotInterested => {
                self.peer_info.remote_interested = false;
                Ok(single(Action::NotInterest))
            },
            Message::Have { piece_index } => self.on_have(piece_index),
            Message::Bitfield(payload) => self.on_bitfield(payload),
            Message::Request(block_info) => Ok(self.on_request(block_info)),
            Message::Piece(block) => Ok(self.on_piece(block, now)),
            Message::Cancel(_) => Ok(nothing()),
            Message::Port { port } => {
                Ok(single(Action::AddNode(SocketAddr { ip: self.peer_addr.ip, port })))
            },
            Message::Extended(ext) => match ext {
                ExtendedMessage::Handshake(hs) => Ok(self.on_extended_handshake(hs)),
                ExtendedMessage::ExtensionMessage(raw) => self.on_extension(raw),
            },
        }
    }

    /// Whether the piece that a command speaks of is one that the bitfield can tell of
    pub fn accepts_cmd(&self, cmd: &PeerMessage) -> (r: bool)
        requires
            self.wf(),
        ensures
            r == (cmd@ matches PeerMessageView::SendHave(i) ==> (self@.field matches
                FieldView::Validated(s, _) ==> i < s.len())),
    {
        match cmd {
            PeerMessage::SendHave { piece_index } => match &self.bitfield {
                BitfieldState::Validated(bf) => *piece_index as usize / 8 < bf.inner.len(),
                _ => true,
            },
            _ => true,
        }
    }

    /// The torrent has given a command
    pub fn handle_cmd(&mut self, cmd: PeerMessage) -> (r: Result<Vec<Action>, ConnectionError>)
        requires
            old(self).wf(),
            cmd@ matches PeerMessageView::SendHave(i) ==> (old(self)@.field matches
                FieldView::Validated(s, _) ==> i < s.len()),
        ensures
            final(self).wf(),
            (final(self)@, told(r)) == old(self)@.after_cmd(cmd@),
    {
        match cmd {
            PeerMessage::SendHave { piece_index } => {
                let mut has: bool = false;
                match &self.bitfield {
                    BitfieldState::Validated(bf) => {
                        assert(bf.bits()[piece_index as int] == bf.holds(piece_index as int));
                        has = bf.has(piece_index as usize);
                    },
                    _ => {},
                }
                if has {
                    Ok(single(Action::Send(Message::Have { piece_index })))
                } else {
                    Ok(nothing())
                }
            },
            PeerMessage::SendBitfield { bitfield } => {
                if bitfield.inner.len() > 0 {
                    Ok(single(Action::Send(Message::Bitfield(bytes_from_vec(bitfield.inner)))))
                } else {
                    Ok(nothing())
                }
            },
            PeerMessage::SendChoke => {
                self.metrics.reset_since_unchoked();
                self.peer_info.am_choking = true;
                Ok(single(Action::Send(Message::Choke)))
            },
            PeerMessage::SendUnchoke => {
                self.peer_info.am_choking = false;
                Ok(single(Action::Send(Message::Unchoke)))
            },
            PeerMessage::Disconnect => Ok(nothing()),
            PeerMessage::SendMessage(msg) => Ok(single(Action::Send(msg))),
            PeerMessage::HaveMetadata(metadata) => {
                let num_pieces: usize = metadata.num_pieces();
                self.metadata = Some(metadata);
                match self.bitfield.validate(num_pieces) {
                    Ok(_) => Ok(self.update_interest()),
                    Err(e) => Err(ConnectionError::BitfieldError(e)),
                }
            },
        }
    }
}

// ---------------------------------------------------------------------------------------------
// Laws

proof fn metadata_words_differ()
    ensures
        encode_utf8("msg_type"@) != encode_utf8("piece"@),
        encode_utf8("msg_type"@) != encode_utf8("total_size"@),
        encode_utf8("piece"@) != encode_utf8("total_size"@),
        crate::bencode::key_less(encode_utf8("msg_type"@), encode_utf8("piece"@)),
        crate::bencode::key_less(encode_utf8("piece"@), encode_utf8("total_size"@)),
        crate::bencode::key_less(encode_utf8("msg_type"@), encode_utf8("total_size"@)),
{
    reveal_strlit("msg_type");
    reveal_strlit("piece");
    reveal_strlit("total_size");
    is_ascii_chars_encode_utf8("msg_type"@);
    is_ascii_chars_encode_utf8("piece"@);
    is_ascii_chars_encode_utf8("total_size"@);
    assert(encode_utf8("msg_type"@)[0] == 109);
    assert(encode_utf8("piece"@)[0] == 112);
    assert(encode_utf8("total_size"@)[0] == 116);
}

/// What a peer sends of the metadata reaches the torrent as it was sent: the bytes behind the
/// header, under the number of the piece.
pub proof fn metadata_piece_arrives(s: Talk, piece: u32, total_size: i64, data: Seq<u8>)
    requires
        data.len() > 0,
    ensures
        s.metadata_answer(
            encoded(metadata_value(MetadataMessage::Data { piece, total_size })) + data,
        ) == Ok::<Seq<ActionView>, Fault>(seq![ActionView::ReceiveMetadata(piece, data)]),
{
    let v = metadata_value(MetadataMessage::Data { piece, total_size });
    let d = v->Dict_0;
    let payload = encoded(v) + data;
    metadata_words_differ();
    reveal_with_fuel(crate::bencode::canonical, 2);
    reveal_with_fuel(entry, 4);
    assert(d.len() == 3);
    assert(d[0] == (encode_utf8("msg_type"@), Value::Int(1)));
    assert(d[1] == (encode_utf8("piece"@), Value::Int(piece as int)));
    assert(d[2] == (encode_utf8("total_size"@), Value::Int(total_size as int)));
    crate::bencode::written_value_reads_back(v, data);
    assert(payload.skip(encoded(v).len() as int) =~= data);
}

/// A peer that asks for a piece of the metadata is refused that piece, under the number that it
/// goes by with the peer, and without such a number the connection ends.
pub proof fn wanted_metadata_is_refused(s: Talk, piece: u32, now: u64)
    ensures
        ({
            let payload = encoded(metadata_value(MetadataMessage::Request { piece }));
            let (t, r) = s.after_msg(MessageView::Extension(1, payload), now);
            &&& t == (Talk { last_recv: now, ..s })
            &&& s.metadata_id matches Some(id) ==> r == Ok::<Seq<ActionView>, Fault>(
                seq![
                    ActionView::Send(
                        MessageView::Extension(
                            id as u8,
                            encoded(metadata_value(MetadataMessage::Reject { piece })),
                        ),
                    ),
                ],
            )
            &&& s.metadata_id is None ==> r is Err
        }),
{
    let v = metadata_value(MetadataMessage::Request { piece });
    let d = v->Dict_0;
    metadata_words_differ();
    reveal_with_fuel(crate::bencode::canonical, 2);
    reveal_with_fuel(entry, 3);
    assert(d.len() == 2);
    assert(d[0] == (encode_utf8("msg_type"@), Value::Int(0)));
    assert(d[1] == (encode_utf8("piece"@), Value::Int(piece as int)));
    crate::bencode::written_value_reads_back(v, Seq::empty());
    assert(encoded(v) + Seq::<u8>::empty() =~= encoded(v));
}

/// Where a peer refuses a piece of the metadata, the torrent learns which.
pub proof fn refused_metadata_is_told(s: Talk, piece: u32, now: u64)
    ensures
        s.after_msg(
            MessageView::Extension(
                1,
                encoded(metadata_value(MetadataMessage::Reject { piece })),
            ),
            now,
        ) == (
            (Talk { last_recv: now, ..s }),
            Ok::<Seq<ActionView>, Fault>(seq![ActionView::MetadataRejected(piece)]),
        ),
{
    let v = metadata_value(MetadataMessage::Reject { piece });
    let d = v->Dict_0;
    metadata_words_differ();
    reveal_with_fuel(crate::bencode::canonical, 2);
    reveal_with_fuel(entry, 3);
    assert(d.len() == 2);
    assert(d[0] == (encode_utf8("msg_type"@), Value::Int(2)));
    assert(d[1] == (encode_utf8("piece"@), Value::Int(piece as int)));
    crate::bencode::written_value_reads_back(v, Seq::empty());
    assert(encoded(v) + Seq::<u8>::empty() =~= encoded(v));
}

/// The piece of the metadata that the torrent names is asked for, under the number that the peer
/// wants to see, and by no peer that gave none.
pub proof fn named_metadata_is_asked_for(s: Talk, piece: u32)
    ensures
        s.metadata_id matches Some(id) ==> s.metadata_request(Some(piece)) == seq![
            ActionView::Send(
                MessageView::Extension(
                    id as u8,
                    encoded(metadata_value(MetadataMessage::Request { piece })),
                ),
            ),
        ],
        s.metadata_id is None ==> s.metadata_request(Some(piece)).len() == 0,
        s.metadata_request(None).len() == 0,
{
}

/// What a word on metadata is written as: its kind, the piece, and with a piece that is sent the
/// size of all.
pub proof fn metadata_words_say_their_kind(piece: u32, total_size: i64)
    ensures
        ({
            let asked = metadata_value(MetadataMessage::Request { piece })->Dict_0;
            let sent = metadata_value(MetadataMessage::Data { piece, total_size })->Dict_0;
            let refused = metadata_value(MetadataMessage::Reject { piece })->Dict_0;
            &&& number_under(asked, "msg_type"@) == Some(0int)
            &&& number_under(sent, "msg_type"@) == Some(1int)
            &&& number_under(refused, "msg_type"@) == Some(2int)
            &&& number_under(asked, "piece"@) == Some(piece as int)
            &&& number_under(sent, "piece"@) == Some(piece as int)
            &&& number_under(refused, "piece"@) == Some(piece as int)
            &&& number_under(sent, "total_size"@) == Some(total_size as int)
        }),
{
    metadata_words_differ();
    reveal_with_fuel(entry, 4);
}

/// However long the queue, no more than one request over the limit is ever outstanding.
pub proof fn outstanding_requests_are_limited(
    queue: Seq<BlockInfo>,
    outgoing: Seq<BlockInfo>,
    limit: int,
)
    requires
        outgoing.len() <= limit + 1,
    ensures
        popped(queue, outgoing, limit).1.len() <= limit + 1,
    decreases queue.len(),
{
    if queue.len() > 0 && outgoing.len() <= limit {
        outstanding_requests_are_limited(
            queue.drop_last(),
            with_request(outgoing, queue.last()),
            limit,
        );
    }
}

/// What is sent was in the queue, and is outstanding afterwards.
pub proof fn sent_requests_are_outstanding(
    queue: Seq<BlockInfo>,
    outgoing: Seq<BlockInfo>,
    limit: int,
    b: BlockInfo,
)
    ensures
        outgoing.contains(b) ==> popped(queue, outgoing, limit).1.contains(b),
        popped(queue, outgoing, limit).2.contains(b) ==> queue.contains(b) && popped(
            queue,
            outgoing,
            limit,
        ).1.contains(b),
    decreases queue.len(),
{
    if queue.len() > 0 && outgoing.len() <= limit {
        let last = queue.last();
        let more = with_request(outgoing, last);
        sent_requests_are_outstanding(queue.drop_last(), more, limit, b);
        let rest = popped(queue.drop_last(), more, limit).2;
        if outgoing.contains(b) {
            let i = choose|i: int| 0 <= i < outgoing.len() && outgoing[i] == b;
            assert(more[i] == b);
        }
        if more.contains(last) {
        } else {
            assert(more[outgoing.len() as int] == last);
        }
        let sent = seq![last] + rest;
        if sent.contains(b) {
            let i = choose|i: int| 0 <= i < sent.len() && sent[i] == b;
            if i == 0 {
                assert(queue[queue.len() - 1] == b);
            } else {
                assert(rest[i - 1] == b);
                let j = choose|j: int| 0 <= j < queue.drop_last().len() && queue.drop_last()[j] == b;
                assert(queue[j] == b);
            }
        }
    }
}

} // verus!
