//! What peers say to each other, and its bytes.

use crate::bencode::{canonical, copy_range, dict_get, dict_value, encoded, entry, key_less};
use crate::bencode::{key_less_irreflexive, keys_ascend, parsed, written_value_reads_back};
use crate::bencode::{Bencode, Encode, Value};
use crate::buffers::{bytes_as_slice, bytes_content, bytes_from_vec};
use crate::endian::{be16, be16_reads_back, be32, be32_reads_back, get_be16, get_be32, push_be16};
use crate::endian::{push_be32, read16, read32};
use crate::types::{same_bytes, InfoHash, PeerID};
use bytes::Bytes;
use vstd::prelude::*;
use vstd::string::*;
use vstd::utf8::*;

verus! {

/// A block that is asked for.
#[derive(Debug, Clone, Copy, PartialEq, Eq, Hash, Structural)]
pub struct BlockInfo {
    pub index: u32,
    pub begin: u32,
    pub length: u32,
}

/// A block that is delivered.
#[derive(Debug, PartialEq, Eq)]
pub struct Block {
    pub index: u32,
    pub begin: u32,
    pub data: Bytes,
}

/// What a peer says first: which torrent it means, who it is, and what it supports.
#[derive(Debug, Clone, Copy, PartialEq, Eq)]
pub struct Handshake {
    pub reserved: [u8; 8],
    pub info_hash: InfoHash,
    pub peer_id: PeerID,
}

/// What a peer says of its extensions.
#[derive(Debug, PartialEq, Eq)]
pub struct ExtendedHandshake {
    /// The extensions and the ids that the peer wants to see them under
    pub m: Option<Vec<(Vec<u8>, i64)>>,
    /// The size of the metadata
    pub metadata_size: Option<i64>,
    /// How many requests may be outstanding
    pub reqq: Option<i64>,
    /// The client's name and version
    pub v: Option<Vec<u8>>,
    /// The address under which the other side is seen
    pub yourip: Option<Vec<u8>>,
}

/// A message of an extension, not looked into.
#[derive(Debug, PartialEq, Eq)]
pub struct RawExtendedMessage {
    pub id: u8,
    pub payload: Bytes,
}

/// What the extension protocol carries.
#[derive(Debug, PartialEq, Eq)]
pub enum ExtendedMessage {
    Handshake(ExtendedHandshake),
    ExtensionMessage(RawExtendedMessage),
}

/// What peers say to each other after the handshake.
#[derive(Debug, PartialEq, Eq)]
pub enum Message {
    KeepAlive,
    Choke,
    Unchoke,
    Interested,
    NotInterested,
    Have { piece_index: u32 },
    Bitfield(Bytes),
    Request(BlockInfo),
    Piece(Block),
    Cancel(BlockInfo),
    Port { port: u16 },
    Extended(ExtendedMessage),
}

/// What peers say to each other of a torrent's metadata.
#[derive(Debug, Clone, Copy, PartialEq, Eq, Structural)]
pub enum MetadataMessage {
    /// Asks for a piece
    Request { piece: u32 },
    /// Announces a piece, whose bytes follow, and the size of the metadata
    Data { piece: u32, total_size: i64 },
    /// Refuses a piece
    Reject { piece: u32 },
}

/// How a request for metadata is marked
pub const REQUEST_ID: i64 = 0;

/// How a piece of metadata is marked
pub const DATA_ID: i64 = 1;

/// How a refusal of metadata is marked
pub const REJECT_ID: i64 = 2;

/// Why bytes are no message.
#[derive(Debug, Clone, Copy, PartialEq, Eq, Structural)]
pub enum WireError {
    /// No message has this id
    UnknownId(u8),
    /// The message with this id does not have this length
    InvalidLength(u8),
    /// The extension handshake is no dictionary
    InvalidExtension,
}

/// What an extension handshake says.
#[verifier::ext_equal]
pub struct ExtendedView {
    pub m: Option<Seq<(Seq<u8>, int)>>,
    pub metadata_size: Option<int>,
    pub reqq: Option<int>,
    pub v: Option<Seq<u8>>,
    pub yourip: Option<Seq<u8>>,
}

/// What a message says.
#[verifier::ext_equal]
pub enum MessageView {
    KeepAlive,
    Choke,
    Unchoke,
    Interested,
    NotInterested,
    Have(u32),
    Bitfield(Seq<u8>),
    Request(BlockInfo),
    Piece(u32, u32, Seq<u8>),
    Cancel(BlockInfo),
    Port(u16),
    ExtensionHandshake(ExtendedView),
    Extension(u8, Seq<u8>),
}

/// What a list of extensions says.
pub open spec fn extension_views(l: Seq<(Vec<u8>, i64)>) -> Seq<(Seq<u8>, int)> {
    Seq::new(l.len(), |i: int| (l[i].0@, l[i].1 as int))
}

pub open spec fn opt_extensions(l: Option<Vec<(Vec<u8>, i64)>>) -> Option<Seq<(Seq<u8>, int)>> {
    match l {
        Some(v) => Some(extension_views(v@)),
        None => None,
    }
}

pub open spec fn opt_int(n: Option<i64>) -> Option<int> {
    match n {
        Some(v) => Some(v as int),
        None => None,
    }
}

pub open spec fn opt_bytes(b: Option<Vec<u8>>) -> Option<Seq<u8>> {
    match b {
        Some(v) => Some(v@),
        None => None,
    }
}

impl View for ExtendedHandshake {
    type V = ExtendedView;

    open spec fn view(&self) -> ExtendedView {
        ExtendedView {
            m: opt_extensions(self.m),
            metadata_size: opt_int(self.metadata_size),
            reqq: opt_int(self.reqq),
            v: opt_bytes(self.v),
            yourip: opt_bytes(self.yourip),
        }
    }
}

impl View for Message {
    type V = MessageView;

    open spec fn view(&self) -> MessageView {
        match self {
            Message::KeepAlive => MessageView::KeepAlive,
            Message::Choke => MessageView::Choke,
            Message::Unchoke => MessageView::Unchoke,
            Message::Interested => MessageView::Interested,
            Message::NotInterested => MessageView::NotInterested,
            Message::Have { piece_index } => MessageView::Have(*piece_index),
            Message::Bitfield(b) => MessageView::Bitfield(bytes_content(*b)),
            Message::Request(b) => MessageView::Request(*b),
            Message::Piece(b) => MessageView::Piece(b.index, b.begin, bytes_content(b.data)),
            Message::Cancel(b) => MessageView::Cancel(*b),
            Message::Port { port } => MessageView::Port(*port),
            Message::Extended(ExtendedMessage::Handshake(h)) => MessageView::ExtensionHandshake(h@),
            Message::Extended(ExtendedMessage::ExtensionMessage(r)) => MessageView::Extension(
                r.id,
                bytes_content(r.payload),
            ),
        }
    }
}

// ---------------------------------------------------------------------------------------------
// The handshake

/// The bytes of a handshake.
pub open spec fn handshake_bytes(h: Handshake) -> Seq<u8> {
    seq![19u8] + encode_utf8("BitTorrent protocol"@) + h.reserved@ + h.info_hash@ + h.peer_id@
}

/// The handshake that bytes are, where they are one.
pub open spec fn is_handshake(s: Seq<u8>) -> bool {
    s.len() == 68 && s[0] == 19 && s.subrange(1, 20) == encode_utf8("BitTorrent protocol"@)
}

proof fn protocol_name_length()
    ensures
        encode_utf8("BitTorrent protocol"@).len() == 19,
{
    reveal_strlit("BitTorrent protocol");
    is_ascii_chars_encode_utf8("BitTorrent protocol"@);
}

impl Handshake {
    /// The number of bytes of a handshake
    pub const HANDSHAKE_LEN: usize = 68;

    /// A handshake of this client, which supports the extension protocol and the DHT
    pub fn new(peer_id: PeerID, info_hash: InfoHash) -> (r: Self)
        ensures
            r.peer_id == peer_id,
            r.info_hash == info_hash,
            r.reserved@ == seq![0u8, 0, 0, 0, 0, 16, 0, 1],
    {
        let reserved: [u8; 8] = [0, 0, 0, 0, 0, 16, 0, 1];
        assert(reserved@ =~= seq![0u8, 0, 0, 0, 0, 16, 0, 1]);
        Handshake { reserved, info_hash, peer_id }
    }

    /// The bytes of the handshake
    pub fn to_bytes(&self) -> (r: Vec<u8>)
        ensures
            r@ == handshake_bytes(*self),
            r.len() == 68,
    {
        proof {
            protocol_name_length();
        }
        let mut r: Vec<u8> = Vec::new();
        r.push(19);
        r.extend_from_slice("BitTorrent protocol".as_bytes());
        r.extend_from_slice(self.reserved.as_slice());
        r.extend_from_slice(self.info_hash.as_slice());
        r.extend_from_slice(self.peer_id.as_slice());
        assert(r@ =~= handshake_bytes(*self));
        r
    }

    /// The handshake that bytes are, where they are one
    pub fn from_bytes(buf: &[u8]) -> (r: Option<Self>)
        ensures
            match r {
                Some(h) => {
                    &&& is_handshake(buf@)
                    &&& h.reserved@ == buf@.subrange(20, 28)
                    &&& h.info_hash@ == buf@.subrange(28, 48)
                    &&& h.peer_id@ == buf@.subrange(48, 68)
                },
                None => !is_handshake(buf@),
            },
    {
        if buf.len() != 68 || buf[0] != 19 {
            return None;
        }
        if !same_bytes(
            copy_range(buf, 1, 20).as_slice(),
            "BitTorrent protocol".as_bytes(),
        ) {
            return None;
        }
        let mut reserved: [u8; 8] = [0u8; 8];
        let mut i: usize = 0;
        while i < 8
            invariant
                i <= 8,
                buf.len() == 68,
                reserved@.len() == 8,
                forall|k: int| 0 <= k < i ==> reserved@[k] == buf[20 + k],
            decreases 8 - i,
        {
            reserved[i] = buf[20 + i];
            i = i + 1;
        }
        assert(reserved@ =~= buf@.subrange(20, 28));
        let info_hash = match InfoHash::from_slice(copy_range(buf, 28, 48).as_slice()) {
            Some(h) => h,
            None => return None,
        };
        let peer_id = match PeerID::from_slice(copy_range(buf, 48, 68).as_slice()) {
            Some(p) => p,
            None => return None,
        };
        Some(Handshake { reserved, info_hash, peer_id })
    }

    /// Whether the peer supports the extension protocol
    pub fn support_extended_message(&self) -> (r: bool)
        ensures
            r == (self.reserved@[5] & 16 != 0),
    {
        self.reserved[5] & 16 != 0
    }

    /// Whether the peer supports the DHT
    pub fn support_dht(&self) -> (r: bool)
        ensures
            r == (self.reserved@[7] & 1 != 0),
    {
        self.reserved[7] & 1 != 0
    }
}

/// A handshake is read back from its own bytes.
pub proof fn handshake_reads_back(h: Handshake)
    ensures
        is_handshake(handshake_bytes(h)),
        handshake_bytes(h).subrange(20, 28) == h.reserved@,
        handshake_bytes(h).subrange(28, 48) == h.info_hash@,
        handshake_bytes(h).subrange(48, 68) == h.peer_id@,
{
    protocol_name_length();
    let s = handshake_bytes(h);
    assert(h.reserved@.len() == 8 && h.info_hash@.len() == 20 && h.peer_id@.len() == 20);
    assert(s.subrange(1, 20) =~= encode_utf8("BitTorrent protocol"@));
    assert(s.subrange(20, 28) =~= h.reserved@);
    assert(s.subrange(28, 48) =~= h.info_hash@);
    assert(s.subrange(48, 68) =~= h.peer_id@);
}

// ---------------------------------------------------------------------------------------------
// The extension handshake

/// The entries of a list of extensions that have a number.
pub open spec fn numbered(d: Seq<(Seq<u8>, Value)>, n: int) -> Seq<(Seq<u8>, int)>
    decreases n,
{
    if n <= 0 || n > d.len() {
        Seq::empty()
    } else {
        match d[n - 1].1 {
            Value::Int(id) => numbered(d, n - 1).push((d[n - 1].0, id)),
            _ => numbered(d, n - 1),
        }
    }
}

/// What a dictionary says of a peer's extensions.
pub open spec fn extension_of(d: Seq<(Seq<u8>, Value)>) -> ExtendedView {
    ExtendedView {
        m: match entry(d, encode_utf8("m"@)) {
            Some(Value::Dict(m)) => Some(numbered(m, m.len() as int)),
            _ => None,
        },
        metadata_size: match entry(d, encode_utf8("metadata_size"@)) {
            Some(Value::Int(n)) => Some(n),
            _ => None,
        },
        reqq: match entry(d, encode_utf8("reqq"@)) {
            Some(Value::Int(n)) => Some(n),
            _ => None,
        },
        v: match entry(d, encode_utf8("v"@)) {
            Some(Value::Bytes(b)) => Some(b),
            _ => None,
        },
        yourip: match entry(d, encode_utf8("yourip"@)) {
            Some(Value::Bytes(b)) => Some(b),
            _ => None,
        },
    }
}

/// The extensions as entries of a dictionary.
pub open spec fn extension_entries(m: Seq<(Seq<u8>, int)>) -> Seq<(Seq<u8>, Value)> {
    Seq::new(m.len(), |i: int| (m[i].0, Value::Int(m[i].1)))
}

/// An entry of a dictionary, where there is a value for it.
pub open spec fn optional_entry(key: Seq<char>, v: Option<Value>) -> Seq<(Seq<u8>, Value)> {
    match v {
        Some(x) => seq![(encode_utf8(key), x)],
        None => Seq::empty(),
    }
}

/// The dictionary that an extension handshake is written as.
pub open spec fn extension_value(h: ExtendedView) -> Value {
    Value::Dict(
        optional_entry(
            "m"@,
            match h.m {
                Some(m) => Some(Value::Dict(extension_entries(m))),
                None => None,
            },
        ) + optional_entry("metadata_size"@, int_value(h.metadata_size)) + optional_entry(
            "reqq"@,
            int_value(h.reqq),
        ) + optional_entry("v"@, bytes_value(h.v)) + optional_entry(
            "yourip"@,
            bytes_value(h.yourip),
        ),
    )
}

/// The value of a number, where there is one.
pub open spec fn int_value(n: Option<int>) -> Option<Value> {
    match n {
        Some(x) => Some(Value::Int(x)),
        None => None,
    }
}

/// The value of a byte string, where there is one.
pub open spec fn bytes_value(b: Option<Seq<u8>>) -> Option<Value> {
    match b {
        Some(x) => Some(Value::Bytes(x)),
        None => None,
    }
}

fn dict_int(d: &Vec<(Vec<u8>, Bencode)>, key: &str) -> (r: Option<i64>)
    ensures
        opt_int(r) == (match entry(dict_value(d@), encode_utf8(key@)) {
            Some(Value::Int(n)) => Some(n),
            _ => None,
        }),
{
    match dict_get(d, key.as_bytes()) {
        Some(Bencode::Int(n)) => Some(*n),
        _ => None,
    }
}

fn read_extensions(d: &Vec<(Vec<u8>, Bencode)>) -> (r: Vec<(Vec<u8>, i64)>)
    ensures
        extension_views(r@) == numbered(dict_value(d@), d.len() as int),
{
    let ghost all = dict_value(d@);
    let mut r: Vec<(Vec<u8>, i64)> = Vec::new();
    let mut i: usize = 0;
    assert(extension_views(r@) =~= numbered(all, 0));
    while i < d.len()
        invariant
            i <= d.len(),
            all == dict_value(d@),
            extension_views(r@) == numbered(all, i as int),
        decreases d.len() - i,
    {
        assert(all[i as int] == (d@[i as int].0@, d@[i as int].1.value()));
        match &d[i].1 {
            Bencode::Int(n) => {
                let ghost before = extension_views(r@);
                r.push((vstd::slice::slice_to_vec(d[i].0.as_slice()), *n));
                assert(extension_views(r@) =~= before.push((d@[i as int].0@, *n as int)));
            },
            _ => {},
        }
        i = i + 1;
    }
    r
}

impl ExtendedHandshake {
    /// What a dictionary says of a peer's extensions
    pub fn from_dict(d: &Vec<(Vec<u8>, Bencode)>) -> (r: Self)
        ensures
            r@ == extension_of(dict_value(d@)),
    {
        let m = match dict_get(d, "m".as_bytes()) {
            Some(Bencode::Dict(m)) => {
                assert(Bencode::Dict(*m).value()->Dict_0 =~= dict_value(m@));
                Some(read_extensions(m))
            },
            _ => None,
        };
        let v = match dict_get(d, "v".as_bytes()) {
            Some(Bencode::Bytes(b)) => Some(vstd::slice::slice_to_vec(b.as_slice())),
            _ => None,
        };
        let yourip = match dict_get(d, "yourip".as_bytes()) {
            Some(Bencode::Bytes(b)) => Some(vstd::slice::slice_to_vec(b.as_slice())),
            _ => None,
        };
        ExtendedHandshake {
            m,
            metadata_size: dict_int(d, "metadata_size"),
            reqq: dict_int(d, "reqq"),
            v,
            yourip,
        }
    }

    /// The dictionary that the handshake is written as
    pub fn to_bencode(&self) -> (r: Bencode)
        ensures
            r.value() == extension_value(self@),
    {
        let mut d: Vec<(Vec<u8>, Bencode)> = Vec::new();
        let ghost mut meant: Seq<(Seq<u8>, Value)> = Seq::empty();
        assert(dict_value(d@) =~= meant);
        match &self.m {
            Some(m) => {
                let mut inner: Vec<(Vec<u8>, Bencode)> = Vec::new();
                let mut i: usize = 0;
                while i < m.len()
                    invariant
                        i <= m.len(),
                        inner.len() == i,
                        forall|k: int|
                            0 <= k < i ==> (#[trigger] inner@[k]).0@ == m@[k].0@
                                && inner@[k].1.value() == Value::Int(m@[k].1 as int),
                    decreases m.len() - i,
                {
                    inner.push((vstd::slice::slice_to_vec(m[i].0.as_slice()), Bencode::Int(m[i].1)));
                    i = i + 1;
                }
                let ghost entries = extension_entries(extension_views(m@));
                let v = Bencode::Dict(inner);
                assert(v.value()->Dict_0 =~= entries);
                d.push(("m".as_bytes_vec(), v));
                proof {
                    meant = meant + seq![(encode_utf8("m"@), Value::Dict(entries))];
                    assert(dict_value(d@) =~= meant);
                }
            },
            None => {},
        }
        proof {
            assert(meant =~= optional_entry(
                "m"@,
                match self@.m {
                    Some(m) => Some(Value::Dict(extension_entries(m))),
                    None => None,
                },
            ));
        }
        match self.metadata_size {
            Some(n) => {
                d.push(("metadata_size".as_bytes_vec(), Bencode::Int(n)));
                proof {
                    meant = meant + seq![(encode_utf8("metadata_size"@), Value::Int(n as int))];
                    assert(dict_value(d@) =~= meant);
                }
            },
            None => {},
        }
        match self.reqq {
            Some(n) => {
                d.push(("reqq".as_bytes_vec(), Bencode::Int(n)));
                proof {
                    meant = meant + seq![(encode_utf8("reqq"@), Value::Int(n as int))];
                    assert(dict_value(d@) =~= meant);
                }
            },
            None => {},
        }
        match &self.v {
            Some(b) => {
                d.push(("v".as_bytes_vec(), Bencode::Bytes(vstd::slice::slice_to_vec(b.as_slice()))));
                proof {
                    meant = meant + seq![(encode_utf8("v"@), Value::Bytes(b@))];
                    assert(dict_value(d@) =~= meant);
                }
            },
            None => {},
        }
        match &self.yourip {
            Some(b) => {
                d.push(
                    ("yourip".as_bytes_vec(), Bencode::Bytes(vstd::slice::slice_to_vec(b.as_slice()))),
                );
                proof {
                    meant = meant + seq![(encode_utf8("yourip"@), Value::Bytes(b@))];
                    assert(dict_value(d@) =~= meant);
                }
            },
            None => {},
        }
        let r = Bencode::Dict(d);
        proof {
            assert(r.value()->Dict_0 =~= dict_value(d@));
            assert(r.value()->Dict_0 =~= extension_value(self@)->Dict_0);
        }
        r
    }
}

/// The dictionary that a word on metadata is written as.
pub open spec fn metadata_value(m: MetadataMessage) -> Value {
    match m {
        MetadataMessage::Request { piece } => Value::Dict(
            seq![
                (encode_utf8("msg_type"@), Value::Int(0)),
                (encode_utf8("piece"@), Value::Int(piece as int)),
            ],
        ),
        MetadataMessage::Data { piece, total_size } => Value::Dict(
            seq![
                (encode_utf8("msg_type"@), Value::Int(1)),
                (encode_utf8("piece"@), Value::Int(piece as int)),
                (encode_utf8("total_size"@), Value::Int(total_size as int)),
            ],
        ),
        MetadataMessage::Reject { piece } => Value::Dict(
            seq![
                (encode_utf8("msg_type"@), Value::Int(2)),
                (encode_utf8("piece"@), Value::Int(piece as int)),
            ],
        ),
    }
}

impl Encode for MetadataMessage {
    open spec fn bencode_value(&self) -> Value {
        metadata_value(*self)
    }

    open spec fn encodable(&self) -> bool {
        true
    }

    fn to_bencode(&self) -> (r: Bencode) {
        let mut d: Vec<(Vec<u8>, Bencode)> = Vec::new();
        match self {
            MetadataMessage::Request { piece } => {
                d.push(("msg_type".as_bytes_vec(), Bencode::Int(REQUEST_ID)));
                d.push(("piece".as_bytes_vec(), Bencode::Int(*piece as i64)));
            },
            MetadataMessage::Data { piece, total_size } => {
                d.push(("msg_type".as_bytes_vec(), Bencode::Int(DATA_ID)));
                d.push(("piece".as_bytes_vec(), Bencode::Int(*piece as i64)));
                d.push(("total_size".as_bytes_vec(), Bencode::Int(*total_size)));
            },
            MetadataMessage::Reject { piece } => {
                d.push(("msg_type".as_bytes_vec(), Bencode::Int(REJECT_ID)));
                d.push(("piece".as_bytes_vec(), Bencode::Int(*piece as i64)));
            },
        }
        let r = Bencode::Dict(d);
        proof {
            reveal_with_fuel(Bencode::value, 2);
            let made = r.value()->Dict_0;
            let meant = metadata_value(*self)->Dict_0;
            assert(made.len() == meant.len());
            assert(made[0] == meant[0]);
            assert(made[1] == meant[1]);
            assert(made =~= meant);
        }
        r
    }
}

// ---------------------------------------------------------------------------------------------
// Messages

/// The bytes of a request: piece, offset and length.
pub open spec fn block_bytes(b: BlockInfo) -> Seq<u8> {
    be32(b.index) + be32(b.begin) + be32(b.length)
}

/// The bytes of a message behind its length: an id and what belongs to it.
pub open spec fn body(m: MessageView) -> Seq<u8> {
    match m {
        MessageView::KeepAlive => Seq::empty(),
        MessageView::Choke => seq![0u8],
        MessageView::Unchoke => seq![1u8],
        MessageView::Interested => seq![2u8],
        MessageView::NotInterested => seq![3u8],
        MessageView::Have(i) => seq![4u8] + be32(i),
        MessageView::Bitfield(b) => seq![5u8] + b,
        MessageView::Request(b) => seq![6u8] + block_bytes(b),
        MessageView::Piece(i, begin, data) => seq![7u8] + be32(i) + be32(begin) + data,
        MessageView::Cancel(b) => seq![8u8] + block_bytes(b),
        MessageView::Port(p) => seq![9u8] + be16(p),
        MessageView::ExtensionHandshake(h) => seq![20u8, 0u8] + encoded(extension_value(h)),
        MessageView::Extension(id, payload) => seq![20u8, id] + payload,
    }
}

/// The message that the bytes behind a length are.
pub open spec fn parse_body(b: Seq<u8>) -> Result<MessageView, WireError> {
    if b.len() == 0 {
        Ok(MessageView::KeepAlive)
    } else if b[0] == 0 && b.len() == 1 {
        Ok(MessageView::Choke)
    } else if b[0] == 1 && b.len() == 1 {
        Ok(MessageView::Unchoke)
    } else if b[0] == 2 && b.len() == 1 {
        Ok(MessageView::Interested)
    } else if b[0] == 3 && b.len() == 1 {
        Ok(MessageView::NotInterested)
    } else if b[0] == 4 && b.len() == 5 {
        Ok(MessageView::Have(read32(b, 1) as u32))
    } else if b[0] == 5 {
        Ok(MessageView::Bitfield(b.skip(1)))
    } else if b[0] == 6 && b.len() == 13 {
        Ok(MessageView::Request(parse_block(b)))
    } else if b[0] == 7 && b.len() >= 9 {
        Ok(MessageView::Piece(read32(b, 1) as u32, read32(b, 5) as u32, b.skip(9)))
    } else if b[0] == 8 && b.len() == 13 {
        Ok(MessageView::Cancel(parse_block(b)))
    } else if b[0] == 9 && b.len() == 3 {
        Ok(MessageView::Port(read16(b, 1) as u16))
    } else if b[0] == 20 && b.len() >= 2 {
        if b[1] == 0 {
            match parsed(b.skip(2)) {
                Ok((Value::Dict(d), n)) => Ok(MessageView::ExtensionHandshake(extension_of(d))),
                _ => Err(WireError::InvalidExtension),
            }
        } else {
            Ok(MessageView::Extension(b[1], b.skip(2)))
        }
    } else if b[0] <= 9 || b[0] == 20 {
        Err(WireError::InvalidLength(b[0]))
    } else {
        Err(WireError::UnknownId(b[0]))
    }
}

/// The block that a request names.
pub open spec fn parse_block(b: Seq<u8>) -> BlockInfo {
    BlockInfo {
        index: read32(b, 1) as u32,
        begin: read32(b, 5) as u32,
        length: read32(b, 9) as u32,
    }
}

/// The message at the start of a byte string and how many bytes it takes; nothing where it has
/// not arrived as a whole.
pub open spec fn next_message(s: Seq<u8>) -> Result<Option<(MessageView, int)>, WireError> {
    if s.len() < 4 || s.len() < 4 + read32(s, 0) {
        Ok(None)
    } else {
        let n = read32(s, 0);
        match parse_body(s.subrange(4, 4 + n)) {
            Ok(m) => Ok(Some((m, 4 + n))),
            Err(e) => Err(e),
        }
    }
}

fn push_block(out: &mut Vec<u8>, b: &BlockInfo)
    ensures
        final(out)@ == old(out)@ + block_bytes(*b),
{
    let ghost before = out@;
    push_be32(out, b.index);
    push_be32(out, b.begin);
    push_be32(out, b.length);
    assert(out@ =~= before + block_bytes(*b));
}

fn get_block(b: &[u8]) -> (r: BlockInfo)
    requires
        b.len() == 13,
    ensures
        r == parse_block(b@),
{
    BlockInfo { index: get_be32(b, 1), begin: get_be32(b, 5), length: get_be32(b, 9) }
}

impl Message {
    /// The bytes of the message behind its length
    pub fn body(&self) -> (r: Vec<u8>)
        ensures
            r@ == body(self@),
    {
        let mut out: Vec<u8> = Vec::new();
        match self {
            Message::KeepAlive => {},
            Message::Choke => {
                out.push(0);
            },
            Message::Unchoke => {
                out.push(1);
            },
            Message::Interested => {
                out.push(2);
            },
            Message::NotInterested => {
                out.push(3);
            },
            Message::Have { piece_index } => {
                out.push(4);
                push_be32(&mut out, *piece_index);
            },
            Message::Bitfield(b) => {
                out.push(5);
                out.extend_from_slice(bytes_as_slice(b));
            },
            Message::Request(b) => {
                out.push(6);
                push_block(&mut out, b);
            },
            Message::Piece(b) => {
                out.push(7);
                push_be32(&mut out, b.index);
                push_be32(&mut out, b.begin);
                out.extend_from_slice(bytes_as_slice(&b.data));
            },
            Message::Cancel(b) => {
                out.push(8);
                push_block(&mut out, b);
            },
            Message::Port { port } => {
                out.push(9);
                push_be16(&mut out, *port);
            },
            Message::Extended(ExtendedMessage::Handshake(h)) => {
                out.push(20);
                out.push(0);
                out.extend_from_slice(Bencode::encoder(&h.to_bencode()).as_slice());
            },
            Message::Extended(ExtendedMessage::ExtensionMessage(raw)) => {
                out.push(20);
                out.push(raw.id);
                out.extend_from_slice(bytes_as_slice(&raw.payload));
            },
        }
        assert(out@ =~= body(self@));
        out
    }

    /// The bytes of the message, its length first; nothing where the length does not fit
    pub fn to_bytes(&self) -> (r: Option<Vec<u8>>)
        ensures
            match r {
                Some(b) => body(self@).len() <= u32::MAX && b@ == be32(body(self@).len() as u32)
                    + body(self@),
                None => body(self@).len() > u32::MAX,
            },
    {
        let b = self.body();
        if b.len() as u64 > u32::MAX as u64 {
            return None;
        }
        let mut out: Vec<u8> = Vec::new();
        push_be32(&mut out, b.len() as u32);
        out.extend_from_slice(b.as_slice());
        assert(out@ =~= be32(body(self@).len() as u32) + body(self@));
        Some(out)
    }

    /// The message that the bytes behind a length are
    pub fn from_body(b: &[u8]) -> (r: Result<Message, WireError>)
        ensures
            match r {
                Ok(m) => parse_body(b@) == Ok::<MessageView, WireError>(m@),
                Err(e) => parse_body(b@) == Err::<MessageView, WireError>(e),
            },
    {
        let n: usize = b.len();
        if n == 0 {
            return Ok(Message::KeepAlive);
        }
        let id: u8 = b[0];
        if id == 0 && n == 1 {
            Ok(Message::Choke)
        } else if id == 1 && n == 1 {
            Ok(Message::Unchoke)
        } else if id == 2 && n == 1 {
            Ok(Message::Interested)
        } else if id == 3 && n == 1 {
            Ok(Message::NotInterested)
        } else if id == 4 && n == 5 {
            Ok(Message::Have { piece_index: get_be32(b, 1) })
        } else if id == 5 {
            assert(b@.skip(1) =~= b@.subrange(1, n as int));
            Ok(Message::Bitfield(bytes_from_vec(copy_range(b, 1, n))))
        } else if id == 6 && n == 13 {
            Ok(Message::Request(get_block(b)))
        } else if id == 7 && n >= 9 {
            assert(b@.skip(9) =~= b@.subrange(9, n as int));
            Ok(
                Message::Piece(
                    Block {
                        index: get_be32(b, 1),
                        begin: get_be32(b, 5),
                        data: bytes_from_vec(copy_range(b, 9, n)),
                    },
                ),
            )
        } else if id == 8 && n == 13 {
            Ok(Message::Cancel(get_block(b)))
        } else if id == 9 && n == 3 {
            Ok(Message::Port { port: get_be16(b, 1) })
        } else if id == 20 && n >= 2 {
            let payload = copy_range(b, 2, n);
            assert(b@.skip(2) =~= payload@);
            if b[1] == 0 {
                match Bencode::decode(payload.as_slice()) {
                    Ok(Bencode::Dict(d)) => {
                        assert(Bencode::Dict(d).value()->Dict_0 =~= dict_value(d@));
                        Ok(Message::Extended(ExtendedMessage::Handshake(ExtendedHandshake::from_dict(&d))))
                    },
                    _ => Err(WireError::InvalidExtension),
                }
            } else {
                Ok(
                    Message::Extended(
                        ExtendedMessage::ExtensionMessage(
                            RawExtendedMessage { id: b[1], payload: bytes_from_vec(payload) },
                        ),
                    ),
                )
            }
        } else if id <= 9 || id == 20 {
            Err(WireError::InvalidLength(id))
        } else {
            Err(WireError::UnknownId(id))
        }
    }

    /// The message at the start of the bytes that have arrived, and how many it takes; nothing
    /// where it has not arrived as a whole
    pub fn read(s: &[u8]) -> (r: Result<Option<(Message, usize)>, WireError>)
        ensures
            match r {
                Ok(Some((m, n))) => next_message(s@) == Ok::<
                    Option<(MessageView, int)>,
                    WireError,
                >(Some((m@, n as int))) && n <= s.len(),
                Ok(None) => next_message(s@) == Ok::<Option<(MessageView, int)>, WireError>(None),
                Err(e) => next_message(s@) == Err::<Option<(MessageView, int)>, WireError>(e),
            },
    {
        if s.len() < 4 {
            return Ok(None);
        }
        let n: u32 = get_be32(s, 0);
        if ((s.len() - 4) as u64) < n as u64 {
            return Ok(None);
        }
        let end: usize = 4 + n as usize;
        let b = copy_range(s, 4, end);
        match Message::from_body(b.as_slice()) {
            Ok(m) => Ok(Some((m, end))),
            Err(e) => Err(e),
        }
    }
}

/// Whether what is said of extensions has a dictionary of its own: the names ascend, and the
/// numbers fit.
pub open spec fn extension_wf(h: ExtendedView) -> bool {
    &&& h.m matches Some(m) ==> keys_ascend(extension_entries(m)) && forall|i: int|
        0 <= i < m.len() ==> i64::MIN <= (#[trigger] m[i]).1 <= i64::MAX
    &&& h.metadata_size matches Some(n) ==> i64::MIN <= n <= i64::MAX
    &&& h.reqq matches Some(n) ==> i64::MIN <= n <= i64::MAX
}

proof fn extension_keys()
    ensures
        key_less(encode_utf8("m"@), encode_utf8("metadata_size"@)),
        key_less(encode_utf8("m"@), encode_utf8("reqq"@)),
        key_less(encode_utf8("m"@), encode_utf8("v"@)),
        key_less(encode_utf8("m"@), encode_utf8("yourip"@)),
        key_less(encode_utf8("metadata_size"@), encode_utf8("reqq"@)),
        key_less(encode_utf8("metadata_size"@), encode_utf8("v"@)),
        key_less(encode_utf8("metadata_size"@), encode_utf8("yourip"@)),
        key_less(encode_utf8("reqq"@), encode_utf8("v"@)),
        key_less(encode_utf8("reqq"@), encode_utf8("yourip"@)),
        key_less(encode_utf8("v"@), encode_utf8("yourip"@)),
{
    reveal_strlit("m");
    reveal_strlit("metadata_size");
    reveal_strlit("reqq");
    reveal_strlit("v");
    reveal_strlit("yourip");
    is_ascii_chars_encode_utf8("m"@);
    is_ascii_chars_encode_utf8("metadata_size"@);
    is_ascii_chars_encode_utf8("reqq"@);
    is_ascii_chars_encode_utf8("v"@);
    is_ascii_chars_encode_utf8("yourip"@);
    assert(encode_utf8("m"@)[0] == 109);
    assert(encode_utf8("metadata_size"@)[0] == 109);
    assert(encode_utf8("reqq"@)[0] == 114);
    assert(encode_utf8("v"@)[0] == 118);
    assert(encode_utf8("yourip"@)[0] == 121);
    reveal_with_fuel(key_less, 3);
    assert(encode_utf8("m"@).skip(1).len() == 0);
    assert(encode_utf8("metadata_size"@).skip(1).len() == 12);
}

proof fn entry_of_two(a: Seq<(Seq<u8>, Value)>, b: Seq<(Seq<u8>, Value)>, key: Seq<u8>)
    ensures
        entry(a + b, key) == match entry(a, key) {
            Some(v) => Some(v),
            None => entry(b, key),
        },
    decreases a.len(),
{
    if a.len() == 0 {
        assert(a + b =~= b);
    } else {
        assert((a + b).skip(1) =~= a.skip(1) + b);
        entry_of_two(a.skip(1), b, key);
    }
}

proof fn entry_of_optional(name: Seq<char>, v: Option<Value>, key: Seq<u8>)
    ensures
        entry(optional_entry(name, v), key) == if key == encode_utf8(name) {
            v
        } else {
            None
        },
{
    let s = optional_entry(name, v);
    reveal_with_fuel(entry, 2);
    if v is Some {
        assert(s.skip(1).len() == 0);
    }
}

proof fn numbers_read_back(m: Seq<(Seq<u8>, int)>, n: int)
    requires
        0 <= n <= m.len(),
    ensures
        numbered(extension_entries(m), n) == m.take(n),
    decreases n,
{
    if n > 0 {
        numbers_read_back(m, n - 1);
        assert(extension_entries(m)[n - 1] == (m[n - 1].0, Value::Int(m[n - 1].1)));
        assert(m.take(n) =~= m.take(n - 1).push(m[n - 1]));
    } else {
        assert(m.take(0) =~= Seq::<(Seq<u8>, int)>::empty());
    }
}

proof fn keys_in_two(a: Seq<(Seq<u8>, Value)>, b: Seq<(Seq<u8>, Value)>)
    requires
        keys_ascend(a),
        keys_ascend(b),
        forall|i: int, j: int|
            0 <= i < a.len() && 0 <= j < b.len() ==> key_less(
                (#[trigger] a[i]).0,
                (#[trigger] b[j]).0,
            ),
    ensures
        keys_ascend(a + b),
{
    let c = a + b;
    assert forall|i: int, j: int| 0 <= i < j < c.len() implies key_less(
        (#[trigger] c[i]).0,
        (#[trigger] c[j]).0,
    ) by {
        if i < a.len() {
            if j < a.len() {
                assert(key_less(a[i].0, a[j].0));
            } else {
                assert(key_less(a[i].0, b[j - a.len()].0));
            }
        } else {
            assert(key_less(b[i - a.len()].0, b[j - a.len()].0));
        }
    }
}

#[verifier::rlimit(40)]
proof fn extensions_read_back(h: ExtendedView)
    requires
        extension_wf(h),
    ensures
        canonical(extension_value(h)),
        extension_of(extension_value(h)->Dict_0) == h,
{
    let mv = match h.m {
        Some(m) => Some(Value::Dict(extension_entries(m))),
        None => None,
    };
    let a = optional_entry("m"@, mv);
    let b = optional_entry("metadata_size"@, int_value(h.metadata_size));
    let c = optional_entry("reqq"@, int_value(h.reqq));
    let d = optional_entry("v"@, bytes_value(h.v));
    let e = optional_entry("yourip"@, bytes_value(h.yourip));
    let all = a + b + c + d + e;
    assert(extension_value(h) == Value::Dict(all));
    extension_keys();
    keys_in_two(a, b);
    keys_in_two(a + b, c);
    keys_in_two(a + b + c, d);
    keys_in_two(a + b + c + d, e);
    if let Some(m) = h.m {
        let inner = extension_entries(m);
        reveal_with_fuel(canonical, 2);
        assert forall|i: int| 0 <= i < inner.len() implies canonical((#[trigger] inner[i]).1) by {
            assert(inner[i].1 == Value::Int(m[i].1));
        }
        assert(canonical(Value::Dict(inner)));
        numbers_read_back(m, m.len() as int);
        assert(m.take(m.len() as int) =~= m);
    }
    assert forall|i: int| 0 <= i < all.len() implies canonical((#[trigger] all[i]).1) by {
        let la = a.len();
        let lb = la + b.len();
        let lc = lb + c.len();
        let ld = lc + d.len();
        if i < la {
            assert(all[i] == a[i]);
        } else if i < lb {
            assert(all[i] == b[i - la]);
        } else if i < lc {
            assert(all[i] == c[i - lb]);
        } else if i < ld {
            assert(all[i] == d[i - lc]);
        } else {
            assert(all[i] == e[i - ld]);
        }
    }
    assert forall|key: Seq<u8>| true implies #[trigger] entry(all, key) == (if key == encode_utf8(
        "m"@,
    ) {
        mv
    } else if key == encode_utf8("metadata_size"@) {
        int_value(h.metadata_size)
    } else if key == encode_utf8("reqq"@) {
        int_value(h.reqq)
    } else if key == encode_utf8("v"@) {
        bytes_value(h.v)
    } else if key == encode_utf8("yourip"@) {
        bytes_value(h.yourip)
    } else {
        None
    }) by {
        key_less_irreflexive(key);
        entry_of_two(a, b, key);
        entry_of_two(a + b, c, key);
        entry_of_two(a + b + c, d, key);
        entry_of_two(a + b + c + d, e, key);
        entry_of_optional("m"@, mv, key);
        entry_of_optional("metadata_size"@, int_value(h.metadata_size), key);
        entry_of_optional("reqq"@, int_value(h.reqq), key);
        entry_of_optional("v"@, bytes_value(h.v), key);
        entry_of_optional("yourip"@, bytes_value(h.yourip), key);
    }
    key_less_irreflexive(encode_utf8("m"@));
    key_less_irreflexive(encode_utf8("metadata_size"@));
    key_less_irreflexive(encode_utf8("reqq"@));
    key_less_irreflexive(encode_utf8("v"@));
    assert(extension_of(all) =~= h);
}

/// A message is read back from its own bytes, whatever stands behind them.
pub proof fn message_reads_back(m: MessageView, rest: Seq<u8>)
    requires
        m matches MessageView::ExtensionHandshake(h) ==> extension_wf(h),
        m matches MessageView::Extension(id, _) ==> id != 0,
        body(m).len() <= u32::MAX,
    ensures
        next_message(be32(body(m).len() as u32) + body(m) + rest) == Ok::<
            Option<(MessageView, int)>,
            WireError,
        >(Some((m, 4 + body(m).len() as int))),
{
    let b = body(m);
    let n = b.len() as u32;
    let s = be32(n) + b + rest;
    assert(s.subrange(0, 4) =~= be32(n));
    be32_reads_back(n, s, 0);
    assert(s.subrange(4, 4 + n) =~= b);
    body_reads_back(m);
}

proof fn body_reads_back(m: MessageView)
    requires
        m matches MessageView::ExtensionHandshake(h) ==> extension_wf(h),
        m matches MessageView::Extension(id, _) ==> id != 0,
    ensures
        parse_body(body(m)) == Ok::<MessageView, WireError>(m),
{
    let b = body(m);
    match m {
        MessageView::Have(i) => {
            assert(b.subrange(1, 5) =~= be32(i));
            be32_reads_back(i, b, 1);
        },
        MessageView::Bitfield(x) => {
            assert(b.skip(1) =~= x);
        },
        MessageView::Request(x) => {
            assert(b.skip(1) =~= block_bytes(x));
            block_reads_back(x, b);
        },
        MessageView::Piece(i, begin, data) => {
            piece_reads_back(i, begin, data);
        },
        MessageView::Cancel(x) => {
            assert(b.skip(1) =~= block_bytes(x));
            block_reads_back(x, b);
        },
        MessageView::Port(p) => {
            assert(b.subrange(1, 3) =~= be16(p));
            be16_reads_back(p, b, 1);
        },
        MessageView::Extension(id, payload) => {
            assert(b.skip(2) =~= payload);
        },
        MessageView::ExtensionHandshake(h) => {
            extensions_read_back(h);
            let e = encoded(extension_value(h));
            assert(b.skip(2) =~= e);
            written_value_reads_back(extension_value(h), Seq::empty());
            assert(e + Seq::<u8>::empty() =~= e);
        },
        _ => {},
    }
}

proof fn piece_reads_back(i: u32, begin: u32, data: Seq<u8>)
    ensures
        ({
            let b = body(MessageView::Piece(i, begin, data));
            b.len() >= 9 && b[0] == 7 && read32(b, 1) == i && read32(b, 5) == begin && b.skip(9)
                == data
        }),
{
    let b = body(MessageView::Piece(i, begin, data));
    assert(b.subrange(1, 5) =~= be32(i));
    be32_reads_back(i, b, 1);
    assert(b.subrange(5, 9) =~= be32(begin));
    be32_reads_back(begin, b, 5);
    assert(b.skip(9) =~= data);
}

proof fn block_reads_back(x: BlockInfo, b: Seq<u8>)
    requires
        b.len() == 13,
        b.skip(1) == block_bytes(x),
    ensures
        parse_block(b) == x,
{
    let t = b.skip(1);
    assert(b.subrange(1, 5) =~= t.subrange(0, 4));
    assert(t.subrange(0, 4) =~= be32(x.index));
    be32_reads_back(x.index, b, 1);
    assert(b.subrange(5, 9) =~= t.subrange(4, 8));
    assert(t.subrange(4, 8) =~= be32(x.begin));
    be32_reads_back(x.begin, b, 5);
    assert(b.subrange(9, 13) =~= t.subrange(8, 12));
    assert(t.subrange(8, 12) =~= be32(x.length));
    be32_reads_back(x.length, b, 9);
}

} // verus!
