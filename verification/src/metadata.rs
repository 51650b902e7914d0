//! The metadata of a torrent: known from a torrent file, or fetched from peers piece by piece.

use crate::bencode::{parsed, Bencode, BencodeError};
use crate::buffers::{bytes_as_slice, bytes_content, bytes_mut_as_slice, bytes_mut_content};
use crate::buffers::{bytes_mut_write, bytes_mut_zeroed};
use crate::hashing::{sha1, sha1_digest};
use crate::magnet::Magnet;
use crate::metainfo::{info_of, parse_info_dict, ErrorView, Info, InfoView, TorrentInfo};
use crate::metainfo::TorrentParseError;
use crate::shared::share;
use crate::text::{joined, number, number_text, opt_text};
use crate::types::InfoHash;
use bytes::{Bytes, BytesMut};
use std::sync::Arc;
use vstd::prelude::*;
use vstd::string::*;

verus! {

/// The size of a metadata piece (16 KiB)
pub const METADATA_PIECE_SIZE: usize = 16384;

/// Represents the metadata of a torrent and its current metadata state
#[derive(Debug)]
pub enum Metadata {
    /// Torrent created from a .torrent file with complete metadata
    TorrentFile(Arc<TorrentInfo>),
    /// Torrent created from a magnet URI, metadata may be incomplete
    MagnetUri {
        magnet: Magnet,
        /// Current state of metadata fetching
        metadata_state: MetadataState,
    },
}

/// Represents the state of metadata when working with magnet URIs
#[derive(Debug)]
pub enum MetadataState {
    /// No metadata available yet, need to fetch from peers
    Pending,
    /// Currently fetching metadata from peers
    Fetching(MetadataFetch),
    /// Metadata successfully fetched
    Complete(Arc<Info>),
}

/// Metadata that is being fetched.
#[derive(Debug)]
pub struct MetadataFetch {
    /// Number of pieces already received
    pub pieces_received: usize,
    /// Total number of pieces expected
    pub total_pieces: usize,
    /// Total expected metadata size
    pub metadata_size: usize,
    /// buffer incoming metadata
    pub buf: BytesMut,
    pub metadata_pieces: Vec<MetadataPiece>,
}

/// A piece of the metadata; the time of its last request is in milliseconds.
#[derive(Debug, Clone, Copy, PartialEq, Eq, Structural)]
pub struct MetadataPiece {
    pub num_req: usize,
    pub time_metadata_request: u64,
    pub have: bool,
}

/// What is known of metadata that is being fetched.
#[verifier::ext_equal]
pub struct FetchState {
    pub received: int,
    pub total: int,
    pub size: int,
    pub buf: Seq<u8>,
    pub pieces: Seq<MetadataPiece>,
}

/// How many of the first `n` pieces are there.
pub open spec fn pieces_had(pieces: Seq<MetadataPiece>, n: int) -> int
    decreases n,
{
    if n <= 0 {
        0
    } else {
        pieces_had(pieces, n - 1) + if pieces[n - 1].have {
            1int
        } else {
            0int
        }
    }
}

/// The first piece at or behind `i` that is missing and has been asked for less than twice.
pub open spec fn fresh_piece(pieces: Seq<MetadataPiece>, i: int) -> Option<int>
    decreases pieces.len() - i,
{
    if i < 0 || i >= pieces.len() {
        None
    } else if !pieces[i].have && pieces[i].num_req < 2 {
        Some(i)
    } else {
        fresh_piece(pieces, i + 1)
    }
}

/// The missing piece among the first `n` that was asked for the longest ago, the first of several.
pub open spec fn oldest_piece(pieces: Seq<MetadataPiece>, n: int) -> Option<int>
    decreases n,
{
    if n <= 0 || n > pieces.len() {
        None
    } else if pieces[n - 1].have {
        oldest_piece(pieces, n - 1)
    } else {
        match oldest_piece(pieces, n - 1) {
            None => Some(n - 1),
            Some(k) => if pieces[n - 1].time_metadata_request < pieces[k].time_metadata_request {
                Some(n - 1)
            } else {
                Some(k)
            },
        }
    }
}

/// The piece to ask for next: one that is fresh, else the one that was asked for the longest ago.
pub open spec fn next_piece(pieces: Seq<MetadataPiece>) -> Option<int> {
    match fresh_piece(pieces, 0) {
        Some(k) => Some(k),
        None => oldest_piece(pieces, pieces.len() as int),
    }
}

impl FetchState {
    /// The counts and the pieces agree with the size.
    pub open spec fn wf(self) -> bool {
        &&& 0 <= self.size <= usize::MAX
        &&& self.total == (self.size + 16383) / 16384
        &&& self.pieces.len() == self.total
        &&& self.received == pieces_had(self.pieces, self.total)
    }

    /// The state in which nothing has been asked for.
    pub open spec fn fresh(size: int, now: u64) -> FetchState {
        let total = (size + 16383) / 16384;
        FetchState {
            received: 0,
            total,
            size,
            buf: Seq::new(size as nat, |i: int| 0u8),
            pieces: Seq::new(
                total as nat,
                |i: int| MetadataPiece { num_req: 0, time_metadata_request: now, have: false },
            ),
        }
    }

    /// The state in which nothing has been asked for, with room for the bytes but none of them.
    pub open spec fn reserved(size: int, now: u64) -> FetchState {
        FetchState { buf: Seq::empty(), ..FetchState::fresh(size, now) }
    }

    /// How many bytes piece `i` has.
    pub open spec fn span(self, i: int) -> int {
        if self.size - 16384 * i < 16384 {
            self.size - 16384 * i
        } else {
            16384
        }
    }

    /// The state after piece `k` has been asked for.
    pub open spec fn asked(self, k: int, now: u64) -> FetchState {
        FetchState {
            pieces: self.pieces.update(
                k,
                MetadataPiece {
                    num_req: (self.pieces[k].num_req + 1) as usize,
                    time_metadata_request: now,
                    have: self.pieces[k].have,
                },
            ),
            ..self
        }
    }

    /// The state after a peer has refused to send piece `k`.
    pub open spec fn refused(self, k: int, now: u64) -> FetchState {
        FetchState {
            pieces: self.pieces.update(
                k,
                MetadataPiece {
                    num_req: if self.pieces[k].num_req > 0 {
                        (self.pieces[k].num_req - 1) as usize
                    } else {
                        0
                    },
                    time_metadata_request: now,
                    have: self.pieces[k].have,
                },
            ),
            ..self
        }
    }

    /// The state with the bytes of piece `k` in the buffer.
    pub open spec fn filled(self, k: int, data: Seq<u8>) -> FetchState {
        let start = 16384 * k;
        FetchState {
            buf: self.buf.subrange(0, start) + data + self.buf.subrange(
                start + data.len(),
                self.buf.len() as int,
            ),
            ..self
        }
    }

    /// The state with piece `k` marked as there.
    pub open spec fn marked(self, k: int) -> FetchState {
        FetchState {
            received: self.received + 1,
            pieces: self.pieces.update(k, MetadataPiece { have: true, ..self.pieces[k] }),
            ..self
        }
    }
}

impl View for MetadataFetch {
    type V = FetchState;

    open spec fn view(&self) -> FetchState {
        FetchState {
            received: self.pieces_received as int,
            total: self.total_pieces as int,
            size: self.metadata_size as int,
            buf: bytes_mut_content(self.buf),
            pieces: self.metadata_pieces@,
        }
    }
}

/// How far the metadata is known.
#[verifier::ext_equal]
pub enum Known {
    File(Arc<TorrentInfo>),
    Pending(Magnet),
    Fetching(Magnet, FetchState),
    Complete(Magnet, Arc<Info>),
}

impl View for Metadata {
    type V = Known;

    open spec fn view(&self) -> Known {
        match self {
            Metadata::TorrentFile(t) => Known::File(*t),
            Metadata::MagnetUri { magnet, metadata_state } => match metadata_state {
                MetadataState::Pending => Known::Pending(*magnet),
                MetadataState::Fetching(f) => Known::Fetching(*magnet, f@),
                MetadataState::Complete(i) => Known::Complete(*magnet, *i),
            },
        }
    }
}

/// The message that a piece index is too large.
pub open spec fn index_message(piece_idx: int, total: int) -> Seq<char> {
    "Piece index "@ + number_text(piece_idx as nat) + " out of bounds (total pieces: "@
        + number_text(total as nat) + ")"@
}

/// The message that a piece has the wrong size.
pub open spec fn size_message(expected: int, got: int) -> Seq<char> {
    "Invalid piece size: expected "@ + number_text(expected as nat) + ", got "@ + number_text(
        got as nat,
    )
}

/// The message that the buffer has no place for a piece.
pub open spec fn overflow_message(offset: int, size: int, len: int) -> Seq<char> {
    "Piece data would overflow buffer: offset "@ + number_text(offset as nat) + " + size "@
        + number_text(size as nat) + " > buffer size "@ + number_text(len as nat)
}

/// What a decoder's complaint reads like.
pub open spec fn bencode_message(e: BencodeError) -> Seq<char> {
    match e {
        BencodeError::UnexpectedEnd => "unexpected end of input"@,
        BencodeError::InvalidInteger => "invalid integer"@,
        BencodeError::InvalidLength => "invalid length"@,
        BencodeError::UnexpectedByte(b) => "unexpected byte "@ + number_text(b as nat),
        BencodeError::InvalidKey => "invalid key"@,
    }
}

/// What a torrent parser's complaint reads like.
pub open spec fn parse_message(e: ErrorView) -> Seq<char> {
    match e {
        ErrorView::Bencode(b) => "Bencode error: "@ + bencode_message(b),
        ErrorView::MissingField(m) => "Missing required field: "@ + m,
        ErrorView::InvalidFieldType(m) => "Invalid field type: "@ + m,
        ErrorView::InvalidUtf8 => "Invalid UTF-8 string"@,
    }
}

/// What becomes of fetched bytes that should hash to the given value: the info that they say, or
/// a message.
pub open spec fn constructed(hash: Seq<u8>, buf: Seq<u8>) -> Result<InfoView, Seq<char>> {
    if sha1_digest(buf) != hash {
        Err("Cannot construct info: metadata validation failed"@)
    } else {
        match parsed(buf) {
            Err(e) => Err("Failed to decode metadata bencode: "@ + bencode_message(e)),
            Ok((v, n)) => match info_of(v) {
                Err(e) => Err("Failed to parse Info from bencode: "@ + parse_message(e)),
                Ok(i) => Ok(i),
            },
        }
    }
}

impl Known {
    /// The info dictionary, once it is known.
    pub open spec fn info(self) -> Option<Arc<Info>> {
        match self {
            Known::File(t) => Some(t.info),
            Known::Complete(_, i) => Some(i),
            _ => None,
        }
    }

    /// Whether the hash of the torrent is known, and the books of a fetch agree.
    pub open spec fn wf(self) -> bool {
        match self {
            Known::File(_) => true,
            Known::Pending(m) => m.hash is Some,
            Known::Fetching(m, f) => m.hash is Some && f.wf(),
            Known::Complete(m, _) => m.hash is Some,
        }
    }

    /// Whether every piece can be asked for once more.
    pub open spec fn has_room(self) -> bool {
        self matches Known::Fetching(_, f) ==> forall|i: int|
            0 <= i < f.pieces.len() ==> (#[trigger] f.pieces[i]).num_req < usize::MAX
    }

    /// The hash of the torrent.
    pub open spec fn hash(self) -> InfoHash {
        match self {
            Known::File(t) => t.info_hash,
            Known::Pending(m) => m.hash->0,
            Known::Fetching(m, _) => m.hash->0,
            Known::Complete(m, _) => m.hash->0,
        }
    }

    /// The name to show.
    pub open spec fn name(self) -> Option<Seq<char>> {
        match self {
            Known::File(t) => Some(t.info.says().mode.name()),
            Known::Pending(m) => opt_text(m.display_name),
            Known::Fetching(m, _) => opt_text(m.display_name),
            Known::Complete(m, _) => opt_text(m.display_name),
        }
    }

    /// The state after a piece has been chosen to be asked for, and which.
    pub open spec fn after_get_piece(self, now: u64) -> (Known, Option<u32>) {
        match self {
            Known::Fetching(m, f) => match next_piece(f.pieces) {
                Some(k) => (Known::Fetching(m, f.asked(k, now)), Some(k as u32)),
                None => (self, None),
            },
            _ => (self, None),
        }
    }

    /// The state after a piece has arrived, or why it is not wanted.
    pub open spec fn after_put(self, data: Seq<u8>, piece_idx: u32) -> (Known, Result<(), Seq<char>>) {
        match self {
            Known::File(_) => (self, Err("Cannot put metadata piece for torrent file"@)),
            Known::Fetching(m, f) => {
                let k = piece_idx as int;
                if k >= f.total {
                    (self, Err(index_message(k, f.total)))
                } else if f.pieces[k].have {
                    (self, Ok(()))
                } else if data.len() != f.span(k) {
                    (self, Err(size_message(f.span(k), data.len() as int)))
                } else if 16384 * k + data.len() > f.buf.len() {
                    (self, Err(overflow_message(16384 * k, data.len() as int, f.buf.len() as int)))
                } else {
                    (Known::Fetching(m, f.filled(k, data)), Ok(()))
                }
            },
            _ => (self, Err("Cannot put metadata piece when not in Fetching state"@)),
        }
    }

    /// The state after a piece has been marked as there, and whether it was the last one missing.
    pub open spec fn after_mark(self, piece_idx: u32) -> (Known, Result<bool, Seq<char>>) {
        match self {
            Known::File(_) => (self, Err("Cannot mark metadata piece for torrent file"@)),
            Known::Fetching(m, f) => {
                let k = piece_idx as int;
                if k >= f.total {
                    (self, Err(index_message(k, f.total)))
                } else if f.pieces[k].have {
                    (self, Ok(false))
                } else {
                    (Known::Fetching(m, f.marked(k)), Ok(f.received + 1 == f.total))
                }
            },
            _ => (self, Err("Cannot mark metadata piece when not in Fetching state"@)),
        }
    }

    /// The state after a peer has refused a piece.
    pub open spec fn after_reject(self, piece_idx: u32, now: u64) -> (Known, Result<(), Seq<char>>) {
        match self {
            Known::File(_) => (self, Err("Cannot mark metadata piece for torrent file"@)),
            Known::Fetching(m, f) => if piece_idx < f.pieces.len() {
                (Known::Fetching(m, f.refused(piece_idx as int, now)), Ok(()))
            } else {
                (self, Err("out of bound metadata piece index"@))
            },
            _ => (self, Err("Cannot mark metadata piece when not in Fetching state"@)),
        }
    }

    /// The state after a peer has told the size of the metadata.
    pub open spec fn after_size(self, size: usize, now: u64) -> (Known, Result<(), Seq<char>>) {
        match self {
            Known::File(_) => (self, Err("Cannot set metadata size for torrent file"@)),
            Known::Pending(m) => if size == 0 {
                (self, Err("Metadata size cannot be zero"@))
            } else {
                (Known::Fetching(m, FetchState::fresh(size as int, now)), Ok(()))
            },
            _ => (self, Err("Can only set metadata size when in Pending state"@)),
        }
    }
}

/// What a result of a metadata operation says.
pub open spec fn outcome<T>(r: Result<T, String>) -> Result<T, Seq<char>> {
    match r {
        Ok(v) => Ok(v),
        Err(e) => Err(e@),
    }
}

fn index_error(piece_idx: usize, total: usize) -> (r: String)
    ensures
        r@ == index_message(piece_idx as int, total as int),
{
    joined("Piece index ", number(piece_idx as u64).as_str()).concat(
        " out of bounds (total pieces: ",
    ).concat(number(total as u64).as_str()).concat(")")
}

fn size_error(expected: usize, got: usize) -> (r: String)
    ensures
        r@ == size_message(expected as int, got as int),
{
    joined("Invalid piece size: expected ", number(expected as u64).as_str()).concat(
        ", got ",
    ).concat(number(got as u64).as_str())
}

fn overflow_error(offset: usize, size: usize, len: usize) -> (r: String)
    ensures
        r@ == overflow_message(offset as int, size as int, len as int),
{
    joined("Piece data would overflow buffer: offset ", number(offset as u64).as_str()).concat(
        " + size ",
    ).concat(number(size as u64).as_str()).concat(" > buffer size ").concat(
        number(len as u64).as_str(),
    )
}

impl BencodeError {
    /// What the complaint reads like
    pub fn message(&self) -> (r: String)
        ensures
            r@ == bencode_message(*self),
    {
        match self {
            BencodeError::UnexpectedEnd => String::from_str("unexpected end of input"),
            BencodeError::InvalidInteger => String::from_str("invalid integer"),
            BencodeError::InvalidLength => String::from_str("invalid length"),
            BencodeError::UnexpectedByte(b) => joined("unexpected byte ", number(*b as u64).as_str()),
            BencodeError::InvalidKey => String::from_str("invalid key"),
        }
    }
}

impl TorrentParseError {
    /// What the complaint reads like
    pub fn message(&self) -> (r: String)
        ensures
            r@ == parse_message(self.says()),
    {
        match self {
            TorrentParseError::BencodeError(e) => joined("Bencode error: ", e.message().as_str()),
            TorrentParseError::MissingField(m) => joined("Missing required field: ", m.as_str()),
            TorrentParseError::InvalidFieldType(m) => joined("Invalid field type: ", m.as_str()),
            TorrentParseError::InvalidUtf8 => String::from_str("Invalid UTF-8 string"),
        }
    }
}

proof fn had_bounds(pieces: Seq<MetadataPiece>, n: int)
    requires
        0 <= n <= pieces.len(),
    ensures
        0 <= pieces_had(pieces, n) <= n,
    decreases n,
{
    if n > 0 {
        had_bounds(pieces, n - 1);
    }
}

proof fn had_same(a: Seq<MetadataPiece>, b: Seq<MetadataPiece>, n: int)
    requires
        0 <= n <= a.len(),
        a.len() == b.len(),
        forall|i: int| 0 <= i < n ==> (#[trigger] a[i]).have == b[i].have,
    ensures
        pieces_had(a, n) == pieces_had(b, n),
    decreases n,
{
    if n > 0 {
        assert(a[n - 1].have == b[n - 1].have);
        had_same(a, b, n - 1);
    }
}

proof fn had_one_more(a: Seq<MetadataPiece>, k: int, n: int)
    requires
        0 <= k < n <= a.len(),
        !a[k].have,
    ensures
        pieces_had(a.update(k, MetadataPiece { have: true, ..a[k] }), n) == pieces_had(a, n) + 1,
        pieces_had(a, n) < n,
    decreases n,
{
    let b = a.update(k, MetadataPiece { have: true, ..a[k] });
    had_bounds(a, n - 1);
    if k == n - 1 {
        had_same(a, b, n - 1);
    } else {
        had_one_more(a, k, n - 1);
    }
}

proof fn fresh_in_range(pieces: Seq<MetadataPiece>, i: int)
    requires
        0 <= i,
    ensures
        fresh_piece(pieces, i) matches Some(k) ==> i <= k < pieces.len(),
    decreases pieces.len() - i,
{
    if i < pieces.len() {
        fresh_in_range(pieces, i + 1);
    }
}

proof fn oldest_in_range(pieces: Seq<MetadataPiece>, n: int)
    requires
        0 <= n <= pieces.len(),
    ensures
        oldest_piece(pieces, n) matches Some(k) ==> 0 <= k < n,
    decreases n,
{
    if n > 0 {
        oldest_in_range(pieces, n - 1);
    }
}

impl MetadataFetch {
    /// Notes that a piece is asked for.
    fn ask(&mut self, k: usize, now: u64)
        requires
            old(self)@.wf(),
            k < old(self).metadata_pieces.len(),
            old(self).metadata_pieces[k as int].num_req < usize::MAX,
        ensures
            final(self)@ == old(self)@.asked(k as int, now),
            final(self)@.wf(),
    {
        let p: MetadataPiece = self.metadata_pieces[k];
        self.metadata_pieces[k] =
        MetadataPiece { num_req: p.num_req + 1, time_metadata_request: now, have: p.have };
        proof {
            had_same(old(self)@.pieces, self@.pieces, self@.total);
        }
    }

    /// The piece to ask for next.
    fn choose_piece(&self) -> (r: Option<usize>)
        ensures
            match r {
                Some(k) => k < self@.pieces.len() && next_piece(self@.pieces) == Some(k as int),
                None => next_piece(self@.pieces) is None,
            },
    {
        let ghost pieces = self.metadata_pieces@;
        let mut i: usize = 0;
        while i < self.metadata_pieces.len()
            invariant
                i <= self.metadata_pieces.len(),
                pieces == self.metadata_pieces@,
                fresh_piece(pieces, 0) == fresh_piece(pieces, i as int),
            decreases self.metadata_pieces.len() - i,
        {
            let p: MetadataPiece = self.metadata_pieces[i];
            if !p.have && p.num_req < 2 {
                return Some(i);
            }
            i = i + 1;
        }
        let mut oldest: Option<usize> = None;
        let mut n: usize = 0;
        while n < self.metadata_pieces.len()
            invariant
                n <= self.metadata_pieces.len(),
                pieces == self.metadata_pieces@,
                match oldest {
                    Some(k) => k < n && oldest_piece(pieces, n as int) == Some(k as int),
                    None => oldest_piece(pieces, n as int) is None,
                },
            decreases self.metadata_pieces.len() - n,
        {
            let p: MetadataPiece = self.metadata_pieces[n];
            if !p.have {
                match oldest {
                    None => {
                        oldest = Some(n);
                    },
                    Some(k) => {
                        if p.time_metadata_request
                            < self.metadata_pieces[k].time_metadata_request {
                            oldest = Some(n);
                        }
                    },
                }
            }
            n = n + 1;
        }
        oldest
    }

    /// Puts the bytes of a piece in the buffer.
    fn put(&mut self, data: &[u8], piece_idx: u32) -> (r: Result<(), String>)
        requires
            old(self)@.wf(),
        ensures
            final(self)@.wf(),
            ({
                let f = old(self)@;
                let k = piece_idx as int;
                if k >= f.total {
                    final(self)@ == f && outcome(r) == Err::<(), Seq<char>>(
                        index_message(k, f.total),
                    )
                } else if f.pieces[k].have {
                    final(self)@ == f && r is Ok
                } else if data.len() != f.span(k) {
                    final(self)@ == f && outcome(r) == Err::<(), Seq<char>>(
                        size_message(f.span(k), data.len() as int),
                    )
                } else if 16384 * k + data.len() > f.buf.len() {
                    final(self)@ == f && outcome(r) == Err::<(), Seq<char>>(
                        overflow_message(16384 * k, data.len() as int, f.buf.len() as int),
                    )
                } else {
                    final(self)@ == f.filled(k, data@) && r is Ok
                }
            }),
    {
        if piece_idx as u64 >= self.total_pieces as u64 {
            return Err(index_error(piece_idx as usize, self.total_pieces));
        }
        let k: usize = piece_idx as usize;
        if self.metadata_pieces[k].have {
            return Ok(());
        }
        let offset: usize = k * METADATA_PIECE_SIZE;
        let remaining: usize = self.metadata_size - offset;
        let expected: usize = if remaining < METADATA_PIECE_SIZE {
            remaining
        } else {
            METADATA_PIECE_SIZE
        };
        if data.len() != expected {
            return Err(size_error(expected, data.len()));
        }
        let len: usize = bytes_mut_as_slice(&self.buf).len();
        if offset + expected > len {
            return Err(overflow_error(offset, expected, len));
        }
        bytes_mut_write(&mut self.buf, offset, offset + expected, data);
        assert(self@ =~= old(self)@.filled(k as int, data@));
        Ok(())
    }

    /// Marks a piece as there; true where it was the last one missing.
    fn mark(&mut self, piece_idx: u32) -> (r: Result<bool, String>)
        requires
            old(self)@.wf(),
        ensures
            final(self)@.wf(),
            ({
                let f = old(self)@;
                let k = piece_idx as int;
                if k >= f.total {
                    final(self)@ == f && outcome(r) == Err::<bool, Seq<char>>(
                        index_message(k, f.total),
                    )
                } else if f.pieces[k].have {
                    final(self)@ == f && r == Ok::<bool, String>(false)
                } else {
                    final(self)@ == f.marked(k) && r == Ok::<bool, String>(
                        f.received + 1 == f.total,
                    )
                }
            }),
    {
        if piece_idx as u64 >= self.total_pieces as u64 {
            return Err(index_error(piece_idx as usize, self.total_pieces));
        }
        let k: usize = piece_idx as usize;
        let p: MetadataPiece = self.metadata_pieces[k];
        if p.have {
            return Ok(false);
        }
        proof {
            had_one_more(self.metadata_pieces@, k as int, self.total_pieces as int);
        }
        self.metadata_pieces[k] =
        MetadataPiece {
            num_req: p.num_req,
            time_metadata_request: p.time_metadata_request,
            have: true,
        };
        self.pieces_received = self.pieces_received + 1;
        Ok(self.pieces_received == self.total_pieces)
    }

    /// Notes that a peer has refused a piece.
    fn reject(&mut self, piece_idx: u32, now: u64) -> (r: Result<(), String>)
        requires
            old(self)@.wf(),
        ensures
            final(self)@.wf(),
            if piece_idx < old(self)@.pieces.len() {
                r is Ok && final(self)@ == old(self)@.refused(piece_idx as int, now)
            } else {
                final(self)@ == old(self)@ && outcome(r) == Err::<(), Seq<char>>(
                    "out of bound metadata piece index"@,
                )
            },
    {
        if piece_idx as u64 >= self.metadata_pieces.len() as u64 {
            return Err(String::from_str("out of bound metadata piece index"));
        }
        let k: usize = piece_idx as usize;
        let p: MetadataPiece = self.metadata_pieces[k];
        self.metadata_pieces[k] =
        MetadataPiece {
            num_req: p.num_req.saturating_sub(1),
            time_metadata_request: now,
            have: p.have,
        };
        proof {
            had_same(old(self)@.pieces, self@.pieces, self@.total);
        }
        Ok(())
    }

    /// A fetch of metadata of the given size into a buffer, of which nothing has been asked for.
    pub(crate) fn start(metadata_size: usize, buf: BytesMut, now: u64) -> (r: Self)
        ensures
            r@ == (FetchState {
                buf: bytes_mut_content(buf),
                ..FetchState::fresh(metadata_size as int, now)
            }),
            r@.wf(),
    {
        let total_pieces: usize = if metadata_size % METADATA_PIECE_SIZE == 0 {
            metadata_size / METADATA_PIECE_SIZE
        } else {
            metadata_size / METADATA_PIECE_SIZE + 1
        };
        let mut metadata_pieces: Vec<MetadataPiece> = Vec::new();
        let mut i: usize = 0;
        while i < total_pieces
            invariant
                i <= total_pieces,
                metadata_pieces.len() == i,
                pieces_had(metadata_pieces@, i as int) == 0,
                forall|k: int|
                    0 <= k < i ==> metadata_pieces@[k] == (MetadataPiece {
                        num_req: 0,
                        time_metadata_request: now,
                        have: false,
                    }),
            decreases total_pieces - i,
        {
            let ghost before = metadata_pieces@;
            metadata_pieces.push(
                MetadataPiece { num_req: 0, time_metadata_request: now, have: false },
            );
            proof {
                had_prefix(before, metadata_pieces@, i as int);
            }
            i = i + 1;
        }
        let r = MetadataFetch {
            pieces_received: 0,
            total_pieces,
            metadata_size,
            buf,
            metadata_pieces,
        };
        assert(r@.pieces =~= FetchState::fresh(metadata_size as int, now).pieces);
        r
    }
}

proof fn had_prefix(a: Seq<MetadataPiece>, b: Seq<MetadataPiece>, n: int)
    requires
        0 <= n <= a.len() <= b.len(),
        forall|i: int| 0 <= i < n ==> a[i] == b[i],
    ensures
        pieces_had(a, n) == pieces_had(b, n),
    decreases n,
{
    if n > 0 {
        had_prefix(a, b, n - 1);
    }
}

impl Metadata {
    /// Check if this torrent has complete metadata
    pub fn has_metadata(&self) -> (r: bool)
        ensures
            r == (self@.info() is Some),
    {
        match self {
            Metadata::TorrentFile(_) => true,
            Metadata::MagnetUri { metadata_state, .. } => match metadata_state {
                MetadataState::Complete(_) => true,
                _ => false,
            },
        }
    }

    /// Whether every piece can be asked for once more
    pub fn has_room(&self) -> (r: bool)
        ensures
            r == self@.has_room(),
    {
        match self {
            Metadata::MagnetUri { metadata_state: MetadataState::Fetching(fetch), .. } => {
                let mut i: usize = 0;
                while i < fetch.metadata_pieces.len()
                    invariant
                        i <= fetch.metadata_pieces.len(),
                        self@ matches Known::Fetching(_, f) && f == fetch@,
                        forall|k: int|
                            0 <= k < i ==> (#[trigger] fetch@.pieces[k]).num_req < usize::MAX,
                    decreases fetch.metadata_pieces.len() - i,
                {
                    if fetch.metadata_pieces[i].num_req == usize::MAX {
                        assert(fetch@.pieces[i as int].num_req == usize::MAX);
                        return false;
                    }
                    i = i + 1;
                }
                true
            },
            _ => true,
        }
    }

    /// Get a piece index to request from a peer which has metadata
    pub fn get_piece(&mut self, now: u64) -> (r: Option<u32>)
        requires
            old(self)@.wf(),
            old(self)@.has_room(),
        ensures
            final(self)@.wf(),
            (final(self)@, r) == old(self)@.after_get_piece(now),
    {
        match self {
            Metadata::TorrentFile(_) => None,
            Metadata::MagnetUri { metadata_state, .. } => match metadata_state {
                MetadataState::Fetching(fetch) => match fetch.choose_piece() {
                    None => None,
                    Some(k) => {
                        fetch.ask(k, now);
                        Some(k as u32)
                    },
                },
                _ => None,
            },
        }
    }

    /// Puts a piece that a peer has sent where it belongs
    pub fn put_metadata_piece(&mut self, metadata_piece: Bytes, piece_idx: u32) -> (r: Result<
        (),
        String,
    >)
        requires
            old(self)@.wf(),
        ensures
            final(self)@.wf(),
            (final(self)@, outcome(r)) == old(self)@.after_put(
                bytes_content(metadata_piece),
                piece_idx,
            ),
    {
        match self {
            Metadata::MagnetUri { metadata_state, .. } => match metadata_state {
                MetadataState::Fetching(fetch) => fetch.put(
                    bytes_as_slice(&metadata_piece),
                    piece_idx,
                ),
                _ => Err(String::from_str("Cannot put metadata piece when not in Fetching state")),
            },
            Metadata::TorrentFile(_) => Err(
                String::from_str("Cannot put metadata piece for torrent file"),
            ),
        }
    }

    /// Notes that a peer has refused to send a piece
    pub fn metadata_request_reject(&mut self, piece_idx: u32, now: u64) -> (r: Result<(), String>)
        requires
            old(self)@.wf(),
        ensures
            final(self)@.wf(),
            (final(self)@, outcome(r)) == old(self)@.after_reject(piece_idx, now),
    {
        match self {
            Metadata::MagnetUri { metadata_state, .. } => match metadata_state {
                MetadataState::Fetching(fetch) => fetch.reject(piece_idx, now),
                _ => Err(String::from_str("Cannot mark metadata piece when not in Fetching state")),
            },
            Metadata::TorrentFile(_) => Err(
                String::from_str("Cannot mark metadata piece for torrent file"),
            ),
        }
    }

    /// Marks a piece as received; true where all pieces are there by it
    pub fn mark_metadata_piece(&mut self, piece_idx: u32) -> (r: Result<bool, String>)
        requires
            old(self)@.wf(),
        ensures
            final(self)@.wf(),
            (final(self)@, outcome(r)) == old(self)@.after_mark(piece_idx),
    {
        match self {
            Metadata::MagnetUri { metadata_state, .. } => match metadata_state {
                MetadataState::Fetching(fetch) => fetch.mark(piece_idx),
                _ => Err(String::from_str("Cannot mark metadata piece when not in Fetching state")),
            },
            Metadata::TorrentFile(_) => Err(
                String::from_str("Cannot mark metadata piece for torrent file"),
            ),
        }
    }

    /// Whether the metadata is known, or its bytes are and have the right hash
    pub fn is_valid(&self) -> (r: bool)
        requires
            self@.wf(),
        ensures
            r == match self@ {
                Known::File(_) => true,
                Known::Pending(_) => false,
                Known::Fetching(m, f) => f.received == f.total && f.buf.len() == f.size
                    && sha1_digest(f.buf) == m.hash->0@,
                Known::Complete(_, _) => true,
            },
    {
        match self {
            Metadata::TorrentFile(_) => true,
            Metadata::MagnetUri { magnet, metadata_state } => match metadata_state {
                MetadataState::Fetching(fetch) => {
                    if fetch.pieces_received != fetch.total_pieces {
                        return false;
                    }
                    if bytes_mut_as_slice(&fetch.buf).len() != fetch.metadata_size {
                        return false;
                    }
                    Self::validate_metadata_hash(magnet, bytes_mut_as_slice(&fetch.buf))
                },
                MetadataState::Complete(_) => true,
                MetadataState::Pending => false,
            },
        }
    }

    /// Whether bytes have the hash that a magnet link promises
    pub fn validate_metadata_hash(magnet: &Magnet, buf: &[u8]) -> (r: bool)
        requires
            magnet.hash is Some,
        ensures
            r == (sha1_digest(buf@) == magnet.hash->0@),
    {
        let calculated = InfoHash::new(sha1(buf));
        match magnet.info_hash() {
            Some(expected) => expected.same(&calculated),
            None => false,
        }
    }

    /// Makes the info of a torrent out of its fetched bytes.
    fn info_from(magnet: &Magnet, buf: &[u8]) -> (r: Result<Info, String>)
        requires
            magnet.hash is Some,
        ensures
            match r {
                Ok(i) => constructed(magnet.hash->0@, buf@) == Ok::<InfoView, Seq<char>>(i.says()),
                Err(e) => constructed(magnet.hash->0@, buf@) == Err::<InfoView, Seq<char>>(e@),
            },
    {
        if !Self::validate_metadata_hash(magnet, buf) {
            return Err(String::from_str("Cannot construct info: metadata validation failed"));
        }
        match Bencode::decode(buf) {
            Err(e) => Err(joined("Failed to decode metadata bencode: ", e.message().as_str())),
            Ok(b) => match parse_info_dict(&b) {
                Err(e) => Err(joined("Failed to parse Info from bencode: ", e.message().as_str())),
                Ok(i) => Ok(i),
            },
        }
    }

    /// Makes the info of a torrent once all its pieces are there
    pub fn construct_info(&mut self) -> (r: Result<(), String>)
        requires
            old(self)@.wf(),
        ensures
            final(self)@.wf(),
            match old(self)@ {
                Known::File(_) => {
                    &&& final(self)@ == old(self)@
                    &&& outcome(r) == Err::<(), Seq<char>>(
                        "Cannot construct info for torrent file (already has info)"@,
                    )
                },
                Known::Pending(_) => {
                    &&& final(self)@ == old(self)@
                    &&& outcome(r) == Err::<(), Seq<char>>(
                        "Cannot construct info: metadata is still pending"@,
                    )
                },
                Known::Complete(_, _) => final(self)@ == old(self)@ && r is Ok,
                Known::Fetching(m, f) => if f.received != f.total {
                    &&& final(self)@ == old(self)@
                    &&& outcome(r) == Err::<(), Seq<char>>(
                        "Cannot construct info: not all pieces received"@,
                    )
                } else {
                    match constructed(m.hash->0@, f.buf) {
                        Err(e) => final(self)@ == old(self)@ && outcome(r) == Err::<
                            (),
                            Seq<char>,
                        >(e),
                        Ok(i) => {
                            &&& r is Ok
                            &&& final(self)@ matches Known::Complete(n, info) && n == m
                                && info.says() == i
                        },
                    }
                },
            },
    {
        match self {
            Metadata::MagnetUri { magnet, metadata_state } => match metadata_state {
                MetadataState::Fetching(fetch) => {
                    if fetch.pieces_received != fetch.total_pieces {
                        return Err(
                            String::from_str("Cannot construct info: not all pieces received"),
                        );
                    }
                    match Self::info_from(magnet, bytes_mut_as_slice(&fetch.buf)) {
                        Err(e) => Err(e),
                        Ok(info) => {
                            *metadata_state = MetadataState::Complete(Arc::new(info));
                            Ok(())
                        },
                    }
                },
                MetadataState::Complete(_) => Ok(()),
                MetadataState::Pending => Err(
                    String::from_str("Cannot construct info: metadata is still pending"),
                ),
            },
            Metadata::TorrentFile(_) => Err(
                String::from_str("Cannot construct info for torrent file (already has info)"),
            ),
        }
    }

    /// Initialize metadata fetching with the given size
    pub fn set_metadata_size(&mut self, metadata_size: usize, now: u64) -> (r: Result<(), String>)
        requires
            old(self)@.wf(),
            metadata_size <= isize::MAX,
        ensures
            final(self)@.wf(),
            (final(self)@, outcome(r)) == old(self)@.after_size(metadata_size, now),
    {
        match self {
            Metadata::MagnetUri { metadata_state, .. } => {
                match metadata_state {
                    MetadataState::Pending => {},
                    _ => return Err(
                        String::from_str("Can only set metadata size when in Pending state"),
                    ),
                }
                if metadata_size == 0 {
                    return Err(String::from_str("Metadata size cannot be zero"));
                }
                *metadata_state = MetadataState::Fetching(
                    MetadataFetch::start(metadata_size, bytes_mut_zeroed(metadata_size), now),
                );
                Ok(())
            },
            Metadata::TorrentFile(_) => Err(
                String::from_str("Cannot set metadata size for torrent file"),
            ),
        }
    }

    /// Get the Info struct if available
    pub fn info(&self) -> (r: Option<Arc<Info>>)
        ensures
            r == self@.info(),
    {
        match self {
            Metadata::TorrentFile(t) => Some(share(&t.info)),
            Metadata::MagnetUri { metadata_state, .. } => match metadata_state {
                MetadataState::Complete(info) => Some(share(info)),
                _ => None,
            },
        }
    }

    /// The hash of the torrent
    pub fn info_hash(&self) -> (r: InfoHash)
        requires
            self@.wf(),
        ensures
            r == self@.hash(),
    {
        match self {
            Metadata::TorrentFile(t) => t.info_hash,
            Metadata::MagnetUri { magnet, .. } => match magnet.info_hash() {
                Some(h) => h,
                None => InfoHash::new([0u8; 20]),
            },
        }
    }

    /// Get the display name for this torrent
    pub fn display_name(&self) -> (r: Option<&str>)
        ensures
            match r {
                Some(s) => self@.name() == Some(s@),
                None => self@.name() is None,
            },
    {
        match self {
            Metadata::TorrentFile(t) => Some(t.info.mode.name()),
            Metadata::MagnetUri { magnet, .. } => match &magnet.display_name {
                Some(s) => Some(s.as_str()),
                None => None,
            },
        }
    }

    /// Check if this torrent needs metadata fetching
    pub fn needs_metadata(&self) -> (r: bool)
        ensures
            r == (self@ is Pending),
    {
        match self {
            Metadata::TorrentFile(_) => false,
            Metadata::MagnetUri { metadata_state, .. } => match metadata_state {
                MetadataState::Pending => true,
                _ => false,
            },
        }
    }
}

/// A buffer whose pieces are those of some metadata is that metadata.
pub proof fn pieces_make_up_the_metadata(f: FetchState, data: Seq<u8>)
    requires
        f.wf(),
        f.buf.len() == f.size,
        data.len() == f.size,
        forall|k: int|
            0 <= k < f.total ==> f.buf.subrange(16384 * k, 16384 * k + f.span(k))
                == #[trigger] data.subrange(16384 * k, 16384 * k + f.span(k)),
    ensures
        f.buf == data,
{
    assert forall|i: int| 0 <= i < f.size implies f.buf[i] == data[i] by {
        let k = i / 16384;
        let a = f.buf.subrange(16384 * k, 16384 * k + f.span(k));
        let b = data.subrange(16384 * k, 16384 * k + f.span(k));
        assert(a == b);
        assert(a[i - 16384 * k] == b[i - 16384 * k]);
    }
    assert(f.buf =~= data);
}

/// Putting a piece leaves exactly its bytes in the buffer and those of the other pieces alone.
pub proof fn put_piece_stays_in_its_place(f: FetchState, k: int, data: Seq<u8>, j: int)
    requires
        f.wf(),
        f.buf.len() == f.size,
        0 <= k < f.total,
        0 <= j < f.total,
        data.len() == f.span(k),
    ensures
        f.filled(k, data).wf(),
        f.filled(k, data).buf.len() == f.size,
        f.filled(k, data).buf.subrange(16384 * k, 16384 * k + f.span(k)) == data,
        j != k ==> f.filled(k, data).buf.subrange(16384 * j, 16384 * j + f.span(j))
            == f.buf.subrange(16384 * j, 16384 * j + f.span(j)),
{
    let g = f.filled(k, data);
    assert(g.buf.subrange(16384 * k, 16384 * k + f.span(k)) =~= data);
    if j != k {
        assert(g.buf.subrange(16384 * j, 16384 * j + f.span(j)) =~= f.buf.subrange(
            16384 * j,
            16384 * j + f.span(j),
        ));
    }
}

} // verus!
