//! Whether files on disk are what a torrent says they are.

use crate::hashing::{sha1, sha1_digest};
use crate::metainfo::{piece_count, FileMode, TorrentInfo};
use crate::path::{pushed, FilePath};
use crate::storage::segments::{
    fetched, joined_part, lengths, runs_read_joined_files, segments_of, split, Disk, Segment,
};
use crate::types::same_bytes;
use std::sync::Arc;
use vstd::prelude::*;

verus! {

/// How many bytes a piece has: as many as the others, or what is left for the last
pub fn calculate_piece_length(piece_index: usize, piece_length: usize, total_size: usize) -> (r:
    usize)
    requires
        piece_index * piece_length <= usize::MAX,
    ensures
        r == {
            let left = total_size - piece_index * piece_length;
            if left <= 0 {
                0
            } else if left < piece_length {
                left
            } else {
                piece_length as int
            }
        },
{
    let piece_start: usize = piece_index * piece_length;
    let remaining: usize = total_size.saturating_sub(piece_start);
    if remaining < piece_length {
        remaining
    } else {
        piece_length
    }
}

/// The directory that the files of a torrent lie in
pub fn content_root(src: &FilePath, metainfo: &TorrentInfo) -> (r: FilePath)
    ensures
        r@ == match metainfo.info.mode {
            FileMode::SingleFile { .. } => src@,
            FileMode::MultiFile { name, .. } => pushed(src@, name@),
        },
{
    match &metainfo.info.mode {
        FileMode::SingleFile { .. } => FilePath::from_text(src.as_str()),
        FileMode::MultiFile { name, .. } => src.join(name.as_str()),
    }
}

/// Where a piece starts in the joined files of a torrent.
pub open spec fn piece_start(t: TorrentInfo, i: int) -> int {
    i * (t.info.piece_length as usize)
}

/// How many bytes a piece of a torrent has.
pub open spec fn piece_size(t: TorrentInfo, i: int) -> nat {
    let left = t.says().info.mode.total() as usize - piece_start(t, i);
    if left <= 0 {
        0
    } else if left < t.info.piece_length as usize {
        left as nat
    } else {
        (t.info.piece_length as usize) as nat
    }
}

/// The runs that a piece of a torrent is read from.
pub open spec fn piece_runs(t: TorrentInfo, i: int) -> Seq<Segment> {
    segments_of(
        lengths(t.says().info.mode.files()),
        piece_start(t, i),
        piece_size(t, i) as int,
    )
}

/// A check of a torrent's content, piece by piece.
#[derive(Debug)]
pub struct ContentCheck {
    pub metainfo: Arc<TorrentInfo>,
    pub num_pieces: usize,
    pub next: usize,
}

impl ContentCheck {
    /// The pieces are those of the torrent, and the next is one of them or the end.
    pub open spec fn wf(&self) -> bool {
        &&& self.metainfo.says().info.mode.size_fits()
        &&& self.num_pieces == piece_count(
            self.metainfo.says().info.mode.total(),
            self.metainfo.info.piece_length as int,
        )
        &&& self.next <= self.num_pieces
    }

    /// The check begins with the first piece
    pub fn new(metainfo: Arc<TorrentInfo>) -> (r: Self)
        requires
            metainfo.says().info.mode.size_fits(),
        ensures
            r.wf(),
            r.metainfo == metainfo,
            r.next == 0,
    {
        let num_pieces: usize = metainfo.num_pieces();
        ContentCheck { metainfo, num_pieces, next: 0 }
    }

    /// Whether the next piece, where one is left, starts where it can be counted.
    pub open spec fn countable(&self) -> bool {
        self.next < self.num_pieces ==> piece_start(*self.metainfo, self.next as int) <= usize::MAX
    }

    /// Whether the next piece, where one is left, starts where it can be counted
    pub fn can_read(&self) -> (r: bool)
        ensures
            r == self.countable(),
    {
        if self.next >= self.num_pieces {
            return true;
        }
        let length: usize = self.metainfo.info.piece_length as usize;
        match self.next.checked_mul(length) {
            Some(_) => true,
            None => false,
        }
    }

    /// Whether the torrent has a hash for the next piece
    pub fn can_take(&self) -> (r: bool)
        ensures
            r == (self.next < self.metainfo.info.pieces.len()),
    {
        self.next < self.metainfo.info.pieces.len()
    }

    /// The length of the next piece and the runs that it is read from, where a piece is left
    pub fn read_piece(&self) -> (r: Option<(usize, Vec<Segment>)>)
        requires
            self.wf(),
            self.countable(),
        ensures
            match r {
                None => self.next == self.num_pieces,
                Some((len, segments)) => {
                    &&& self.next < self.num_pieces
                    &&& len == piece_size(*self.metainfo, self.next as int)
                    &&& segments@ == piece_runs(*self.metainfo, self.next as int)
                },
            },
    {
        if self.next == self.num_pieces {
            return None;
        }
        let piece_length: usize = self.metainfo.info.piece_length as usize;
        let total_size: usize = self.metainfo.total_size() as usize;
        proof {
            assert(0 <= self.next * piece_length) by (nonlinear_arith)
                requires
                    0 <= self.next,
                    0 <= piece_length,
            ;
        }
        let len: usize = calculate_piece_length(self.next, piece_length, total_size);
        let files = self.metainfo.files();
        let (segments, whole) = split(&files, self.next * piece_length, len);
        Some((len, segments))
    }

    /// The next piece was read; gives the verdict on the content, where there is one already
    pub fn take(&mut self, data: &[u8]) -> (r: Option<bool>)
        requires
            old(self).wf(),
            old(self).next < old(self).num_pieces,
            old(self).next < old(self).metainfo.info.pieces.len(),
        ensures
            final(self).wf(),
            final(self).metainfo == old(self).metainfo,
            ({
                let right = sha1_digest(data@) == old(self).metainfo.info.pieces@[old(
                    self,
                ).next as int]@;
                &&& final(self).next == if right {
                    old(self).next + 1
                } else {
                    old(self).next as int
                }
                &&& r == if !right {
                    Some(false)
                } else if old(self).next + 1 == old(self).num_pieces {
                    Some(true)
                } else {
                    None
                }
            }),
    {
        let calculated: [u8; 20] = sha1(data);
        match self.metainfo.get_piece_hash(self.next) {
            Some(expected) => {
                if !same_bytes(calculated.as_slice(), expected.as_slice()) {
                    return Some(false);
                }
            },
            None => {},
        }
        self.next = self.next + 1;
        if self.next == self.num_pieces {
            Some(true)
        } else {
            None
        }
    }
}

/// Whether data has the hash that a torrent says for a piece.
pub open spec fn has_hash(t: TorrentInfo, i: int, data: Seq<u8>) -> bool {
    i < t.info.pieces.len() && sha1_digest(data) == t.info.pieces@[i]@
}

/// Whether what was read of the first `n` pieces has the hashes that a torrent says.
pub open spec fn right_so_far(t: TorrentInfo, pieces: Seq<Vec<u8>>, n: int) -> bool {
    forall|i: int| 0 <= i < n ==> has_hash(t, i, (#[trigger] pieces[i])@)
}

/// Whether what was read of each piece of a torrent is what the torrent says; a hash is needed for
/// each piece up to the first that is wrong
pub fn verify_content(pieces: &Vec<Vec<u8>>, metainfo: &Arc<TorrentInfo>) -> (r: bool)
    requires
        metainfo.says().info.mode.size_fits(),
        pieces.len() == piece_count(
            metainfo.says().info.mode.total(),
            metainfo.info.piece_length as int,
        ),
        forall|i: int|
            0 <= i < pieces.len() && #[trigger] right_so_far(**metainfo, pieces@, i) ==> i
                < metainfo.info.pieces.len(),
    ensures
        r == right_so_far(**metainfo, pieces@, pieces.len() as int),
{
    let mut check = ContentCheck::new(crate::shared::share(metainfo));
    while check.next < check.num_pieces
        invariant
            check.wf(),
            check.metainfo == *metainfo,
            check.num_pieces == pieces.len(),
            forall|i: int|
                0 <= i < pieces.len() && #[trigger] right_so_far(**metainfo, pieces@, i) ==> i
                    < metainfo.info.pieces.len(),
            right_so_far(**metainfo, pieces@, check.next as int),
        decreases check.num_pieces - check.next,
    {
        let ghost at = check.next as int;
        match check.take(pieces[check.next].as_slice()) {
            Some(false) => {
                assert(!has_hash(**metainfo, at, pieces@[at]@));
                return false;
            },
            _ => {},
        }
    }
    true
}

/// The verdict on files that come with the disk: from piece `i` on each piece is read as
/// `ContentCheck::read_piece` says and taken by `ContentCheck::take`, up to the first that is wrong.
pub open spec fn verdict_from(t: TorrentInfo, disk: Disk, i: int) -> bool
    decreases piece_count(t.says().info.mode.total(), t.info.piece_length as int) - i,
{
    if i >= piece_count(t.says().info.mode.total(), t.info.piece_length as int) {
        true
    } else {
        has_hash(t, i, fetched(disk, piece_runs(t, i), piece_size(t, i))) && verdict_from(
            t,
            disk,
            i + 1,
        )
    }
}

/// The bytes of a piece in the joined files of a torrent.
pub open spec fn piece_of_files(t: TorrentInfo, disk: Disk, i: int) -> Seq<u8> {
    joined_part(
        lengths(t.says().info.mode.files()),
        disk,
        piece_start(t, i),
        piece_size(t, i),
    )
}

/// Files are what a torrent says if and only if each piece of the files, joined one behind the
/// other, has its hash.
pub proof fn verdict_is_on_joined_files(t: TorrentInfo, disk: Disk)
    ensures
        verdict_from(t, disk, 0) <==> forall|i: int|
            0 <= i < piece_count(t.says().info.mode.total(), t.info.piece_length as int)
                ==> has_hash(t, i, #[trigger] piece_of_files(t, disk, i)),
{
    verdict_from_piece(t, disk, 0);
}

proof fn verdict_from_piece(t: TorrentInfo, disk: Disk, i: int)
    requires
        0 <= i,
    ensures
        verdict_from(t, disk, i) <==> forall|k: int|
            i <= k < piece_count(t.says().info.mode.total(), t.info.piece_length as int)
                ==> has_hash(t, k, #[trigger] piece_of_files(t, disk, k)),
    decreases piece_count(t.says().info.mode.total(), t.info.piece_length as int) - i,
{
    let n = piece_count(t.says().info.mode.total(), t.info.piece_length as int);
    if i < n {
        assert(0 <= piece_start(t, i)) by (nonlinear_arith)
            requires
                0 <= i,
                piece_start(t, i) == i * (t.info.piece_length as usize),
        ;
        match t.info.mode {
            FileMode::SingleFile { .. } => {},
            FileMode::MultiFile { files, .. } => {
                assert(t.says().info.mode.files().len() == files.len());
            },
        }
        runs_read_joined_files(
            lengths(t.says().info.mode.files()),
            disk,
            piece_start(t, i),
            piece_size(t, i) as int,
        );
        verdict_from_piece(t, disk, i + 1);
        assert(piece_of_files(t, disk, i) == fetched(disk, piece_runs(t, i), piece_size(t, i)));
    }
}

} // verus!
