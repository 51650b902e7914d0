//! What holds of the storage.

use crate::hashing::sha1_digest;
use crate::metainfo::{file_views, FileView, Info};
use crate::path::{parent, pushed};
use crate::storage::segments::{bytes_before, fetched, lengths, other_data_stays};
use crate::storage::segments::{segments_of, stored, written_data_is_read_back, Disk};
use crate::storage::storage_manager::TorrentCache;
use crate::storage::storage_manager::{directories_of, known_torrent, piece_is_right};
use crate::storage::storage_manager::{torrent_position, torrents_differ, without_torrent};
use crate::types::InfoHash;
use std::sync::Arc;
use vstd::prelude::*;

verus! {

/// A piece is judged by the hash at its own number: data is right exactly where it has that hash,
/// whatever the other hashes are.
pub proof fn piece_is_judged_by_its_own_hash(
    meta: Info,
    other: Info,
    piece: u32,
    data: Seq<u8>,
)
    requires
        piece < meta.pieces.len(),
        piece < other.pieces.len(),
    ensures
        piece_is_right(meta, piece, data) <==> sha1_digest(data) == meta.says().pieces[piece as int],
        meta.pieces@[piece as int]@ == other.pieces@[piece as int]@ ==> piece_is_right(
            meta,
            piece,
            data,
        ) == piece_is_right(other, piece, data),
        meta.pieces@[piece as int]@ != other.pieces@[piece as int]@ ==> !(piece_is_right(
            meta,
            piece,
            data,
        ) && piece_is_right(other, piece, data)),
{
    assert(meta.says().pieces[piece as int] == meta.pieces@[piece as int]@);
}

/// Pieces lie one behind the other, and a byte of a piece as far behind its start as its position
/// says.
pub proof fn pieces_lie_one_behind_the_other(c: TorrentCache, piece: u32, begin: int)
    requires
        piece < u32::MAX,
        c.metainfo.piece_length >= 0,
        c.metainfo.piece_length <= usize::MAX,
    ensures
        c.offset(0, 0) == 0,
        c.offset((piece + 1) as u32, 0) == c.offset(piece, 0) + c.metainfo.piece_length,
        c.offset(piece, begin) == c.offset(piece, 0) + begin,
{
    let n = c.metainfo.piece_length as usize;
    assert((piece + 1) * n == piece * n + n) by (nonlinear_arith);
    assert(0 * n == 0) by (nonlinear_arith);
}

/// A block of a piece that was written is read back as it was written, however the piece is spread
/// over the files.
pub proof fn written_piece_is_read_back(
    c: TorrentCache,
    disk: Disk,
    piece: u32,
    data: Seq<u8>,
    begin: int,
    len: int,
)
    requires
        data.len() <= usize::MAX,
        c.offset(piece, 0) >= 0,
        c.offset(piece, 0) + data.len() <= bytes_before(
            lengths(file_views(c.files@)),
            c.files@.len() as int,
        ),
        0 <= begin,
        0 <= len,
        begin + len <= data.len(),
    ensures
        ({
            let lens = lengths(file_views(c.files@));
            let out = segments_of(lens, c.offset(piece, 0), data.len() as int);
            let back = segments_of(lens, c.offset(piece, begin), len);
            let disk2 = stored(disk, out, data, out.len() as int);
            fetched(disk2, back, len as nat) == data.subrange(begin, begin + len)
        }),
{
    let lens = lengths(file_views(c.files@));
    assert(c.files.len() == lens.len());
    crate::storage::segments::room_reaches_to_the_end(lens, c.offset(piece, 0), data.len() as int);
    written_data_is_read_back(lens, disk, c.offset(piece, 0), data, begin, len);
}

/// Writing a piece changes no other: a block of one is read as before.
pub proof fn other_pieces_stay(
    c: TorrentCache,
    disk: Disk,
    piece: u32,
    data: Seq<u8>,
    other: u32,
    begin: int,
    len: int,
)
    requires
        0 < c.metainfo.piece_length <= usize::MAX,
        data.len() <= c.metainfo.piece_length,
        other != piece,
        0 <= begin,
        0 <= len,
        begin + len <= c.metainfo.piece_length,
        c.offset(other, begin) + len <= bytes_before(
            lengths(file_views(c.files@)),
            c.files@.len() as int,
        ),
    ensures
        ({
            let lens = lengths(file_views(c.files@));
            let out = segments_of(lens, c.offset(piece, 0), data.len() as int);
            let back = segments_of(lens, c.offset(other, begin), len);
            let disk2 = stored(disk, out, data, out.len() as int);
            fetched(disk2, back, len as nat) == fetched(disk, back, len as nat)
        }),
{
    let lens = lengths(file_views(c.files@));
    assert(c.files.len() == lens.len());
    let n = c.metainfo.piece_length as usize;
    assert(piece * n >= 0 && other * n >= 0) by (nonlinear_arith)
        requires
            0 <= n,
    ;
    if other < piece {
        assert(other * n + n <= piece * n) by (nonlinear_arith)
            requires
                other + 1 <= piece,
                0 <= n,
        ;
    } else {
        assert(piece * n + n <= other * n) by (nonlinear_arith)
            requires
                piece + 1 <= other,
                0 <= n,
        ;
    }
    crate::storage::segments::room_reaches_to_the_end(lens, c.offset(other, begin), len);
    other_data_stays(lens, disk, c.offset(piece, 0), data, c.offset(other, begin), len);
}

proof fn position_is_first(s: Seq<(InfoHash, Arc<TorrentCache>)>, hash: Seq<u8>, i: int)
    requires
        0 <= i,
    ensures
        match torrent_position(s, hash, i) {
            Some(k) => i <= k < s.len() && s[k].0@ == hash,
            None => forall|j: int| i <= j < s.len() ==> (#[trigger] s[j]).0@ != hash,
        },
    decreases s.len() - i,
{
    if i < s.len() && s[i].0@ != hash {
        position_is_first(s, hash, i + 1);
    }
}

/// What is known of a torrent is what it was registered with.
pub proof fn torrent_is_known_by_its_hash(
    s: Seq<(InfoHash, Arc<TorrentCache>)>,
    hash: Seq<u8>,
    k: int,
)
    requires
        torrents_differ(s),
    ensures
        0 <= k < s.len() && s[k].0@ == hash ==> known_torrent(s, hash) == Some(s[k].1),
        (forall|j: int| 0 <= j < s.len() ==> (#[trigger] s[j]).0@ != hash) ==> known_torrent(
            s,
            hash,
        ) is None,
{
    position_is_first(s, hash, 0);
    if 0 <= k < s.len() && s[k].0@ == hash {
        let j = torrent_position(s, hash, 0)->0;
        if torrent_position(s, hash, 0) is None {
            assert(s[k].0@ != hash);
        } else if j < k {
            assert(s[j].0@ != s[k].0@);
        } else if k < j {
            assert(s[k].0@ != s[j].0@);
        }
    }
}

/// A torrent that was removed is not known, and every other is as before.
pub proof fn removed_torrent_is_unknown(
    s: Seq<(InfoHash, Arc<TorrentCache>)>,
    hash: Seq<u8>,
    other: Seq<u8>,
)
    requires
        torrents_differ(s),
    ensures
        known_torrent(without_torrent(s, hash), hash) is None,
        other != hash ==> known_torrent(without_torrent(s, hash), other) == known_torrent(s, other),
{
    let t = without_torrent(s, hash);
    position_is_first(s, hash, 0);
    position_is_first(s, other, 0);
    position_is_first(t, hash, 0);
    position_is_first(t, other, 0);
    match torrent_position(s, hash, 0) {
        Some(k) => {
            assert forall|j: int| 0 <= j < t.len() implies (#[trigger] t[j]).0@ != hash by {
                if j < k {
                    assert(t[j] == s[j]);
                    assert(s[j].0@ != s[k].0@);
                } else {
                    assert(t[j] == s[j + 1]);
                    assert(s[k].0@ != s[j + 1].0@);
                }
            }
            assert forall|i: int, j: int| 0 <= i < j < t.len() implies (#[trigger] t[i]).0@ != (
            #[trigger] t[j]).0@ by {
                let a = if i < k {
                    i
                } else {
                    i + 1
                };
                let b = if j < k {
                    j
                } else {
                    j + 1
                };
                assert(t[i] == s[a] && t[j] == s[b]);
                assert(s[a].0@ != s[b].0@);
            }
            if other != hash {
                match torrent_position(s, other, 0) {
                    Some(x) => {
                        let y = if x < k {
                            x
                        } else {
                            x - 1
                        };
                        assert(t[y] == s[x]);
                        torrent_is_known_by_its_hash(t, other, y);
                    },
                    None => {
                        assert forall|j: int| 0 <= j < t.len() implies (#[trigger] t[j]).0@
                            != other by {
                            let a = if j < k {
                                j
                            } else {
                                j + 1
                            };
                            assert(t[j] == s[a]);
                        }
                        torrent_is_known_by_its_hash(t, other, 0);
                    },
                }
            }
        },
        None => {},
    }
}

/// Each directory that a file of a torrent lies in is named, and nothing else is.
pub proof fn directories_are_those_of_the_files(
    root: Seq<char>,
    files: Seq<FileView>,
    n: int,
    x: Seq<char>,
)
    requires
        0 <= n <= files.len(),
    ensures
        directories_of(root, files, n).contains(x) <==> exists|i: int|
            0 <= i < n && parent(pushed(root, (#[trigger] files[i]).path)) == Some(x),
    decreases n,
{
    let l = directories_of(root, files, n);
    if n > 0 {
        directories_are_those_of_the_files(root, files, n - 1, x);
        let less = directories_of(root, files, n - 1);
        let own = parent(pushed(root, files[n - 1].path));
        if own is Some {
            if less.contains(x) {
                let i = choose|i: int| 0 <= i < less.len() && less[i] == x;
                assert(l[i] == x);
            }
            if own == Some(x) {
                assert(l[less.len() as int] == x);
            }
            if l.contains(x) {
                let i = choose|i: int| 0 <= i < l.len() && l[i] == x;
                if i < less.len() {
                    assert(less[i] == x);
                } else {
                    assert(parent(pushed(root, files[n - 1].path)) == Some(x));
                }
            }
        }
        if exists|i: int| 0 <= i < n && parent(pushed(root, (#[trigger] files[i]).path)) == Some(x) {
            let i = choose|i: int|
                0 <= i < n && parent(pushed(root, (#[trigger] files[i]).path)) == Some(x);
            if i < n - 1 {
                assert(less.contains(x));
            }
        }
    }
}

/// What is kept of a torrent is what its metadata says.
pub proof fn kept_torrent_says_what_its_metadata_says(c: TorrentCache, meta: Arc<Info>, i: int)
    requires
        c.keeps(meta),
    ensures
        c.metainfo == meta,
        c.name@ == meta.says().mode.name(),
        c.files@.len() == meta.says().mode.files().len(),
        0 <= i < c.files@.len() ==> c.files@[i].says() == meta.says().mode.files()[i],
{
    assert(crate::metainfo::file_views(c.files@).len() == c.files@.len());
    if 0 <= i < c.files@.len() {
        assert(crate::metainfo::file_views(c.files@)[i] == c.files@[i].says());
    }
}

} // verus!
