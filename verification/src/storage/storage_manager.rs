//! Which torrents the storage knows, and where their bytes belong.

use crate::buffers::{bytes_content, bytes_mut_content, bytes_mut_freeze, bytes_mut_write};
use crate::buffers::bytes_mut_zeroed;
use crate::hashing::{sha1, sha1_digest};
use crate::metainfo::{file_views, FileInfo, FileView, Info};
use crate::path::{parent, pushed, FilePath};
use crate::protocol::Block;
use crate::shared::share;
use crate::storage::segments::{fetched, fetched_byte, has_room, lengths, segments_of, split};
use crate::storage::segments::{Disk, Segment};
use crate::storage::{StorageError, StorageMessage};
use crate::types::{same_bytes, InfoHash};
use std::sync::Arc;
use vstd::prelude::*;
use vstd::string::*;

verus! {

/// What is kept of a torrent.
#[derive(Debug)]
pub struct TorrentCache {
    pub metainfo: Arc<Info>,
    pub name: String,
    pub files: Vec<FileInfo>,
}

impl TorrentCache {
    /// Whether the cache says what the torrent's metadata says.
    pub open spec fn keeps(&self, meta: Arc<Info>) -> bool {
        &&& self.metainfo == meta
        &&& self.name@ == meta.says().mode.name()
        &&& file_views(self.files@) == meta.says().mode.files()
    }

    /// The number of bytes before a position in a piece.
    pub open spec fn offset(&self, piece: u32, begin: int) -> int {
        piece * (self.metainfo.piece_length as usize) + begin
    }

    /// Whether a byte's position in the torrent can be counted
    pub fn has_place(&self, piece: u32, begin: u32) -> (r: bool)
        ensures
            r == (self.offset(piece, begin as int) <= usize::MAX),
    {
        let length: usize = self.metainfo.piece_length as usize;
        assert(piece * length <= u32::MAX * u64::MAX) by (nonlinear_arith)
            requires
                0 <= piece <= u32::MAX,
                0 <= length <= u64::MAX,
        ;
        piece as u128 * length as u128 + begin as u128 <= usize::MAX as u128
    }
}

/// The position at or behind `i` of a torrent.
pub open spec fn torrent_position(
    s: Seq<(InfoHash, Arc<TorrentCache>)>,
    hash: Seq<u8>,
    i: int,
) -> Option<int>
    decreases s.len() - i,
{
    if i < 0 || i >= s.len() {
        None
    } else if s[i].0@ == hash {
        Some(i)
    } else {
        torrent_position(s, hash, i + 1)
    }
}

/// What is kept of a torrent, where it is known.
pub open spec fn known_torrent(s: Seq<(InfoHash, Arc<TorrentCache>)>, hash: Seq<u8>) -> Option<
    Arc<TorrentCache>,
> {
    match torrent_position(s, hash, 0) {
        Some(k) => Some(s[k].1),
        None => None,
    }
}

/// Whether no torrent is known twice.
pub open spec fn torrents_differ(s: Seq<(InfoHash, Arc<TorrentCache>)>) -> bool {
    forall|i: int, j: int| 0 <= i < j < s.len() ==> (#[trigger] s[i]).0@ != (#[trigger] s[j]).0@
}

/// The torrents without one.
pub open spec fn without_torrent(s: Seq<(InfoHash, Arc<TorrentCache>)>, hash: Seq<u8>) -> Seq<
    (InfoHash, Arc<TorrentCache>),
> {
    match torrent_position(s, hash, 0) {
        Some(k) => s.remove(k),
        None => s,
    }
}

/// The directories that the first `n` files of a torrent lie in.
pub open spec fn directories_of(root: Seq<char>, files: Seq<FileView>, n: int) -> Seq<Seq<char>>
    decreases n,
{
    if n <= 0 {
        Seq::empty()
    } else {
        match parent(pushed(root, files[n - 1].path)) {
            Some(d) => directories_of(root, files, n - 1).push(d),
            None => directories_of(root, files, n - 1),
        }
    }
}

/// What paths say.
pub open spec fn path_texts(l: Seq<FilePath>) -> Seq<Seq<char>> {
    Seq::new(l.len(), |i: int| l[i]@)
}

proof fn torrent_position_bounds(s: Seq<(InfoHash, Arc<TorrentCache>)>, hash: Seq<u8>, i: int)
    requires
        0 <= i,
    ensures
        torrent_position(s, hash, i) matches Some(k) ==> i <= k < s.len() && s[k].0@ == hash,
        torrent_position(s, hash, i) is None ==> forall|j: int|
            i <= j < s.len() ==> (#[trigger] s[j]).0@ != hash,
    decreases s.len() - i,
{
    if i < s.len() && s[i].0@ != hash {
        torrent_position_bounds(s, hash, i + 1);
    }
}

proof fn removal_keeps_torrents_apart(s: Seq<(InfoHash, Arc<TorrentCache>)>, hash: Seq<u8>)
    requires
        torrents_differ(s),
    ensures
        torrents_differ(without_torrent(s, hash)),
        forall|j: int|
            0 <= j < without_torrent(s, hash).len() ==> (#[trigger] without_torrent(s, hash)[j]).0@
                != hash,
{
    torrent_position_bounds(s, hash, 0);
    let t = without_torrent(s, hash);
    match torrent_position(s, hash, 0) {
        Some(k) => {
            assert forall|i: int, j: int| 0 <= i < j < t.len() implies (#[trigger] t[i]).0@ != (
            #[trigger] t[j]).0@ by {
                let a = if i >= k {
                    i + 1
                } else {
                    i
                };
                let b = if j >= k {
                    j + 1
                } else {
                    j
                };
                assert(s[a].0@ != s[b].0@);
            }
            assert forall|j: int| 0 <= j < t.len() implies (#[trigger] t[j]).0@ != hash by {
                if j >= k {
                    assert(s[k].0@ != s[j + 1].0@);
                } else {
                    assert(s[j].0@ != s[k].0@);
                }
            }
        },
        None => {},
    }
}

/// A torrent that was registered is known, and no other is forgotten.
pub proof fn registered_torrent_is_known(
    s: Seq<(InfoHash, Arc<TorrentCache>)>,
    hash: InfoHash,
    cache: Arc<TorrentCache>,
    other: Seq<u8>,
)
    requires
        torrents_differ(s),
    ensures
        known_torrent(without_torrent(s, hash@).push((hash, cache)), hash@) == Some(cache),
        other != hash@ ==> known_torrent(without_torrent(s, hash@).push((hash, cache)), other)
            == known_torrent(s, other),
{
    let w = without_torrent(s, hash@);
    let t = w.push((hash, cache));
    removal_keeps_torrents_apart(s, hash@);
    torrent_position_bounds(t, hash@, 0);
    torrent_position_bounds(s, hash@, 0);
    torrent_position_bounds(s, other, 0);
    torrent_position_bounds(t, other, 0);
    assert(t[w.len() as int].0@ == hash@);
    if let Some(k) = torrent_position(t, hash@, 0) {
        assert(k == w.len()) by {
            if k < w.len() {
                assert(w[k].0@ != hash@);
            }
        }
    }
    if other != hash@ {
        let shift = torrent_position(s, hash@, 0);
        match torrent_position(s, other, 0) {
            Some(a) => {
                let b = match shift {
                    Some(k) => if a > k {
                        a - 1
                    } else {
                        a
                    },
                    None => a,
                };
                assert(t[b] == s[a]);
                if let Some(c) = torrent_position(t, other, 0) {
                    assert(c < w.len()) by {
                        if c == w.len() {
                            assert(t[c].0@ == hash@);
                        }
                    }
                    let d = match shift {
                        Some(k) => if c >= k {
                            c + 1
                        } else {
                            c
                        },
                        None => c,
                    };
                    assert(t[c] == s[d]);
                    if d < a {
                        assert(s[d].0@ != s[a].0@);
                    } else if a < d {
                        assert(s[a].0@ != s[d].0@);
                    }
                }
            },
            None => {
                if let Some(c) = torrent_position(t, other, 0) {
                    assert(c < w.len()) by {
                        if c == w.len() {
                            assert(t[c].0@ == hash@);
                        }
                    }
                    let d = match shift {
                        Some(k) => if c >= k {
                            c + 1
                        } else {
                            c
                        },
                        None => c,
                    };
                    assert(t[c] == s[d]);
                }
            },
        }
    }
}

/// The torrents that the storage knows, and where it keeps them.
#[derive(Debug)]
pub struct StorageState {
    pub download_dir: FilePath,
    pub torrents: Vec<(InfoHash, Arc<TorrentCache>)>,
}

impl StorageState {
    /// Whether the place that a message speaks of can be counted.
    pub open spec fn admits(self, msg: StorageMessage) -> bool {
        match msg {
            StorageMessage::Read { id, piece_index, begin, .. } => known_torrent(
                self.torrents@,
                id@,
            ) matches Some(c) ==> c.offset(piece_index, begin as int) <= usize::MAX,
            StorageMessage::Write { info_hash, piece, .. } => known_torrent(
                self.torrents@,
                info_hash@,
            ) matches Some(c) ==> c.offset(piece, 0) <= usize::MAX,
            _ => true,
        }
    }

    /// No torrent is known twice.
    pub open spec fn wf(&self) -> bool {
        torrents_differ(self.torrents@)
    }

    /// A storage that knows no torrent
    pub fn new(download_dir: FilePath) -> (r: Self)
        ensures
            r.wf(),
            r.download_dir == download_dir,
            r.torrents@ == Seq::<(InfoHash, Arc<TorrentCache>)>::empty(),
    {
        StorageState { download_dir, torrents: Vec::new() }
    }

    fn find(&self, info_hash: &InfoHash) -> (r: Option<usize>)
        ensures
            match r {
                Some(k) => k < self.torrents.len() && torrent_position(
                    self.torrents@,
                    info_hash@,
                    0,
                ) == Some(k as int),
                None => torrent_position(self.torrents@, info_hash@, 0) is None,
            },
    {
        let mut i: usize = 0;
        while i < self.torrents.len()
            invariant
                i <= self.torrents.len(),
                torrent_position(self.torrents@, info_hash@, 0) == torrent_position(
                    self.torrents@,
                    info_hash@,
                    i as int,
                ),
            decreases self.torrents.len() - i,
        {
            if same_bytes(self.torrents[i].0.as_slice(), info_hash.as_slice()) {
                return Some(i);
            }
            i = i + 1;
        }
        None
    }

    /// Look up a torrent by info hash
    pub fn get_torrent(&self, info_hash: &InfoHash) -> (r: Option<Arc<TorrentCache>>)
        ensures
            r == known_torrent(self.torrents@, info_hash@),
    {
        match self.find(info_hash) {
            Some(k) => Some(share(&self.torrents[k].1)),
            None => None,
        }
    }

    /// The directory of a torrent
    pub fn torrent_root(&self, cache: &TorrentCache) -> (r: FilePath)
        ensures
            r@ == pushed(self.download_dir@, cache.name@),
    {
        self.download_dir.join(cache.name.as_str())
    }

    /// Where a file of a torrent lies
    pub fn file_path(&self, cache: &TorrentCache, file: usize) -> (r: FilePath)
        requires
            file < cache.files.len(),
        ensures
            r@ == pushed(
                pushed(self.download_dir@, cache.name@),
                cache.files@[file as int].says().path,
            ),
    {
        self.torrent_root(cache).join(cache.files[file].path.as_str())
    }

    /// The directories that the files of a torrent lie in
    pub fn directories(&self, cache: &TorrentCache) -> (r: Vec<FilePath>)
        ensures
            path_texts(r@) == directories_of(
                pushed(self.download_dir@, cache.name@),
                file_views(cache.files@),
                cache.files.len() as int,
            ),
    {
        let root = self.torrent_root(cache);
        let ghost files = file_views(cache.files@);
        let mut r: Vec<FilePath> = Vec::new();
        let mut i: usize = 0;
        assert(path_texts(r@) =~= directories_of(root@, files, 0));
        while i < cache.files.len()
            invariant
                i <= cache.files.len(),
                files == file_views(cache.files@),
                root@ == pushed(self.download_dir@, cache.name@),
                path_texts(r@) == directories_of(root@, files, i as int),
            decreases cache.files.len() - i,
        {
            assert(files[i as int].path == cache.files@[i as int].path@);
            let full_path = root.join(cache.files[i].path.as_str());
            match full_path.parent() {
                Some(p) => {
                    let ghost before = path_texts(r@);
                    r.push(p);
                    assert(path_texts(r@) =~= before.push(p@));
                },
                None => {},
            }
            i = i + 1;
        }
        r
    }

    /// Registers a torrent; gives the directories that its files lie in
    pub fn add_torrent(&mut self, info_hash: InfoHash, meta: Arc<Info>) -> (r: Vec<FilePath>)
        requires
            old(self).wf(),
        ensures
            final(self).wf(),
            final(self).download_dir == old(self).download_dir,
            exists|cache: Arc<TorrentCache>|
                cache.keeps(meta) && final(self).torrents@ == #[trigger] without_torrent(
                    old(self).torrents@,
                    info_hash@,
                ).push((info_hash, cache)),
            path_texts(r@) == directories_of(
                pushed(old(self).download_dir@, meta.says().mode.name()),
                meta.says().mode.files(),
                meta.says().mode.files().len() as int,
            ),
    {
        let ghost before = self.torrents@;
        self.remove_torrent(&info_hash);
        let name = String::from_str(meta.mode.name());
        let files = meta.files();
        let cache = Arc::new(TorrentCache { metainfo: meta, name, files });
        let directories = self.directories(&cache);
        proof {
            removal_keeps_torrents_apart(before, info_hash@);
            assert(file_views(cache.files@).len() == cache.files@.len());
        }
        let ghost kept = cache;
        self.torrents.push((info_hash, cache));
        proof {
            assert(kept.keeps(meta));
            assert(self.torrents@ == without_torrent(before, info_hash@).push((info_hash, kept)));
        }
        directories
    }

    /// Forgets a torrent
    pub fn remove_torrent(&mut self, info_hash: &InfoHash)
        requires
            old(self).wf(),
        ensures
            final(self).wf(),
            final(self).download_dir == old(self).download_dir,
            final(self).torrents@ == without_torrent(old(self).torrents@, info_hash@),
    {
        proof {
            removal_keeps_torrents_apart(self.torrents@, info_hash@);
        }
        match self.find(info_hash) {
            Some(k) => {
                self.torrents.remove(k);
            },
            None => {},
        }
    }

    /// Where the data of a piece belongs, and whether there is room for all of it
    pub fn write(cache: &TorrentCache, piece_index: u32, len: usize) -> (r: (Vec<Segment>, bool))
        requires
            cache.offset(piece_index, 0) <= usize::MAX,
        ensures
            r.0@ == segments_of(lengths(file_views(cache.files@)), cache.offset(piece_index, 0), len as int),
            r.1 == has_room(lengths(file_views(cache.files@)), cache.offset(piece_index, 0), len as int),
    {
        let piece_length: usize = cache.metainfo.piece_length as usize;
        proof {
            assert(0 <= piece_index * piece_length) by (nonlinear_arith)
                requires
                    0 <= piece_index,
                    0 <= piece_length,
            ;
        }
        let global_offset: usize = piece_index as usize * piece_length;
        split(&cache.files, global_offset, len)
    }

    /// Where a block lies, and whether all of it lies in the files
    pub fn read(cache: &TorrentCache, piece_index: u32, begin: u32, length: u32) -> (r: (
        Vec<Segment>,
        bool,
    ))
        requires
            cache.offset(piece_index, begin as int) <= usize::MAX,
        ensures
            r.0@ == segments_of(
                lengths(file_views(cache.files@)),
                cache.offset(piece_index, begin as int),
                length as int,
            ),
            r.1 == has_room(
                lengths(file_views(cache.files@)),
                cache.offset(piece_index, begin as int),
                length as int,
            ),
    {
        let piece_length: usize = cache.metainfo.piece_length as usize;
        proof {
            assert(0 <= piece_index * piece_length) by (nonlinear_arith)
                requires
                    0 <= piece_index,
                    0 <= piece_length,
            ;
        }
        let global_offset: usize = piece_index as usize * piece_length + begin as usize;
        split(&cache.files, global_offset, length as usize)
    }
}

/// Byte `k` of a block that the first `n` of some parts make up, zero where no part reaches.
pub open spec fn gathered_byte(segs: Seq<Segment>, parts: Seq<Vec<u8>>, k: int, n: int) -> u8
    decreases n,
{
    if n <= 0 || n > segs.len() {
        0
    } else {
        let s = segs[n - 1];
        if s.at <= k < s.at + s.len {
            parts[n - 1]@[k - s.at]
        } else {
            gathered_byte(segs, parts, k, n - 1)
        }
    }
}

/// The block that parts make up.
pub open spec fn gathered(segs: Seq<Segment>, parts: Seq<Vec<u8>>, len: nat) -> Seq<u8> {
    Seq::new(len, |k: int| gathered_byte(segs, parts, k, segs.len() as int))
}

/// Puts a block together from what was read of each run
pub fn gather(
    piece_index: u32,
    begin: u32,
    length: u32,
    segments: &Vec<Segment>,
    parts: &Vec<Vec<u8>>,
) -> (r: Block)
    requires
        length <= isize::MAX,
        parts.len() == segments.len(),
        forall|i: int|
            0 <= i < segments.len() ==> (#[trigger] segments[i]).at + segments[i].len <= length
                && parts[i].len() == segments[i].len,
    ensures
        r.index == piece_index,
        r.begin == begin,
        bytes_content(r.data) == gathered(segments@, parts@, length as nat),
{
    let mut data = bytes_mut_zeroed(length as usize);
    let mut i: usize = 0;
    while i < segments.len()
        invariant
            i <= segments.len(),
            parts.len() == segments.len(),
            forall|i: int|
                0 <= i < segments.len() ==> (#[trigger] segments[i]).at + segments[i].len <= length
                    && parts[i].len() == segments[i].len,
            bytes_mut_content(data).len() == length,
            forall|k: int|
                0 <= k < length ==> #[trigger] bytes_mut_content(data)[k] == gathered_byte(
                    segments@,
                    parts@,
                    k,
                    i as int,
                ),
        decreases segments.len() - i,
    {
        let s = segments[i];
        assert(segments[i as int].at + segments[i as int].len <= length);
        let ghost before = bytes_mut_content(data);
        bytes_mut_write(&mut data, s.at, s.at + s.len, parts[i].as_slice());
        assert forall|k: int| 0 <= k < length implies #[trigger] bytes_mut_content(data)[k]
            == gathered_byte(segments@, parts@, k, i + 1) by {
            assert(before[k] == gathered_byte(segments@, parts@, k, i as int));
        }
        i = i + 1;
    }
    assert(bytes_mut_content(data) =~= gathered(segments@, parts@, length as nat));
    Block { index: piece_index, begin, data: bytes_mut_freeze(data) }
}

/// A block that is put together from what files hold is what the files hold of it.
pub proof fn gathered_is_fetched(disk: Disk, segs: Seq<Segment>, parts: Seq<Vec<u8>>, len: nat)
    requires
        parts.len() == segs.len(),
        forall|i: int, j: int|
            0 <= i < segs.len() && 0 <= j < segs[i].len ==> #[trigger] parts[i]@[j] == disk(
                segs[i].file as int,
                segs[i].start + j,
            ),
    ensures
        gathered(segs, parts, len) == fetched(disk, segs, len),
{
    assert forall|k: int| 0 <= k < len implies gathered(segs, parts, len)[k] == fetched(
        disk,
        segs,
        len,
    )[k] by {
        gathered_byte_is_fetched(disk, segs, parts, k, segs.len() as int);
    }
    assert(gathered(segs, parts, len) =~= fetched(disk, segs, len));
}

proof fn gathered_byte_is_fetched(
    disk: Disk,
    segs: Seq<Segment>,
    parts: Seq<Vec<u8>>,
    k: int,
    n: int,
)
    requires
        n <= segs.len(),
        parts.len() == segs.len(),
        forall|i: int, j: int|
            0 <= i < segs.len() && 0 <= j < segs[i].len ==> #[trigger] parts[i]@[j] == disk(
                segs[i].file as int,
                segs[i].start + j,
            ),
    ensures
        gathered_byte(segs, parts, k, n) == fetched_byte(disk, segs, k, n),
    decreases n,
{
    if n > 0 {
        gathered_byte_is_fetched(disk, segs, parts, k, n - 1);
        let s = segs[n - 1];
        if s.at <= k < s.at + s.len {
            assert(parts[n - 1]@[k - s.at] == disk(s.file as int, s.start + (k - s.at)));
        }
    }
}

/// What the storage does about a message.
#[derive(Debug)]
pub enum StorageAction {
    /// The torrent is known now; these directories are needed
    Registered { directories: Vec<FilePath> },
    /// The torrent is forgotten
    Removed,
    /// The message is answered with an error
    Refused(StorageError),
    /// These runs are to be read, and make up the block where they are all of it
    Read { cache: Arc<TorrentCache>, segments: Vec<Segment>, complete: bool },
    /// These runs of the data are to be written, and are all of it or not
    Write { cache: Arc<TorrentCache>, segments: Vec<Segment>, complete: bool, data: Vec<u8> },
    /// The piece is the right one or not
    Verified(bool),
}

/// Decides what is to be done about each message.
#[derive(Debug)]
pub struct StorageManager {
    pub storage: StorageState,
}

/// Whether data is what a torrent's metadata says of a piece.
pub open spec fn piece_is_right(meta: Info, piece: u32, data: Seq<u8>) -> bool {
    sha1_digest(data) == meta.pieces@[piece as int]@
}

impl StorageManager {
    /// A manager of a storage that knows no torrent
    pub fn new(download_dir: FilePath) -> (r: Self)
        ensures
            r.storage.wf(),
            r.storage.download_dir == download_dir,
            r.storage.torrents@ == Seq::<(InfoHash, Arc<TorrentCache>)>::empty(),
    {
        StorageManager { storage: StorageState::new(download_dir) }
    }

    /// Whether a piece has the right hash
    pub fn verify(cache: &TorrentCache, piece: u32, data: &[u8]) -> (r: Result<bool, StorageError>)
        ensures
            match r {
                Ok(right) => {
                    &&& piece < cache.metainfo.pieces.len()
                    &&& right == piece_is_right(*cache.metainfo, piece, data@)
                    &&& right == (sha1_digest(data@) == cache.metainfo.pieces@[piece as int]@)
                },
                Err(e) => e == StorageError::PieceNotFound(piece) && piece
                    >= cache.metainfo.pieces.len(),
            },
    {
        match cache.metainfo.get_piece_hash(piece as usize) {
            None => Err(StorageError::PieceNotFound(piece)),
            Some(expected) => {
                let piece_hash: [u8; 20] = sha1(data);
                Ok(same_bytes(piece_hash.as_slice(), expected.as_slice()))
            },
        }
    }

    /// Whether the place that a message speaks of can be counted
    pub fn accepts(&self, msg: &StorageMessage) -> (r: bool)
        requires
            self.storage.wf(),
        ensures
            r == self.storage.admits(*msg),
    {
        match msg {
            StorageMessage::Read { id, piece_index, begin, .. } => match self.storage.get_torrent(
                id,
            ) {
                Some(cache) => cache.has_place(*piece_index, *begin),
                None => true,
            },
            StorageMessage::Write { info_hash, piece, .. } => match self.storage.get_torrent(
                info_hash,
            ) {
                Some(cache) => cache.has_place(*piece, 0),
                None => true,
            },
            _ => true,
        }
    }

    /// Decides what is to be done about a message
    pub fn handle(&mut self, msg: StorageMessage) -> (r: StorageAction)
        requires
            old(self).storage.wf(),
            old(self).storage.admits(msg),
        ensures
            final(self).storage.wf(),
            final(self).storage.download_dir == old(self).storage.download_dir,
            match msg {
                StorageMessage::AddTorrent { info_hash, meta } => {
                    &&& exists|cache: Arc<TorrentCache>|
                        cache.keeps(meta) && final(self).storage.torrents@
                            == #[trigger] without_torrent(
                            old(self).storage.torrents@,
                            info_hash@,
                        ).push((info_hash, cache))
                    &&& r matches StorageAction::Registered { directories } && path_texts(
                        directories@,
                    ) == directories_of(
                        pushed(old(self).storage.download_dir@, meta.says().mode.name()),
                        meta.says().mode.files(),
                        meta.says().mode.files().len() as int,
                    )
                },
                StorageMessage::RemoveTorrent { id } => {
                    &&& final(self).storage.torrents@ == without_torrent(
                        old(self).storage.torrents@,
                        id@,
                    )
                    &&& r is Removed
                },
                StorageMessage::Read { id, piece_index, begin, length } => {
                    &&& final(self).storage.torrents@ == old(self).storage.torrents@
                    &&& match known_torrent(old(self).storage.torrents@, id@) {
                        None => r == StorageAction::Refused(StorageError::TorrentNotFound(id)),
                        Some(c) => r matches StorageAction::Read { cache, segments, complete } && {
                            let offset = c.offset(piece_index, begin as int);
                            &&& cache == c
                            &&& segments@ == segments_of(lengths(file_views(c.files@)), offset, length as int)
                            &&& complete == has_room(lengths(file_views(c.files@)), offset, length as int)
                        },
                    }
                },
                StorageMessage::Write { info_hash, piece, data } => {
                    &&& final(self).storage.torrents@ == old(self).storage.torrents@
                    &&& match known_torrent(old(self).storage.torrents@, info_hash@) {
                        None => r == StorageAction::Refused(
                            StorageError::TorrentNotFound(info_hash),
                        ),
                        Some(c) => r matches StorageAction::Write {
                            cache,
                            segments,
                            complete,
                            data: d,
                        } && {
                            let offset = c.offset(piece, 0);
                            let n = data@.len() as int;
                            &&& cache == c
                            &&& d == data
                            &&& segments@ == segments_of(lengths(file_views(c.files@)), offset, n)
                            &&& complete == has_room(lengths(file_views(c.files@)), offset, n)
                        },
                    }
                },
                StorageMessage::Verify { info_hash, piece, data } => {
                    &&& final(self).storage.torrents@ == old(self).storage.torrents@
                    &&& match known_torrent(old(self).storage.torrents@, info_hash@) {
                        None => r == StorageAction::Refused(
                            StorageError::TorrentNotFound(info_hash),
                        ),
                        Some(c) => {
                            &&& r == if piece < c.metainfo.pieces.len() {
                                StorageAction::Verified(piece_is_right(*c.metainfo, piece, data@))
                            } else {
                                StorageAction::Refused(StorageError::PieceNotFound(piece))
                            }
                            &&& piece < c.metainfo.pieces.len() ==> r == StorageAction::Verified(
                                sha1_digest(data@) == c.metainfo.pieces@[piece as int]@,
                            )
                        },
                    }
                },
            },
    {
        match msg {
            StorageMessage::AddTorrent { info_hash, meta } => {
                let directories = self.storage.add_torrent(info_hash, meta);
                StorageAction::Registered { directories }
            },
            StorageMessage::RemoveTorrent { id } => {
                self.storage.remove_torrent(&id);
                StorageAction::Removed
            },
            StorageMessage::Read { id, piece_index, begin, length } => {
                match self.storage.get_torrent(&id) {
                    None => StorageAction::Refused(StorageError::TorrentNotFound(id)),
                    Some(cache) => {
                        let (segments, complete) = StorageState::read(
                            &cache,
                            piece_index,
                            begin,
                            length,
                        );
                        StorageAction::Read { cache, segments, complete }
                    },
                }
            },
            StorageMessage::Write { info_hash, piece, data } => {
                match self.storage.get_torrent(&info_hash) {
                    None => StorageAction::Refused(StorageError::TorrentNotFound(info_hash)),
                    Some(cache) => {
                        let (segments, complete) = StorageState::write(&cache, piece, data.len());
                        StorageAction::Write { cache, segments, complete, data }
                    },
                }
            },
            StorageMessage::Verify { info_hash, piece, data } => {
                match self.storage.get_torrent(&info_hash) {
                    None => StorageAction::Refused(StorageError::TorrentNotFound(info_hash)),
                    Some(cache) => match Self::verify(&cache, piece, data.as_slice()) {
                        Ok(right) => StorageAction::Verified(right),
                        Err(e) => StorageAction::Refused(e),
                    },
                }
            },
        }
    }
}

} // verus!
