//! Where the bytes of a torrent lie in its files.

use crate::metainfo::{file_views, FileInfo, FileView};
use vstd::prelude::*;

verus! {

/// A run of bytes that lies in one file: the file's number, where the run starts in the file,
/// where it starts in the data, and its length.
#[derive(Debug, Clone, Copy, PartialEq, Eq, Structural)]
pub struct Segment {
    pub file: usize,
    pub start: usize,
    pub at: usize,
    pub len: usize,
}

/// The lengths of files.
pub open spec fn lengths(files: Seq<FileView>) -> Seq<int> {
    Seq::new(files.len(), |i: int| (files[i].length as usize) as int)
}

/// The number of bytes in the files from `i` on.
pub open spec fn room(lens: Seq<int>, i: int) -> int
    decreases lens.len() - i,
{
    if i < 0 || i >= lens.len() {
        0
    } else {
        lens[i] + room(lens, i + 1)
    }
}

/// The runs that `left` bytes fall into, the first of them lying `offset` bytes behind the start
/// of file `i` and `at` bytes behind the start of the data.
pub open spec fn runs(lens: Seq<int>, i: int, offset: int, at: int, left: int) -> Seq<Segment>
    decreases lens.len() - i,
{
    if i < 0 || i >= lens.len() {
        Seq::empty()
    } else if offset >= lens[i] {
        runs(lens, i + 1, offset - lens[i], at, left)
    } else {
        let n = if lens[i] - offset < left {
            lens[i] - offset
        } else {
            left
        };
        let first = Segment {
            file: i as usize,
            start: offset as usize,
            at: at as usize,
            len: n as usize,
        };
        if left - n == 0 {
            seq![first]
        } else {
            seq![first] + runs(lens, i + 1, 0, at + n, left - n)
        }
    }
}

/// The runs that a piece of data falls into.
pub open spec fn segments_of(lens: Seq<int>, offset: int, len: int) -> Seq<Segment> {
    runs(lens, 0, offset, 0, len)
}

/// Whether the files have room for data at an offset.
pub open spec fn has_room(lens: Seq<int>, offset: int, len: int) -> bool {
    len == 0 || offset + len <= room(lens, 0)
}

proof fn room_grows(lens: Seq<int>, i: int)
    requires
        0 <= i,
        forall|k: int| 0 <= k < lens.len() ==> #[trigger] lens[k] >= 0,
    ensures
        room(lens, i) >= 0,
    decreases lens.len() - i,
{
    if i < lens.len() {
        room_grows(lens, i + 1);
    }
}

/// Splits `len` bytes, the first of them `offset` bytes behind the start of the first file, into
/// runs; says whether the files have room for all of them
pub fn split(files: &Vec<FileInfo>, offset: usize, len: usize) -> (r: (Vec<Segment>, bool))
    ensures
        r.0@ == segments_of(lengths(file_views(files@)), offset as int, len as int),
        r.1 == has_room(lengths(file_views(files@)), offset as int, len as int),
{
    let ghost lens = lengths(file_views(files@));
    let ghost all = segments_of(lens, offset as int, len as int);
    let mut segments: Vec<Segment> = Vec::new();
    let mut global_offset: usize = offset;
    let mut done: usize = 0;
    let mut i: usize = 0;
    proof {
        assert(segments@ + all =~= all);
        room_grows(lens, 0);
    }
    while i < files.len()
        invariant
            i <= files.len(),
            done <= len,
            len == 0 || done < len,
            lens == lengths(file_views(files@)),
            all == segments_of(lens, offset as int, len as int),
            all == segments@ + runs(lens, i as int, global_offset as int, done as int, len - done),
            offset + len <= room(lens, 0) <==> global_offset + (len - done) <= room(lens, i as int),
            forall|k: int| 0 <= k < lens.len() ==> #[trigger] lens[k] >= 0,
        decreases files.len() - i,
    {
        let file_len: usize = files[i].length as usize;
        assert(lens[i as int] == file_len) by {
            assert(file_views(files@)[i as int].length == files@[i as int].length);
        }
        proof {
            room_grows(lens, i + 1);
        }
        if global_offset >= file_len {
            global_offset = global_offset - file_len;
        } else {
            let available: usize = file_len - global_offset;
            let left: usize = len - done;
            let n: usize = if available < left {
                available
            } else {
                left
            };
            let seg = Segment { file: i, start: global_offset, at: done, len: n };
            let ghost before = segments@;
            segments.push(seg);
            if n == left {
                proof {
                    assert(before + seq![seg] =~= segments@);
                }
                return (segments, true);
            }
            proof {
                let rest = runs(lens, i + 1, 0, done + n, left - n);
                assert(before + (seq![seg] + rest) =~= segments@ + rest);
            }
            done = done + n;
            global_offset = 0;
        }
        i = i + 1;
    }
    proof {
        assert(segments@ + Seq::<Segment>::empty() =~= segments@);
    }
    (segments, len == done)
}

// ---------------------------------------------------------------------------------------------
// What files hold

/// What files hold: the byte at a position of a file.
pub type Disk = spec_fn(int, int) -> u8;

/// What files hold after the first `n` runs of some data were written to them.
pub open spec fn stored(disk: Disk, segs: Seq<Segment>, data: Seq<u8>, n: int) -> Disk
    decreases n,
{
    if n <= 0 || n > segs.len() {
        disk
    } else {
        let s = segs[n - 1];
        let before = stored(disk, segs, data, n - 1);
        |file: int, pos: int|
            if file == s.file && s.start <= pos < s.start + s.len {
                data[s.at + (pos - s.start)]
            } else {
                before(file, pos)
            }
    }
}

/// Byte `k` of what the first `n` runs read from files, zero where no run reaches.
pub open spec fn fetched_byte(disk: Disk, segs: Seq<Segment>, k: int, n: int) -> u8
    decreases n,
{
    if n <= 0 || n > segs.len() {
        0
    } else {
        let s = segs[n - 1];
        if s.at <= k < s.at + s.len {
            disk(s.file as int, s.start + (k - s.at))
        } else {
            fetched_byte(disk, segs, k, n - 1)
        }
    }
}

/// What runs read from files.
pub open spec fn fetched(disk: Disk, segs: Seq<Segment>, len: nat) -> Seq<u8> {
    Seq::new(len, |k: int| fetched_byte(disk, segs, k, segs.len() as int))
}

/// Where byte `g` behind the start of file `i` lies.
pub open spec fn place(lens: Seq<int>, g: int, i: int) -> Option<(int, int)>
    decreases lens.len() - i,
{
    if i < 0 || i >= lens.len() {
        None
    } else if g >= lens[i] {
        place(lens, g - lens[i], i + 1)
    } else {
        Some((i, g))
    }
}

proof fn place_exists(lens: Seq<int>, g: int, i: int)
    requires
        0 <= i,
        0 <= g < room(lens, i),
    ensures
        place(lens, g, i) is Some,
        (place(lens, g, i)->0).0 >= i,
        (place(lens, g, i)->0).1 >= 0,
    decreases lens.len() - i,
{
    if i < lens.len() && g >= lens[i] {
        place_exists(lens, g - lens[i], i + 1);
    }
}

/// No two bytes of a torrent lie at the same place.
pub proof fn places_differ(lens: Seq<int>, g: int, h: int, i: int)
    requires
        0 <= i,
        0 <= g < h,
        place(lens, h, i) is Some,
    ensures
        place(lens, g, i) != place(lens, h, i),
    decreases lens.len() - i,
{
    if i < lens.len() {
        if g >= lens[i] {
            places_differ(lens, g - lens[i], h - lens[i], i + 1);
        } else if h >= lens[i] {
            place_at_or_behind(lens, h - lens[i], i + 1);
        }
    }
}

proof fn place_at_or_behind(lens: Seq<int>, g: int, i: int)
    ensures
        place(lens, g, i) matches Some(p) ==> p.0 >= i,
    decreases lens.len() - i,
{
    if 0 <= i < lens.len() && g >= lens[i] {
        place_at_or_behind(lens, g - lens[i], i + 1);
    }
}

/// How many bytes the first `i` files hold.
pub open spec fn bytes_before(lens: Seq<int>, i: int) -> int {
    lens.take(i).fold_left(0, |sum: int, len: int| sum + len)
}

proof fn bytes_before_next(lens: Seq<int>, i: int)
    requires
        0 <= i < lens.len(),
    ensures
        bytes_before(lens, i + 1) == bytes_before(lens, i) + lens[i],
        bytes_before(lens, 0) == 0,
{
    let f = |sum: int, len: int| sum + len;
    reveal_with_fuel(Seq::fold_left, 2);
    assert(lens.take(i + 1).drop_last() =~= lens.take(i));
    assert(lens.take(i + 1).last() == lens[i]);
    assert(lens.take(0).len() == 0);
}

proof fn bytes_before_grow(lens: Seq<int>, i: int, j: int)
    requires
        forall|k: int| 0 <= k < lens.len() ==> 0 <= #[trigger] lens[k],
        0 <= i <= j <= lens.len(),
    ensures
        bytes_before(lens, i) <= bytes_before(lens, j),
    decreases j - i,
{
    if i < j {
        bytes_before_grow(lens, i, j - 1);
        bytes_before_next(lens, j - 1);
    }
}

proof fn place_from(lens: Seq<int>, g: int, i: int)
    requires
        forall|k: int| 0 <= k < lens.len() ==> 0 <= #[trigger] lens[k],
        0 <= i <= lens.len(),
        0 <= g,
    ensures
        place(lens, g, i) matches Some(p) ==> i <= p.0 < lens.len() && 0 <= p.1 < lens[p.0]
            && bytes_before(lens, i) + g == bytes_before(lens, p.0) + p.1,
        place(lens, g, i) is None ==> bytes_before(lens, i) + g >= bytes_before(
            lens,
            lens.len() as int,
        ),
    decreases lens.len() - i,
{
    if i < lens.len() {
        bytes_before_next(lens, i);
        if g >= lens[i] {
            place_from(lens, g - lens[i], i + 1);
        }
    }
}

/// The bytes of a torrent lie in its files one behind the other: a byte lies in a file at a position
/// exactly when that position is within the file and as many bytes come before it as the files
/// before hold and the position says.
pub proof fn bytes_lie_one_behind_the_other(lens: Seq<int>, g: int, file: int, pos: int)
    requires
        forall|k: int| 0 <= k < lens.len() ==> 0 <= #[trigger] lens[k],
        0 <= g,
    ensures
        place(lens, g, 0) == Some((file, pos)) <==> 0 <= file < lens.len() && 0 <= pos < lens[file]
            && g == bytes_before(lens, file) + pos,
        place(lens, g, 0) is None <==> g >= bytes_before(lens, lens.len() as int),
{
    place_from(lens, g, 0);
    if lens.len() > 0 {
        bytes_before_next(lens, 0);
    } else {
        assert(lens.take(0).len() == 0);
        reveal_with_fuel(Seq::fold_left, 1);
    }
    if let Some(p) = place(lens, g, 0) {
        bytes_before_next(lens, p.0);
        bytes_before_grow(lens, p.0 + 1, lens.len() as int);
        if 0 <= file < lens.len() && 0 <= pos < lens[file] && g == bytes_before(lens, file) + pos {
            bytes_before_next(lens, file);
            if file < p.0 {
                bytes_before_grow(lens, file + 1, p.0);
            } else if p.0 < file {
                bytes_before_grow(lens, p.0 + 1, file);
            }
        }
    } else if 0 <= file < lens.len() && 0 <= pos < lens[file] && g == bytes_before(lens, file)
        + pos {
        bytes_before_next(lens, file);
        bytes_before_grow(lens, file + 1, lens.len() as int);
    }
}

/// Whether byte `j` of a run lies at its place, the run's first byte lying `from` bytes behind the
/// start of file `i`.
pub open spec fn byte_right(lens: Seq<int>, i: int, from: int, s: Segment, j: int) -> bool {
    place(lens, from + j, i) == Some((s.file as int, s.start + j))
}

/// Whether each byte of a run lies at its place.
pub open spec fn run_right(lens: Seq<int>, i: int, from: int, s: Segment) -> bool {
    forall|j: int| 0 <= j < s.len ==> #[trigger] byte_right(lens, i, from, s, j)
}

/// Whether a run holds byte `y` of the data.
pub open spec fn covered(segs: Seq<Segment>, n: int, y: int) -> bool {
    exists|k: int| 0 <= k < n && (#[trigger] segs[k]).at <= y < segs[k].at + segs[k].len
}

/// The runs lie within the data, each of their bytes lies at its place, and they hold all bytes
/// that the files have room for.
proof fn runs_lie_right(lens: Seq<int>, i: int, offset: int, at: int, left: int)
    requires
        0 <= i,
        lens.len() <= usize::MAX,
        0 <= offset,
        0 <= at,
        0 <= left,
        at + left <= usize::MAX,
        forall|k: int| 0 <= k < lens.len() ==> 0 <= #[trigger] lens[k] <= usize::MAX,
    ensures
        ({
            let r = runs(lens, i, offset, at, left);
            &&& forall|k: int|
                0 <= k < r.len() ==> {
                    let s = #[trigger] r[k];
                    &&& at <= s.at
                    &&& s.at + s.len <= at + left
                    &&& run_right(lens, i, offset + (s.at - at), s)
                }
            &&& forall|y: int|
                at <= y < at + left && offset + (y - at) < room(lens, i) ==> #[trigger] covered(
                    r,
                    r.len() as int,
                    y,
                )
        }),
    decreases lens.len() - i,
{
    if i < lens.len() {
        let r = runs(lens, i, offset, at, left);
        if offset >= lens[i] {
            runs_lie_right(lens, i + 1, offset - lens[i], at, left);
            let same = runs(lens, i + 1, offset - lens[i], at, left);
            assert(r == same);
            assert forall|k: int| 0 <= k < r.len() implies {
                let s = #[trigger] r[k];
                &&& at <= s.at
                &&& s.at + s.len <= at + left
                &&& run_right(lens, i, offset + (s.at - at), s)
            } by {
                let s = same[k];
                assert forall|j: int| 0 <= j < s.len implies #[trigger] byte_right(
                    lens,
                    i,
                    offset + (s.at - at),
                    s,
                    j,
                ) by {
                    assert(byte_right(lens, i + 1, (offset - lens[i]) + (s.at - at), s, j));
                }
            }
        } else {
            let n = if lens[i] - offset < left {
                lens[i] - offset
            } else {
                left
            };
            if left - n > 0 {
                runs_lie_right(lens, i + 1, 0, at + n, left - n);
                let rest = runs(lens, i + 1, 0, at + n, left - n);
                assert forall|k: int| 0 <= k < r.len() implies {
                    let s = #[trigger] r[k];
                    &&& at <= s.at
                    &&& s.at + s.len <= at + left
                    &&& run_right(lens, i, offset + (s.at - at), s)
                } by {
                    let s = r[k];
                    assert forall|j: int| 0 <= j < s.len implies #[trigger] byte_right(
                        lens,
                        i,
                        offset + (s.at - at),
                        s,
                        j,
                    ) by {
                        if k > 0 {
                            assert(s == rest[k - 1]);
                            assert(byte_right(lens, i + 1, 0 + (s.at - (at + n)), s, j));
                        }
                    }
                    if k > 0 {
                        assert(s == rest[k - 1]);
                    }
                }
                assert forall|y: int|
                    at <= y < at + left && offset + (y - at) < room(lens, i) implies #[trigger] covered(
                    r,
                    r.len() as int,
                    y,
                ) by {
                    if y < at + n {
                        assert(r[0].at <= y < r[0].at + r[0].len);
                    } else {
                        assert(covered(rest, rest.len() as int, y));
                        let k = choose|k: int|
                            0 <= k < rest.len() && (#[trigger] rest[k]).at <= y < rest[k].at
                                + rest[k].len;
                        assert(r[k + 1] == rest[k]);
                    }
                }
            } else {
                assert(r =~= seq![r[0]]);
                assert forall|k: int| 0 <= k < r.len() implies run_right(
                    lens,
                    i,
                    offset + ((#[trigger] r[k]).at - at),
                    r[k],
                ) by {
                    let s = r[k];
                    assert forall|j: int| 0 <= j < s.len implies #[trigger] byte_right(
                        lens,
                        i,
                        offset + (s.at - at),
                        s,
                        j,
                    ) by {}
                }
                assert forall|y: int|
                    at <= y < at + left && offset + (y - at) < room(lens, i) implies #[trigger] covered(
                    r,
                    r.len() as int,
                    y,
                ) by {
                    assert(r[0].at <= y < r[0].at + r[0].len);
                }
            }
        }
    }
}

/// A byte of data that was written lies at its place.
proof fn stored_byte(
    lens: Seq<int>,
    disk: Disk,
    segs: Seq<Segment>,
    offset: int,
    data: Seq<u8>,
    x: int,
    n: int,
)
    requires
        0 <= n <= segs.len(),
        0 <= offset,
        0 <= x < data.len(),
        place(lens, offset + x, 0) is Some,
        forall|k: int|
            0 <= k < segs.len() ==> (#[trigger] segs[k]).at + segs[k].len <= data.len()
                && run_right(lens, 0, offset + segs[k].at, segs[k]),
        covered(segs, n, x),
    ensures
        ({
            let p = place(lens, offset + x, 0)->0;
            stored(disk, segs, data, n)(p.0, p.1) == data[x]
        }),
    decreases n,
{
    let p = place(lens, offset + x, 0)->0;
    let s = segs[n - 1];
    if p.0 == s.file && s.start <= p.1 < s.start + s.len {
        let j = p.1 - s.start;
        assert(byte_right(lens, 0, offset + s.at, s, j));
        if s.at + j < x {
            places_differ(lens, offset + s.at + j, offset + x, 0);
        } else if x < s.at + j {
            places_differ(lens, offset + x, offset + s.at + j, 0);
        }
    } else {
        let k = choose|k: int|
            0 <= k < n && (#[trigger] segs[k]).at <= x < segs[k].at + segs[k].len;
        if k == n - 1 {
            let j = x - s.at;
            assert(byte_right(lens, 0, offset + s.at, s, j));
            assert(offset + s.at + j == offset + x);
        } else {
            stored_byte(lens, disk, segs, offset, data, x, n - 1);
        }
    }
}

/// A byte that is read is the one at its place.
proof fn fetched_place(lens: Seq<int>, disk: Disk, segs: Seq<Segment>, offset: int, x: int, n: int)
    requires
        0 <= n <= segs.len(),
        forall|k: int|
            0 <= k < segs.len() ==> run_right(
                lens,
                0,
                offset + (#[trigger] segs[k]).at,
                segs[k],
            ),
        covered(segs, n, x),
    ensures
        place(lens, offset + x, 0) is Some,
        ({
            let p = place(lens, offset + x, 0)->0;
            fetched_byte(disk, segs, x, n) == disk(p.0, p.1)
        }),
    decreases n,
{
    let s = segs[n - 1];
    if s.at <= x < s.at + s.len {
        let j = x - s.at;
        assert(byte_right(lens, 0, offset + s.at, s, j));
        assert(offset + s.at + j == offset + x);
    } else {
        fetched_place(lens, disk, segs, offset, x, n - 1);
    }
}

proof fn segments_lie_right(lens: Seq<int>, offset: int, len: int)
    requires
        lens.len() <= usize::MAX,
        0 <= offset,
        0 <= len <= usize::MAX,
        forall|k: int| 0 <= k < lens.len() ==> 0 <= #[trigger] lens[k] <= usize::MAX,
    ensures
        ({
            let r = segments_of(lens, offset, len);
            &&& forall|k: int|
                0 <= k < r.len() ==> (#[trigger] r[k]).at + r[k].len <= len && run_right(
                    lens,
                    0,
                    offset + r[k].at,
                    r[k],
                )
            &&& has_room(lens, offset, len) ==> forall|y: int|
                0 <= y < len ==> #[trigger] covered(r, r.len() as int, y)
        }),
{
    runs_lie_right(lens, 0, offset, 0, len);
    let r = segments_of(lens, offset, len);
    assert forall|k: int| 0 <= k < r.len() implies (#[trigger] r[k]).at + r[k].len <= len
        && run_right(lens, 0, offset + r[k].at, r[k]) by {
        let s = r[k];
        assert(offset + (s.at - 0) == offset + s.at);
    }
}

/// What was written is read back: after data was written at an offset, any part of it that is
/// read at its own offset is that part of the data, whatever the files held before and however
/// the data is spread over them.
pub proof fn written_data_is_read_back(
    lens: Seq<int>,
    disk: Disk,
    offset: int,
    data: Seq<u8>,
    from: int,
    len: int,
)
    requires
        lens.len() <= usize::MAX,
        forall|k: int| 0 <= k < lens.len() ==> 0 <= #[trigger] lens[k] <= usize::MAX,
        0 <= offset,
        data.len() <= usize::MAX,
        has_room(lens, offset, data.len() as int),
        0 <= from,
        0 <= len,
        from + len <= data.len(),
    ensures
        ({
            let out = segments_of(lens, offset, data.len() as int);
            let back = segments_of(lens, offset + from, len);
            let disk2 = stored(disk, out, data, out.len() as int);
            fetched(disk2, back, len as nat) == data.subrange(from, from + len)
        }),
{
    let out = segments_of(lens, offset, data.len() as int);
    let back = segments_of(lens, offset + from, len);
    let disk2 = stored(disk, out, data, out.len() as int);
    segments_lie_right(lens, offset, data.len() as int);
    segments_lie_right(lens, offset + from, len);
    let read = fetched(disk2, back, len as nat);
    assert forall|x: int| 0 <= x < len implies #[trigger] read[x] == data[from + x] by {
        assert(covered(back, back.len() as int, x));
        fetched_place(lens, disk2, back, offset + from, x, back.len() as int);
        assert(offset + from + x == offset + (from + x));
        let y = from + x;
        assert(covered(out, out.len() as int, y));
        stored_byte(lens, disk, out, offset, data, y, out.len() as int);
    }
    assert(read =~= data.subrange(from, from + len));
}

/// Byte `g` of the files joined one behind the other, zero behind the last of them.
pub open spec fn joined_byte(lens: Seq<int>, disk: Disk, g: int) -> u8 {
    match place(lens, g, 0) {
        Some(p) => disk(p.0, p.1),
        None => 0,
    }
}

/// The `len` bytes from byte `offset` on of the files joined one behind the other.
pub open spec fn joined_part(lens: Seq<int>, disk: Disk, offset: int, len: nat) -> Seq<u8> {
    Seq::new(len, |k: int| joined_byte(lens, disk, offset + k))
}

proof fn place_within_room(lens: Seq<int>, g: int, i: int)
    requires
        0 <= i,
        forall|k: int| 0 <= k < lens.len() ==> 0 <= #[trigger] lens[k],
        g >= room(lens, i),
    ensures
        place(lens, g, i) is None,
    decreases lens.len() - i,
{
    if i < lens.len() {
        room_grows(lens, i + 1);
        place_within_room(lens, g - lens[i], i + 1);
    }
}

proof fn fetched_nothing(disk: Disk, segs: Seq<Segment>, x: int, n: int)
    requires
        0 <= n <= segs.len(),
        !covered(segs, n, x),
    ensures
        fetched_byte(disk, segs, x, n) == 0,
    decreases n,
{
    if n > 0 {
        assert(!(segs[n - 1].at <= x < segs[n - 1].at + segs[n - 1].len));
        assert(!covered(segs, n - 1, x));
        fetched_nothing(disk, segs, x, n - 1);
    }
}

/// What is read at an offset is that part of the files joined one behind the other.
pub proof fn runs_read_joined_files(lens: Seq<int>, disk: Disk, offset: int, len: int)
    requires
        lens.len() <= usize::MAX,
        forall|k: int| 0 <= k < lens.len() ==> 0 <= #[trigger] lens[k] <= usize::MAX,
        0 <= offset,
        0 <= len <= usize::MAX,
    ensures
        fetched(disk, segments_of(lens, offset, len), len as nat) == joined_part(
            lens,
            disk,
            offset,
            len as nat,
        ),
{
    let segs = segments_of(lens, offset, len);
    let n = segs.len() as int;
    segments_lie_right(lens, offset, len);
    runs_lie_right(lens, 0, offset, 0, len);
    let read = fetched(disk, segs, len as nat);
    let part = joined_part(lens, disk, offset, len as nat);
    assert forall|x: int| 0 <= x < len implies #[trigger] read[x] == part[x] by {
        if offset + x < room(lens, 0) {
            assert(offset + (x - 0) < room(lens, 0));
            assert(covered(segs, n, x));
            fetched_place(lens, disk, segs, offset, x, n);
        } else {
            place_within_room(lens, offset + x, 0);
            if covered(segs, n, x) {
                fetched_place(lens, disk, segs, offset, x, n);
            }
            fetched_nothing(disk, segs, x, n);
        }
    }
    assert(read =~= part);
}

/// A byte that lies before or behind the data is left as it was.
proof fn stored_elsewhere(
    lens: Seq<int>,
    disk: Disk,
    segs: Seq<Segment>,
    offset: int,
    data: Seq<u8>,
    g: int,
    n: int,
)
    requires
        0 <= n <= segs.len(),
        0 <= offset,
        0 <= g,
        g < offset || g >= offset + data.len(),
        place(lens, g, 0) is Some,
        forall|k: int|
            0 <= k < segs.len() ==> (#[trigger] segs[k]).at + segs[k].len <= data.len()
                && run_right(lens, 0, offset + segs[k].at, segs[k]),
    ensures
        ({
            let p = place(lens, g, 0)->0;
            stored(disk, segs, data, n)(p.0, p.1) == disk(p.0, p.1)
        }),
    decreases n,
{
    if n > 0 {
        let p = place(lens, g, 0)->0;
        let s = segs[n - 1];
        stored_elsewhere(lens, disk, segs, offset, data, g, n - 1);
        if p.0 == s.file && s.start <= p.1 < s.start + s.len {
            let j = p.1 - s.start;
            assert(byte_right(lens, 0, offset + s.at, s, j));
            if g < offset {
                places_differ(lens, g, offset + s.at + j, 0);
            } else {
                places_differ(lens, offset + s.at + j, g, 0);
            }
        }
    }
}

/// Writing changes nothing else: what lies before or behind the data is read as before.
pub proof fn other_data_stays(
    lens: Seq<int>,
    disk: Disk,
    offset: int,
    data: Seq<u8>,
    other: int,
    len: int,
)
    requires
        lens.len() <= usize::MAX,
        forall|k: int| 0 <= k < lens.len() ==> 0 <= #[trigger] lens[k] <= usize::MAX,
        0 <= offset,
        data.len() <= usize::MAX,
        0 <= other,
        0 <= len <= usize::MAX,
        has_room(lens, other, len),
        other + len <= offset || offset + data.len() <= other,
    ensures
        ({
            let out = segments_of(lens, offset, data.len() as int);
            let back = segments_of(lens, other, len);
            let disk2 = stored(disk, out, data, out.len() as int);
            fetched(disk2, back, len as nat) == fetched(disk, back, len as nat)
        }),
{
    let out = segments_of(lens, offset, data.len() as int);
    let back = segments_of(lens, other, len);
    let disk2 = stored(disk, out, data, out.len() as int);
    segments_lie_right(lens, offset, data.len() as int);
    segments_lie_right(lens, other, len);
    let read = fetched(disk2, back, len as nat);
    let was = fetched(disk, back, len as nat);
    assert forall|x: int| 0 <= x < len implies #[trigger] read[x] == was[x] by {
        assert(covered(back, back.len() as int, x));
        fetched_place(lens, disk2, back, other, x, back.len() as int);
        fetched_place(lens, disk, back, other, x, back.len() as int);
        stored_elsewhere(lens, disk, out, offset, data, other + x, out.len() as int);
    }
    assert(read =~= was);
}

/// Each run lies within its file and within the data, and its bytes come where as many bytes lie
/// before them as the files before hold; and where there is room, the runs hold all of the data.
pub proof fn runs_hold_the_data(lens: Seq<int>, offset: int, len: int, k: int, y: int)
    requires
        lens.len() <= usize::MAX,
        forall|j: int| 0 <= j < lens.len() ==> 0 <= #[trigger] lens[j] <= usize::MAX,
        0 <= offset,
        0 <= len <= usize::MAX,
    ensures
        ({
            let r = segments_of(lens, offset, len);
            &&& 0 <= k < r.len() && r[k].len > 0 ==> {
                &&& r[k].file < lens.len()
                &&& r[k].start + r[k].len <= lens[r[k].file as int]
                &&& r[k].at + r[k].len <= len
                &&& offset + r[k].at == bytes_before(lens, r[k].file as int) + r[k].start
            }
            &&& 0 <= y < len && offset + len <= bytes_before(lens, lens.len() as int) ==> exists|j: int|
                0 <= j < r.len() && (#[trigger] r[j]).at <= y < r[j].at + r[j].len
        }),
{
    let r = segments_of(lens, offset, len);
    segments_lie_right(lens, offset, len);
    if 0 <= k < r.len() && r[k].len > 0 {
        let s = r[k];
        assert(run_right(lens, 0, offset + s.at, s));
        assert(byte_right(lens, 0, offset + s.at, s, 0));
        assert(byte_right(lens, 0, offset + s.at, s, s.len - 1));
        bytes_lie_one_behind_the_other(lens, offset + s.at, s.file as int, s.start as int);
        bytes_lie_one_behind_the_other(
            lens,
            offset + s.at + (s.len - 1),
            s.file as int,
            s.start + (s.len - 1),
        );
    }
    if 0 <= y < len && offset + len <= bytes_before(lens, lens.len() as int) {
        room_is_what_files_hold(lens, 0);
        if lens.len() > 0 {
            bytes_before_next(lens, 0);
        } else {
            assert(lens.take(0).len() == 0);
            reveal_with_fuel(Seq::fold_left, 1);
        }
        assert(has_room(lens, offset, len));
        assert(covered(r, r.len() as int, y));
    }
}

proof fn room_is_what_files_hold(lens: Seq<int>, i: int)
    requires
        0 <= i <= lens.len(),
    ensures
        room(lens, i) == bytes_before(lens, lens.len() as int) - bytes_before(lens, i),
    decreases lens.len() - i,
{
    if i < lens.len() {
        bytes_before_next(lens, i);
        room_is_what_files_hold(lens, i + 1);
    }
}

/// There is room for data exactly where there is none of it or the files reach as far as it does.
pub proof fn room_reaches_to_the_end(lens: Seq<int>, offset: int, len: int)
    ensures
        has_room(lens, offset, len) <==> len == 0 || offset + len <= bytes_before(
            lens,
            lens.len() as int,
        ),
{
    room_is_what_files_hold(lens, 0);
    if lens.len() > 0 {
        bytes_before_next(lens, 0);
    } else {
        assert(lens.take(0).len() == 0);
        reveal_with_fuel(Seq::fold_left, 1);
    }
}

} // verus!
