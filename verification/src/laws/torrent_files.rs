//! What torrent files and magnet links say.

use crate::bencode::{entry, Value};
use crate::magnet::{all_values, first_hash, first_value, topic_hash};
use crate::metainfo::{
    announce_list_field, bytes_field, distinct, file_of, files_field, files_from, flattened,
    info_of, int_field, opt_int_field, opt_text_field, path_from, piece_count, piece_span,
    pieces_of, sum_lengths, tier_from, tiers_from, torrent_of, ErrorView, FileView, InfoView,
    ModeView, TorrentView,
};
use crate::text::utf8_text;
use vstd::arithmetic::div_mod::*;
use vstd::prelude::*;
use vstd::string::*;
use vstd::utf8::*;

verus! {

/// There are as many pieces as hold all bytes, and with one less some bytes would have no place.
pub proof fn pieces_hold_the_torrent(total: int, piece_length: int)
    requires
        0 < piece_length,
        0 <= total,
        piece_count(total, piece_length) < usize::MAX,
    ensures
        piece_count(total, piece_length) * piece_length >= total,
        total > 0 ==> (piece_count(total, piece_length) - 1) * piece_length < total,
        total == 0 ==> piece_count(total, piece_length) == 0,
{
    let x = total + piece_length - 1;
    let n = x / piece_length;
    lemma_fundamental_div_mod(x, piece_length);
    lemma_mod_bound(x, piece_length);
    assert(n >= 0) by {
        lemma_div_pos_is_pos(x, piece_length);
    }
    assert(n * piece_length == piece_length * n) by (nonlinear_arith);
    assert((n - 1) * piece_length == n * piece_length - piece_length) by (nonlinear_arith);
    if total == 0 {
        lemma_basic_div(x, piece_length);
    }
}

/// Every piece is of the full length but one that reaches beyond the end, which holds what is left;
/// behind the end there is nothing.
pub proof fn pieces_are_full_but_the_last(total: int, piece_length: int, i: int)
    requires
        0 < piece_length <= u32::MAX,
        0 <= total,
        0 <= i,
    ensures
        (i + 1) * piece_length <= total ==> piece_span(total, piece_length, i) == piece_length,
        i * piece_length <= total < (i + 1) * piece_length ==> piece_span(total, piece_length, i)
            == total - i * piece_length,
        total <= i * piece_length ==> piece_span(total, piece_length, i) == 0,
{
    assert((i + 1) * piece_length == i * piece_length + piece_length) by (nonlinear_arith);
}

/// The size of a torrent is the lengths of its files, added up.
pub proof fn lengths_add_up(files: Seq<FileView>)
    ensures
        sum_lengths(files) == files.map_values(|f: FileView| f.length).fold_left(
            0int,
            |a: int, b: int| a + b,
        ),
    decreases files.len(),
{
    let length = |f: FileView| f.length;
    if files.len() > 0 {
        lengths_add_up(files.drop_last());
        assert(files.map_values(length).drop_last() =~= files.drop_last().map_values(length));
    }
}

/// The size of a torrent of one file is that of the file, and of one of many their sum; its name is
/// the one that is written.
pub proof fn size_is_that_of_the_files(
    name: Seq<char>,
    length: int,
    md5sum: Option<Seq<char>>,
    files: Seq<FileView>,
)
    ensures
        ({
            let one = ModeView::Single { name, length, md5sum };
            let many = ModeView::Multi { name, files };
            &&& one.total() == length && one.name() == name
            &&& one.files().len() == 1
            &&& one.files()[0].length == length && one.files()[0].path == name
            &&& many.total() == sum_lengths(files) && many.name() == name
            &&& many.files() == files
        }),
{
}

/// The hashes of the pieces stand one behind the other, twenty bytes each.
pub proof fn hashes_stand_one_behind_the_other(b: Seq<u8>, i: int, j: int)
    ensures
        b.len() % 20 != 0 <==> pieces_of(b) is Err,
        b.len() % 20 == 0 ==> {
            let p = pieces_of(b)->Ok_0;
            &&& 20 * p.len() == b.len()
            &&& 0 <= i < p.len() ==> p[i].len() == 20
            &&& 0 <= i < p.len() && 0 <= j < 20 ==> p[i][j] == b[20 * i + j]
        },
{
}

#[verifier::rlimit(60)]
proof fn files_are_read(l: Seq<Value>, i: int, acc: Seq<FileView>)
    requires
        0 <= i <= l.len(),
    ensures
        match files_from(l, i, acc) {
            Ok(r) => {
                &&& r.len() == acc.len() + l.len() - i
                &&& forall|k: int| 0 <= k < acc.len() ==> r[k] == acc[k]
                &&& forall|k: int|
                    i <= k < l.len() ==> file_of(#[trigger] l[k]) == Ok::<FileView, ErrorView>(
                        r[acc.len() + k - i],
                    )
            },
            Err(e) => exists|k: int|
                #![trigger l[k]]
                i <= k < l.len() && file_of(l[k]) == Err::<FileView, ErrorView>(e) && forall|j: int|
                    i <= j < k ==> file_of(#[trigger] l[j]) is Ok,
        },
    decreases l.len() - i,
{
    if i < l.len() {
        match file_of(l[i]) {
            Err(e) => {
                assert(file_of(l[i]) == Err::<FileView, ErrorView>(e));
            },
            Ok(f) => {
                files_are_read(l, i + 1, acc.push(f));
                match files_from(l, i, acc) {
                    Ok(r) => {
                        assert forall|k: int| 0 <= k < acc.len() implies r[k] == acc[k] by {
                            assert(r[k] == acc.push(f)[k]);
                        }
                        assert(r[acc.len() as int] == acc.push(f)[acc.len() as int]);
                    },
                    Err(e) => {
                        let k = choose|k: int|
                            #![trigger l[k]]
                            i + 1 <= k < l.len() && file_of(l[k]) == Err::<FileView, ErrorView>(e)
                                && forall|j: int| i + 1 <= j < k ==> file_of(#[trigger] l[j]) is Ok;
                        assert(file_of(l[k]) == Err::<FileView, ErrorView>(e));
                    },
                }
            },
        }
    }
}

/// Every entry of the list of files is kept, in its place.
#[verifier::rlimit(60)]
pub proof fn every_file_is_kept(d: Seq<(Seq<u8>, Value)>, l: Seq<Value>, k: int)
    requires
        entry(d, encode_utf8("files"@)) == Some(Value::List(l)),
        forall|i: int| 0 <= i < l.len() ==> file_of(#[trigger] l[i]) is Ok,
    ensures
        files_field(d) is Ok,
        files_field(d)->Ok_0.len() == l.len(),
        0 <= k < l.len() ==> files_field(d)->Ok_0[k] == file_of(l[k])->Ok_0,
{
    files_are_read(l, 0, Seq::empty());
    if 0 <= k < l.len() {
        assert(file_of(l[k]) is Ok);
    }
}

/// A list of files with a bad entry is refused for the first of them.
#[verifier::rlimit(60)]
pub proof fn first_bad_file_is_reported(d: Seq<(Seq<u8>, Value)>, l: Seq<Value>, k: int)
    requires
        entry(d, encode_utf8("files"@)) == Some(Value::List(l)),
        0 <= k < l.len(),
        file_of(l[k]) is Err,
        forall|i: int| 0 <= i < k ==> file_of(#[trigger] l[i]) is Ok,
    ensures
        files_field(d) == Err::<Seq<FileView>, ErrorView>(file_of(l[k])->Err_0),
{
    files_are_read(l, 0, Seq::empty());
    assert(file_of(l[k]) is Err);
    let e = files_from(l, 0, Seq::empty())->Err_0;
    let m = choose|m: int|
        #![trigger l[m]]
        0 <= m < l.len() && file_of(l[m]) == Err::<FileView, ErrorView>(e) && forall|j: int|
            0 <= j < m ==> file_of(#[trigger] l[j]) is Ok;
    assert(m == k);
}

/// An entry of a file says how long the file is and where it lies; one that lacks either is none.
pub proof fn file_says_length_and_path(d: Seq<(Seq<u8>, Value)>, n: int, l: Seq<Value>)
    ensures
        entry(d, encode_utf8("length"@)) == Some(Value::Int(n)) && entry(d, encode_utf8("path"@))
            == Some(Value::List(l)) && path_from(l, 0, Seq::empty()) is Ok ==> {
            &&& file_of(Value::Dict(d)) is Ok
            &&& file_of(Value::Dict(d))->Ok_0.length == n
            &&& file_of(Value::Dict(d))->Ok_0.path == path_from(l, 0, Seq::empty())->Ok_0
            &&& file_of(Value::Dict(d))->Ok_0.md5sum == opt_text_field(d, "md5sum"@)
        },
        entry(d, encode_utf8("length"@)) is None ==> file_of(Value::Dict(d)) is Err,
        entry(d, encode_utf8("path"@)) is None ==> file_of(Value::Dict(d)) is Err,
        path_from(l, 0, Seq::empty()) is Err && entry(d, encode_utf8("path"@)) == Some(
            Value::List(l),
        ) ==> file_of(Value::Dict(d)) is Err,
{
}

#[verifier::rlimit(60)]
proof fn urls_are_read(l: Seq<Value>, i: int, acc: Seq<Seq<char>>)
    requires
        0 <= i <= l.len(),
    ensures
        match tier_from(l, i, acc) {
            Ok(r) => {
                &&& r.len() == acc.len() + l.len() - i
                &&& forall|k: int| 0 <= k < acc.len() ==> r[k] == acc[k]
                &&& forall|k: int|
                    i <= k < l.len() ==> (#[trigger] l[k]) is Bytes && utf8_text(l[k]->Bytes_0)
                        == Some(r[acc.len() + k - i])
            },
            Err(e) => exists|k: int|
                #![trigger l[k]]
                i <= k < l.len() && !(l[k] is Bytes && utf8_text(l[k]->Bytes_0) is Some),
        },
    decreases l.len() - i,
{
    if i < l.len() && l[i] is Bytes && utf8_text(l[i]->Bytes_0) is Some {
        let t = utf8_text(l[i]->Bytes_0)->0;
        urls_are_read(l, i + 1, acc.push(t));
        match tier_from(l, i, acc) {
            Ok(r) => {
                assert forall|k: int| 0 <= k < acc.len() implies r[k] == acc[k] by {
                    assert(r[k] == acc.push(t)[k]);
                }
                assert(r[acc.len() as int] == acc.push(t)[acc.len() as int]);
            },
            Err(e) => {},
        }
    }
}

/// Every url of a tier is kept, in its place; a tier with something that is no text is refused.
pub proof fn every_url_of_a_tier_is_kept(l: Seq<Value>, k: int)
    ensures
        tier_from(l, 0, Seq::empty()) is Ok <==> forall|i: int|
            0 <= i < l.len() ==> (#[trigger] l[i]) is Bytes && utf8_text(l[i]->Bytes_0) is Some,
        tier_from(l, 0, Seq::empty()) is Ok ==> {
            let r = tier_from(l, 0, Seq::empty())->Ok_0;
            &&& r.len() == l.len()
            &&& 0 <= k < l.len() ==> utf8_text(l[k]->Bytes_0) == Some(r[k])
        },
{
    urls_are_read(l, 0, Seq::empty());
    if tier_from(l, 0, Seq::empty()) is Ok && 0 <= k < l.len() {
        assert(l[k] is Bytes);
    }
}

#[verifier::rlimit(60)]
proof fn tiers_are_read(l: Seq<Value>, i: int, acc: Seq<Seq<Seq<char>>>)
    requires
        0 <= i <= l.len(),
    ensures
        match tiers_from(l, i, acc) {
            Ok(r) => {
                &&& r.len() == acc.len() + l.len() - i
                &&& forall|k: int| 0 <= k < acc.len() ==> r[k] == acc[k]
                &&& forall|k: int|
                    i <= k < l.len() ==> (#[trigger] l[k]) is List && tier_from(
                        l[k]->List_0,
                        0,
                        Seq::empty(),
                    ) == Ok::<Seq<Seq<char>>, ErrorView>(r[acc.len() + k - i])
            },
            Err(e) => exists|k: int|
                #![trigger l[k]]
                i <= k < l.len() && !(l[k] is List && tier_from(l[k]->List_0, 0, Seq::empty()) is Ok),
        },
    decreases l.len() - i,
{
    if i < l.len() && l[i] is List && tier_from(l[i]->List_0, 0, Seq::empty()) is Ok {
        let t = tier_from(l[i]->List_0, 0, Seq::empty())->Ok_0;
        tiers_are_read(l, i + 1, acc.push(t));
        match tiers_from(l, i, acc) {
            Ok(r) => {
                assert forall|k: int| 0 <= k < acc.len() implies r[k] == acc[k] by {
                    assert(r[k] == acc.push(t)[k]);
                }
                assert(r[acc.len() as int] == acc.push(t)[acc.len() as int]);
            },
            Err(e) => {},
        }
    }
}

/// Every tier of trackers is kept, in its place; without a list of tiers there are none.
#[verifier::rlimit(60)]
pub proof fn every_tier_is_kept(d: Seq<(Seq<u8>, Value)>, l: Seq<Value>, k: int)
    ensures
        entry(d, encode_utf8("announce-list"@)) is None ==> announce_list_field(d) == Ok::<
            Option<Seq<Seq<Seq<char>>>>,
            ErrorView,
        >(None),
        entry(d, encode_utf8("announce-list"@)) == Some(Value::List(l)) && (forall|i: int|
            0 <= i < l.len() ==> (#[trigger] l[i]) is List && tier_from(
                l[i]->List_0,
                0,
                Seq::empty(),
            ) is Ok) ==> {
            &&& announce_list_field(d) is Ok && announce_list_field(d)->Ok_0 is Some
            &&& announce_list_field(d)->Ok_0->0.len() == l.len()
            &&& 0 <= k < l.len() ==> tier_from(l[k]->List_0, 0, Seq::empty()) == Ok::<
                Seq<Seq<char>>,
                ErrorView,
            >(announce_list_field(d)->Ok_0->0[k])
        },
{
    tiers_are_read(l, 0, Seq::empty());
    if 0 <= k < l.len() {
        let _ = l[k];
    }
}

/// An entry is found by its key, the first of those that have it, and no other is taken for it.
pub proof fn entry_is_found_by_its_key(d: Seq<(Seq<u8>, Value)>, key: Seq<u8>, k: int)
    ensures
        0 <= k < d.len() && d[k].0 == key && (forall|j: int|
            0 <= j < k ==> (#[trigger] d[j]).0 != key) ==> entry(d, key) == Some(d[k].1),
        (forall|j: int| 0 <= j < d.len() ==> (#[trigger] d[j]).0 != key) ==> entry(d, key) is None,
    decreases d.len(),
{
    if d.len() > 0 && d[0].0 != key {
        let rest = d.skip(1);
        entry_is_found_by_its_key(rest, key, k - 1);
        if 0 <= k < d.len() && d[k].0 == key && (forall|j: int|
            0 <= j < k ==> (#[trigger] d[j]).0 != key) {
            assert(rest[k - 1] == d[k]);
            assert forall|j: int| 0 <= j < k - 1 implies (#[trigger] rest[j]).0 != key by {
                assert(rest[j] == d[j + 1]);
            }
        }
        if forall|j: int| 0 <= j < d.len() ==> (#[trigger] d[j]).0 != key {
            assert forall|j: int| 0 <= j < rest.len() implies (#[trigger] rest[j]).0 != key by {
                assert(rest[j] == d[j + 1]);
            }
        }
    }
}

/// An info dictionary says the length of the pieces, their hashes, the name, and one file with its
/// length, or the files where it lists them.
#[verifier::rlimit(60)]
pub proof fn info_says_what_is_written(
    d: Seq<(Seq<u8>, Value)>,
    piece_length: int,
    pieces: Seq<u8>,
    name: Seq<u8>,
)
    requires
        entry(d, encode_utf8("piece length"@)) == Some(Value::Int(piece_length)),
        entry(d, encode_utf8("pieces"@)) == Some(Value::Bytes(pieces)),
        pieces.len() % 20 == 0,
        entry(d, encode_utf8("name"@)) == Some(Value::Bytes(name)),
        utf8_text(name) is Some,
    ensures
        ({
            let r = info_of(Value::Dict(d));
            let length = entry(d, encode_utf8("length"@));
            let files = entry(d, encode_utf8("files"@));
            &&& r is Ok ==> {
                let i = r->Ok_0;
                &&& i.piece_length == piece_length
                &&& i.pieces == pieces_of(pieces)->Ok_0
                &&& i.private == opt_int_field(d, "private"@)
                &&& i.mode.name() == utf8_text(name)->0
            }
            &&& files is None && length is Some && length->0 is Int ==> {
                &&& r is Ok && r->Ok_0.mode is Single
                &&& r->Ok_0.mode.total() == length->0->Int_0
            }
            &&& files is None && !(length is Some && length->0 is Int) ==> r is Err
            &&& files is Some && files_field(d) is Ok ==> {
                &&& r is Ok && r->Ok_0.mode is Multi
                &&& r->Ok_0.mode.files() == files_field(d)->Ok_0
            }
            &&& files is Some && files_field(d) is Err ==> r == Err::<InfoView, ErrorView>(
                files_field(d)->Err_0,
            )
        }),
{
}

/// Without the length of the pieces, their hashes or a name there is no info, and the error names
/// the field that is missing.
pub proof fn incomplete_info_is_refused(d: Seq<(Seq<u8>, Value)>)
    ensures
        entry(d, encode_utf8("piece length"@)) is None ==> info_of(Value::Dict(d)) == Err::<
            InfoView,
            ErrorView,
        >(ErrorView::MissingField("Key Ok(\""@ + "piece length"@ + "\") not found"@)),
        int_field(d, "piece length"@) is Ok && entry(d, encode_utf8("pieces"@)) is None ==> info_of(
            Value::Dict(d),
        ) == Err::<InfoView, ErrorView>(
            ErrorView::MissingField("Key Ok(\""@ + "pieces"@ + "\") not found"@),
        ),
        entry(d, encode_utf8("name"@)) is None ==> info_of(Value::Dict(d)) is Err,
{
}

/// A torrent file says its announce url, its info, its tiers and what else is known of it, and goes
/// by the hash of the info.
#[verifier::rlimit(60)]
pub proof fn torrent_says_what_is_written(d: Seq<(Seq<u8>, Value)>, announce: Seq<u8>, w: Value)
    requires
        entry(d, encode_utf8("announce"@)) == Some(Value::Bytes(announce)),
        utf8_text(announce) is Some,
        entry(d, encode_utf8("info"@)) == Some(w),
    ensures
        ({
            let r = torrent_of(Value::Dict(d));
            &&& info_of(w) is Ok && announce_list_field(d) is Ok <==> r is Ok
            &&& r is Ok ==> {
                let t = r->Ok_0;
                &&& t.announce == utf8_text(announce)->0
                &&& t.info == info_of(w)->Ok_0
                &&& t.announce_list == announce_list_field(d)->Ok_0
                &&& t.creation_date == opt_int_field(d, "creation date"@)
                &&& t.comment == opt_text_field(d, "comment"@)
                &&& t.created_by == opt_text_field(d, "created by"@)
                &&& t.encoding == opt_text_field(d, "encoding"@)
                &&& t.info_hash == crate::hashing::sha1_digest(crate::bencode::encoded(w))
            }
        }),
{
}

/// Fields are read as what they are: an integer as one, a text where its bytes are one, and what is
/// not there, or of another kind, as nothing.
pub proof fn fields_are_read_as_they_are(
    d: Seq<(Seq<u8>, Value)>,
    key: Seq<char>,
    n: int,
    b: Seq<u8>,
)
    ensures
        entry(d, encode_utf8(key)) == Some(Value::Int(n)) ==> opt_int_field(d, key) == Some(n)
            && int_field(d, key) == Ok::<int, ErrorView>(n) && opt_text_field(d, key) is None
            && bytes_field(d, key) is Err,
        entry(d, encode_utf8(key)) == Some(Value::Bytes(b)) ==> opt_text_field(d, key) == utf8_text(b)
            && bytes_field(d, key) == Ok::<Seq<u8>, ErrorView>(b) && opt_int_field(d, key) is None
            && int_field(d, key) is Err,
        entry(d, encode_utf8(key)) is None ==> opt_text_field(d, key) is None && opt_int_field(
            d,
            key,
        ) is None && bytes_field(d, key) is Err && int_field(d, key) is Err,
{
}

/// Repetitions are taken out and nothing else: what is left has the same texts, none twice, in the
/// order in which they came first.
pub proof fn repetitions_are_taken_out(l: Seq<Seq<char>>, x: Seq<char>, i: int, j: int)
    ensures
        distinct(l).contains(x) <==> l.contains(x),
        distinct(l).no_duplicates(),
        0 <= i < j < distinct(l).len() ==> exists|a: int, b: int|
            0 <= a < l.len() && 0 <= b < l.len() && a < b && #[trigger] l[a] == distinct(l)[i]
                && #[trigger] l[b] == distinct(l)[j],
    decreases l.len(),
{
    if l.len() > 0 {
        let m = l.drop_last();
        let d = distinct(m);
        repetitions_are_taken_out(m, x, i, j);
        repetitions_are_taken_out(m, l.last(), i, j);
        assert(m.push(l.last()) =~= l);
        if l.contains(x) {
            let k = choose|k: int| 0 <= k < l.len() && l[k] == x;
            if k < m.len() {
                assert(m[k] == x);
                let q = choose|q: int| 0 <= q < d.len() && d[q] == x;
                assert(distinct(l)[q] == x);
            } else {
                if !d.contains(x) {
                    assert(distinct(l)[d.len() as int] == x);
                }
            }
        }
        if distinct(l).contains(x) {
            let q = choose|q: int| 0 <= q < distinct(l).len() && distinct(l)[q] == x;
            if q < d.len() {
                assert(d[q] == x);
                let k = choose|k: int| 0 <= k < m.len() && m[k] == x;
                assert(l[k] == x);
            } else {
                assert(l[m.len() as int] == x);
            }
        }
        if 0 <= i < j < distinct(l).len() {
            if j < d.len() {
                let (a, b) = choose|a: int, b: int|
                    0 <= a < m.len() && 0 <= b < m.len() && a < b && #[trigger] m[a] == d[i]
                        && #[trigger] m[b] == d[j];
                assert(l[a] == distinct(l)[i] && l[b] == distinct(l)[j]);
            } else {
                repetitions_are_taken_out(m, d[i], i, j);
                assert(d.contains(d[i]));
                let a = choose|a: int| 0 <= a < m.len() && m[a] == d[i];
                assert(l[a] == distinct(l)[i] && l[m.len() as int] == distinct(l)[j]);
            }
        }
    }
}

proof fn tiers_hold_their_urls(l: Seq<Seq<Seq<char>>>, x: Seq<char>)
    ensures
        flattened(l).contains(x) <==> exists|k: int| 0 <= k < l.len() && (#[trigger] l[k]).contains(x),
    decreases l.len(),
{
    if l.len() > 0 {
        let m = l.drop_last();
        tiers_hold_their_urls(m, x);
        let f = flattened(m);
        let g = flattened(l);
        if g.contains(x) {
            let i = choose|i: int| 0 <= i < g.len() && g[i] == x;
            if i < f.len() {
                assert(f[i] == x);
                let k = choose|k: int| 0 <= k < m.len() && (#[trigger] m[k]).contains(x);
                assert(l[k].contains(x));
            } else {
                assert(l.last()[i - f.len()] == x);
                assert(l[l.len() - 1].contains(x));
            }
        }
        if exists|k: int| 0 <= k < l.len() && (#[trigger] l[k]).contains(x) {
            let k = choose|k: int| 0 <= k < l.len() && (#[trigger] l[k]).contains(x);
            if k < m.len() {
                assert(m[k].contains(x));
                let i = choose|i: int| 0 <= i < f.len() && f[i] == x;
                assert(g[i] == x);
            } else {
                let i = choose|i: int| 0 <= i < l[k].len() && l[k][i] == x;
                assert(g[f.len() + i] == x);
            }
        }
    }
}

proof fn first_stays_first(l: Seq<Seq<char>>)
    requires
        l.len() > 0,
    ensures
        distinct(l).len() > 0,
        distinct(l)[0] == l[0],
    decreases l.len(),
{
    if l.len() > 1 {
        first_stays_first(l.drop_last());
    } else {
        assert(distinct(l.drop_last()).len() == 0);
        assert(!distinct(l.drop_last()).contains(l.last()));
    }
}

/// The trackers of a torrent are its announce url, which comes first, and the urls of all its
/// tiers, none twice.
pub proof fn trackers_are_those_of_all_tiers(t: TorrentView, x: Seq<char>)
    ensures
        t.trackers().len() > 0 && t.trackers()[0] == t.announce,
        t.trackers().no_duplicates(),
        t.trackers().contains(x) <==> x == t.announce || (t.announce_list is Some && exists|k: int|
            0 <= k < t.announce_list->0.len() && (#[trigger] t.announce_list->0[k]).contains(x)),
{
    let more = match t.announce_list {
        Some(l) => flattened(l),
        None => Seq::empty(),
    };
    let all = seq![t.announce] + more;
    repetitions_are_taken_out(all, x, 0, 0);
    first_stays_first(all);
    if t.announce_list is Some {
        tiers_hold_their_urls(t.announce_list->0, x);
    }
    if all.contains(x) {
        let i = choose|i: int| 0 <= i < all.len() && all[i] == x;
        if i > 0 {
            assert(more[i - 1] == x);
        }
    }
    if more.contains(x) {
        let i = choose|i: int| 0 <= i < more.len() && more[i] == x;
        assert(all[i + 1] == x);
    }
    assert(all[0] == t.announce);
}

/// Whether a pair of a magnet link names a hash.
pub open spec fn names_a_hash(pair: (Seq<char>, Seq<char>)) -> bool {
    pair.0 == "xt"@ && topic_hash(pair.1) is Some
}

/// A magnet link without a topic that is a hash names none.
#[verifier::rlimit(60)]
pub proof fn without_a_topic_there_is_no_hash(pairs: Seq<(Seq<char>, Seq<char>)>)
    requires
        forall|j: int| 0 <= j < pairs.len() ==> !names_a_hash(#[trigger] pairs[j]),
    ensures
        first_hash(pairs) is None,
    decreases pairs.len(),
{
    if pairs.len() > 0 {
        let rest = pairs.drop_last();
        assert forall|j: int| 0 <= j < rest.len() implies !names_a_hash(#[trigger] rest[j]) by {
            assert(rest[j] == pairs[j]);
        }
        without_a_topic_there_is_no_hash(rest);
        assert(!names_a_hash(pairs[pairs.len() - 1]));
    }
}

/// A magnet link names the hash of the first of its topics that is one.
#[verifier::rlimit(60)]
pub proof fn first_topic_with_a_hash_counts(
    pairs: Seq<(Seq<char>, Seq<char>)>,
    k: int,
    hash: Seq<u8>,
)
    requires
        0 <= k < pairs.len(),
        pairs[k].0 == "xt"@,
        topic_hash(pairs[k].1) == Some(hash),
        forall|j: int| 0 <= j < k ==> !names_a_hash(#[trigger] pairs[j]),
    ensures
        first_hash(pairs) == Some(hash),
    decreases pairs.len(),
{
    let rest = pairs.drop_last();
    if k < pairs.len() - 1 {
        assert(rest[k] == pairs[k]);
        assert forall|j: int| 0 <= j < k implies !names_a_hash(#[trigger] rest[j]) by {
            assert(rest[j] == pairs[j]);
        }
        first_topic_with_a_hash_counts(rest, k, hash);
        assert(first_hash(pairs.drop_last()) == Some(hash));
    } else {
        assert forall|j: int| 0 <= j < rest.len() implies !names_a_hash(#[trigger] rest[j]) by {
            assert(rest[j] == pairs[j]);
        }
        without_a_topic_there_is_no_hash(rest);
        assert(pairs.last() == pairs[k]);
    }
}

/// The name that a magnet link shows is the first that it gives.
pub proof fn first_value_counts(pairs: Seq<(Seq<char>, Seq<char>)>, key: Seq<char>, k: int)
    ensures
        0 <= k < pairs.len() && pairs[k].0 == key && (forall|j: int|
            0 <= j < k ==> (#[trigger] pairs[j]).0 != key) ==> first_value(pairs, key) == Some(
            pairs[k].1,
        ),
        (forall|j: int| 0 <= j < pairs.len() ==> (#[trigger] pairs[j]).0 != key) ==> first_value(
            pairs,
            key,
        ) is None,
    decreases pairs.len(),
{
    if pairs.len() > 0 {
        first_value_counts(pairs.drop_last(), key, k);
    }
}

/// Every tracker that a magnet link names is kept, in order.
pub proof fn every_value_is_kept(pairs: Seq<(Seq<char>, Seq<char>)>, key: Seq<char>)
    ensures
        all_values(pairs, key) == pairs.filter(
            |p: (Seq<char>, Seq<char>)| p.0 == key,
        ).map_values(|p: (Seq<char>, Seq<char>)| p.1),
    decreases pairs.len(),
{
    reveal(Seq::filter);
    let named = |p: (Seq<char>, Seq<char>)| p.0 == key;
    let value = |p: (Seq<char>, Seq<char>)| p.1;
    if pairs.len() > 0 {
        every_value_is_kept(pairs.drop_last(), key);
        let f = pairs.drop_last().filter(named);
        if pairs.last().0 == key {
            assert(pairs.filter(named) == f.push(pairs.last()));
            assert(f.push(pairs.last()).map_values(value) =~= f.map_values(value).push(
                pairs.last().1,
            ));
        }
    } else {
        assert(pairs.filter(named).map_values(value) =~= Seq::<Seq<char>>::empty());
    }
}

} // verus!
