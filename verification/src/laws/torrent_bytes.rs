//! That torrent files can be read back from their bytes.

use crate::bencode::{canonical, encoded, key_less, key_less_transitive, keys_ascend, parsed};
use crate::bencode::{written_value_reads_back, BencodeError, Value};
use crate::metainfo::{concatenated, file_entry, file_value, info_value, int_entry, mode_entries};
use crate::metainfo::{text_entry, texts_value, FileView, InfoView, ModeView};
use crate::path::components;
use vstd::prelude::*;
use vstd::string::*;
use vstd::utf8::*;

verus! {

proof fn first_difference_decides(a: Seq<u8>, b: Seq<u8>, i: int)
    requires
        0 <= i <= a.len(),
        i < b.len(),
        forall|j: int| 0 <= j < i ==> a[j] == b[j],
        i == a.len() || a[i] < b[i],
    ensures
        key_less(a, b),
    decreases i,
{
    if i > 0 {
        first_difference_decides(a.skip(1), b.skip(1), i - 1);
    }
}

proof fn words_are_in_order()
    ensures
        key_less(encode_utf8("length"@), encode_utf8("md5sum"@)),
        key_less(encode_utf8("md5sum"@), encode_utf8("name"@)),
        key_less(encode_utf8("md5sum"@), encode_utf8("path"@)),
        key_less(encode_utf8("files"@), encode_utf8("name"@)),
        key_less(encode_utf8("name"@), encode_utf8("piece length"@)),
        key_less(encode_utf8("piece length"@), encode_utf8("pieces"@)),
        key_less(encode_utf8("pieces"@), encode_utf8("private"@)),
        key_less(encode_utf8("announce"@), encode_utf8("announce-list"@)),
        key_less(encode_utf8("announce-list"@), encode_utf8("info"@)),
{
    reveal_strlit("length");
    reveal_strlit("md5sum");
    reveal_strlit("name");
    reveal_strlit("path");
    reveal_strlit("files");
    reveal_strlit("piece length");
    reveal_strlit("pieces");
    reveal_strlit("private");
    reveal_strlit("announce");
    reveal_strlit("announce-list");
    reveal_strlit("info");
    is_ascii_chars_encode_utf8("length"@);
    is_ascii_chars_encode_utf8("md5sum"@);
    is_ascii_chars_encode_utf8("name"@);
    is_ascii_chars_encode_utf8("path"@);
    is_ascii_chars_encode_utf8("files"@);
    is_ascii_chars_encode_utf8("piece length"@);
    is_ascii_chars_encode_utf8("pieces"@);
    is_ascii_chars_encode_utf8("private"@);
    is_ascii_chars_encode_utf8("announce"@);
    is_ascii_chars_encode_utf8("announce-list"@);
    is_ascii_chars_encode_utf8("info"@);
    first_difference_decides(encode_utf8("length"@), encode_utf8("md5sum"@), 0);
    first_difference_decides(encode_utf8("md5sum"@), encode_utf8("name"@), 0);
    first_difference_decides(encode_utf8("md5sum"@), encode_utf8("path"@), 0);
    first_difference_decides(encode_utf8("files"@), encode_utf8("name"@), 0);
    first_difference_decides(encode_utf8("name"@), encode_utf8("piece length"@), 0);
    first_difference_decides(encode_utf8("piece length"@), encode_utf8("pieces"@), 5);
    first_difference_decides(encode_utf8("pieces"@), encode_utf8("private"@), 1);
    first_difference_decides(encode_utf8("announce"@), encode_utf8("announce-list"@), 8);
    first_difference_decides(encode_utf8("announce-list"@), encode_utf8("info"@), 0);
}

/// Whether entries stand in the order of their keys, none of which comes behind the given one, and
/// can be read back each.
spec fn in_order(d: Seq<(Seq<u8>, Value)>, last: Seq<u8>) -> bool {
    &&& keys_ascend(d)
    &&& forall|i: int|
        0 <= i < d.len() ==> ((#[trigger] d[i]).0 == last || key_less(d[i].0, last)) && canonical(
            d[i].1,
        )
}

proof fn later_key_comes_behind(
    d: Seq<(Seq<u8>, Value)>,
    last: Seq<u8>,
    more: Seq<(Seq<u8>, Value)>,
    key: Seq<u8>,
)
    requires
        in_order(d, last),
        key_less(last, key),
        more.len() <= 1,
        more.len() == 1 ==> more[0].0 == key && canonical(more[0].1),
    ensures
        in_order(d + more, key),
{
    let e = d + more;
    assert forall|i: int| 0 <= i < d.len() implies key_less((#[trigger] d[i]).0, key) by {
        if d[i].0 != last {
            key_less_transitive(d[i].0, last, key);
        }
    }
    assert forall|i: int| 0 <= i < e.len() implies ((#[trigger] e[i]).0 == key || key_less(
        e[i].0,
        key,
    )) && canonical(e[i].1) by {
        if i < d.len() {
            assert(e[i] == d[i]);
            assert(key_less(d[i].0, key));
        } else {
            assert(e[i] == more[0]);
        }
    }
    assert forall|i: int, j: int| 0 <= i < j < e.len() implies key_less(
        #[trigger] e[i].0,
        #[trigger] e[j].0,
    ) by {
        assert(e[i] == d[i]);
        assert(key_less(d[i].0, key));
        if j < d.len() {
            assert(e[j] == d[j]);
            assert(key_less(d[i].0, d[j].0));
        } else {
            assert(e[j] == more[0]);
        }
    }
}

proof fn one_entry_is_in_order(key: Seq<u8>, v: Value)
    requires
        canonical(v),
    ensures
        in_order(seq![(key, v)], key),
{
}

proof fn texts_are_canonical(l: Seq<Seq<char>>)
    ensures
        canonical(texts_value(l)),
{
    reveal_with_fuel(canonical, 2);
}

/// Whether the numbers of a file can be written.
pub open spec fn file_is_small(f: FileView) -> bool {
    i64::MIN <= f.length <= i64::MAX
}

/// Whether the numbers of an info can be written.
pub open spec fn info_is_small(i: InfoView) -> bool {
    &&& i64::MIN <= i.piece_length <= i64::MAX
    &&& i.private is Some ==> i64::MIN <= i.private->0 <= i64::MAX
    &&& i.mode is Single ==> i64::MIN <= i.mode->length <= i64::MAX
    &&& i.mode is Multi ==> forall|k: int|
        0 <= k < i.mode->files.len() ==> file_is_small(#[trigger] i.mode->files[k])
}

proof fn numbers_and_texts_are_canonical(n: int, b: Seq<u8>)
    ensures
        i64::MIN <= n <= i64::MAX ==> canonical(Value::Int(n)),
        canonical(Value::Bytes(b)),
{
}

/// The dictionary of a file has its keys in order.
pub proof fn written_file_is_canonical(f: FileView)
    requires
        file_is_small(f),
    ensures
        canonical(file_entry(f)),
{
    words_are_in_order();
    let length = encode_utf8("length"@);
    let md5sum = encode_utf8("md5sum"@);
    let path = encode_utf8("path"@);
    numbers_and_texts_are_canonical(f.length, Seq::empty());
    let a = int_entry("length"@, Some(f.length));
    assert(a =~= seq![(length, Value::Int(f.length))]);
    one_entry_is_in_order(length, Value::Int(f.length));
    let b = text_entry("md5sum"@, f.md5sum);
    if f.md5sum is Some {
        numbers_and_texts_are_canonical(0, encode_utf8(f.md5sum->0));
    }
    later_key_comes_behind(a, length, b, md5sum);
    texts_are_canonical(components(f.path));
    let c = seq![(path, texts_value(components(f.path)))];
    later_key_comes_behind(a + b, md5sum, c, path);
    reveal_with_fuel(canonical, 2);
    let d = a + b + c;
    assert forall|i: int| 0 <= i < d.len() implies canonical((#[trigger] d[i]).1) by {}
    assert(file_entry(f) == Value::Dict(d));
}

proof fn files_are_canonical(files: Seq<FileView>)
    requires
        forall|k: int| 0 <= k < files.len() ==> file_is_small(#[trigger] files[k]),
    ensures
        canonical(Value::List(Seq::new(files.len(), |k: int| file_entry(files[k])))),
{
    let l = Seq::new(files.len(), |k: int| file_entry(files[k]));
    assert forall|k: int| 0 <= k < l.len() implies canonical(#[trigger] l[k]) by {
        assert(file_is_small(files[k]));
        written_file_is_canonical(files[k]);
    }
}

/// The dictionary of an info has its keys in order, so that anybody who reads and writes it anew
/// comes to the same bytes and the same hash.
pub proof fn written_info_is_canonical(i: InfoView)
    requires
        info_is_small(i),
    ensures
        canonical(info_value(i)),
{
    words_are_in_order();
    let name = encode_utf8("name"@);
    let piece_length = encode_utf8("piece length"@);
    let pieces = encode_utf8("pieces"@);
    let private = encode_utf8("private"@);
    let a = mode_entries(i.mode);
    let first = match i.mode {
        ModeView::Single { .. } => encode_utf8("md5sum"@),
        ModeView::Multi { .. } => encode_utf8("files"@),
    };
    match i.mode {
        ModeView::Single { length, md5sum, .. } => {
            let b = int_entry("length"@, Some(length));
            numbers_and_texts_are_canonical(length, Seq::empty());
            assert(b =~= seq![(encode_utf8("length"@), Value::Int(length))]);
            one_entry_is_in_order(encode_utf8("length"@), Value::Int(length));
            if md5sum is Some {
                numbers_and_texts_are_canonical(0, encode_utf8(md5sum->0));
            }
            later_key_comes_behind(
                b,
                encode_utf8("length"@),
                text_entry("md5sum"@, md5sum),
                encode_utf8("md5sum"@),
            );
        },
        ModeView::Multi { files, .. } => {
            files_are_canonical(files);
            one_entry_is_in_order(
                encode_utf8("files"@),
                Value::List(Seq::new(files.len(), |k: int| file_entry(files[k]))),
            );
        },
    }
    assert(in_order(a, first));
    numbers_and_texts_are_canonical(i.piece_length, encode_utf8(i.mode.name()));
    numbers_and_texts_are_canonical(0, concatenated(i.pieces));
    if i.private is Some {
        numbers_and_texts_are_canonical(i.private->0, Seq::empty());
    }
    let b = a + text_entry("name"@, Some(i.mode.name()));
    later_key_comes_behind(a, first, text_entry("name"@, Some(i.mode.name())), name);
    let c = b + int_entry("piece length"@, Some(i.piece_length));
    later_key_comes_behind(b, name, int_entry("piece length"@, Some(i.piece_length)), piece_length);
    let d = c + seq![(pieces, Value::Bytes(concatenated(i.pieces)))];
    later_key_comes_behind(
        c,
        piece_length,
        seq![(pieces, Value::Bytes(concatenated(i.pieces)))],
        pieces,
    );
    let e = d + int_entry("private"@, i.private);
    later_key_comes_behind(d, pieces, int_entry("private"@, i.private), private);
    assert(info_value(i) == Value::Dict(e));
    assert forall|k: int| 0 <= k < e.len() implies canonical((#[trigger] e[k]).1) by {}
    reveal_with_fuel(canonical, 2);
}

/// An info is read back from the bytes that it is written as, whatever stands behind them.
pub proof fn info_reads_back_from_its_bytes(i: InfoView, rest: Seq<u8>)
    requires
        info_is_small(i),
    ensures
        parsed(encoded(info_value(i)) + rest) == Ok::<(Value, int), BencodeError>(
            (info_value(i), encoded(info_value(i)).len() as int),
        ),
{
    written_info_is_canonical(i);
    written_value_reads_back(info_value(i), rest);
}

proof fn tiers_are_canonical(trackers: Seq<Seq<char>>)
    ensures
        canonical(
            Value::List(
                Seq::new(
                    trackers.len(),
                    |k: int| Value::List(seq![Value::Bytes(encode_utf8(trackers[k]))]),
                ),
            ),
        ),
{
    reveal_with_fuel(canonical, 3);
    let l = Seq::new(
        trackers.len(),
        |k: int| Value::List(seq![Value::Bytes(encode_utf8(trackers[k]))]),
    );
    assert forall|k: int| 0 <= k < l.len() implies canonical(#[trigger] l[k]) by {
        let t = seq![Value::Bytes(encode_utf8(trackers[k]))];
        assert forall|j: int| 0 <= j < t.len() implies canonical(#[trigger] t[j]) by {
            numbers_and_texts_are_canonical(0, encode_utf8(trackers[k]));
        }
    }
}

/// A torrent file is read back from the bytes that it is written as, whatever stands behind them.
pub proof fn torrent_file_reads_back_from_its_bytes(
    trackers: Seq<Seq<char>>,
    i: InfoView,
    rest: Seq<u8>,
)
    requires
        info_is_small(i),
    ensures
        parsed(encoded(file_value(trackers, i)) + rest) == Ok::<(Value, int), BencodeError>(
            (file_value(trackers, i), encoded(file_value(trackers, i)).len() as int),
        ),
{
    words_are_in_order();
    written_info_is_canonical(i);
    tiers_are_canonical(trackers);
    let v = file_value(trackers, i);
    let d = v->Dict_0;
    numbers_and_texts_are_canonical(0, d[0].1->Bytes_0);
    one_entry_is_in_order(encode_utf8("announce"@), d[0].1);
    later_key_comes_behind(
        seq![d[0]],
        encode_utf8("announce"@),
        seq![d[1]],
        encode_utf8("announce-list"@),
    );
    later_key_comes_behind(
        seq![d[0]] + seq![d[1]],
        encode_utf8("announce-list"@),
        seq![d[2]],
        encode_utf8("info"@),
    );
    assert(d =~= seq![d[0]] + seq![d[1]] + seq![d[2]]);
    assert forall|k: int| 0 <= k < d.len() implies canonical((#[trigger] d[k]).1) by {}
    reveal_with_fuel(canonical, 2);
    assert(canonical(v));
    written_value_reads_back(v, rest);
}

} // verus!
