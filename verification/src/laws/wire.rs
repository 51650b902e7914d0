//! How values and messages are laid out in bytes.

use crate::bencode::{
    encoded, encoded_dict, encoded_list, entry, find, key_less, key_less_irreflexive, key_position,
    keys_ascend, parsed, parsed_bounds, parsed_items, with_entry, BencodeError, Value,
};
use crate::bitfield::{bit, bitfield_verdict, byte_bit};
use crate::decimal::{all_digits, decimal, digits_value, is_digit};
use crate::endian::{be16, be32};
use crate::laws::torrent_files::entry_is_found_by_its_key;
use crate::protocol::{
    body, extension_of, next_message, numbered, parse_body, BlockInfo, MessageView, WireError,
};
use vstd::prelude::*;
use vstd::string::*;
use vstd::utf8::*;

verus! {

/// What is written of each kind of value: an integer between `i` and `e`, a byte string behind its
/// length, a list and a dictionary between `l` or `d` and `e`.
pub proof fn values_are_marked(n: int, b: Seq<u8>, l: Seq<Value>, d: Seq<(Seq<u8>, Value)>)
    ensures
        n >= 0 ==> encoded(Value::Int(n)) == seq![0x69u8] + decimal(n as nat) + seq![0x65u8],
        n < 0 ==> encoded(Value::Int(n)) == seq![0x69u8, 0x2du8] + decimal((-n) as nat) + seq![
            0x65u8,
        ],
        encoded(Value::Bytes(b)) == decimal(b.len()) + seq![0x3au8] + b,
        encoded(Value::List(l)) == seq![0x6cu8] + encoded_list(l) + seq![0x65u8],
        encoded(Value::Dict(d)) == seq![0x64u8] + encoded_dict(d) + seq![0x65u8],
{
    if n < 0 {
        assert(encoded(Value::Int(n)) =~= seq![0x69u8, 0x2du8] + decimal((-n) as nat) + seq![0x65u8]);
    }
}

/// The values of a list stand one behind the other, each as it is written alone.
pub proof fn list_is_written_in_order(l: Seq<Value>, v: Value)
    ensures
        encoded_list(l.push(v)) == encoded_list(l) + encoded(v),
        encoded_list(Seq::empty()).len() == 0,
    decreases l.len(),
{
    if l.len() > 0 {
        list_is_written_in_order(l.skip(1), v);
        assert(l.push(v).skip(1) =~= l.skip(1).push(v));
        assert(l.push(v)[0] == l[0]);
        assert(encoded_list(l.push(v)) =~= encoded_list(l) + encoded(v));
    } else {
        assert(l.push(v).skip(1) =~= Seq::<Value>::empty());
        assert(l.push(v)[0] == v);
        assert(encoded_list(Seq::<Value>::empty()) =~= Seq::<u8>::empty());
        assert(encoded_list(l) =~= Seq::<u8>::empty());
        assert(encoded_list(l.push(v)) =~= encoded_list(l) + encoded(v));
    }
}

/// The entries of a dictionary stand one behind the other, each key before its value.
pub proof fn dictionary_is_written_in_order(d: Seq<(Seq<u8>, Value)>, key: Seq<u8>, v: Value)
    ensures
        encoded_dict(d.push((key, v))) == encoded_dict(d) + decimal(key.len()) + seq![0x3au8] + key
            + encoded(v),
        encoded_dict(Seq::empty()).len() == 0,
    decreases d.len(),
{
    let e = d.push((key, v));
    if d.len() > 0 {
        dictionary_is_written_in_order(d.skip(1), key, v);
        assert(e.skip(1) =~= d.skip(1).push((key, v)));
        assert(e[0] == d[0]);
    } else {
        assert(e.skip(1) =~= Seq::<(Seq<u8>, Value)>::empty());
        assert(e[0] == (key, v));
        assert(encoded_dict(Seq::<(Seq<u8>, Value)>::empty()) =~= Seq::<u8>::empty());
        assert(encoded_dict(d) =~= Seq::<u8>::empty());
    }
    assert(encoded_dict(e) =~= encoded_dict(d) + decimal(key.len()) + seq![0x3au8] + key + encoded(v));
}

proof fn found_first(s: Seq<u8>, b: u8, i: int, k: int)
    requires
        0 <= i <= k < s.len(),
        s[k] == b,
        forall|j: int| i <= j < k ==> s[j] != b,
    ensures
        find(s, b, i) == Some(k),
    decreases k - i,
{
    if i < k {
        found_first(s, b, i + 1, k);
    }
}

proof fn found_nowhere(s: Seq<u8>, b: u8, i: int)
    requires
        0 <= i <= s.len(),
        forall|j: int| i <= j < s.len() ==> s[j] != b,
    ensures
        find(s, b, i) is None,
    decreases s.len() - i,
{
    if i < s.len() {
        found_nowhere(s, b, i + 1);
    }
}

/// What stands between `i` and the next `e` is an integer where it is digits, perhaps behind a minus
/// sign, that fit in 64 bits, and nothing else is one.
pub proof fn integers_are_digits(t: Seq<u8>, rest: Seq<u8>)
    requires
        forall|j: int| 0 <= j < t.len() ==> t[j] != 0x65,
    ensures
        ({
            let r = parsed(seq![0x69u8] + t + seq![0x65u8] + rest);
            let n = t.len() as int + 2;
            &&& t.len() > 0 && all_digits(t) && digits_value(t) <= i64::MAX ==> r == Ok::<
                (Value, int),
                BencodeError,
            >((Value::Int(digits_value(t) as int), n))
            &&& t.len() > 1 && t[0] == 0x2d && all_digits(t.skip(1)) && digits_value(t.skip(1))
                <= -(i64::MIN as int) ==> r == Ok::<(Value, int), BencodeError>(
                (Value::Int(-(digits_value(t.skip(1)) as int)), n),
            )
            &&& t.len() == 0 || (t[0] != 0x2d && !all_digits(t)) || (t[0] == 0x2d && !all_digits(
                t.skip(1),
            )) ==> r == Err::<(Value, int), BencodeError>(BencodeError::InvalidInteger)
        }),
{
    let s = seq![0x69u8] + t + seq![0x65u8] + rest;
    let k = t.len() as int + 1;
    assert forall|j: int| 1 <= j < k implies s[j] != 0x65 by {
        assert(s[j] == t[j - 1]);
    }
    assert(s[k] == 0x65);
    found_first(s, 0x65, 1, k);
    assert(s.subrange(1, k) =~= t);
    assert(s[0] == 0x69);
    if t.len() > 0 && all_digits(t) {
        assert(is_digit(t[0]));
    }
}

/// An integer without an end, a value that begins with no known byte, and nothing at all are no
/// values.
pub proof fn other_bytes_are_no_values(s: Seq<u8>)
    ensures
        s.len() == 0 ==> parsed(s) == Err::<(Value, int), BencodeError>(BencodeError::UnexpectedEnd),
        s.len() > 0 && s[0] == 0x69 && (forall|j: int| 1 <= j < s.len() ==> s[j] != 0x65) ==> parsed(
            s,
        ) == Err::<(Value, int), BencodeError>(BencodeError::UnexpectedEnd),
        s.len() > 0 && !is_digit(s[0]) && s[0] != 0x69 && s[0] != 0x6c && s[0] != 0x64 ==> parsed(s)
            == Err::<(Value, int), BencodeError>(BencodeError::UnexpectedByte(s[0])),
        s.len() == 1 && (s[0] == 0x6c || s[0] == 0x64) ==> parsed(s) == Err::<
            (Value, int),
            BencodeError,
        >(BencodeError::UnexpectedEnd),
        s.len() >= 2 && s[0] == 0x64 && s[1] != 0x65 && !is_digit(s[1]) ==> parsed(s) == Err::<
            (Value, int),
            BencodeError,
        >(BencodeError::InvalidKey),
{
    if s.len() > 0 && s[0] == 0x69 && (forall|j: int| 1 <= j < s.len() ==> s[j] != 0x65) {
        found_nowhere(s, 0x65, 1);
    }
    if s.len() >= 1 && s[0] == 0x64 {
        reveal_with_fuel(crate::bencode::parsed_entries, 2);
    }
    if s.len() >= 1 && s[0] == 0x6c {
        reveal_with_fuel(crate::bencode::parsed_items, 2);
    }
}

/// A byte string is as many bytes as the number before the colon says; with fewer there, the input
/// ends too soon.
pub proof fn byte_strings_are_as_long_as_said(digits: Seq<u8>, rest: Seq<u8>)
    requires
        digits.len() > 0,
        all_digits(digits),
    ensures
        ({
            let r = parsed(digits + seq![0x3au8] + rest);
            let n = digits_value(digits) as int;
            &&& n <= rest.len() ==> r == Ok::<(Value, int), BencodeError>(
                (Value::Bytes(rest.take(n)), digits.len() + 1 + n),
            )
            &&& n > rest.len() ==> r == Err::<(Value, int), BencodeError>(
                BencodeError::UnexpectedEnd,
            )
        }),
{
    let s = digits + seq![0x3au8] + rest;
    let k = digits.len() as int;
    let n = digits_value(digits) as int;
    assert forall|j: int| 0 <= j < k implies s[j] != 0x3a by {
        assert(s[j] == digits[j]);
        assert(is_digit(digits[j]));
    }
    assert(s[k] == 0x3a);
    found_first(s, 0x3a, 0, k);
    assert(s.subrange(0, k) =~= digits);
    assert(is_digit(digits[0]));
    assert(s[0] == digits[0]);
    if n <= rest.len() {
        assert(s.subrange(k + 1, k + 1 + n) =~= rest.take(n));
    }
}

/// What stands before the colon of a byte string must be digits, and the colon must be there.
pub proof fn lengths_are_digits(t: Seq<u8>, rest: Seq<u8>)
    requires
        t.len() > 0,
        is_digit(t[0]),
        forall|j: int| 0 <= j < t.len() ==> t[j] != 0x3a,
    ensures
        !all_digits(t) ==> parsed(t + seq![0x3au8] + rest) == Err::<(Value, int), BencodeError>(
            BencodeError::InvalidLength,
        ),
        parsed(t) == Err::<(Value, int), BencodeError>(BencodeError::UnexpectedEnd),
{
    let s = t + seq![0x3au8] + rest;
    let k = t.len() as int;
    assert forall|j: int| 0 <= j < k implies s[j] != 0x3a by {
        assert(s[j] == t[j]);
    }
    assert(s[k] == 0x3a);
    found_first(s, 0x3a, 0, k);
    assert(s.subrange(0, k) =~= t);
    assert(s[0] == t[0]);
    found_nowhere(t, 0x3a, 0);
}

/// A list goes on with each value that is read and ends with `e`; a value in it that cannot be read
/// spoils it with its own error, and so does an end that does not come.
pub proof fn lists_go_on_value_by_value(s: Seq<u8>, acc: Seq<Value>)
    ensures
        s.len() == 0 ==> parsed_items(s, acc) == Err::<(Seq<Value>, int), BencodeError>(
            BencodeError::UnexpectedEnd,
        ),
        s.len() > 0 && s[0] == 0x65 ==> parsed_items(s, acc) == Ok::<
            (Seq<Value>, int),
            BencodeError,
        >((acc, 1)),
        s.len() > 0 && s[0] != 0x65 && parsed(s) is Err ==> parsed_items(s, acc) == Err::<
            (Seq<Value>, int),
            BencodeError,
        >(parsed(s)->Err_0),
        s.len() > 0 && s[0] != 0x65 && parsed(s) is Ok ==> {
            let (v, n) = parsed(s)->Ok_0;
            let more = parsed_items(s.skip(n), acc.push(v));
            &&& more is Err ==> parsed_items(s, acc) == Err::<(Seq<Value>, int), BencodeError>(
                more->Err_0,
            )
            &&& more is Ok ==> parsed_items(s, acc) is Ok
            &&& more is Ok ==> ({
                let (l, m) = more->Ok_0;
                parsed_items(s, acc)->Ok_0 == (l, n + m)
            })
        },
{
    if s.len() > 0 {
        parsed_bounds(s);
    }
}

proof fn place_in_order(d: Seq<(Seq<u8>, Value)>, key: Seq<u8>, i: int)
    requires
        0 <= i <= d.len(),
    ensures
        i <= key_position(d, key, i) <= d.len(),
        forall|j: int| i <= j < key_position(d, key, i) ==> key_less((#[trigger] d[j]).0, key),
        key_position(d, key, i) < d.len() ==> !key_less(d[key_position(d, key, i)].0, key),
    decreases d.len() - i,
{
    if i < d.len() && key_less(d[i].0, key) {
        place_in_order(d, key, i + 1);
    }
}

/// An entry that is put into a dictionary is found under its key, whatever stood there, and every
/// other entry is found as before.
pub proof fn put_entry_is_found(
    d: Seq<(Seq<u8>, Value)>,
    key: Seq<u8>,
    v: Value,
    other: Seq<u8>,
)
    requires
        keys_ascend(d),
    ensures
        entry(with_entry(d, key, v), key) == Some(v),
        other != key ==> entry(with_entry(d, key, v), other) == entry(d, other),
{
    let p = key_position(d, key, 0);
    let e = with_entry(d, key, v);
    place_in_order(d, key, 0);
    assert forall|j: int| 0 <= j < p implies (#[trigger] e[j]).0 != key by {
        assert(e[j] == d[j]);
        key_less_irreflexive(key);
    }
    assert(e[p] == (key, v));
    entry_is_found_by_its_key(e, key, p);
    if other != key {
        if exists|j: int| 0 <= j < d.len() && (#[trigger] d[j]).0 == other {
            let j = choose|j: int| 0 <= j < d.len() && (#[trigger] d[j]).0 == other;
            assert forall|i: int| 0 <= i < j implies (#[trigger] d[i]).0 != other by {
                assert(key_less(d[i].0, d[j].0));
                key_less_irreflexive(other);
            }
            entry_is_found_by_its_key(d, other, j);
            let replaced = p < d.len() && d[p].0 == key;
            let q = if replaced || j < p {
                j
            } else {
                j + 1
            };
            assert(e[q] == d[j]);
            assert forall|i: int| 0 <= i < q implies (#[trigger] e[i]).0 != other by {
                if i == p {
                } else if replaced || i < p {
                    assert(e[i] == d[i]);
                } else {
                    assert(e[i] == d[i - 1]);
                }
            }
            entry_is_found_by_its_key(e, other, q);
        } else {
            entry_is_found_by_its_key(d, other, 0);
            let replaced = p < d.len() && d[p].0 == key;
            assert forall|i: int| 0 <= i < e.len() implies (#[trigger] e[i]).0 != other by {
                if i == p {
                } else if replaced || i < p {
                    assert(e[i] == d[i]);
                } else {
                    assert(e[i] == d[i - 1]);
                }
            }
            entry_is_found_by_its_key(e, other, 0);
        }
    }
}

/// A byte is the sum of its bits, the first of which is worth most.
pub proof fn byte_is_the_sum_of_its_bits(b: u8)
    ensures
        b == (if byte_bit(b, 0) {
            128int
        } else {
            0
        }) + (if byte_bit(b, 1) {
            64int
        } else {
            0
        }) + (if byte_bit(b, 2) {
            32int
        } else {
            0
        }) + (if byte_bit(b, 3) {
            16int
        } else {
            0
        }) + (if byte_bit(b, 4) {
            8int
        } else {
            0
        }) + (if byte_bit(b, 5) {
            4int
        } else {
            0
        }) + (if byte_bit(b, 6) {
            2int
        } else {
            0
        }) + (if byte_bit(b, 7) {
            1int
        } else {
            0
        }),
{
    assert(b == (b & 128u8) + (b & 64u8) + (b & 32u8) + (b & 16u8) + (b & 8u8) + (b & 4u8) + (b & 2u8)
        + (b & 1u8) && (b & 128u8 == 0 || b & 128u8 == 128) && (b & 64u8 == 0 || b & 64u8 == 64) && (b
        & 32u8 == 0 || b & 32u8 == 32) && (b & 16u8 == 0 || b & 16u8 == 16) && (b & 8u8 == 0 || b
        & 8u8 == 8) && (b & 4u8 == 0 || b & 4u8 == 4) && (b & 2u8 == 0 || b & 2u8 == 2) && (b & 1u8
        == 0 || b & 1u8 == 1)) by (bit_vector);
    assert(128u8 >> 0u8 == 128 && 128u8 >> 1u8 == 64 && 128u8 >> 2u8 == 32 && 128u8 >> 3u8 == 16
        && 128u8 >> 4u8 == 8 && 128u8 >> 5u8 == 4 && 128u8 >> 6u8 == 2 && 128u8 >> 7u8 == 1)
        by (bit_vector);
}

/// Piece `i` has the bit at place `i % 8` of byte `i / 8`.
pub proof fn pieces_have_their_bits_in_order(bytes: Seq<u8>, k: int, j: int)
    requires
        0 <= k < bytes.len(),
        0 <= j < 8,
    ensures
        bit(bytes, 8 * k + j) == byte_bit(bytes[k], j),
{
}

/// A bitfield is accepted exactly where it has a bit for each piece and no other bit is set; what is
/// too short is refused with both lengths.
pub proof fn bitfield_speaks_of_all_pieces_and_no_more(bytes: Seq<u8>, n: usize)
    requires
        n <= usize::MAX - 7,
        bytes.len() <= usize::MAX,
    ensures
        bitfield_verdict(bytes, n) is Ok <==> 8 * bytes.len() >= n && forall|i: int|
            n <= i < 8 * bytes.len() ==> !#[trigger] bit(bytes, i),
        8 * bytes.len() < n <==> bitfield_verdict(bytes, n) is Err && bitfield_verdict(
            bytes,
            n,
        )->Err_0 is InvalidLength,
        8 * bytes.len() < n ==> {
            let e = bitfield_verdict(bytes, n)->Err_0;
            &&& e->expected_len * 8 >= n && (e->expected_len - 1) * 8 < n
            &&& e->actual_len == bytes.len()
        },
{
}

/// What each message is written as: its number, and what belongs to it, the highest byte of a number
/// first.
pub proof fn messages_are_numbered(i: u32, b: BlockInfo, data: Seq<u8>, port: u16, id: u8)
    ensures
        body(MessageView::KeepAlive).len() == 0,
        body(MessageView::Choke) == seq![0u8],
        body(MessageView::Unchoke) == seq![1u8],
        body(MessageView::Interested) == seq![2u8],
        body(MessageView::NotInterested) == seq![3u8],
        body(MessageView::Have(i)) == seq![4u8] + be32(i),
        body(MessageView::Bitfield(data)) == seq![5u8] + data,
        body(MessageView::Request(b)) == seq![6u8] + be32(b.index) + be32(b.begin) + be32(b.length),
        body(MessageView::Piece(b.index, b.begin, data)) == seq![7u8] + be32(b.index) + be32(b.begin)
            + data,
        body(MessageView::Cancel(b)) == seq![8u8] + be32(b.index) + be32(b.begin) + be32(b.length),
        body(MessageView::Port(port)) == seq![9u8] + be16(port),
        body(MessageView::Extension(id, data)) == seq![20u8, id] + data,
{
    assert(body(MessageView::Request(b)) =~= seq![6u8] + be32(b.index) + be32(b.begin) + be32(
        b.length,
    ));
    assert(body(MessageView::Cancel(b)) =~= seq![8u8] + be32(b.index) + be32(b.begin) + be32(
        b.length,
    ));
}

/// A message of a known number but of another length than it has is refused, and so is one of an
/// unknown number.
pub proof fn misshapen_messages_are_refused(b: Seq<u8>)
    requires
        b.len() > 0,
    ensures
        b[0] < 4 && b.len() != 1 ==> parse_body(b) == Err::<MessageView, WireError>(
            WireError::InvalidLength(b[0]),
        ),
        b[0] == 4 && b.len() != 5 ==> parse_body(b) == Err::<MessageView, WireError>(
            WireError::InvalidLength(4),
        ),
        (b[0] == 6 || b[0] == 8) && b.len() != 13 ==> parse_body(b) == Err::<MessageView, WireError>(
            WireError::InvalidLength(b[0]),
        ),
        b[0] == 7 && b.len() < 9 ==> parse_body(b) == Err::<MessageView, WireError>(
            WireError::InvalidLength(7),
        ),
        b[0] == 9 && b.len() != 3 ==> parse_body(b) == Err::<MessageView, WireError>(
            WireError::InvalidLength(9),
        ),
        b[0] == 20 && b.len() < 2 ==> parse_body(b) == Err::<MessageView, WireError>(
            WireError::InvalidLength(20),
        ),
        9 < b[0] && b[0] != 20 ==> parse_body(b) == Err::<MessageView, WireError>(
            WireError::UnknownId(b[0]),
        ),
{
}

/// A message that has not arrived as a whole is waited for.
pub proof fn unfinished_message_is_waited_for(m: MessageView, n: int)
    requires
        body(m).len() <= u32::MAX,
        0 <= n < 4 + body(m).len(),
    ensures
        next_message((be32(body(m).len() as u32) + body(m)).take(n)) == Ok::<
            Option<(MessageView, int)>,
            WireError,
        >(None),
{
    let k = body(m).len() as u32;
    let s = (be32(k) + body(m)).take(n);
    if n >= 4 {
        assert(s.subrange(0, 4) =~= be32(k));
        crate::endian::be32_reads_back(k, s, 0);
    }
}

/// Of what a peer says of its extensions, those count that have a number, in order.
pub proof fn numbered_extensions_count(d: Seq<(Seq<u8>, Value)>, n: int)
    requires
        0 <= n <= d.len(),
    ensures
        numbered(d, n) == d.take(n).filter(|e: (Seq<u8>, Value)| e.1 is Int).map_values(
            |e: (Seq<u8>, Value)| (e.0, e.1->Int_0),
        ),
    decreases n,
{
    reveal(Seq::filter);
    let counts = |e: (Seq<u8>, Value)| e.1 is Int;
    let number = |e: (Seq<u8>, Value)| (e.0, e.1->Int_0);
    if n > 0 {
        numbered_extensions_count(d, n - 1);
        assert(d.take(n).drop_last() =~= d.take(n - 1));
        assert(d.take(n).last() == d[n - 1]);
        let f = d.take(n - 1).filter(counts);
        if counts(d[n - 1]) {
            assert(f.push(d[n - 1]).map_values(number) =~= f.map_values(number).push(
                number(d[n - 1]),
            ));
        }
    } else {
        assert(d.take(0) =~= Seq::<(Seq<u8>, Value)>::empty());
        assert(d.take(0).filter(counts).map_values(number) =~= Seq::<(Seq<u8>, int)>::empty());
    }
}

/// What a peer says of itself is read from the entries that are meant for it.
pub proof fn extension_says_what_is_written(
    d: Seq<(Seq<u8>, Value)>,
    m: Seq<(Seq<u8>, Value)>,
    size: int,
    reqq: int,
    v: Seq<u8>,
    ip: Seq<u8>,
)
    ensures
        entry(d, encode_utf8("m"@)) == Some(Value::Dict(m)) ==> extension_of(d).m == Some(
            numbered(m, m.len() as int),
        ),
        entry(d, encode_utf8("m"@)) is None ==> extension_of(d).m is None,
        entry(d, encode_utf8("metadata_size"@)) == Some(Value::Int(size)) ==> extension_of(
            d,
        ).metadata_size == Some(size),
        entry(d, encode_utf8("metadata_size"@)) is None ==> extension_of(d).metadata_size is None,
        entry(d, encode_utf8("reqq"@)) == Some(Value::Int(reqq)) ==> extension_of(d).reqq == Some(
            reqq,
        ),
        entry(d, encode_utf8("reqq"@)) is None ==> extension_of(d).reqq is None,
        entry(d, encode_utf8("v"@)) == Some(Value::Bytes(v)) ==> extension_of(d).v == Some(v),
        entry(d, encode_utf8("v"@)) is None ==> extension_of(d).v is None,
        entry(d, encode_utf8("yourip"@)) == Some(Value::Bytes(ip)) ==> extension_of(d).yourip == Some(
            ip,
        ),
        entry(d, encode_utf8("yourip"@)) is None ==> extension_of(d).yourip is None,
{
}

} // verus!
