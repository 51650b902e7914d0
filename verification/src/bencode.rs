//! Bencoding: the format of torrent files, tracker replies and extension messages.

use crate::decimal::{push_decimal, decimal, digits_value, all_digits, is_digit, signed_decimal};
use crate::decimal::{decimal_reads_back, digits_value_push};
use crate::types::same_bytes;
use vstd::prelude::*;

verus! {

/// A bencoded value. A dictionary's entries stand in ascending order of their keys.
#[derive(Debug, PartialEq, Eq)]
pub enum Bencode {
    Int(i64),
    Bytes(Vec<u8>),
    List(Vec<Bencode>),
    Dict(Vec<(Vec<u8>, Bencode)>),
}

/// Why a byte string does not start with a bencoded value.
#[derive(Debug, Clone, Copy, PartialEq, Eq, Structural)]
pub enum BencodeError {
    /// The value does not end within the input.
    UnexpectedEnd,
    /// What stands between `i` and `e` is no 64-bit integer.
    InvalidInteger,
    /// What stands before the colon of a byte string is no length.
    InvalidLength,
    /// No value starts with this byte.
    UnexpectedByte(u8),
    /// A dictionary key is not a byte string.
    InvalidKey,
}

/// What a bencoded value means.
#[verifier::ext_equal]
pub enum Value {
    Int(int),
    Bytes(Seq<u8>),
    List(Seq<Value>),
    Dict(Seq<(Seq<u8>, Value)>),
}

impl Bencode {
    /// What the value means.
    pub open spec fn value(&self) -> Value
        decreases self,
    {
        match self {
            Bencode::Int(n) => Value::Int(*n as int),
            Bencode::Bytes(b) => Value::Bytes(b@),
            Bencode::List(l) => Value::List(
                Seq::new(
                    l@.len(),
                    |i: int|
                        if 0 <= i < l@.len() {
                            l@[i].value()
                        } else {
                            Value::Int(0)
                        },
                ),
            ),
            Bencode::Dict(d) => Value::Dict(
                Seq::new(
                    d@.len(),
                    |i: int|
                        if 0 <= i < d@.len() {
                            (d@[i].0@, d@[i].1.value())
                        } else {
                            (Seq::empty(), Value::Int(0))
                        },
                ),
            ),
        }
    }
}

/// What a list of values means.
pub open spec fn list_value(l: Seq<Bencode>) -> Seq<Value> {
    Seq::new(l.len(), |i: int| l[i].value())
}

/// What a list of entries means.
pub open spec fn dict_value(d: Seq<(Vec<u8>, Bencode)>) -> Seq<(Seq<u8>, Value)> {
    Seq::new(d.len(), |i: int| (d[i].0@, d[i].1.value()))
}

// ---------------------------------------------------------------------------------------------
// The order of keys

/// Whether a byte string comes before another in the order of raw bytes.
pub open spec fn key_less(a: Seq<u8>, b: Seq<u8>) -> bool
    decreases a.len(),
{
    if b.len() == 0 {
        false
    } else if a.len() == 0 {
        true
    } else if a[0] != b[0] {
        a[0] < b[0]
    } else {
        key_less(a.skip(1), b.skip(1))
    }
}

/// The keys ascend.
pub open spec fn keys_ascend(d: Seq<(Seq<u8>, Value)>) -> bool {
    forall|i: int, j: int| 0 <= i < j < d.len() ==> key_less(#[trigger] d[i].0, #[trigger] d[j].0)
}

/// The position at or behind `i` where a key stands or belongs.
pub open spec fn key_position(d: Seq<(Seq<u8>, Value)>, key: Seq<u8>, i: int) -> int
    decreases d.len() - i,
{
    if i < 0 || i >= d.len() || !key_less(d[i].0, key) {
        i
    } else {
        key_position(d, key, i + 1)
    }
}

/// The entries with one more, in its place; the entry of the same key gives way.
pub open spec fn with_entry(d: Seq<(Seq<u8>, Value)>, key: Seq<u8>, v: Value) -> Seq<
    (Seq<u8>, Value),
> {
    let p = key_position(d, key, 0);
    if p < d.len() && d[p].0 == key {
        d.update(p, (key, v))
    } else {
        d.insert(p, (key, v))
    }
}

/// The value of the first entry of a key.
pub open spec fn entry(d: Seq<(Seq<u8>, Value)>, key: Seq<u8>) -> Option<Value>
    decreases d.len(),
{
    if d.len() == 0 {
        None
    } else if d[0].0 == key {
        Some(d[0].1)
    } else {
        entry(d.skip(1), key)
    }
}

pub proof fn key_less_irreflexive(a: Seq<u8>)
    ensures
        !key_less(a, a),
    decreases a.len(),
{
    if a.len() > 0 {
        key_less_irreflexive(a.skip(1));
    }
}

pub proof fn key_less_transitive(a: Seq<u8>, b: Seq<u8>, c: Seq<u8>)
    requires
        key_less(a, b),
        key_less(b, c),
    ensures
        key_less(a, c),
    decreases a.len(),
{
    if a.len() > 0 && b.len() > 0 && c.len() > 0 && a[0] == b[0] && b[0] == c[0] {
        key_less_transitive(a.skip(1), b.skip(1), c.skip(1));
    }
}

pub proof fn key_less_total(a: Seq<u8>, b: Seq<u8>)
    ensures
        key_less(a, b) || a == b || key_less(b, a),
    decreases a.len(),
{
    if a.len() == 0 || b.len() == 0 {
        if a.len() == 0 && b.len() == 0 {
            assert(a =~= b);
        }
    } else if a[0] == b[0] {
        key_less_total(a.skip(1), b.skip(1));
        if a.skip(1) == b.skip(1) {
            assert(a =~= seq![a[0]] + a.skip(1));
            assert(b =~= seq![b[0]] + b.skip(1));
        }
    }
}

proof fn key_position_bounds(d: Seq<(Seq<u8>, Value)>, key: Seq<u8>, i: int)
    requires
        0 <= i <= d.len(),
    ensures
        i <= key_position(d, key, i) <= d.len(),
        forall|j: int| i <= j < key_position(d, key, i) ==> key_less((#[trigger] d[j]).0, key),
        key_position(d, key, i) < d.len() ==> !key_less(d[key_position(d, key, i)].0, key),
    decreases d.len() - i,
{
    if i < d.len() && key_less(d[i].0, key) {
        key_position_bounds(d, key, i + 1);
    }
}

/// An entry finds its place without disturbing the order.
pub proof fn with_entry_keeps_order(d: Seq<(Seq<u8>, Value)>, key: Seq<u8>, v: Value)
    requires
        keys_ascend(d),
    ensures
        keys_ascend(with_entry(d, key, v)),
        entry(with_entry(d, key, v), key) == Some(v),
{
    let p = key_position(d, key, 0);
    key_position_bounds(d, key, 0);
    let r = with_entry(d, key, v);
    let replaced = p < d.len() && d[p].0 == key;
    assert forall|i: int, j: int| 0 <= i < j < r.len() implies key_less(
        #[trigger] r[i].0,
        #[trigger] r[j].0,
    ) by {
        if !replaced {
            if j == p {
                assert(key_less(d[i].0, key));
            } else if i == p {
                key_less_total(d[p].0, key);
                if j > p + 1 {
                    assert(key_less(d[p].0, d[j - 1].0));
                    key_less_transitive(key, d[p].0, d[j - 1].0);
                }
            } else {
                let a = if i < p {
                    i
                } else {
                    i - 1
                };
                let b = if j < p {
                    j
                } else {
                    j - 1
                };
                assert(key_less(d[a].0, d[b].0));
            }
        } else {
            assert(key_less(d[i].0, d[j].0));
        }
    }
    assert(r[p] == (key, v));
    assert forall|j: int| 0 <= j < p implies (#[trigger] r[j]).0 != key by {
        key_less_irreflexive(key);
        assert(key_less(d[j].0, key));
    }
    first_entry_found(r, key, p);
}

proof fn first_entry_found(d: Seq<(Seq<u8>, Value)>, key: Seq<u8>, p: int)
    requires
        0 <= p < d.len(),
        d[p].0 == key,
        forall|j: int| 0 <= j < p ==> (#[trigger] d[j]).0 != key,
    ensures
        entry(d, key) == Some(d[p].1),
    decreases p,
{
    if p > 0 {
        assert(d[0].0 != key);
        assert forall|j: int| 0 <= j < p - 1 implies (#[trigger] d.skip(1)[j]).0 != key by {
            assert(d[j + 1].0 != key);
        }
        first_entry_found(d.skip(1), key, p - 1);
    }
}

proof fn no_entry(d: Seq<(Seq<u8>, Value)>, key: Seq<u8>)
    requires
        forall|j: int| 0 <= j < d.len() ==> (#[trigger] d[j]).0 != key,
    ensures
        entry(d, key) is None,
    decreases d.len(),
{
    if d.len() > 0 {
        assert(d[0].0 != key);
        assert forall|j: int| 0 <= j < d.skip(1).len() implies (#[trigger] d.skip(1)[j]).0
            != key by {
            assert(d[j + 1].0 != key);
        }
        no_entry(d.skip(1), key);
    }
}

// ---------------------------------------------------------------------------------------------
// Writing

/// The bytes of a value.
pub open spec fn encoded(v: Value) -> Seq<u8>
    decreases v,
{
    match v {
        Value::Int(n) => seq![105u8] + signed_decimal(n) + seq![101u8],
        Value::Bytes(b) => decimal(b.len()) + seq![58u8] + b,
        Value::List(l) => seq![108u8] + encoded_list(l) + seq![101u8],
        Value::Dict(d) => seq![100u8] + encoded_dict(d) + seq![101u8],
    }
}

/// The bytes of the values, one behind the other.
pub open spec fn encoded_list(l: Seq<Value>) -> Seq<u8>
    decreases l,
{
    if l.len() == 0 {
        Seq::empty()
    } else {
        encoded(l[0]) + encoded_list(l.skip(1))
    }
}

/// The bytes of the entries, key and value in turn.
pub open spec fn encoded_dict(d: Seq<(Seq<u8>, Value)>) -> Seq<u8>
    decreases d,
{
    if d.len() == 0 {
        Seq::empty()
    } else {
        encoded_key(d[0].0) + encoded(d[0].1) + encoded_dict(d.skip(1))
    }
}

/// The bytes of a dictionary key.
pub open spec fn encoded_key(key: Seq<u8>) -> Seq<u8> {
    decimal(key.len()) + seq![58u8] + key
}

// ---------------------------------------------------------------------------------------------
// Reading

/// The first position at or behind `i` that holds `b`.
pub open spec fn find(s: Seq<u8>, b: u8, i: int) -> Option<int>
    decreases s.len() - i,
{
    if i < 0 || i >= s.len() {
        None
    } else if s[i] == b {
        Some(i)
    } else {
        find(s, b, i + 1)
    }
}

/// The 64-bit integer that a text stands for: digits, perhaps behind a minus sign.
pub open spec fn integer_text(t: Seq<u8>) -> Option<int> {
    let negative = t.len() > 0 && t[0] == 45;
    let digits = if negative {
        t.skip(1)
    } else {
        t
    };
    let n = if negative {
        -(digits_value(digits) as int)
    } else {
        digits_value(digits) as int
    };
    if digits.len() > 0 && all_digits(digits) && i64::MIN <= n <= i64::MAX {
        Some(n)
    } else {
        None
    }
}

/// The value at the start of a byte string, and how many bytes it takes.
pub open spec fn parsed(s: Seq<u8>) -> Result<(Value, int), BencodeError>
    decreases s.len(), 0int,
{
    if s.len() == 0 {
        Err(BencodeError::UnexpectedEnd)
    } else if s[0] == 105 {
        match find(s, 101, 1) {
            None => Err(BencodeError::UnexpectedEnd),
            Some(k) => match integer_text(s.subrange(1, k)) {
                None => Err(BencodeError::InvalidInteger),
                Some(n) => Ok((Value::Int(n), k + 1)),
            },
        }
    } else if is_digit(s[0]) {
        match parsed_bytes(s) {
            Err(e) => Err(e),
            Ok((b, n)) => Ok((Value::Bytes(b), n)),
        }
    } else if s[0] == 108 {
        match parsed_items(s.skip(1), Seq::empty()) {
            Err(e) => Err(e),
            Ok((l, n)) => Ok((Value::List(l), n + 1)),
        }
    } else if s[0] == 100 {
        match parsed_entries(s.skip(1), Seq::empty()) {
            Err(e) => Err(e),
            Ok((d, n)) => Ok((Value::Dict(d), n + 1)),
        }
    } else {
        Err(BencodeError::UnexpectedByte(s[0]))
    }
}

/// The byte string at the start of a byte string, and how many bytes it takes.
pub open spec fn parsed_bytes(s: Seq<u8>) -> Result<(Seq<u8>, int), BencodeError> {
    match find(s, 58, 0) {
        None => Err(BencodeError::UnexpectedEnd),
        Some(k) => {
            let digits = s.subrange(0, k);
            let n = digits_value(digits) as int;
            if !all_digits(digits) || k == 0 {
                Err(BencodeError::InvalidLength)
            } else if k + 1 + n > s.len() {
                Err(BencodeError::UnexpectedEnd)
            } else {
                Ok((s.subrange(k + 1, k + 1 + n), k + 1 + n))
            }
        },
    }
}

/// The rest of a list, behind the values already read.
pub open spec fn parsed_items(s: Seq<u8>, acc: Seq<Value>) -> Result<
    (Seq<Value>, int),
    BencodeError,
>
    decreases s.len(), 1int,
{
    if s.len() == 0 {
        Err(BencodeError::UnexpectedEnd)
    } else if s[0] == 101 {
        Ok((acc, 1))
    } else {
        match parsed(s) {
            Err(e) => Err(e),
            Ok((v, n)) => if n <= 0 || n > s.len() {
                Err(BencodeError::UnexpectedEnd)
            } else {
                match parsed_items(s.skip(n), acc.push(v)) {
                    Err(e) => Err(e),
                    Ok((l, m)) => Ok((l, n + m)),
                }
            },
        }
    }
}

/// The rest of a dictionary, behind the entries already read.
pub open spec fn parsed_entries(s: Seq<u8>, acc: Seq<(Seq<u8>, Value)>) -> Result<
    (Seq<(Seq<u8>, Value)>, int),
    BencodeError,
>
    decreases s.len(), 1int,
{
    if s.len() == 0 {
        Err(BencodeError::UnexpectedEnd)
    } else if s[0] == 101 {
        Ok((acc, 1))
    } else if !is_digit(s[0]) {
        Err(BencodeError::InvalidKey)
    } else {
        match parsed_bytes(s) {
            Err(e) => Err(e),
            Ok((key, k)) => if k <= 0 || k > s.len() {
                Err(BencodeError::UnexpectedEnd)
            } else {
                match parsed(s.skip(k)) {
                    Err(e) => Err(e),
                    Ok((v, n)) => if n <= 0 || n > s.len() - k {
                        Err(BencodeError::UnexpectedEnd)
                    } else {
                        match parsed_entries(s.skip(k + n), with_entry(acc, key, v)) {
                            Err(e) => Err(e),
                            Ok((d, m)) => Ok((d, k + n + m)),
                        }
                    },
                }
            },
        }
    }
}

proof fn find_bounds(s: Seq<u8>, b: u8, i: int)
    requires
        0 <= i,
    ensures
        find(s, b, i) matches Some(k) ==> i <= k < s.len() && s[k] == b && forall|j: int|
            i <= j < k ==> s[j] != b,
        find(s, b, i) is None ==> forall|j: int| i <= j < s.len() ==> s[j] != b,
    decreases s.len() - i,
{
    if i < s.len() && s[i] != b {
        find_bounds(s, b, i + 1);
    }
}

proof fn find_is_first(s: Seq<u8>, b: u8, i: int, k: int)
    requires
        0 <= i <= k < s.len(),
        s[k] == b,
        forall|j: int| i <= j < k ==> s[j] != b,
    ensures
        find(s, b, i) == Some(k),
    decreases k - i,
{
    if i < k {
        find_is_first(s, b, i + 1, k);
    }
}

/// A value that is read takes at least a byte and no more than there are.
pub proof fn parsed_bounds(s: Seq<u8>)
    ensures
        parsed(s) matches Ok((v, n)) ==> 0 < n <= s.len(),
    decreases s.len(), 0int,
{
    if s.len() > 0 {
        find_bounds(s, 101, 1);
        find_bounds(s, 58, 0);
        if s[0] == 108 {
            items_bounds(s.skip(1), Seq::empty());
        } else if s[0] == 100 {
            entries_bounds(s.skip(1), Seq::empty());
        }
    }
}

proof fn items_bounds(s: Seq<u8>, acc: Seq<Value>)
    ensures
        parsed_items(s, acc) matches Ok((v, n)) ==> 0 < n <= s.len(),
    decreases s.len(), 1int,
{
    if s.len() > 0 && s[0] != 101 {
        match parsed(s) {
            Err(e) => {},
            Ok((v, n)) => {
                if 0 < n <= s.len() {
                    items_bounds(s.skip(n), acc.push(v));
                }
            },
        }
    }
}

proof fn entries_bounds(s: Seq<u8>, acc: Seq<(Seq<u8>, Value)>)
    ensures
        parsed_entries(s, acc) matches Ok((v, n)) ==> 0 < n <= s.len(),
    decreases s.len(), 1int,
{
    if s.len() > 0 && s[0] != 101 && is_digit(s[0]) {
        match parsed_bytes(s) {
            Err(e) => {},
            Ok((key, k)) => {
                if 0 < k <= s.len() {
                    match parsed(s.skip(k)) {
                        Err(e) => {},
                        Ok((v, n)) => {
                            if 0 < n <= s.len() - k {
                                entries_bounds(s.skip(k + n), with_entry(acc, key, v));
                            }
                        },
                    }
                }
            },
        }
    }
}

// ---------------------------------------------------------------------------------------------
// Laws

/// Whether a value can be written and read back: its integers fit, and the keys of its
/// dictionaries ascend.
pub open spec fn canonical(v: Value) -> bool
    decreases v,
{
    match v {
        Value::Int(n) => i64::MIN <= n <= i64::MAX,
        Value::Bytes(b) => true,
        Value::List(l) => forall|i: int| 0 <= i < l.len() ==> canonical(#[trigger] l[i]),
        Value::Dict(d) => keys_ascend(d) && forall|i: int|
            0 <= i < d.len() ==> canonical((#[trigger] d[i]).1),
    }
}

/// A canonical value is read back from its own bytes, whatever stands behind them.
pub proof fn written_value_reads_back(v: Value, rest: Seq<u8>)
    requires
        canonical(v),
    ensures
        parsed(encoded(v) + rest) == Ok::<(Value, int), BencodeError>((v, encoded(v).len() as int)),
    decreases v,
{
    let s = encoded(v) + rest;
    match v {
        Value::Int(n) => {
            let t = signed_decimal(n);
            let m: nat = if n < 0 {
                (-n) as nat
            } else {
                n as nat
            };
            decimal_reads_back(m);
            assert(s[0] == 105);
            let k = 1 + t.len() as int;
            assert(s.subrange(1, k) =~= t);
            assert(s[k] == 101);
            assert forall|j: int| 1 <= j < k implies s[j] != 101 by {
                assert(s[j] == t[j - 1]);
                if n < 0 && j > 1 {
                    assert(is_digit(decimal(m)[j - 2]));
                } else if n >= 0 {
                    assert(is_digit(decimal(m)[j - 1]));
                }
            }
            find_is_first(s, 101, 1, k);
            if n < 0 {
                assert(t.skip(1) =~= decimal(m));
            } else {
                assert(is_digit(t[0]));
            }
            assert(integer_text(t) == Some(n));
        },
        Value::Bytes(b) => {
            assert(s =~= encoded_key(b) + rest);
            key_reads_back(b, rest);
        },
        Value::List(l) => {
            assert(s[0] == 108);
            assert(s.skip(1) =~= encoded_list(l) + seq![101u8] + rest);
            list_reads_back(l, Seq::empty(), rest);
            assert(Seq::<Value>::empty() + l =~= l);
        },
        Value::Dict(d) => {
            assert(s[0] == 100);
            assert(s.skip(1) =~= encoded_dict(d) + seq![101u8] + rest);
            dict_reads_back(d, Seq::empty(), rest);
            assert(Seq::<(Seq<u8>, Value)>::empty() + d =~= d);
        },
    }
}

proof fn key_reads_back(b: Seq<u8>, rest: Seq<u8>)
    ensures
        parsed_bytes(encoded_key(b) + rest) == Ok::<(Seq<u8>, int), BencodeError>(
            (b, encoded_key(b).len() as int),
        ),
        is_digit((encoded_key(b) + rest)[0]),
{
    let s = encoded_key(b) + rest;
    let t = decimal(b.len());
    decimal_reads_back(b.len());
    let k = t.len() as int;
    assert(s.subrange(0, k) =~= t);
    assert(s[k] == 58);
    assert forall|j: int| 0 <= j < k implies s[j] != 58 by {
        assert(s[j] == t[j]);
        assert(is_digit(t[j]));
    }
    find_is_first(s, 58, 0, k);
    assert(s.subrange(k + 1, k + 1 + b.len()) =~= b);
    assert(is_digit(t[0]));
    assert(s[0] == t[0]);
}

/// The first byte of a value is none that ends a list.
proof fn no_value_starts_with_an_end(v: Value)
    ensures
        encoded(v).len() > 0,
        encoded(v)[0] != 101,
{
    match v {
        Value::Bytes(b) => {
            decimal_reads_back(b.len());
            assert(is_digit(decimal(b.len())[0]));
            assert(encoded(v)[0] == decimal(b.len())[0]);
        },
        _ => {},
    }
}

proof fn list_reads_back(l: Seq<Value>, acc: Seq<Value>, rest: Seq<u8>)
    requires
        forall|i: int| 0 <= i < l.len() ==> canonical(#[trigger] l[i]),
    ensures
        parsed_items(encoded_list(l) + seq![101u8] + rest, acc) == Ok::<
            (Seq<Value>, int),
            BencodeError,
        >((acc + l, encoded_list(l).len() as int + 1)),
    decreases l,
{
    let s = encoded_list(l) + seq![101u8] + rest;
    if l.len() == 0 {
        assert(s[0] == 101);
        assert(acc + l =~= acc);
    } else {
        let v = l[0];
        let tail = l.skip(1);
        let more = encoded_list(tail) + seq![101u8] + rest;
        assert(s =~= encoded(v) + more);
        written_value_reads_back(v, more);
        no_value_starts_with_an_end(v);
        let n = encoded(v).len() as int;
        assert(s.skip(n) =~= more);
        assert forall|i: int| 0 <= i < tail.len() implies canonical(#[trigger] tail[i]) by {
            assert(canonical(l[i + 1]));
        }
        list_reads_back(tail, acc.push(v), rest);
        assert(acc.push(v) + tail =~= acc + l);
    }
}

proof fn dict_reads_back(d: Seq<(Seq<u8>, Value)>, acc: Seq<(Seq<u8>, Value)>, rest: Seq<u8>)
    requires
        forall|i: int| 0 <= i < d.len() ==> canonical((#[trigger] d[i]).1),
        keys_ascend(acc + d),
    ensures
        parsed_entries(encoded_dict(d) + seq![101u8] + rest, acc) == Ok::<
            (Seq<(Seq<u8>, Value)>, int),
            BencodeError,
        >((acc + d, encoded_dict(d).len() as int + 1)),
    decreases d,
{
    let s = encoded_dict(d) + seq![101u8] + rest;
    if d.len() == 0 {
        assert(s[0] == 101);
        assert(acc + d =~= acc);
    } else {
        let key = d[0].0;
        let v = d[0].1;
        let tail = d.skip(1);
        let more = encoded_dict(tail) + seq![101u8] + rest;
        let behind_key = encoded(v) + more;
        assert(s =~= encoded_key(key) + behind_key);
        key_reads_back(key, behind_key);
        let k = encoded_key(key).len() as int;
        assert(s.skip(k) =~= behind_key);
        written_value_reads_back(v, more);
        no_value_starts_with_an_end(v);
        let n = encoded(v).len() as int;
        assert(s.skip(k + n) =~= more);
        // the next key belongs behind all that were read
        let next = with_entry(acc, key, v);
        assert forall|j: int| 0 <= j < acc.len() implies key_less((#[trigger] acc[j]).0, key) by {
            assert((acc + d)[j] == acc[j]);
            assert((acc + d)[acc.len() as int] == d[0]);
        }
        position_at_end(acc, key, 0);
        assert(next =~= acc.push((key, v)));
        assert(next + tail =~= acc + d) by {
            assert(d[0] == (key, v));
        }
        assert forall|i: int| 0 <= i < tail.len() implies canonical((#[trigger] tail[i]).1) by {
            assert(canonical(d[i + 1].1));
        }
        dict_reads_back(tail, next, rest);
        assert(encoded_dict(d).len() == k + n + encoded_dict(tail).len());
    }
}

proof fn position_at_end(d: Seq<(Seq<u8>, Value)>, key: Seq<u8>, i: int)
    requires
        0 <= i <= d.len(),
        forall|j: int| i <= j < d.len() ==> key_less((#[trigger] d[j]).0, key),
    ensures
        key_position(d, key, i) == d.len(),
    decreases d.len() - i,
{
    if i < d.len() {
        assert(key_less(d[i].0, key));
        position_at_end(d, key, i + 1);
    }
}

/// What is read is canonical, even where the input is not.
pub proof fn read_value_is_canonical(s: Seq<u8>)
    ensures
        parsed(s) matches Ok((v, n)) ==> canonical(v),
    decreases s.len(), 0int,
{
    if s.len() > 0 {
        if s[0] == 108 {
            read_items_are_canonical(s.skip(1), Seq::empty());
        } else if s[0] == 100 {
            read_entries_are_canonical(s.skip(1), Seq::empty());
        }
    }
}

proof fn read_items_are_canonical(s: Seq<u8>, acc: Seq<Value>)
    requires
        forall|i: int| 0 <= i < acc.len() ==> canonical(#[trigger] acc[i]),
    ensures
        parsed_items(s, acc) matches Ok((l, n)) ==> forall|i: int|
            0 <= i < l.len() ==> canonical(#[trigger] l[i]),
    decreases s.len(), 1int,
{
    if s.len() > 0 && s[0] != 101 {
        read_value_is_canonical(s);
        match parsed(s) {
            Err(e) => {},
            Ok((v, n)) => {
                if 0 < n <= s.len() {
                    read_items_are_canonical(s.skip(n), acc.push(v));
                }
            },
        }
    }
}

proof fn read_entries_are_canonical(s: Seq<u8>, acc: Seq<(Seq<u8>, Value)>)
    requires
        keys_ascend(acc),
        forall|i: int| 0 <= i < acc.len() ==> canonical((#[trigger] acc[i]).1),
    ensures
        parsed_entries(s, acc) matches Ok((d, n)) ==> keys_ascend(d) && forall|i: int|
            0 <= i < d.len() ==> canonical((#[trigger] d[i]).1),
    decreases s.len(), 1int,
{
    if s.len() > 0 && s[0] != 101 && is_digit(s[0]) {
        match parsed_bytes(s) {
            Err(e) => {},
            Ok((key, k)) => {
                if 0 < k <= s.len() {
                    read_value_is_canonical(s.skip(k));
                    match parsed(s.skip(k)) {
                        Err(e) => {},
                        Ok((v, n)) => {
                            if 0 < n <= s.len() - k {
                                with_entry_keeps_order(acc, key, v);
                                key_position_bounds(acc, key, 0);
                                let next = with_entry(acc, key, v);
                                let p = key_position(acc, key, 0);
                                assert forall|i: int| 0 <= i < next.len() implies canonical(
                                    (#[trigger] next[i]).1,
                                ) by {
                                    if i != p {
                                        if next.len() == acc.len() {
                                            assert(next[i] == acc[i]);
                                        } else if i < p {
                                            assert(next[i] == acc[i]);
                                        } else {
                                            assert(next[i] == acc[i - 1]);
                                        }
                                    }
                                }
                                read_entries_are_canonical(s.skip(k + n), next);
                            }
                        },
                    }
                }
            },
        }
    }
}

// ---------------------------------------------------------------------------------------------
// The codec

/// What can be written as a bencoded value.
pub trait Encode {
    /// The value that is written.
    spec fn bencode_value(&self) -> Value;

    /// Whether there is such a value.
    spec fn encodable(&self) -> bool;

    /// Makes the value that is written.
    fn to_bencode(&self) -> (r: Bencode)
        requires
            self.encodable(),
        ensures
            r.value() == self.bencode_value(),
    ;
}

/// Whether a byte string comes before another in the order of raw bytes.
fn key_before(a: &[u8], b: &[u8]) -> (r: bool)
    ensures
        r == key_less(a@, b@),
{
    let mut i: usize = 0;
    proof {
        assert(a@.skip(0) =~= a@);
        assert(b@.skip(0) =~= b@);
    }
    while i < a.len() && i < b.len()
        invariant
            i <= a.len(),
            i <= b.len(),
            key_less(a@, b@) == key_less(a@.skip(i as int), b@.skip(i as int)),
        decreases a.len() - i,
    {
        if a[i] != b[i] {
            return a[i] < b[i];
        }
        proof {
            assert(a@.skip(i as int).skip(1) =~= a@.skip(i + 1));
            assert(b@.skip(i as int).skip(1) =~= b@.skip(i + 1));
        }
        i = i + 1;
    }
    i < b.len()
}

/// Puts an entry where it belongs.
pub fn dict_insert(d: &mut Vec<(Vec<u8>, Bencode)>, key: Vec<u8>, v: Bencode)
    ensures
        dict_value(final(d)@) == with_entry(dict_value(old(d)@), key@, v.value()),
{
    let ghost before = dict_value(d@);
    let ghost old_d = d@;
    let mut p: usize = 0;
    while p < d.len() && key_before(d[p].0.as_slice(), key.as_slice())
        invariant
            p <= d.len(),
            d@ == old_d,
            before == dict_value(old_d),
            key_position(before, key@, 0) == key_position(before, key@, p as int),
        decreases d.len() - p,
    {
        p = p + 1;
    }
    let ghost w = v.value();
    let ghost k = key@;
    if p < d.len() && same_bytes(d[p].0.as_slice(), key.as_slice()) {
        d[p] = (key, v);
        proof {
            assert(dict_value(d@) =~= before.update(p as int, (k, w)));
        }
    } else {
        d.insert(p, (key, v));
        proof {
            assert(dict_value(d@) =~= before.insert(p as int, (k, w)));
        }
    }
}

/// The value of a key, where the dictionary has it.
pub fn dict_get<'a>(d: &'a Vec<(Vec<u8>, Bencode)>, key: &[u8]) -> (r: Option<&'a Bencode>)
    ensures
        match r {
            Some(v) => entry(dict_value(d@), key@) == Some(v.value()),
            None => entry(dict_value(d@), key@) is None,
        },
{
    let mut i: usize = 0;
    while i < d.len()
        invariant
            i <= d.len(),
            forall|j: int| 0 <= j < i ==> (#[trigger] dict_value(d@)[j]).0 != key@,
        decreases d.len() - i,
    {
        if same_bytes(d[i].0.as_slice(), key) {
            proof {
                first_entry_found(dict_value(d@), key@, i as int);
            }
            return Some(&d[i].1);
        }
        i = i + 1;
    }
    proof {
        no_entry(dict_value(d@), key@);
    }
    None
}

fn encode_bytes(b: &Vec<u8>, out: &mut Vec<u8>)
    ensures
        final(out)@ == old(out)@ + encoded_key(b@),
{
    let ghost before = out@;
    push_decimal(b.len() as u64, out);
    out.push(58);
    out.extend_from_slice(b.as_slice());
    assert(out@ =~= before + encoded_key(b@));
}

fn encode_into(v: &Bencode, out: &mut Vec<u8>)
    ensures
        final(out)@ == old(out)@ + encoded(v.value()),
    decreases v,
{
    let ghost before = out@;
    match v {
        Bencode::Int(n) => {
            out.push(105);
            if *n < 0 {
                out.push(45);
                let m: u64 = (-(*n as i128)) as u64;
                push_decimal(m, out);
            } else {
                push_decimal(*n as u64, out);
            }
            out.push(101);
            assert(out@ =~= before + encoded(v.value()));
        },
        Bencode::Bytes(b) => {
            encode_bytes(b, out);
            assert(out@ =~= before + encoded(v.value()));
        },
        Bencode::List(l) => {
            out.push(108);
            let ghost whole = list_value(l@);
            assert(v.value()->List_0 =~= whole);
            let mut i: usize = 0;
            proof {
                assert(whole.skip(0) =~= whole);
            }
            while i < l.len()
                invariant
                    i <= l.len(),
                    whole == list_value(l@),
                    v == &Bencode::List(*l),
                    out@ + encoded_list(whole.skip(i as int)) == before.push(108u8)
                        + encoded_list(whole),
                decreases l.len() - i,
            {
                let ghost at = out@;
                assert(decreases_to!(v => v->List_0@[i as int]));
                encode_into(&l[i], out);
                proof {
                    let rest = whole.skip(i as int);
                    assert(rest[0] == l@[i as int].value());
                    assert(rest.skip(1) =~= whole.skip(i + 1));
                    assert(at + encoded_list(rest) =~= out@ + encoded_list(whole.skip(i + 1)));
                }
                i = i + 1;
            }
            proof {
                assert(whole.skip(i as int) =~= Seq::<Value>::empty());
                assert(out@ =~= before.push(108u8) + encoded_list(whole));
            }
            out.push(101);
            assert(out@ =~= before + encoded(v.value()));
        },
        Bencode::Dict(d) => {
            out.push(100);
            let ghost whole = dict_value(d@);
            assert(v.value()->Dict_0 =~= whole);
            let mut i: usize = 0;
            proof {
                assert(whole.skip(0) =~= whole);
            }
            while i < d.len()
                invariant
                    i <= d.len(),
                    whole == dict_value(d@),
                    v == &Bencode::Dict(*d),
                    out@ + encoded_dict(whole.skip(i as int)) == before.push(100u8)
                        + encoded_dict(whole),
                decreases d.len() - i,
            {
                let ghost at = out@;
                encode_bytes(&d[i].0, out);
                assert(decreases_to!(v => v->Dict_0@[i as int].1));
                encode_into(&d[i].1, out);
                proof {
                    let rest = whole.skip(i as int);
                    assert(rest[0] == (d@[i as int].0@, d@[i as int].1.value()));
                    assert(rest.skip(1) =~= whole.skip(i + 1));
                    assert(at + encoded_dict(rest) =~= out@ + encoded_dict(whole.skip(i + 1)));
                }
                i = i + 1;
            }
            proof {
                assert(whole.skip(i as int) =~= Seq::<(Seq<u8>, Value)>::empty());
                assert(out@ =~= before.push(100u8) + encoded_dict(whole));
            }
            out.push(101);
            assert(out@ =~= before + encoded(v.value()));
        },
    }
}

/// The first position at or behind `from` that holds `b`, counted from `pos`.
fn find_from(data: &[u8], b: u8, pos: usize, from: usize) -> (r: Option<usize>)
    requires
        pos <= from,
        pos <= data.len(),
    ensures
        match r {
            Some(k) => pos <= k < data.len() && find(data@.skip(pos as int), b, from - pos) == Some(
                k - pos,
            ),
            None => find(data@.skip(pos as int), b, from - pos) is None,
        },
{
    let ghost s = data@.skip(pos as int);
    let mut i: usize = from;
    while i < data.len()
        invariant
            pos <= from <= i,
            pos <= data.len(),
            s == data@.skip(pos as int),
            find(s, b, from - pos) == find(s, b, i - pos),
        decreases data.len() - i,
    {
        if data[i] == b {
            assert(s[i - pos] == b);
            return Some(i);
        }
        assert(s[i - pos] != b);
        i = i + 1;
    }
    None
}

/// The number that the digits between two positions stand for, cut off at `cap`; nothing where
/// there are none or something else stands among them.
fn digits_between(data: &[u8], from: usize, to: usize, cap: u128) -> (r: Option<u128>)
    requires
        from <= to <= data.len(),
        cap <= 0x1_0000_0000_0000_0000_0000,
    ensures
        ({
            let t = data@.subrange(from as int, to as int);
            match r {
                Some(n) => {
                    &&& t.len() > 0 && all_digits(t)
                    &&& n == if digits_value(t) <= cap {
                        digits_value(t) as int
                    } else {
                        cap as int
                    }
                },
                None => t.len() == 0 || !all_digits(t),
            }
        }),
{
    if from == to {
        return None;
    }
    let ghost t = data@.subrange(from as int, to as int);
    let mut n: u128 = 0;
    let mut i: usize = from;
    while i < to
        invariant
            from <= i <= to <= data.len(),
            cap <= 0x1_0000_0000_0000_0000_0000,
            n <= cap,
            t == data@.subrange(from as int, to as int),
            all_digits(t.take(i - from)),
            n == if digits_value(t.take(i - from)) <= cap {
                digits_value(t.take(i - from)) as int
            } else {
                cap as int
            },
        decreases to - i,
    {
        let b: u8 = data[i];
        assert(b == t[i - from]);
        if b < 48 || b > 57 {
            assert(!is_digit(t[i - from]));
            return None;
        }
        proof {
            assert(t.take(i + 1 - from) =~= t.take(i - from).push(b));
            digits_value_push(t.take(i - from), b);
            assert forall|j: int| 0 <= j < t.take(i + 1 - from).len() implies is_digit(
                #[trigger] t.take(i + 1 - from)[j],
            ) by {
                if j < i - from {
                    assert(is_digit(t.take(i - from)[j]));
                }
            }
        }
        n = n * 10 + (b - 48) as u128;
        if n > cap {
            n = cap;
        }
        i = i + 1;
    }
    assert(t.take(to - from) =~= t);
    Some(n)
}

/// The bytes between two positions.
pub fn copy_range(data: &[u8], from: usize, to: usize) -> (r: Vec<u8>)
    requires
        from <= to <= data.len(),
    ensures
        r@ == data@.subrange(from as int, to as int),
{
    let mut r: Vec<u8> = Vec::new();
    let mut i: usize = from;
    while i < to
        invariant
            from <= i <= to <= data.len(),
            r@ == data@.subrange(from as int, i as int),
        decreases to - i,
    {
        r.push(data[i]);
        i = i + 1;
        assert(r@ =~= data@.subrange(from as int, i as int));
    }
    r
}

fn decode_integer(data: &[u8], pos: usize) -> (r: Result<(i64, usize), BencodeError>)
    requires
        pos < data.len(),
        data[pos as int] == 105,
    ensures
        match r {
            Ok((n, next)) => {
                &&& pos < next <= data.len()
                &&& parsed(data@.skip(pos as int)) == Ok::<(Value, int), BencodeError>(
                    (Value::Int(n as int), next - pos),
                )
            },
            Err(e) => parsed(data@.skip(pos as int)) == Err::<(Value, int), BencodeError>(e),
        },
{
    let ghost s = data@.skip(pos as int);
    let end: usize = match find_from(data, 101, pos, pos + 1) {
        None => return Err(BencodeError::UnexpectedEnd),
        Some(k) => k,
    };
    proof {
        find_bounds(s, 101, 1);
    }
    let ghost t = s.subrange(1, end - pos);
    let negative: bool = pos + 1 < end && data[pos + 1] == 45;
    let from: usize = if negative {
        pos + 2
    } else {
        pos + 1
    };
    let digits = digits_between(data, from, end, 0x1_0000_0000_0000_0000);
    proof {
        if negative {
            assert(t.skip(1) =~= data@.subrange(from as int, end as int));
        } else {
            assert(t =~= data@.subrange(from as int, end as int));
        }
    }
    let m: i128 = match digits {
        None => return Err(BencodeError::InvalidInteger),
        Some(m) => m as i128,
    };
    let n: i128 = if negative {
        -m
    } else {
        m
    };
    if n < i64::MIN as i128 || n > i64::MAX as i128 {
        return Err(BencodeError::InvalidInteger);
    }
    Ok((n as i64, end + 1))
}

fn decode_bytes(data: &[u8], pos: usize) -> (r: Result<(Vec<u8>, usize), BencodeError>)
    requires
        pos < data.len(),
    ensures
        match r {
            Ok((b, next)) => {
                &&& pos < next <= data.len()
                &&& parsed_bytes(data@.skip(pos as int)) == Ok::<(Seq<u8>, int), BencodeError>(
                    (b@, next - pos),
                )
            },
            Err(e) => parsed_bytes(data@.skip(pos as int)) == Err::<(Seq<u8>, int), BencodeError>(
                e,
            ),
        },
{
    let ghost s = data@.skip(pos as int);
    let colon: usize = match find_from(data, 58, pos, pos) {
        None => return Err(BencodeError::UnexpectedEnd),
        Some(k) => k,
    };
    proof {
        find_bounds(s, 58, 0);
        assert(s.subrange(0, colon - pos) =~= data@.subrange(pos as int, colon as int));
    }
    let room: usize = data.len() - colon - 1;
    let n: u128 = match digits_between(data, pos, colon, room as u128 + 1) {
        None => return Err(BencodeError::InvalidLength),
        Some(n) => n,
    };
    if n > room as u128 {
        return Err(BencodeError::UnexpectedEnd);
    }
    let end: usize = colon + 1 + n as usize;
    proof {
        assert(s.subrange(colon - pos + 1, end - pos) =~= data@.subrange(colon + 1, end as int));
    }
    Ok((copy_range(data, colon + 1, end), end))
}

fn decode_value(data: &[u8], pos: usize) -> (r: Result<(Bencode, usize), BencodeError>)
    requires
        pos <= data.len(),
    ensures
        match r {
            Ok((v, next)) => {
                &&& pos < next <= data.len()
                &&& parsed(data@.skip(pos as int)) == Ok::<(Value, int), BencodeError>(
                    (v.value(), next - pos),
                )
            },
            Err(e) => parsed(data@.skip(pos as int)) == Err::<(Value, int), BencodeError>(e),
        },
    decreases data.len() - pos, 0int,
{
    if pos >= data.len() {
        return Err(BencodeError::UnexpectedEnd);
    }
    let ghost s = data@.skip(pos as int);
    let b: u8 = data[pos];
    assert(s[0] == b);
    assert(s.skip(1) =~= data@.skip(pos + 1));
    if b == 105 {
        match decode_integer(data, pos) {
            Err(e) => Err(e),
            Ok((n, next)) => Ok((Bencode::Int(n), next)),
        }
    } else if 48 <= b && b <= 57 {
        match decode_bytes(data, pos) {
            Err(e) => Err(e),
            Ok((v, next)) => Ok((Bencode::Bytes(v), next)),
        }
    } else if b == 108 {
        match decode_items(data, pos + 1) {
            Err(e) => Err(e),
            Ok((l, next)) => {
                let v = Bencode::List(l);
                assert(v.value()->List_0 =~= list_value(l@));
                Ok((v, next))
            },
        }
    } else if b == 100 {
        match decode_entries(data, pos + 1) {
            Err(e) => Err(e),
            Ok((d, next)) => {
                let v = Bencode::Dict(d);
                assert(v.value()->Dict_0 =~= dict_value(d@));
                Ok((v, next))
            },
        }
    } else {
        Err(BencodeError::UnexpectedByte(b))
    }
}

fn decode_items(data: &[u8], pos: usize) -> (r: Result<(Vec<Bencode>, usize), BencodeError>)
    requires
        pos <= data.len(),
    ensures
        match r {
            Ok((l, next)) => {
                &&& pos < next <= data.len()
                &&& parsed_items(data@.skip(pos as int), Seq::empty()) == Ok::<
                    (Seq<Value>, int),
                    BencodeError,
                >((list_value(l@), next - pos))
            },
            Err(e) => parsed_items(data@.skip(pos as int), Seq::empty()) == Err::<
                (Seq<Value>, int),
                BencodeError,
            >(e),
        },
    decreases data.len() - pos, 1int,
{
    let ghost whole = parsed_items(data@.skip(pos as int), Seq::empty());
    let mut l: Vec<Bencode> = Vec::new();
    let mut at: usize = pos;
    proof {
        assert(list_value(l@) =~= Seq::<Value>::empty());
    }
    loop
        invariant
            pos <= at <= data.len(),
            whole == parsed_items(data@.skip(pos as int), Seq::empty()),
            ({
                let rest = parsed_items(data@.skip(at as int), list_value(l@));
                match whole {
                    Ok((v, n)) => rest == Ok::<(Seq<Value>, int), BencodeError>(
                        (v, n - (at - pos)),
                    ),
                    Err(e) => rest == Err::<(Seq<Value>, int), BencodeError>(e),
                }
            }),
        decreases data.len() - at,
    {
        if at >= data.len() {
            return Err(BencodeError::UnexpectedEnd);
        }
        let ghost s = data@.skip(at as int);
        assert(s[0] == data[at as int]);
        if data[at] == 101 {
            return Ok((l, at + 1));
        }
        match decode_value(data, at) {
            Err(e) => {
                return Err(e);
            },
            Ok((v, next)) => {
                proof {
                    assert(s.skip(next - at) =~= data@.skip(next as int));
                    assert(list_value(l@.push(v)) =~= list_value(l@).push(v.value()));
                }
                l.push(v);
                at = next;
            },
        }
    }
}

fn decode_entries(data: &[u8], pos: usize) -> (r: Result<
    (Vec<(Vec<u8>, Bencode)>, usize),
    BencodeError,
>)
    requires
        pos <= data.len(),
    ensures
        match r {
            Ok((d, next)) => {
                &&& pos < next <= data.len()
                &&& parsed_entries(data@.skip(pos as int), Seq::empty()) == Ok::<
                    (Seq<(Seq<u8>, Value)>, int),
                    BencodeError,
                >((dict_value(d@), next - pos))
            },
            Err(e) => parsed_entries(data@.skip(pos as int), Seq::empty()) == Err::<
                (Seq<(Seq<u8>, Value)>, int),
                BencodeError,
            >(e),
        },
    decreases data.len() - pos, 1int,
{
    let ghost whole = parsed_entries(data@.skip(pos as int), Seq::empty());
    let mut d: Vec<(Vec<u8>, Bencode)> = Vec::new();
    let mut at: usize = pos;
    proof {
        assert(dict_value(d@) =~= Seq::<(Seq<u8>, Value)>::empty());
    }
    loop
        invariant
            pos <= at <= data.len(),
            whole == parsed_entries(data@.skip(pos as int), Seq::empty()),
            ({
                let rest = parsed_entries(data@.skip(at as int), dict_value(d@));
                match whole {
                    Ok((v, n)) => rest == Ok::<(Seq<(Seq<u8>, Value)>, int), BencodeError>(
                        (v, n - (at - pos)),
                    ),
                    Err(e) => rest == Err::<(Seq<(Seq<u8>, Value)>, int), BencodeError>(e),
                }
            }),
        decreases data.len() - at,
    {
        if at >= data.len() {
            return Err(BencodeError::UnexpectedEnd);
        }
        let ghost s = data@.skip(at as int);
        let b: u8 = data[at];
        assert(s[0] == b);
        if b == 101 {
            return Ok((d, at + 1));
        }
        if b < 48 || b > 57 {
            return Err(BencodeError::InvalidKey);
        }
        let (key, behind) = match decode_bytes(data, at) {
            Err(e) => {
                return Err(e);
            },
            Ok(x) => x,
        };
        assert(s.skip(behind - at) =~= data@.skip(behind as int));
        match decode_value(data, behind) {
            Err(e) => {
                return Err(e);
            },
            Ok((v, next)) => {
                assert(s.skip((behind - at) + (next - behind)) =~= data@.skip(next as int));
                dict_insert(&mut d, key, v);
                at = next;
            },
        }
    }
}

impl Bencode {
    /// Reads the value at the start of the input; what stands behind it is ignored.
    pub fn decode(data: &[u8]) -> (r: Result<Bencode, BencodeError>)
        ensures
            match r {
                Ok(v) => parsed(data@) matches Ok((w, n)) && w == v.value() && canonical(w),
                Err(e) => parsed(data@) == Err::<(Value, int), BencodeError>(e),
            },
    {
        proof {
            assert(data@.skip(0) =~= data@);
            read_value_is_canonical(data@);
        }
        match decode_value(data, 0) {
            Err(e) => Err(e),
            Ok((v, n)) => Ok(v),
        }
    }

    /// The bytes of a value.
    pub fn encoder(value: &Bencode) -> (r: Vec<u8>)
        ensures
            r@ == encoded(value.value()),
    {
        let mut out: Vec<u8> = Vec::new();
        encode_into(value, &mut out);
        assert(out@ =~= encoded(value.value()));
        out
    }

    /// The bytes of something that can be written as a value.
    pub fn encode<T: Encode>(x: &T) -> (r: Vec<u8>)
        requires
            x.encodable(),
        ensures
            r@ == encoded(x.bencode_value()),
    {
        Self::encoder(&x.to_bencode())
    }
}

} // verus!
