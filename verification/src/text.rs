//! Text, and the bytes that it is made of.

use crate::decimal::{decimal, decimal_reads_back, is_digit, push_decimal};
use vstd::prelude::*;
use vstd::string::*;
use vstd::utf8::*;

verus! {

/// `String::from_utf8`: the text whose UTF-8 encoding the bytes are, where they are one.
#[verifier::external_body]
fn std_from_utf8(bytes: Vec<u8>) -> (r: Option<String>)
    ensures
        match r {
            Some(s) => valid_utf8(bytes@) && s@ == decode_utf8(bytes@),
            None => !valid_utf8(bytes@),
        },
{
    String::from_utf8(bytes).ok()
}

/// The text whose UTF-8 encoding the bytes are, where they are one.
pub open spec fn utf8_text(bytes: Seq<u8>) -> Option<Seq<char>> {
    if valid_utf8(bytes) {
        Some(decode_utf8(bytes))
    } else {
        None
    }
}

/// The text whose UTF-8 encoding the bytes are, where they are one.
pub fn text_of(bytes: &[u8]) -> (r: Option<String>)
    ensures
        match r {
            Some(s) => utf8_text(bytes@) == Some(s@),
            None => utf8_text(bytes@) is None,
        },
{
    std_from_utf8(vstd::slice::slice_to_vec(bytes))
}

/// What an optional text says.
pub open spec fn opt_text(s: Option<String>) -> Option<Seq<char>> {
    match s {
        Some(t) => Some(t@),
        None => None,
    }
}

/// A copy of an optional text.
pub fn copy_opt_text(s: &Option<String>) -> (r: Option<String>)
    ensures
        opt_text(r) == opt_text(*s),
{
    match s {
        Some(t) => Some(t.clone()),
        None => None,
    }
}

/// Whether two texts are the same.
pub fn same_text(a: &str, b: &str) -> (r: bool)
    ensures
        r == (a@ == b@),
{
    let x = a.as_bytes();
    let y = b.as_bytes();
    proof {
        encode_utf8_decode_utf8(a@);
        encode_utf8_decode_utf8(b@);
    }
    crate::types::same_bytes(x, y)
}

/// One text behind the other.
pub fn joined(a: &str, b: &str) -> (r: String)
    ensures
        r@ == a@ + b@,
{
    String::from_str(a).concat(b)
}

/// The decimal form of a number, as a text.
pub open spec fn number_text(n: nat) -> Seq<char> {
    decimal(n).map_values(|b: u8| b as char)
}

/// A text of ASCII characters is encoded one byte to a character.
pub proof fn ascii_reads_back(bytes: Seq<u8>)
    requires
        forall|i: int| 0 <= i < bytes.len() ==> (#[trigger] bytes[i]) < 128,
    ensures
        utf8_text(bytes) == Some(bytes.map_values(|b: u8| b as char)),
        encode_utf8(bytes.map_values(|b: u8| b as char)) == bytes,
{
    let text = bytes.map_values(|b: u8| b as char);
    assert(is_ascii_chars(text));
    is_ascii_chars_encode_utf8(text);
    assert(encode_utf8(text) =~= bytes);
    encode_utf8_valid_utf8(text);
    encode_utf8_decode_utf8(text);
}

/// The decimal form of a number.
pub fn number(n: u64) -> (r: String)
    ensures
        r@ == number_text(n as nat),
{
    let mut digits: Vec<u8> = Vec::new();
    push_decimal(n, &mut digits);
    proof {
        assert(digits@ =~= decimal(n as nat));
        decimal_reads_back(n as nat);
        assert forall|i: int| 0 <= i < digits@.len() implies (#[trigger] digits@[i]) < 128 by {
            assert(is_digit(decimal(n as nat)[i]));
        }
        ascii_reads_back(digits@);
    }
    match std_from_utf8(digits) {
        Some(s) => s,
        None => String::new(),
    }
}

} // verus!
