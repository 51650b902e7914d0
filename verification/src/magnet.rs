//! Magnet links.

use crate::metainfo::texts;
use crate::text::{opt_text, same_text, text_of, utf8_text};
use crate::types::{base32_bytes, base32_value, hex_form_reads_back, hex_id, hex_text, same_bytes, InfoHash};
use crate::urls::{form_pairs, form_parse, pair_views};
use vstd::prelude::*;
use vstd::slice::slice_subrange;
use vstd::string::*;
use vstd::utf8::*;

verus! {

/// What a magnet link says.
#[derive(Debug)]
pub struct Magnet {
    /// The torrent's hash, where the link has one
    pub hash: Option<InfoHash>,
    /// The name to show until the metadata is there
    pub display_name: Option<String>,
    /// The urls of trackers
    pub trackers: Vec<String>,
}

/// Why a text is no magnet link.
#[derive(Debug, Clone, Copy, PartialEq, Eq, Structural)]
pub enum MagnetError {
    /// The text does not start with `magnet:?`
    NotAMagnet,
}

impl MagnetError {
    /// What the error reads like.
    pub fn message(&self) -> (r: String)
        ensures
            r@ == "not a magnet link"@,
    {
        "not a magnet link".to_string()
    }
}

/// What stands behind a prefix.
pub open spec fn behind(s: Seq<u8>, prefix: Seq<u8>) -> Option<Seq<u8>> {
    if s.len() >= prefix.len() && s.subrange(0, prefix.len() as int) == prefix {
        Some(s.subrange(prefix.len() as int, s.len() as int))
    } else {
        None
    }
}

/// What stands behind a prefix.
fn strip<'a>(s: &'a [u8], prefix: &[u8]) -> (r: Option<&'a [u8]>)
    ensures
        match r {
            Some(t) => behind(s@, prefix@) == Some(t@),
            None => behind(s@, prefix@) is None,
        },
{
    if s.len() < prefix.len() || !same_bytes(slice_subrange(s, 0, prefix.len()), prefix) {
        return None;
    }
    Some(slice_subrange(s, prefix.len(), s.len()))
}

/// The hash that a topic names: forty hexadecimal digits, or thirty-two of base 32, behind
/// `urn:btih:`.
pub open spec fn topic_hash(topic: Seq<char>) -> Option<Seq<u8>> {
    match behind(encode_utf8(topic), encode_utf8("urn:btih:"@)) {
        None => None,
        Some(digits) => match utf8_text(digits) {
            None => None,
            Some(text) => match hex_id(encode_utf8(text)) {
                Ok(h) => Some(h),
                Err(_) => if text.len() == 32 && base32_bytes(text) is Some && base32_bytes(
                    text,
                )->0.len() == 20 {
                    base32_bytes(text)
                } else {
                    None
                },
            },
        },
    }
}

/// The hash that a topic names.
fn read_topic(topic: &str) -> (r: Option<InfoHash>)
    ensures
        match r {
            Some(h) => topic_hash(topic@) == Some(h@),
            None => topic_hash(topic@) is None,
        },
{
    let digits = match strip(topic.as_bytes(), "urn:btih:".as_bytes()) {
        None => return None,
        Some(digits) => digits,
    };
    let text = match text_of(digits) {
        None => return None,
        Some(text) => text,
    };
    match InfoHash::from_hex(text.as_str()) {
        Ok(h) => Some(h),
        Err(_) => if text.as_str().unicode_len() == 32 {
            InfoHash::from_base32(text.as_str())
        } else {
            None
        },
    }
}

/// The first hash that the `xt` pairs of a link name.
pub open spec fn first_hash(pairs: Seq<(Seq<char>, Seq<char>)>) -> Option<Seq<u8>>
    decreases pairs.len(),
{
    if pairs.len() == 0 {
        None
    } else {
        match first_hash(pairs.drop_last()) {
            Some(h) => Some(h),
            None => if pairs.last().0 == "xt"@ {
                topic_hash(pairs.last().1)
            } else {
                None
            },
        }
    }
}

/// The first value of a key.
pub open spec fn first_value(pairs: Seq<(Seq<char>, Seq<char>)>, key: Seq<char>) -> Option<Seq<char>>
    decreases pairs.len(),
{
    if pairs.len() == 0 {
        None
    } else {
        match first_value(pairs.drop_last(), key) {
            Some(v) => Some(v),
            None => if pairs.last().0 == key {
                Some(pairs.last().1)
            } else {
                None
            },
        }
    }
}

/// The values of a key, in order.
pub open spec fn all_values(pairs: Seq<(Seq<char>, Seq<char>)>, key: Seq<char>) -> Seq<Seq<char>>
    decreases pairs.len(),
{
    if pairs.len() == 0 {
        Seq::empty()
    } else if pairs.last().0 == key {
        all_values(pairs.drop_last(), key).push(pairs.last().1)
    } else {
        all_values(pairs.drop_last(), key)
    }
}

/// What an optional hash says.
pub open spec fn opt_hash(h: Option<InfoHash>) -> Option<Seq<u8>> {
    match h {
        Some(h) => Some(h@),
        None => None,
    }
}

/// Behind its prefix a topic holds the digits that it was written with.
proof fn topic_holds_its_digits(digits: Seq<char>)
    requires
        is_ascii_chars(digits),
    ensures
        behind(encode_utf8("urn:btih:"@ + digits), encode_utf8("urn:btih:"@)) == Some(
            encode_utf8(digits),
        ),
        utf8_text(encode_utf8(digits)) == Some(digits),
        encode_utf8(digits).len() == digits.len(),
{
    reveal_strlit("urn:btih:");
    let prefix = "urn:btih:"@;
    let topic = prefix + digits;
    assert(is_ascii_chars(prefix));
    is_ascii_chars_concat(topic, prefix, digits);
    is_ascii_chars_encode_utf8(prefix);
    is_ascii_chars_encode_utf8(digits);
    is_ascii_chars_encode_utf8(topic);
    let written = encode_utf8(topic);
    assert(written.subrange(0, 9) =~= encode_utf8(prefix)) by {
        assert forall|i: int| 0 <= i < 9 implies written[i] == encode_utf8(prefix)[i] by {
            assert(written[i] == topic[i] as u8);
        }
    }
    assert(written.subrange(9, written.len() as int) =~= encode_utf8(digits)) by {
        assert forall|i: int| 0 <= i < digits.len() implies written[9 + i] == encode_utf8(
            digits,
        )[i] by {
            assert(written[9 + i] == topic[9 + i] as u8);
        }
    }
    encode_utf8_valid_utf8(digits);
    encode_utf8_decode_utf8(digits);
}

/// A topic that is written with a hash in hexadecimal names that hash.
pub proof fn hex_topic_names_its_hash(hash: Seq<u8>)
    requires
        hash.len() == 20,
    ensures
        topic_hash("urn:btih:"@ + hex_text(hash)) == Some(hash),
{
    let digits = hex_text(hash);
    assert(is_ascii_chars(digits)) by {
        assert forall|i: int| 0 <= i < digits.len() implies (digits[i] as nat) < 128 by {
            assert(hash[i / 2] / 16 < 16 && hash[i / 2] % 16 < 16);
        }
    }
    topic_holds_its_digits(digits);
    hex_form_reads_back(hash);
}

/// A topic that is written with thirty-two letters of base 32 names the hash that they write.
pub proof fn base32_topic_names_its_hash(letters: Seq<char>)
    requires
        letters.len() == 32,
        base32_bytes(letters) is Some,
    ensures
        topic_hash("urn:btih:"@ + letters) == base32_bytes(letters),
{
    assert(is_ascii_chars(letters)) by {
        assert forall|i: int| 0 <= i < letters.len() implies (letters[i] as nat) < 128 by {
            assert(base32_value(letters[i]) is Some);
        }
    }
    topic_holds_its_digits(letters);
}

impl Magnet {
    /// Whether the link says what the pairs of its query do.
    pub open spec fn says(self, pairs: Seq<(Seq<char>, Seq<char>)>) -> bool {
        &&& opt_hash(self.hash) == first_hash(pairs)
        &&& opt_text(self.display_name) == first_value(pairs, "dn"@)
        &&& texts(self.trackers@) == all_values(pairs, "tr"@)
    }

    /// Read a magnet link: its query names the torrent's hash (`xt`), the name to show (`dn`) and
    /// the trackers (`tr`).
    pub fn parse(uri: &str) -> (r: Result<Self, MagnetError>)
        requires
            96 * encode_utf8(uri@).len() <= isize::MAX,
        ensures
            match r {
                Ok(m) => behind(encode_utf8(uri@), encode_utf8("magnet:?"@)) matches Some(query)
                    && m.says(form_pairs(query)),
                Err(e) => e == MagnetError::NotAMagnet && behind(
                    encode_utf8(uri@),
                    encode_utf8("magnet:?"@),
                ) is None,
            },
    {
        match strip(uri.as_bytes(), "magnet:?".as_bytes()) {
            None => Err(MagnetError::NotAMagnet),
            Some(query) => Ok(Self::from_pairs(&form_parse(query))),
        }
    }

    /// The link whose query is made of the given pairs.
    pub fn from_pairs(pairs: &Vec<(String, String)>) -> (r: Self)
        ensures
            r.says(pair_views(pairs@)),
    {
        let mut magnet = Magnet { hash: None, display_name: None, trackers: Vec::new() };
        let ghost all = pair_views(pairs@);
        let mut i: usize = 0;
        assert(all.take(0) =~= Seq::empty());
        assert(texts(magnet.trackers@) =~= Seq::empty());
        while i < pairs.len()
            invariant
                i <= pairs.len(),
                all == pair_views(pairs@),
                magnet.says(all.take(i as int)),
            decreases pairs.len() - i,
        {
            let (key, value) = (&pairs[i].0, &pairs[i].1);
            let ghost seen = all.take(i as int);
            let ghost trackers = magnet.trackers@;
            proof {
                let next = all.take(i + 1);
                assert(next.drop_last() =~= seen);
                assert(next.last() == (key@, value@));
            }
            if magnet.hash.is_none() && same_text(key.as_str(), "xt") {
                magnet.hash = read_topic(value.as_str());
            }
            if magnet.display_name.is_none() && same_text(key.as_str(), "dn") {
                magnet.display_name = Some(value.clone());
            }
            if same_text(key.as_str(), "tr") {
                magnet.trackers.push(value.clone());
                assert(texts(magnet.trackers@) =~= texts(trackers).push(value@));
            }
            i = i + 1;
        }
        assert(all.take(i as int) =~= all);
        magnet
    }

    /// The torrent's hash, where the link has one
    pub fn info_hash(&self) -> (r: Option<InfoHash>)
        ensures
            r == self.hash,
    {
        self.hash
    }
}

} // verus!
