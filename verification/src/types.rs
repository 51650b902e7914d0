//! Identifiers shared by every part of the client.

use vstd::prelude::*;
use vstd::utf8::*;

verus! {

/// The SHA-1 hash of a torrent's info dictionary: what names a torrent everywhere.
#[derive(Debug, Clone, Copy, PartialEq, Eq, Hash)]
pub struct InfoHash(pub [u8; 20]);

/// The name that a client gives itself when it talks to peers and trackers.
#[derive(Debug, Clone, Copy, PartialEq, Eq, Hash)]
pub struct PeerID(pub [u8; 20]);

/// Why a text is not the hexadecimal form of an identifier.
#[derive(Debug, Clone, Copy, PartialEq, Eq)]
pub enum HexError {
    /// A character that is no hexadecimal digit, and its position.
    InvalidHexCharacter { c: char, index: usize },
    /// The number of digits is odd.
    OddLength,
    /// The text is hexadecimal but does not stand for the right number of bytes.
    InvalidStringLength,
}

/// The value of a hexadecimal digit, in either case.
pub open spec fn hex_value(b: u8) -> Option<u8> {
    if 48 <= b <= 57 {
        Some((b - 48) as u8)
    } else if 65 <= b <= 70 {
        Some((b - 55) as u8)
    } else if 97 <= b <= 102 {
        Some((b - 87) as u8)
    } else {
        None
    }
}

/// The lower-case digit of a value under sixteen.
pub open spec fn hex_digit(v: u8) -> char {
    if v < 10 {
        (v + 48) as char
    } else {
        (v + 87) as char
    }
}

/// The hexadecimal form of a byte string, two lower-case digits to a byte.
pub open spec fn hex_text(bytes: Seq<u8>) -> Seq<char> {
    Seq::new(
        2 * bytes.len(),
        |i: int| if i % 2 == 0 { hex_digit(bytes[i / 2] / 16) } else { hex_digit(bytes[i / 2] % 16) },
    )
}

/// The first position at or after `i` that holds no hexadecimal digit.
pub open spec fn first_non_hex(digits: Seq<u8>, i: int) -> Option<int>
    decreases digits.len() - i,
{
    if i < 0 || i >= digits.len() {
        None
    } else if hex_value(digits[i]) is None {
        Some(i)
    } else {
        first_non_hex(digits, i + 1)
    }
}

/// What the UTF-8 bytes of a text stand for, read as hexadecimal digits.
pub open spec fn hex_parse(digits: Seq<u8>) -> Result<Seq<u8>, HexError> {
    if digits.len() % 2 != 0 {
        Err(HexError::OddLength)
    } else {
        match first_non_hex(digits, 0) {
            Some(i) => Err(HexError::InvalidHexCharacter { c: digits[i] as char, index: i as usize }),
            None => Ok(
                Seq::new(
                    digits.len() / 2,
                    |i: int| (hex_value(digits[2 * i])->0 * 16 + hex_value(digits[2 * i + 1])->0) as u8,
                ),
            ),
        }
    }
}

/// What `hex_parse` says of an identifier's text: twenty bytes, or an error.
pub open spec fn hex_id(digits: Seq<u8>) -> Result<Seq<u8>, HexError> {
    match hex_parse(digits) {
        Err(e) => Err(e),
        Ok(bytes) => if bytes.len() == 20 {
            Ok(bytes)
        } else {
            Err(HexError::InvalidStringLength)
        },
    }
}

/// The five bits that a character stands for in base 32, if it is a letter of the alphabet.
pub open spec fn base32_value(c: char) -> Option<int> {
    if 'A' <= c <= 'Z' {
        Some(c as int - 'A' as int)
    } else if '2' <= c <= '7' {
        Some(c as int - '2' as int + 26)
    } else {
        None
    }
}

/// Bit `b` of a text in base 32, of which every character holds five, the highest first.
pub open spec fn base32_bit(text: Seq<char>, b: int) -> int {
    let v = base32_value(text[b / 5])->0;
    let at = b % 5;
    if at == 0 {
        v / 16 % 2
    } else if at == 1 {
        v / 8 % 2
    } else if at == 2 {
        v / 4 % 2
    } else if at == 3 {
        v / 2 % 2
    } else {
        v % 2
    }
}

/// The byte that the eight bits from bit `b` on write.
pub open spec fn base32_byte(text: Seq<char>, b: int) -> u8 {
    (128 * base32_bit(text, b) + 64 * base32_bit(text, b + 1) + 32 * base32_bit(text, b + 2) + 16
        * base32_bit(text, b + 3) + 8 * base32_bit(text, b + 4) + 4 * base32_bit(text, b + 5) + 2
        * base32_bit(text, b + 6) + base32_bit(text, b + 7)) as u8
}

/// The bytes that a text writes in base 32 without padding: eight bits each, and bits left over
/// count for nothing. A text with any other character writes none.
pub open spec fn base32_bytes(text: Seq<char>) -> Option<Seq<u8>> {
    if forall|i: int| 0 <= i < text.len() ==> base32_value(#[trigger] text[i]) is Some {
        Some(Seq::new(text.len() * 5 / 8, |i: int| base32_byte(text, 8 * i)))
    } else {
        None
    }
}

/// `hex::encode`: two lower-case digits for every byte, no more than can be allocated.
#[verifier::external_body]
fn hex_encode(bytes: &[u8]) -> (r: String)
    requires
        2 * bytes.len() <= isize::MAX,
    ensures
        r@ == hex_text(bytes@),
{
    hex::encode(bytes)
}

/// `hex::decode`: the bytes that the text's digits stand for; an odd number of digits is
/// reported before a bad digit, and of the bad digits the first.
#[verifier::external_body]
fn hex_decode(text: &str) -> (r: Result<Vec<u8>, HexError>)
    ensures
        match r {
            Ok(v) => hex_parse(encode_utf8(text@)) == Ok::<Seq<u8>, HexError>(v@),
            Err(e) => hex_parse(encode_utf8(text@)) == Err::<Seq<u8>, HexError>(e),
        },
{
    match hex::decode(text) {
        Ok(v) => Ok(v),
        Err(hex::FromHexError::InvalidHexCharacter { c, index }) => Err(
            HexError::InvalidHexCharacter { c, index },
        ),
        Err(hex::FromHexError::OddLength) => Err(HexError::OddLength),
        Err(hex::FromHexError::InvalidStringLength) => Err(HexError::InvalidStringLength),
    }
}

/// `base32::decode` with the RFC 4648 alphabet, unpadded: the bytes that the text writes, or none
/// where it holds a character that is not of the alphabet. The crate counts the bits of the text,
/// which has up to four bytes for a character, in a `usize`.
#[verifier::external_body]
fn base32_decode(text: &str) -> (r: Option<Vec<u8>>)
    requires
        20 * text@.len() <= usize::MAX,
    ensures
        match r {
            Some(v) => base32_bytes(text@) == Some(v@),
            None => base32_bytes(text@) is None,
        },
{
    base32::decode(base32::Alphabet::Rfc4648 { padding: false }, text)
}

/// `fill_bytes` of the thread's generator in `rand`: twelve bytes, any of them.
#[verifier::external_body]
fn random_bytes() -> (r: [u8; 12]) {
    let mut tail = [0u8; 12];
    rand::Rng::fill_bytes(&mut rand::rng(), &mut tail);
    tail
}

/// Whether two byte strings are equal.
pub fn same_bytes(a: &[u8], b: &[u8]) -> (r: bool)
    ensures
        r == (a@ == b@),
{
    if a.len() != b.len() {
        return false;
    }
    let mut i: usize = 0;
    while i < a.len()
        invariant
            i <= a.len(),
            a.len() == b.len(),
            forall|j: int| 0 <= j < i ==> a[j] == b[j],
        decreases a.len() - i,
    {
        if a[i] != b[i] {
            return false;
        }
        i = i + 1;
    }
    assert(a@ =~= b@);
    true
}

/// Twenty bytes of a slice as an array, where there are twenty.
fn array_of_twenty(slice: &[u8]) -> (r: Option<[u8; 20]>)
    ensures
        match r {
            Some(a) => slice.len() == 20 && a@ == slice@,
            None => slice.len() != 20,
        },
{
    if slice.len() != 20 {
        return None;
    }
    let mut array: [u8; 20] = [0u8; 20];
    let mut i: usize = 0;
    while i < 20
        invariant
            i <= 20,
            slice.len() == 20,
            array@.len() == 20,
            forall|j: int| 0 <= j < i ==> array@[j] == slice[j],
        decreases 20 - i,
    {
        array[i] = slice[i];
        i = i + 1;
    }
    assert(array@ =~= slice@);
    Some(array)
}

/// The client that an Azureus-style id names by its two letters.
pub open spec fn azureus_name(a: u8, b: u8) -> Option<&'static str> {
    match (a, b) {
        (65, 71) => Some("Artemis"),
        (65, 126) => Some("Ares"),
        (65, 82) => Some("Arctic"),
        (65, 86) => Some("Avicora"),
        (65, 88) => Some("BitPump"),
        (65, 90) => Some("Azureus"),
        (66, 66) => Some("BitBuddy"),
        (66, 67) => Some("BitComet"),
        (66, 70) => Some("Bitflu"),
        (66, 71) => Some("BTG (BitTorrent G3)"),
        (66, 82) => Some("BitRocket"),
        (66, 83) => Some("BTSlave"),
        (66, 88) => Some("~BareTorrent"),
        (67, 68) => Some("Enhanced CTorrent"),
        (67, 84) => Some("CTorrent"),
        (68, 69) => Some("DelugeTorrent"),
        (68, 80) => Some("Propagate Data Client"),
        (69, 66) => Some("EBit"),
        (69, 83) => Some("electric sheep"),
        (70, 84) => Some("FoxTorrent"),
        (70, 87) => Some("FrostWire"),
        (70, 88) => Some("Freebox BitTorrent"),
        (71, 83) => Some("GSTorrent"),
        (72, 76) => Some("Halite"),
        (72, 77) => Some("hMule"),
        (72, 78) => Some("Hydranode"),
        (75, 71) => Some("KGet"),
        (75, 84) => Some("KTorrent"),
        (76, 72) => Some("LH-ABC"),
        (76, 80) => Some("LPhant"),
        (76, 84) => Some("libtorrent"),
        (108, 116) => Some("libTorrent"),
        (76, 87) => Some("LimeWire"),
        (77, 79) => Some("MonoTorrent"),
        (77, 80) => Some("MooPolice"),
        (77, 82) => Some("Miro"),
        (77, 84) => Some("MoonlightTorrent"),
        (78, 88) => Some("Net Transport"),
        (80, 68) => Some("Pando"),
        (113, 66) => Some("qBittorrent"),
        (81, 68) => Some("QQDownload"),
        (81, 84) => Some("Qt 4 Torrent example"),
        (82, 84) => Some("Retriever"),
        (83, 126) => Some("Shareaza"),
        (83, 66) => Some("~Swiftbit"),
        (83, 83) => Some("SwarmScope"),
        (83, 84) => Some("SymTorrent"),
        (115, 116) => Some("sharktorrent"),
        (83, 90) => Some("Shareaza"),
        (84, 78) => Some("TorrentDotNet"),
        (84, 82) => Some("Transmission"),
        (84, 83) => Some("Torrentstorm"),
        (84, 84) => Some("TuoTu"),
        (85, 76) => Some("uLeecher!"),
        (85, 84) => Some("µTorrent"),
        (85, 87) => Some("µTorrent Web"),
        (86, 71) => Some("Vagaa"),
        (87, 68) => Some("WebTorrent Desktop"),
        (87, 84) => Some("Bitlet"),
        (87, 89) => Some("FireTorrent"),
        (88, 70) => Some("Xfplay"),
        (88, 76) => Some("Xunlei"),
        (88, 83) => Some("Xirv"),
        (88, 84) => Some("Xanadu"),
        (88, 88) => Some("Xtorrent"),
        (90, 84) => Some("ZipTorrent"),
        _ => None,
    }
}

/// The client that a Shadow-style id names by its first letter.
pub open spec fn shadow_name(a: u8) -> Option<&'static str> {
    match a {
        65 => Some("ABC"),
        79 => Some("Osprey Permaseed"),
        81 => Some("BTQueue"),
        82 => Some("Tribler"),
        83 => Some("Shadow"),
        84 => Some("BitTornado"),
        85 => Some("UPnP NAT BitTorrent"),
        _ => None,
    }
}

/// The client that a peer id names: two letters between dashes first, then the first letter.
pub open spec fn client_name(id: Seq<u8>) -> Option<&'static str> {
    if id[0] == 45 && id[7] == 45 && azureus_name(id[1], id[2]) is Some {
        azureus_name(id[1], id[2])
    } else {
        shadow_name(id[0])
    }
}

fn azureus_client(a: u8, b: u8) -> (r: Option<&'static str>)
    ensures
        r == azureus_name(a, b),
{
    match (a, b) {
        (65, 71) => Some("Artemis"),
        (65, 126) => Some("Ares"),
        (65, 82) => Some("Arctic"),
        (65, 86) => Some("Avicora"),
        (65, 88) => Some("BitPump"),
        (65, 90) => Some("Azureus"),
        (66, 66) => Some("BitBuddy"),
        (66, 67) => Some("BitComet"),
        (66, 70) => Some("Bitflu"),
        (66, 71) => Some("BTG (BitTorrent G3)"),
        (66, 82) => Some("BitRocket"),
        (66, 83) => Some("BTSlave"),
        (66, 88) => Some("~BareTorrent"),
        (67, 68) => Some("Enhanced CTorrent"),
        (67, 84) => Some("CTorrent"),
        (68, 69) => Some("DelugeTorrent"),
        (68, 80) => Some("Propagate Data Client"),
        (69, 66) => Some("EBit"),
        (69, 83) => Some("electric sheep"),
        (70, 84) => Some("FoxTorrent"),
        (70, 87) => Some("FrostWire"),
        (70, 88) => Some("Freebox BitTorrent"),
        (71, 83) => Some("GSTorrent"),
        (72, 76) => Some("Halite"),
        (72, 77) => Some("hMule"),
        (72, 78) => Some("Hydranode"),
        (75, 71) => Some("KGet"),
        (75, 84) => Some("KTorrent"),
        (76, 72) => Some("LH-ABC"),
        (76, 80) => Some("LPhant"),
        (76, 84) => Some("libtorrent"),
        (108, 116) => Some("libTorrent"),
        (76, 87) => Some("LimeWire"),
        (77, 79) => Some("MonoTorrent"),
        (77, 80) => Some("MooPolice"),
        (77, 82) => Some("Miro"),
        (77, 84) => Some("MoonlightTorrent"),
        (78, 88) => Some("Net Transport"),
        (80, 68) => Some("Pando"),
        (113, 66) => Some("qBittorrent"),
        (81, 68) => Some("QQDownload"),
        (81, 84) => Some("Qt 4 Torrent example"),
        (82, 84) => Some("Retriever"),
        (83, 126) => Some("Shareaza"),
        (83, 66) => Some("~Swiftbit"),
        (83, 83) => Some("SwarmScope"),
        (83, 84) => Some("SymTorrent"),
        (115, 116) => Some("sharktorrent"),
        (83, 90) => Some("Shareaza"),
        (84, 78) => Some("TorrentDotNet"),
        (84, 82) => Some("Transmission"),
        (84, 83) => Some("Torrentstorm"),
        (84, 84) => Some("TuoTu"),
        (85, 76) => Some("uLeecher!"),
        (85, 84) => Some("µTorrent"),
        (85, 87) => Some("µTorrent Web"),
        (86, 71) => Some("Vagaa"),
        (87, 68) => Some("WebTorrent Desktop"),
        (87, 84) => Some("Bitlet"),
        (87, 89) => Some("FireTorrent"),
        (88, 70) => Some("Xfplay"),
        (88, 76) => Some("Xunlei"),
        (88, 83) => Some("Xirv"),
        (88, 84) => Some("Xanadu"),
        (88, 88) => Some("Xtorrent"),
        (90, 84) => Some("ZipTorrent"),
        _ => None,
    }
}

fn shadow_client(a: u8) -> (r: Option<&'static str>)
    ensures
        r == shadow_name(a),
{
    match a {
        65 => Some("ABC"),
        79 => Some("Osprey Permaseed"),
        81 => Some("BTQueue"),
        82 => Some("Tribler"),
        83 => Some("Shadow"),
        84 => Some("BitTornado"),
        85 => Some("UPnP NAT BitTorrent"),
        _ => None,
    }
}

impl View for InfoHash {
    type V = Seq<u8>;

    open spec fn view(&self) -> Seq<u8> {
        self.0@
    }
}

impl View for PeerID {
    type V = Seq<u8>;

    open spec fn view(&self) -> Seq<u8> {
        self.0@
    }
}

impl InfoHash {
    /// Create a new InfoHash from a 20-byte array
    pub fn new(hash: [u8; 20]) -> (r: Self)
        ensures
            r == InfoHash(hash),
    {
        Self(hash)
    }

    /// Create InfoHash from a slice (returns None if not exactly 20 bytes)
    pub fn from_slice(slice: &[u8]) -> (r: Option<Self>)
        ensures
            match r {
                Some(h) => slice.len() == 20 && h@ == slice@,
                None => slice.len() != 20,
            },
    {
        match array_of_twenty(slice) {
            Some(a) => Some(Self(a)),
            None => None,
        }
    }

    /// Get the underlying byte array
    pub fn as_bytes(&self) -> (r: &[u8; 20])
        ensures
            *r == self.0,
    {
        &self.0
    }

    /// Convert to a byte slice
    pub fn as_slice(&self) -> (r: &[u8])
        ensures
            r@ == self@,
    {
        self.0.as_slice()
    }

    /// Convert to hex string
    pub fn to_hex(&self) -> (r: String)
        ensures
            r@ == hex_text(self@),
    {
        hex_encode(self.0.as_slice())
    }

    /// Create from hex string
    pub fn from_hex(hex_str: &str) -> (r: Result<Self, HexError>)
        ensures
            match r {
                Ok(h) => hex_id(encode_utf8(hex_str@)) == Ok::<Seq<u8>, HexError>(h@),
                Err(e) => hex_id(encode_utf8(hex_str@)) == Err::<Seq<u8>, HexError>(e),
            },
    {
        match hex_decode(hex_str) {
            Err(e) => Err(e),
            Ok(bytes) => match Self::from_slice(bytes.as_slice()) {
                Some(h) => Ok(h),
                None => Err(HexError::InvalidStringLength),
            },
        }
    }

    /// Create from Base32 string (RFC 4648, standard alphabet, no padding)
    pub fn from_base32(base32_str: &str) -> (r: Option<Self>)
        requires
            20 * base32_str@.len() <= usize::MAX,
        ensures
            match r {
                Some(h) => base32_bytes(base32_str@) == Some(h@),
                None => base32_bytes(base32_str@) is None || base32_bytes(base32_str@)->0.len()
                    != 20,
            },
    {
        match base32_decode(base32_str) {
            None => None,
            Some(bytes) => Self::from_slice(bytes.as_slice()),
        }
    }

    /// Whether two hashes name the same torrent.
    pub fn same(&self, other: &InfoHash) -> (r: bool)
        ensures
            r == (self@ == other@),
            r == (*self == *other),
    {
        proof {
            if self@ == other@ {
                assert(self.0 =~= other.0);
            }
        }
        same_bytes(self.0.as_slice(), other.0.as_slice())
    }
}

impl PeerID {
    /// Create a new PeerID from a 20-byte array
    pub fn new(id: [u8; 20]) -> (r: Self)
        ensures
            r == PeerID(id),
    {
        Self(id)
    }

    /// The peer id of this client that ends in the given bytes.
    pub fn with_tail(tail: [u8; 12]) -> (r: Self)
        ensures
            r@ == seq![45u8, 82, 83, 48, 48, 48, 48, 45] + tail@,
    {
        let mut id: [u8; 20] = [45, 82, 83, 48, 48, 48, 48, 45, 0, 0, 0, 0, 0, 0, 0, 0, 0, 0, 0, 0];
        let mut i: usize = 0;
        while i < 12
            invariant
                i <= 12,
                id@.len() == 20,
                tail@.len() == 12,
                id@.subrange(0, 8) == seq![45u8, 82, 83, 48, 48, 48, 48, 45],
                forall|j: int| 0 <= j < i ==> id@[8 + j] == tail@[j],
            decreases 12 - i,
        {
            let ghost before = id@;
            id[8 + i] = tail[i];
            assert(id@.subrange(0, 8) =~= before.subrange(0, 8));
            i = i + 1;
        }
        assert forall|j: int| 0 <= j < 20 implies id@[j] == (seq![45u8, 82, 83, 48, 48, 48, 48, 45]
            + tail@)[j] by {
            if j < 8 {
                assert(id@[j] == id@.subrange(0, 8)[j]);
            } else {
                assert(id@[8 + (j - 8)] == tail@[j - 8]);
            }
        }
        assert(id@ =~= seq![45u8, 82, 83, 48, 48, 48, 48, 45] + tail@);
        Self(id)
    }

    /// Generate a BEP 20 peer ID: the client's eight-byte prefix, then random bytes.
    pub fn generate() -> (r: Self)
        ensures
            r@.subrange(0, 8) == seq![45u8, 82, 83, 48, 48, 48, 48, 45],
    {
        let r = Self::with_tail(random_bytes());
        assert(r@.subrange(0, 8) =~= seq![45u8, 82, 83, 48, 48, 48, 48, 45]);
        r
    }

    /// Create PeerID from a slice (returns None if not exactly 20 bytes)
    pub fn from_slice(slice: &[u8]) -> (r: Option<Self>)
        ensures
            match r {
                Some(h) => slice.len() == 20 && h@ == slice@,
                None => slice.len() != 20,
            },
    {
        match array_of_twenty(slice) {
            Some(a) => Some(Self(a)),
            None => None,
        }
    }

    /// Get the underlying byte array
    pub fn as_bytes(&self) -> (r: &[u8; 20])
        ensures
            *r == self.0,
    {
        &self.0
    }

    /// Convert to a byte slice
    pub fn as_slice(&self) -> (r: &[u8])
        ensures
            r@ == self@,
    {
        self.0.as_slice()
    }

    /// Convert to hex string
    pub fn to_hex(&self) -> (r: String)
        ensures
            r@ == hex_text(self@),
    {
        hex_encode(self.0.as_slice())
    }

    /// Create from hex string
    pub fn from_hex(hex_str: &str) -> (r: Result<Self, HexError>)
        ensures
            match r {
                Ok(h) => hex_id(encode_utf8(hex_str@)) == Ok::<Seq<u8>, HexError>(h@),
                Err(e) => hex_id(encode_utf8(hex_str@)) == Err::<Seq<u8>, HexError>(e),
            },
    {
        match hex_decode(hex_str) {
            Err(e) => Err(e),
            Ok(bytes) => match Self::from_slice(bytes.as_slice()) {
                Some(h) => Ok(h),
                None => Err(HexError::InvalidStringLength),
            },
        }
    }

    /// Identify the client name from the PeerID using BEP 20 conventions
    pub fn identify_client(&self) -> (r: Option<&'static str>)
        ensures
            r == client_name(self@),
    {
        if self.0[0] == 45 && self.0[7] == 45 {
            let named = azureus_client(self.0[1], self.0[2]);
            if named.is_some() {
                return named;
            }
        }
        shadow_client(self.0[0])
    }
}

impl From<[u8; 20]> for InfoHash {
    fn from(hash: [u8; 20]) -> (r: Self) {
        Self::new(hash)
    }
}

impl vstd::std_specs::convert::FromSpecImpl<[u8; 20]> for InfoHash {
    open spec fn obeys_from_spec() -> bool {
        true
    }

    open spec fn from_spec(hash: [u8; 20]) -> Self {
        InfoHash(hash)
    }
}

impl From<[u8; 20]> for PeerID {
    fn from(id: [u8; 20]) -> (r: Self) {
        Self::new(id)
    }
}

impl vstd::std_specs::convert::FromSpecImpl<[u8; 20]> for PeerID {
    open spec fn obeys_from_spec() -> bool {
        true
    }

    open spec fn from_spec(id: [u8; 20]) -> Self {
        PeerID(id)
    }
}

/// The hexadecimal form of an identifier is read back as that identifier.
pub proof fn hex_form_reads_back(bytes: Seq<u8>)
    requires
        bytes.len() == 20,
    ensures
        hex_id(encode_utf8(hex_text(bytes))) == Ok::<Seq<u8>, HexError>(bytes),
{
    let text = hex_text(bytes);
    assert(is_ascii_chars(text)) by {
        assert forall|i: int| 0 <= i < text.len() implies (text[i] as nat) < 128 by {
            assert(bytes[i / 2] / 16 < 16 && bytes[i / 2] % 16 < 16);
        }
    }
    is_ascii_chars_encode_utf8(text);
    let digits = encode_utf8(text);
    assert forall|i: int| 0 <= i < digits.len() implies #[trigger] hex_value(digits[i]) == Some(
        if i % 2 == 0 {
            (bytes[i / 2] / 16) as u8
        } else {
            (bytes[i / 2] % 16) as u8
        },
    ) by {
        assert(digits[i] == text[i] as u8);
    }
    all_hex_digits(digits, 0);
    let parsed = hex_parse(digits)->Ok_0;
    assert forall|i: int| 0 <= i < 20 implies parsed[i] == bytes[i] by {
        assert(hex_value(digits[2 * i]) is Some && hex_value(digits[2 * i + 1]) is Some);
    }
    assert(parsed =~= bytes);
}

proof fn all_hex_digits(digits: Seq<u8>, i: int)
    requires
        0 <= i <= digits.len(),
        forall|j: int| i <= j < digits.len() ==> (#[trigger] hex_value(digits[j])) is Some,
    ensures
        first_non_hex(digits, i) is None,
    decreases digits.len() - i,
{
    if i < digits.len() {
        assert(hex_value(digits[i]) is Some);
        all_hex_digits(digits, i + 1);
    }
}

} // verus!
