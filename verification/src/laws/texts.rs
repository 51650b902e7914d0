//! How numbers, hashes, paths and states are written for people and read from them.

use crate::decimal::{decimal, decimal_reads_back, digits_value};
use crate::detail::{tells_files, FileInfo, TorrentMeta};
use crate::metainfo::{FileView, InfoView, TorrentInfo};
use crate::path::{
    components, extension, file_name, is_name, last_dot, names_are_the_components, path_of, pushed,
    spans,
};
use crate::peer::error::{signed_text, ConnectionError};
use crate::rounding::{as_double, nearest, one_decimal, spacing, two_decimals};
use crate::status_line::{padded, rate_text, size_text, status_text, ReportedState, StatusSummary};
use crate::text::number_text;
use crate::types::{
    azureus_name, base32_bit, base32_byte, base32_bytes, base32_value, client_name, first_non_hex,
    hex_id, hex_parse, hex_text, hex_value, shadow_name, HexError, InfoHash,
};
use crate::utils::speed_text;
use crate::verify_torrent_file::{has_hash, piece_size, piece_start, right_so_far};
use vstd::arithmetic::div_mod::*;
use vstd::prelude::*;
use vstd::string::*;

verus! {

/// The nearest integer is no more than half away, and of two that are the even one is taken.
pub proof fn nearest_is_nearest(n: int, d: int)
    requires
        0 < d,
        0 <= n,
    ensures
        -d <= 2 * (nearest(n, d) * d - n) <= d,
        2 * (nearest(n, d) * d - n) == d || 2 * (nearest(n, d) * d - n) == -d ==> nearest(n, d) % 2
            == 0,
{
    let q = n / d;
    lemma_fundamental_div_mod(n, d);
    lemma_mod_bound(n, d);
    assert(q * d == d * q) by (nonlinear_arith);
    assert((q + 1) * d == q * d + d) by (nonlinear_arith);
}

/// Numbers that a double-precision number can hold stay as they are, and every other goes to one
/// that is a multiple of the spacing and no more than half of it away.
pub proof fn doubles_are_near(n: int)
    requires
        0 <= n <= u64::MAX,
    ensures
        n <= 0x20_0000_0000_0000 ==> as_double(n) == n,
        as_double(n) % spacing(n) == 0,
        -spacing(n) <= 2 * (as_double(n) - n) <= spacing(n),
        n < 0x20_0000_0000_0000 * spacing(n),
        spacing(n) > 1 ==> n >= 0x10_0000_0000_0000 * spacing(n),
{
    nearest_is_nearest(n, spacing(n));
    let s = spacing(n);
    let q = nearest(n, s);
    lemma_mod_multiples_basic(q, s);
    assert(q * s == s * q) by (nonlinear_arith);
    if s == 1 {
        assert(nearest(n, 1) == n);
    }
}

/// A size is counted in the largest unit of which it has one, and no unit is counted to more than
/// a thousand and twenty-four.
pub proof fn size_is_counted_in_its_unit(n: int)
    requires
        0 <= n,
    ensures
        n < 1024 ==> size_text(n) == number_text(n as nat) + " B"@,
        1024 <= n < 1024 * 1024 ==> size_text(n) == two_decimals(n, 1024) + " KB"@,
        1024 * 1024 <= n < 1024 * 1024 * 1024 ==> size_text(n) == two_decimals(n, 1024int * 1024) + " MB"@,
        1024 * 1024 * 1024 <= n < 1024 * 1024 * 1024 * 1024 ==> size_text(n) == two_decimals(
            n,
            1024int * 1024 * 1024,
        ) + " GB"@,
        1024 * 1024 * 1024 * 1024 <= n ==> size_text(n) == two_decimals(
            n,
            1024int * 1024 * 1024 * 1024,
        ) + " TB"@,
        rate_text(n) == size_text(n) + "/s"@,
{
}

/// A speed is counted likewise, and a size that is shown with its torrent is counted in terabytes
/// from a gigabyte on.
pub proof fn speed_is_counted_in_its_unit(n: int)
    requires
        0 <= n,
    ensures
        n < 1024 ==> speed_text(n) == number_text(n as nat) + " B/s"@,
        1024 <= n < 1024 * 1024 ==> speed_text(n) == one_decimal(n, 1024) + " KiB/s"@,
        1024 * 1024 <= n < 1024 * 1024 * 1024 ==> speed_text(n) == two_decimals(n, 1024int * 1024)
            + " MiB/s"@,
        1024 * 1024 * 1024 <= n ==> speed_text(n) == two_decimals(n, 1024int * 1024 * 1024)
            + " GiB/s"@,
        n < 1024 * 1024 * 1024 ==> crate::utils::size_text(n) == size_text(n),
        1024 * 1024 * 1024 <= n < 1024 * 1024 * 1024 * 1024 ==> crate::utils::size_text(n)
            == two_decimals(n, 1024int * 1024 * 1024 * 1024) + " GB"@,
        1024 * 1024 * 1024 * 1024 <= n ==> crate::utils::size_text(n) == size_text(n),
{
}

/// What is written with decimals is the whole part, a point and the digits behind it, of the
/// nearest multiple of a tenth or a hundredth.
pub proof fn decimals_stand_behind_the_point(n: int, unit: int, whole: int, tenth: int, hundredth: int)
    requires
        0 < unit,
        0 <= n,
        0 <= whole,
        0 <= tenth < 10,
        0 <= hundredth < 10,
    ensures
        nearest(as_double(n) * 100, unit) == 100 * whole + 10 * tenth + hundredth ==> two_decimals(
            n,
            unit,
        ) == number_text(whole as nat) + "."@ + number_text(tenth as nat) + number_text(
            hundredth as nat,
        ),
        nearest(as_double(n) * 10, unit) == 10 * whole + tenth ==> one_decimal(n, unit)
            == number_text(whole as nat) + "."@ + number_text(tenth as nat),
{
}

/// A number is written in digits that read back as the number, without a zero in front, and one
/// below zero behind a minus sign.
pub proof fn numbers_are_written_in_digits(n: nat, i: int)
    ensures
        number_text(n).len() > 0,
        0 <= i < number_text(n).len() ==> '0' <= number_text(n)[i] <= '9',
        digits_value(number_text(n).map_values(|c: char| c as u8)) == n,
        n > 0 ==> number_text(n)[0] != '0',
        n == 0 ==> number_text(n) == seq!['0'],
        n > 0 ==> signed_text(-(n as int)) == seq!['-'] + number_text(n),
        signed_text(n as int) == number_text(n),
{
    decimal_reads_back(n);
    let t = number_text(n);
    assert forall|j: int| 0 <= j < t.len() implies '0' <= #[trigger] t[j] <= '9' && t[j] as u8
        == decimal(n)[j] by {
        assert(crate::decimal::is_digit(decimal(n)[j]));
    }
    assert(t.map_values(|c: char| c as u8) =~= decimal(n));
    if n > 0 {
        no_zero_in_front(n);
        reveal_strlit("-");
        assert("-"@ =~= seq!['-']);
    } else {
        assert(t =~= seq!['0']);
    }
}

proof fn no_zero_in_front(n: nat)
    requires
        n > 0,
    ensures
        decimal(n).len() > 0,
        48 < decimal(n)[0] <= 57,
    decreases n,
{
    if n >= 10 {
        no_zero_in_front(n / 10);
    }
}

/// A failure of the network may pass and is worth another try; a breach of the protocol, another
/// torrent and a connection with ourselves are not.
pub proof fn only_the_network_is_tried_again(e: ConnectionError)
    ensures
        e is HandshakeTimeout || e is WriteStalled || e is Idle ==> e.transient(),
        e is Handshake || e is Protocol || e is Bitfield || e is SelfConnection ==> !e.transient(),
        e is Io ==> e.transient() == !(e->Io_0 is Other),
{
}

/// A line is filled up with spaces at its end, and never cut.
pub proof fn line_is_filled_up(t: Seq<char>, width: int, i: int)
    ensures
        padded(t, width).len() >= width,
        padded(t, width).len() >= t.len(),
        padded(t, width).take(t.len() as int) == t,
        t.len() >= width ==> padded(t, width) == t,
        t.len() <= i < padded(t, width).len() ==> padded(t, width)[i] == ' ',
        t.len() < width ==> padded(t, width).len() == width,
{
    assert(padded(t, width).take(t.len() as int) =~= t);
}

/// What a download, a seed and a check say of themselves.
pub proof fn status_says_what_is_going_on(s: StatusSummary)
    ensures
        s.state == ReportedState::Downloading ==> status_text(s) == "Progress: "@ + s.progress@
            + "%, dl from "@ + number_text(s.peers_connected as nat) + " of "@ + number_text(
            s.peers_discovered as nat,
        ) + " peers ("@ + rate_text(s.download_rate as int) + "), ul to 0 ("@ + rate_text(
            s.upload_rate as int,
        ) + ")"@,
        s.state == ReportedState::Seeding ==> status_text(s) == "Seeding, uploading to 0 of "@
            + number_text(s.peers_discovered as nat) + " peer(s), "@ + rate_text(
            s.upload_rate as int,
        ),
        s.state == ReportedState::Checking ==> status_text(s) == "Verifying local files ("@
            + s.progress@ + "%)"@,
        s.state == ReportedState::FetchingMetadata ==> status_text(s) == "Fetching metadata"@,
        s.state == ReportedState::Paused ==> status_text(s) == "Paused"@,
        s.state == ReportedState::Error ==> status_text(s) == "Error"@,
{
}

/// Each byte is written as two digits, the higher half first, and the digits stand for its halves.
pub proof fn byte_is_written_as_two_digits(b: Seq<u8>, i: int)
    requires
        0 <= i < b.len(),
    ensures
        hex_text(b).len() == 2 * b.len(),
        hex_value(hex_text(b)[2 * i] as u8) == Some((b[i] / 16) as u8),
        hex_value(hex_text(b)[2 * i + 1] as u8) == Some((b[i] % 16) as u8),
{
    assert((2 * i) / 2 == i && (2 * i + 1) / 2 == i);
    assert((2 * i) % 2 == 0 && (2 * i + 1) % 2 == 1);
    assert(b[i] / 16 < 16 && b[i] % 16 < 16);
}

/// Digits are worth what they stand for, in either case, and nothing else is a digit.
pub proof fn digits_are_worth_what_they_stand_for(k: u8)
    ensures
        k < 10 ==> hex_value((48 + k) as u8) == Some(k),
        k < 6 ==> hex_value((65 + k) as u8) == Some((10 + k) as u8),
        k < 6 ==> hex_value((97 + k) as u8) == Some((10 + k) as u8),
        k < 48 || 57 < k < 65 || 70 < k < 97 || 102 < k ==> hex_value(k) is None,
{
}

proof fn first_bad_digit(s: Seq<u8>, i: int)
    requires
        0 <= i <= s.len(),
    ensures
        match first_non_hex(s, i) {
            Some(k) => i <= k < s.len() && hex_value(s[k]) is None && forall|j: int|
                i <= j < k ==> hex_value(#[trigger] s[j]) is Some,
            None => forall|j: int| i <= j < s.len() ==> hex_value(#[trigger] s[j]) is Some,
        },
    decreases s.len() - i,
{
    if i < s.len() && hex_value(s[i]) is Some {
        first_bad_digit(s, i + 1);
    }
}

/// Digits are read in pairs; an odd one and the first that is none are reported.
pub proof fn digits_are_read_in_pairs(s: Seq<u8>, i: int, k: int)
    ensures
        s.len() % 2 != 0 ==> hex_parse(s) == Err::<Seq<u8>, HexError>(HexError::OddLength),
        s.len() % 2 == 0 && 0 <= k < s.len() && hex_value(s[k]) is None && (forall|j: int|
            0 <= j < k ==> hex_value(#[trigger] s[j]) is Some) ==> hex_parse(s) == Err::<
            Seq<u8>,
            HexError,
        >(HexError::InvalidHexCharacter { c: s[k] as char, index: k as usize }),
        s.len() % 2 == 0 && (forall|j: int| 0 <= j < s.len() ==> hex_value(#[trigger] s[j]) is Some)
            ==> {
            &&& hex_parse(s) is Ok && 2 * hex_parse(s)->Ok_0.len() == s.len()
            &&& 0 <= i < s.len() / 2 ==> hex_parse(s)->Ok_0[i] == 16 * hex_value(s[2 * i])->0
                + hex_value(s[2 * i + 1])->0
        },
{
    first_bad_digit(s, 0);
    if s.len() % 2 == 0 && (forall|j: int| 0 <= j < s.len() ==> hex_value(#[trigger] s[j]) is Some) {
        if 0 <= i < s.len() / 2 {
            assert(hex_value(s[2 * i]) is Some && hex_value(s[2 * i + 1]) is Some);
            assert(hex_value(s[2 * i])->0 < 16 && hex_value(s[2 * i + 1])->0 < 16);
        }
    }
}

/// A hash is forty digits, and no other number of them.
pub proof fn hash_is_forty_digits(s: Seq<u8>)
    ensures
        hex_id(s) is Ok ==> s.len() == 40 && hex_id(s)->Ok_0 == hex_parse(s)->Ok_0,
        s.len() != 40 ==> hex_id(s) is Err,
        s.len() == 40 && hex_parse(s) is Ok ==> hex_id(s) is Ok,
        hex_parse(s) is Ok && s.len() != 40 ==> hex_id(s) == Err::<Seq<u8>, HexError>(
            HexError::InvalidStringLength,
        ),
{
    first_bad_digit(s, 0);
}

/// The five bits of a letter make up its place in the alphabet, the first the highest.
pub proof fn letter_is_made_up_of_its_bits(text: Seq<char>, k: int)
    requires
        0 <= k < text.len(),
        base32_value(text[k]) is Some,
    ensures
        base32_value(text[k])->0 == 16 * base32_bit(text, 5 * k) + 8 * base32_bit(text, 5 * k + 1) + 4
            * base32_bit(text, 5 * k + 2) + 2 * base32_bit(text, 5 * k + 3) + base32_bit(
            text,
            5 * k + 4,
        ),
        text[k] == 'A' ==> base32_value(text[k]) == Some(0int),
        text[k] == 'Z' ==> base32_value(text[k]) == Some(25int),
        text[k] == '2' ==> base32_value(text[k]) == Some(26int),
        text[k] == '7' ==> base32_value(text[k]) == Some(31int),
{
    let v = base32_value(text[k])->0;
    assert(0 <= v < 32);
    assert((5 * k) / 5 == k && (5 * k + 1) / 5 == k && (5 * k + 2) / 5 == k && (5 * k + 3) / 5 == k
        && (5 * k + 4) / 5 == k);
    assert((5 * k) % 5 == 0 && (5 * k + 1) % 5 == 1 && (5 * k + 2) % 5 == 2 && (5 * k + 3) % 5 == 3
        && (5 * k + 4) % 5 == 4);
}

proof fn bit_is_zero_or_one(text: Seq<char>, b: int)
    ensures
        0 <= base32_bit(text, b) <= 1,
{
}

proof fn byte_holds_eight_bits(text: Seq<char>, b: int)
    ensures
        base32_byte(text, b) == 128 * base32_bit(text, b) + 64 * base32_bit(text, b + 1) + 32
            * base32_bit(text, b + 2) + 16 * base32_bit(text, b + 3) + 8 * base32_bit(text, b + 4) + 4
            * base32_bit(text, b + 5) + 2 * base32_bit(text, b + 6) + base32_bit(text, b + 7),
{
    bit_is_zero_or_one(text, b);
    bit_is_zero_or_one(text, b + 1);
    bit_is_zero_or_one(text, b + 2);
    bit_is_zero_or_one(text, b + 3);
    bit_is_zero_or_one(text, b + 4);
    bit_is_zero_or_one(text, b + 5);
    bit_is_zero_or_one(text, b + 6);
    bit_is_zero_or_one(text, b + 7);
}

/// The bytes that letters write hold the bits of the letters in order, eight each; with a character
/// that is no letter nothing is written.
#[verifier::rlimit(30)]
pub proof fn bytes_hold_the_bits_of_the_letters(text: Seq<char>, i: int)
    ensures
        (exists|j: int| 0 <= j < text.len() && base32_value(#[trigger] text[j]) is None)
            ==> base32_bytes(text) is None,
        (forall|j: int| 0 <= j < text.len() ==> base32_value(#[trigger] text[j]) is Some) ==> {
            &&& base32_bytes(text) is Some
            &&& base32_bytes(text)->0.len() == 5 * text.len() / 8
            &&& 0 <= i < 5 * text.len() / 8 ==> base32_bytes(text)->0[i] == 128 * base32_bit(
                text,
                8 * i,
            ) + 64 * base32_bit(text, 8 * i + 1) + 32 * base32_bit(text, 8 * i + 2) + 16
                * base32_bit(text, 8 * i + 3) + 8 * base32_bit(text, 8 * i + 4) + 4 * base32_bit(
                text,
                8 * i + 5,
            ) + 2 * base32_bit(text, 8 * i + 6) + base32_bit(text, 8 * i + 7)
        },
{
    if (forall|j: int| 0 <= j < text.len() ==> base32_value(#[trigger] text[j]) is Some) && 0 <= i < 5
        * text.len() / 8 {
        assert(base32_bytes(text)->0[i] == base32_byte(text, 8 * i));
        byte_holds_eight_bits(text, 8 * i);
    }
}

/// A client is known by the two letters between dashes where they name one, and else by its first
/// letter.
pub proof fn client_is_known_by_its_letters(id: Seq<u8>)
    requires
        id.len() == 20,
    ensures
        id[0] == 0x2d && id[7] == 0x2d && azureus_name(id[1], id[2]) is Some ==> client_name(id)
            == azureus_name(id[1], id[2]),
        id[0] != 0x2d || id[7] != 0x2d ==> client_name(id) == shadow_name(id[0]),
{
}

/// Whether a peer id has two letters between dashes.
pub open spec fn is_styled(id: Seq<u8>, letters: Seq<char>) -> bool {
    id.len() == 20 && letters.len() == 2 && id[0] == 0x2d && id[7] == 0x2d && id[1] == letters[0] as u8
        && id[2] == letters[1] as u8
}

/// Which letters between dashes stand for which client.
pub proof fn letters_stand_for_their_client(id: Seq<u8>)
    ensures
        is_styled(id, seq!['A', 'G']) ==> client_name(id) == Some("Artemis"),
        is_styled(id, seq!['A', '~']) ==> client_name(id) == Some("Ares"),
        is_styled(id, seq!['A', 'R']) ==> client_name(id) == Some("Arctic"),
        is_styled(id, seq!['A', 'V']) ==> client_name(id) == Some("Avicora"),
        is_styled(id, seq!['A', 'X']) ==> client_name(id) == Some("BitPump"),
        is_styled(id, seq!['A', 'Z']) ==> client_name(id) == Some("Azureus"),
        is_styled(id, seq!['B', 'B']) ==> client_name(id) == Some("BitBuddy"),
        is_styled(id, seq!['B', 'C']) ==> client_name(id) == Some("BitComet"),
        is_styled(id, seq!['B', 'F']) ==> client_name(id) == Some("Bitflu"),
        is_styled(id, seq!['B', 'G']) ==> client_name(id) == Some("BTG (BitTorrent G3)"),
        is_styled(id, seq!['B', 'R']) ==> client_name(id) == Some("BitRocket"),
        is_styled(id, seq!['B', 'S']) ==> client_name(id) == Some("BTSlave"),
        is_styled(id, seq!['B', 'X']) ==> client_name(id) == Some("~BareTorrent"),
        is_styled(id, seq!['C', 'D']) ==> client_name(id) == Some("Enhanced CTorrent"),
        is_styled(id, seq!['C', 'T']) ==> client_name(id) == Some("CTorrent"),
        is_styled(id, seq!['D', 'E']) ==> client_name(id) == Some("DelugeTorrent"),
        is_styled(id, seq!['D', 'P']) ==> client_name(id) == Some("Propagate Data Client"),
        is_styled(id, seq!['E', 'B']) ==> client_name(id) == Some("EBit"),
        is_styled(id, seq!['E', 'S']) ==> client_name(id) == Some("electric sheep"),
        is_styled(id, seq!['F', 'T']) ==> client_name(id) == Some("FoxTorrent"),
        is_styled(id, seq!['F', 'W']) ==> client_name(id) == Some("FrostWire"),
        is_styled(id, seq!['F', 'X']) ==> client_name(id) == Some("Freebox BitTorrent"),
        is_styled(id, seq!['G', 'S']) ==> client_name(id) == Some("GSTorrent"),
        is_styled(id, seq!['H', 'L']) ==> client_name(id) == Some("Halite"),
        is_styled(id, seq!['H', 'M']) ==> client_name(id) == Some("hMule"),
        is_styled(id, seq!['H', 'N']) ==> client_name(id) == Some("Hydranode"),
        is_styled(id, seq!['K', 'G']) ==> client_name(id) == Some("KGet"),
        is_styled(id, seq!['K', 'T']) ==> client_name(id) == Some("KTorrent"),
        is_styled(id, seq!['L', 'H']) ==> client_name(id) == Some("LH-ABC"),
        is_styled(id, seq!['L', 'P']) ==> client_name(id) == Some("LPhant"),
        is_styled(id, seq!['L', 'T']) ==> client_name(id) == Some("libtorrent"),
        is_styled(id, seq!['l', 't']) ==> client_name(id) == Some("libTorrent"),
        is_styled(id, seq!['L', 'W']) ==> client_name(id) == Some("LimeWire"),
        is_styled(id, seq!['M', 'O']) ==> client_name(id) == Some("MonoTorrent"),
        is_styled(id, seq!['M', 'P']) ==> client_name(id) == Some("MooPolice"),
        is_styled(id, seq!['M', 'R']) ==> client_name(id) == Some("Miro"),
        is_styled(id, seq!['M', 'T']) ==> client_name(id) == Some("MoonlightTorrent"),
        is_styled(id, seq!['N', 'X']) ==> client_name(id) == Some("Net Transport"),
        is_styled(id, seq!['P', 'D']) ==> client_name(id) == Some("Pando"),
        is_styled(id, seq!['q', 'B']) ==> client_name(id) == Some("qBittorrent"),
        is_styled(id, seq!['Q', 'D']) ==> client_name(id) == Some("QQDownload"),
        is_styled(id, seq!['Q', 'T']) ==> client_name(id) == Some("Qt 4 Torrent example"),
        is_styled(id, seq!['R', 'T']) ==> client_name(id) == Some("Retriever"),
        is_styled(id, seq!['S', '~']) ==> client_name(id) == Some("Shareaza"),
        is_styled(id, seq!['S', 'B']) ==> client_name(id) == Some("~Swiftbit"),
        is_styled(id, seq!['S', 'S']) ==> client_name(id) == Some("SwarmScope"),
        is_styled(id, seq!['S', 'T']) ==> client_name(id) == Some("SymTorrent"),
        is_styled(id, seq!['s', 't']) ==> client_name(id) == Some("sharktorrent"),
        is_styled(id, seq!['S', 'Z']) ==> client_name(id) == Some("Shareaza"),
        is_styled(id, seq!['T', 'N']) ==> client_name(id) == Some("TorrentDotNet"),
        is_styled(id, seq!['T', 'R']) ==> client_name(id) == Some("Transmission"),
        is_styled(id, seq!['T', 'S']) ==> client_name(id) == Some("Torrentstorm"),
        is_styled(id, seq!['T', 'T']) ==> client_name(id) == Some("TuoTu"),
        is_styled(id, seq!['U', 'L']) ==> client_name(id) == Some("uLeecher!"),
        is_styled(id, seq!['U', 'T']) ==> client_name(id) == Some("µTorrent"),
        is_styled(id, seq!['U', 'W']) ==> client_name(id) == Some("µTorrent Web"),
        is_styled(id, seq!['V', 'G']) ==> client_name(id) == Some("Vagaa"),
        is_styled(id, seq!['W', 'D']) ==> client_name(id) == Some("WebTorrent Desktop"),
        is_styled(id, seq!['W', 'T']) ==> client_name(id) == Some("Bitlet"),
        is_styled(id, seq!['W', 'Y']) ==> client_name(id) == Some("FireTorrent"),
        is_styled(id, seq!['X', 'F']) ==> client_name(id) == Some("Xfplay"),
        is_styled(id, seq!['X', 'L']) ==> client_name(id) == Some("Xunlei"),
        is_styled(id, seq!['X', 'S']) ==> client_name(id) == Some("Xirv"),
        is_styled(id, seq!['X', 'T']) ==> client_name(id) == Some("Xanadu"),
        is_styled(id, seq!['X', 'X']) ==> client_name(id) == Some("Xtorrent"),
        is_styled(id, seq!['Z', 'T']) ==> client_name(id) == Some("ZipTorrent"),
{
}

/// Which first letter stands for which client, where there are no dashes.
pub proof fn first_letter_stands_for_its_client(id: Seq<u8>)
    requires
        id.len() == 20,
    ensures
        id[0] == 0x41 ==> client_name(id) == Some("ABC"),
        id[0] == 0x4f ==> client_name(id) == Some("Osprey Permaseed"),
        id[0] == 0x51 ==> client_name(id) == Some("BTQueue"),
        id[0] == 0x52 ==> client_name(id) == Some("Tribler"),
        id[0] == 0x53 ==> client_name(id) == Some("Shadow"),
        id[0] == 0x54 ==> client_name(id) == Some("BitTornado"),
        id[0] == 0x55 ==> client_name(id) == Some("UPnP NAT BitTorrent"),
{
}

/// The file name of a path that is made of names is the last of them.
pub proof fn file_name_is_the_last_name(l: Seq<Seq<char>>)
    requires
        l.len() > 0,
        forall|k: int| 0 <= k < l.len() ==> is_name(#[trigger] l[k]),
        l.last() != seq!['.', '.'],
        path_of(l)[0] != '/',
    ensures
        file_name(path_of(l)) == Some(l.last()),
{
    names_are_the_components(l);
    let path = path_of(l);
    let f = |p: (int, int)| path.subrange(p.0, p.1);
    assert(components(path) =~= spans(path).map_values(f));
    assert(spans(path).len() == l.len());
    assert(components(path)[l.len() - 1] == l.last());
    assert(is_name(l[l.len() - 1]));
}

/// A name that is put behind a path is set off by one slash, and one that starts at the root stands
/// alone.
pub proof fn names_are_set_off_by_slashes(path: Seq<char>, name: Seq<char>)
    ensures
        name.len() > 0 && name[0] == '/' ==> pushed(path, name) == name,
        (name.len() == 0 || name[0] != '/') && path.len() > 0 && path.last() != '/' ==> pushed(
            path,
            name,
        ) == path + seq!['/'] + name,
        (name.len() == 0 || name[0] != '/') && (path.len() == 0 || path.last() == '/') ==> pushed(
            path,
            name,
        ) == path + name,
{
}

proof fn dot_is_last(name: Seq<char>, n: int, k: int)
    requires
        0 <= k < n <= name.len(),
        name[k] == '.',
        forall|j: int| k < j < n ==> name[j] != '.',
    ensures
        last_dot(name, n) == Some(k),
    decreases n,
{
    if k < n - 1 {
        dot_is_last(name, n - 1, k);
    }
}

/// The extension is what stands behind the last dot of the file name, unless the name begins with
/// that dot.
pub proof fn extension_stands_behind_the_last_dot(path: Seq<char>, name: Seq<char>, k: int)
    requires
        file_name(path) == Some(name),
        0 <= k < name.len(),
        name[k] == '.',
        forall|j: int| k < j < name.len() ==> name[j] != '.',
    ensures
        k > 0 ==> extension(path) == Some(name.skip(k + 1)),
        k == 0 ==> extension(path) is None,
{
    dot_is_last(name, name.len() as int, k);
    assert(name.subrange(k + 1, name.len() as int) =~= name.skip(k + 1));
}

/// What is told of a torrent is what its info says.
pub proof fn details_are_those_of_the_info(
    m: TorrentMeta,
    hash: InfoHash,
    info: InfoView,
    comment: Option<Seq<char>>,
    created_by: Option<Seq<char>>,
)
    requires
        m.tells(hash, info, comment, created_by),
        0 <= info.mode.total() <= u64::MAX,
        0 <= info.piece_length <= u32::MAX,
        info.pieces.len() <= u32::MAX,
    ensures
        m.info_hash == hash,
        m.name@ == info.mode.name(),
        m.total_bytes == info.mode.total(),
        m.piece_length == info.piece_length,
        m.num_pieces == info.pieces.len(),
        m.num_files == info.mode.files().len(),
        info.private == Some(1int) ==> m.is_private,
        info.private != Some(1int) ==> !m.is_private,
{
}

/// Every file is listed under its own number, with its path and its size.
pub proof fn files_are_listed_in_order(l: Seq<FileInfo>, files: Seq<FileView>, i: int)
    requires
        tells_files(l, files),
        0 <= i < files.len(),
        0 <= files[i].length <= u64::MAX,
    ensures
        l.len() == files.len(),
        l[i].index == i,
        l[i].path@ == files[i].path,
        l[i].size_bytes == files[i].length,
{
    let _ = l[i];
}

/// The pieces that a check reads lie one behind the other and reach to the end of the files.
pub proof fn checked_pieces_reach_to_the_end(t: TorrentInfo, i: int)
    requires
        0 <= i,
        0 < t.info.piece_length <= usize::MAX,
        0 <= t.says().info.mode.total() <= usize::MAX,
    ensures
        ({
            let length = t.info.piece_length as int;
            let total = t.says().info.mode.total();
            &&& piece_start(t, i) == i * length
            &&& (i + 1) * length <= total ==> piece_size(t, i) == length
            &&& i * length < total < (i + 1) * length ==> piece_size(t, i) == total - i * length
            &&& total <= i * length ==> piece_size(t, i) == 0
        }),
{
    let length = t.info.piece_length as int;
    assert((i + 1) * length == i * length + length) by (nonlinear_arith);
}

/// Content is right where every piece that was read has the hash of its own number, and wrong where
/// one has not.
pub proof fn one_wrong_piece_spoils_the_content(t: TorrentInfo, pieces: Seq<Vec<u8>>, n: int, k: int)
    requires
        0 <= k < n <= pieces.len(),
        k < t.info.pieces@.len(),
    ensures
        crate::hashing::sha1_digest(pieces[k]@) != t.info.pieces@[k]@ ==> !right_so_far(t, pieces, n),
        right_so_far(t, pieces, n) ==> crate::hashing::sha1_digest(pieces[k]@)
            == t.info.pieces@[k]@,
        n <= t.info.pieces@.len() && (forall|i: int|
            0 <= i < n ==> crate::hashing::sha1_digest(#[trigger] pieces[i]@) == t.info.pieces@[i]@)
            ==> right_so_far(t, pieces, n),
{
    if right_so_far(t, pieces, n) {
        assert(has_hash(t, k, pieces[k]@));
    }
}

} // verus!
