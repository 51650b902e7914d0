//! The status line of the command-line client.

use crate::rounding::{two_decimals, with_two_decimals};
use crate::text::{joined, number, number_text};
use vstd::prelude::*;
use vstd::string::*;

verus! {

/// What a torrent is doing, as the daemon reports it.
#[derive(Debug, Clone, Copy, PartialEq, Eq, Structural)]
pub enum ReportedState {
    FetchingMetadata,
    Checking,
    Downloading,
    Seeding,
    Paused,
    Error,
}

/// What the status line is made of.
#[derive(Debug)]
pub struct StatusSummary {
    pub state: ReportedState,
    /// The progress in percent, with one decimal
    pub progress: String,
    pub peers_connected: u64,
    pub peers_discovered: u64,
    pub download_rate: u64,
    pub upload_rate: u64,
}

/// What a size reads like.
pub open spec fn size_text(n: int) -> Seq<char> {
    if n < 0x400 {
        number_text(n as nat) + " B"@
    } else if n < 0x10_0000 {
        two_decimals(n, 0x400) + " KB"@
    } else if n < 0x4000_0000 {
        two_decimals(n, 0x10_0000) + " MB"@
    } else if n < 0x100_0000_0000 {
        two_decimals(n, 0x4000_0000) + " GB"@
    } else {
        two_decimals(n, 0x100_0000_0000) + " TB"@
    }
}

/// What a speed reads like.
pub open spec fn rate_text(n: int) -> Seq<char> {
    size_text(n) + "/s"@
}

/// What the status line says.
pub open spec fn status_text(s: StatusSummary) -> Seq<char> {
    match s.state {
        ReportedState::FetchingMetadata => "Fetching metadata"@,
        ReportedState::Checking => "Verifying local files ("@ + s.progress@ + "%)"@,
        ReportedState::Downloading => "Progress: "@ + s.progress@ + "%, dl from "@ + number_text(
            s.peers_connected as nat,
        ) + " of "@ + number_text(s.peers_discovered as nat) + " peers ("@ + rate_text(
            s.download_rate as int,
        ) + "), ul to 0 ("@ + rate_text(s.upload_rate as int) + ")"@,
        ReportedState::Seeding => "Seeding, uploading to 0 of "@ + number_text(
            s.peers_discovered as nat,
        ) + " peer(s), "@ + rate_text(s.upload_rate as int),
        ReportedState::Paused => "Paused"@,
        ReportedState::Error => "Error"@,
    }
}

/// A text filled up with spaces to at least `width` characters.
pub open spec fn padded(t: Seq<char>, width: int) -> Seq<char> {
    if t.len() >= width {
        t
    } else {
        t + Seq::new((width - t.len()) as nat, |i: int| ' ')
    }
}

/// What a size reads like
pub fn format_bytes(bytes: u64) -> (r: String)
    ensures
        r@ == size_text(bytes as int),
{
    if bytes < 0x400 {
        number(bytes).concat(" B")
    } else if bytes < 0x10_0000 {
        with_two_decimals(bytes, 0x400).concat(" KB")
    } else if bytes < 0x4000_0000 {
        with_two_decimals(bytes, 0x10_0000).concat(" MB")
    } else if bytes < 0x100_0000_0000 {
        with_two_decimals(bytes, 0x4000_0000).concat(" GB")
    } else {
        with_two_decimals(bytes, 0x100_0000_0000).concat(" TB")
    }
}

/// What a speed reads like
pub fn format_bytes_per_second(bytes_per_sec: u64) -> (r: String)
    ensures
        r@ == rate_text(bytes_per_sec as int),
{
    format_bytes(bytes_per_sec).concat("/s")
}

/// The status line, eighty characters wide or more
pub fn get_status_line(summary: &StatusSummary) -> (r: String)
    ensures
        r@ == padded(status_text(*summary), 80),
{
    let mut line: String = match summary.state {
        ReportedState::FetchingMetadata => String::from_str("Fetching metadata"),
        ReportedState::Checking => joined(
            "Verifying local files (",
            summary.progress.as_str(),
        ).concat("%)"),
        ReportedState::Downloading => joined("Progress: ", summary.progress.as_str()).concat(
            "%, dl from ",
        ).concat(number(summary.peers_connected).as_str()).concat(" of ").concat(
            number(summary.peers_discovered).as_str(),
        ).concat(" peers (").concat(format_bytes_per_second(summary.download_rate).as_str()).concat(
            "), ul to 0 (",
        ).concat(format_bytes_per_second(summary.upload_rate).as_str()).concat(")"),
        ReportedState::Seeding => joined(
            "Seeding, uploading to 0 of ",
            number(summary.peers_discovered).as_str(),
        ).concat(" peer(s), ").concat(format_bytes_per_second(summary.upload_rate).as_str()),
        ReportedState::Paused => String::from_str("Paused"),
        ReportedState::Error => String::from_str("Error"),
    };
    let ghost text = line@;
    assert(text == status_text(*summary));
    let mut n: usize = line.as_str().unicode_len();
    proof {
        reveal_strlit(" ");
        assert(" "@ =~= seq![' ']);
    }
    while n < 80
        invariant
            n == line@.len(),
            " "@ == seq![' '],
            line@.len() >= text.len(),
            line@.len() <= 80 || line@ == text,
            line@ == text + Seq::new((line@.len() - text.len()) as nat, |i: int| ' '),
        decreases 80 - n,
    {
        let ghost before = line@;
        line.append(" ");
        assert(line@ =~= text + Seq::new((line@.len() - text.len()) as nat, |i: int| ' '));
        n = n + 1;
    }
    assert(line@ =~= padded(text, 80));
    line
}

} // verus!
