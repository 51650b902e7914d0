//! Sizes and speeds for people to read.

use crate::rounding::{one_decimal, two_decimals, with_one_decimal, with_two_decimals};
use crate::text::{number, number_text};
use vstd::prelude::*;
use vstd::string::*;

verus! {

/// What a speed reads like.
pub open spec fn speed_text(n: int) -> Seq<char> {
    if n < 0x400 {
        number_text(n as nat) + " B/s"@
    } else if n < 0x10_0000 {
        one_decimal(n, 0x400) + " KiB/s"@
    } else if n < 0x4000_0000 {
        two_decimals(n, 0x10_0000) + " MiB/s"@
    } else {
        two_decimals(n, 0x4000_0000) + " GiB/s"@
    }
}

/// What a size reads like; from a gigabyte on it is counted in terabytes.
pub open spec fn size_text(n: int) -> Seq<char> {
    if n < 0x400 {
        number_text(n as nat) + " B"@
    } else if n < 0x10_0000 {
        two_decimals(n, 0x400) + " KB"@
    } else if n < 0x4000_0000 {
        two_decimals(n, 0x10_0000) + " MB"@
    } else if n < 0x100_0000_0000 {
        two_decimals(n, 0x100_0000_0000) + " GB"@
    } else {
        two_decimals(n, 0x100_0000_0000) + " TB"@
    }
}

/// What a speed reads like
pub fn format_speed(bytes_per_second: u64) -> (r: String)
    ensures
        r@ == speed_text(bytes_per_second as int),
{
    if bytes_per_second < 0x400 {
        number(bytes_per_second).concat(" B/s")
    } else if bytes_per_second < 0x10_0000 {
        with_one_decimal(bytes_per_second, 0x400).concat(" KiB/s")
    } else if bytes_per_second < 0x4000_0000 {
        with_two_decimals(bytes_per_second, 0x10_0000).concat(" MiB/s")
    } else {
        with_two_decimals(bytes_per_second, 0x4000_0000).concat(" GiB/s")
    }
}

/// What a size reads like
pub fn format_bytes(bytes: u64) -> (r: String)
    ensures
        r@ == size_text(bytes as int),
{
    if bytes < 0x400 {
        number(bytes).concat(" B")
    } else if bytes < 0x10_0000 {
        with_two_decimals(bytes, 0x400).concat(" KB")
    } else if bytes < 0x4000_0000 {
        with_two_decimals(bytes, 0x10_0000).concat(" MB")
    } else if bytes < 0x100_0000_0000 {
        with_two_decimals(bytes, 0x100_0000_0000).concat(" GB")
    } else {
        with_two_decimals(bytes, 0x100_0000_0000).concat(" TB")
    }
}

} // verus!
