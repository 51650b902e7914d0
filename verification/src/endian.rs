//! Integers in network byte order, the most significant byte first.

use vstd::prelude::*;

verus! {

/// The two bytes of a number.
pub open spec fn be16(n: u16) -> Seq<u8> {
    seq![(n / 0x100) as u8, (n % 0x100) as u8]
}

/// The four bytes of a number.
pub open spec fn be32(n: u32) -> Seq<u8> {
    seq![
        (n / 0x100_0000) as u8,
        (n / 0x1_0000 % 0x100) as u8,
        (n / 0x100 % 0x100) as u8,
        (n % 0x100) as u8,
    ]
}

/// The eight bytes of a number.
pub open spec fn be64(n: u64) -> Seq<u8> {
    be32((n / 0x1_0000_0000) as u32) + be32((n % 0x1_0000_0000) as u32)
}

/// The number that two bytes stand for.
pub open spec fn read16(s: Seq<u8>, i: int) -> int {
    s[i] * 0x100 + s[i + 1]
}

/// The number that four bytes stand for.
pub open spec fn read32(s: Seq<u8>, i: int) -> int {
    s[i] * 0x100_0000 + s[i + 1] * 0x1_0000 + s[i + 2] * 0x100 + s[i + 3]
}

/// The number that eight bytes stand for.
pub open spec fn read64(s: Seq<u8>, i: int) -> int {
    read32(s, i) * 0x1_0000_0000 + read32(s, i + 4)
}

/// A number reads back from its bytes, wherever they stand.
pub proof fn be32_reads_back(n: u32, s: Seq<u8>, i: int)
    requires
        0 <= i,
        i + 4 <= s.len(),
        s.subrange(i, i + 4) == be32(n),
    ensures
        read32(s, i) == n,
{
    let b = s.subrange(i, i + 4);
    assert(b[0] == s[i] && b[1] == s[i + 1] && b[2] == s[i + 2] && b[3] == s[i + 3]);
}

/// A number reads back from its bytes, wherever they stand.
pub proof fn be16_reads_back(n: u16, s: Seq<u8>, i: int)
    requires
        0 <= i,
        i + 2 <= s.len(),
        s.subrange(i, i + 2) == be16(n),
    ensures
        read16(s, i) == n,
{
    let b = s.subrange(i, i + 2);
    assert(b[0] == s[i] && b[1] == s[i + 1]);
}

/// A number reads back from its bytes, wherever they stand.
pub proof fn be64_reads_back(n: u64, s: Seq<u8>, i: int)
    requires
        0 <= i,
        i + 8 <= s.len(),
        s.subrange(i, i + 8) == be64(n),
    ensures
        read64(s, i) == n,
{
    let b = s.subrange(i, i + 8);
    assert(s.subrange(i, i + 4) =~= b.subrange(0, 4));
    assert(s.subrange(i + 4, i + 8) =~= b.subrange(4, 8));
    assert(b.subrange(0, 4) =~= be32((n / 0x1_0000_0000) as u32));
    assert(b.subrange(4, 8) =~= be32((n % 0x1_0000_0000) as u32));
    be32_reads_back((n / 0x1_0000_0000) as u32, s, i);
    be32_reads_back((n % 0x1_0000_0000) as u32, s, i + 4);
}

/// Appends the two bytes of a number.
pub fn push_be16(out: &mut Vec<u8>, n: u16)
    ensures
        final(out)@ == old(out)@ + be16(n),
{
    let ghost before = out@;
    out.push((n / 0x100) as u8);
    out.push((n % 0x100) as u8);
    assert(out@ =~= before + be16(n));
}

/// Appends the four bytes of a number.
pub fn push_be32(out: &mut Vec<u8>, n: u32)
    ensures
        final(out)@ == old(out)@ + be32(n),
{
    let ghost before = out@;
    out.push((n / 0x100_0000) as u8);
    out.push((n / 0x1_0000 % 0x100) as u8);
    out.push((n / 0x100 % 0x100) as u8);
    out.push((n % 0x100) as u8);
    assert(out@ =~= before + be32(n));
}

/// Appends the eight bytes of a number.
pub fn push_be64(out: &mut Vec<u8>, n: u64)
    ensures
        final(out)@ == old(out)@ + be64(n),
{
    let ghost before = out@;
    push_be32(out, (n / 0x1_0000_0000) as u32);
    push_be32(out, (n % 0x1_0000_0000) as u32);
    assert(out@ =~= before + be64(n));
}

/// The number that the two bytes at a position stand for.
pub fn get_be16(s: &[u8], i: usize) -> (r: u16)
    requires
        i + 2 <= s.len(),
    ensures
        r == read16(s@, i as int),
{
    s[i] as u16 * 0x100 + s[i + 1] as u16
}

/// The number that the four bytes at a position stand for.
pub fn get_be32(s: &[u8], i: usize) -> (r: u32)
    requires
        i + 4 <= s.len(),
    ensures
        r == read32(s@, i as int),
{
    s[i] as u32 * 0x100_0000 + s[i + 1] as u32 * 0x1_0000 + s[i + 2] as u32 * 0x100 + s[i
        + 3] as u32
}

/// The number that the eight bytes at a position stand for.
pub fn get_be64(s: &[u8], i: usize) -> (r: u64)
    requires
        i + 8 <= s.len(),
    ensures
        r == read64(s@, i as int),
{
    get_be32(s, i) as u64 * 0x1_0000_0000 + get_be32(s, i + 4) as u64
}

/// A signed 32-bit integer as the unsigned one with the same bits.
pub open spec fn unsigned32(n: i32) -> u32 {
    (if n < 0 {
        n + 0x1_0000_0000
    } else {
        n as int
    }) as u32
}

/// An unsigned 32-bit integer as the signed one with the same bits.
pub open spec fn signed32(n: u32) -> i32 {
    (if n >= 0x8000_0000 {
        n - 0x1_0000_0000
    } else {
        n as int
    }) as i32
}

/// A signed 64-bit integer as the unsigned one with the same bits.
pub open spec fn unsigned64(n: i64) -> u64 {
    (if n < 0 {
        n + 0x1_0000_0000_0000_0000
    } else {
        n as int
    }) as u64
}

/// A signed 32-bit integer as the unsigned one with the same bits
pub fn to_unsigned32(n: i32) -> (r: u32)
    ensures
        r == unsigned32(n),
{
    if n < 0 {
        (n as i64 + 0x1_0000_0000) as u32
    } else {
        n as u32
    }
}

/// An unsigned 32-bit integer as the signed one with the same bits
pub fn to_signed32(n: u32) -> (r: i32)
    ensures
        r == signed32(n),
{
    if n >= 0x8000_0000 {
        (n as i64 - 0x1_0000_0000) as i32
    } else {
        n as i32
    }
}

/// A signed 64-bit integer as the unsigned one with the same bits
pub fn to_unsigned64(n: i64) -> (r: u64)
    ensures
        r == unsigned64(n),
{
    if n < 0 {
        (n as i128 + 0x1_0000_0000_0000_0000) as u64
    } else {
        n as u64
    }
}

/// The number with the same eight bytes that counts below zero too.
pub open spec fn signed64(n: u64) -> i64 {
    if n < 0x8000_0000_0000_0000 {
        n as i64
    } else {
        (n - 0x1_0000_0000_0000_0000) as i64
    }
}

/// The number with the same eight bytes that counts below zero too.
pub fn to_signed64(n: u64) -> (r: i64)
    ensures
        r == signed64(n),
{
    if n < 0x8000_0000_0000_0000 {
        n as i64
    } else {
        ((n as i128) - 0x1_0000_0000_0000_0000) as i64
    }
}

} // verus!
