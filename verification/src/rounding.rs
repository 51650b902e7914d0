//! Quotients in decimal notation, rounded as floating-point formatting rounds them.

use crate::text::{number, number_text};
use vstd::prelude::*;
use vstd::string::*;

verus! {

/// The integer nearest to `n / d`, the even one of two.
pub open spec fn nearest(n: int, d: int) -> int {
    let q = n / d;
    let twice = 2 * (n % d);
    if twice > d || (twice == d && q % 2 == 1) {
        q + 1
    } else {
        q
    }
}

/// The spacing of double-precision numbers at `n`, where it is at least one.
pub open spec fn spacing(n: int) -> int {
    if n < 0x20_0000_0000_0000 {
        1
    } else if n < 0x40_0000_0000_0000 {
        2
    } else if n < 0x80_0000_0000_0000 {
        4
    } else if n < 0x100_0000_0000_0000 {
        8
    } else if n < 0x200_0000_0000_0000 {
        16
    } else if n < 0x400_0000_0000_0000 {
        32
    } else if n < 0x800_0000_0000_0000 {
        64
    } else if n < 0x1000_0000_0000_0000 {
        128
    } else if n < 0x2000_0000_0000_0000 {
        256
    } else if n < 0x4000_0000_0000_0000 {
        512
    } else if n < 0x8000_0000_0000_0000 {
        1024
    } else {
        2048
    }
}

/// The double-precision number nearest to an unsigned 64-bit integer.
pub open spec fn as_double(n: int) -> int {
    nearest(n, spacing(n)) * spacing(n)
}

/// `n / unit` with one decimal.
pub open spec fn one_decimal(n: int, unit: int) -> Seq<char> {
    let tenths = nearest(as_double(n) * 10, unit);
    number_text((tenths / 10) as nat) + "."@ + number_text((tenths % 10) as nat)
}

/// `n / unit` with two decimals.
pub open spec fn two_decimals(n: int, unit: int) -> Seq<char> {
    let hundredths = nearest(as_double(n) * 100, unit);
    number_text((hundredths / 100) as nat) + "."@ + number_text((hundredths / 10 % 10) as nat)
        + number_text((hundredths % 10) as nat)
}

fn nearest_quotient(n: u128, d: u128) -> (r: u128)
    requires
        0 < d <= 0x1_0000_0000_0000,
        n <= 0x1_0000_0000_0000_0000_0000,
    ensures
        r == nearest(n as int, d as int),
        r <= n / d + 1,
{
    let q: u128 = n / d;
    let twice: u128 = 2 * (n % d);
    proof {
        assert(n as int / d as int <= n as int) by (nonlinear_arith)
            requires
                d > 0,
        ;
    }
    if twice > d || (twice == d && q % 2 == 1) {
        q + 1
    } else {
        q
    }
}

fn double_spacing(n: u64) -> (r: u128)
    ensures
        r == spacing(n as int),
        1 <= r <= 2048,
{
    if n < 0x20_0000_0000_0000 {
        1
    } else if n < 0x40_0000_0000_0000 {
        2
    } else if n < 0x80_0000_0000_0000 {
        4
    } else if n < 0x100_0000_0000_0000 {
        8
    } else if n < 0x200_0000_0000_0000 {
        16
    } else if n < 0x400_0000_0000_0000 {
        32
    } else if n < 0x800_0000_0000_0000 {
        64
    } else if n < 0x1000_0000_0000_0000 {
        128
    } else if n < 0x2000_0000_0000_0000 {
        256
    } else if n < 0x4000_0000_0000_0000 {
        512
    } else if n < 0x8000_0000_0000_0000 {
        1024
    } else {
        2048
    }
}

fn nearest_double(n: u64) -> (r: u128)
    ensures
        r == as_double(n as int),
        r <= n + 2048,
{
    let s: u128 = double_spacing(n);
    let q: u128 = nearest_quotient(n as u128, s);
    proof {
        let a = n as int;
        let b = s as int;
        assert(q * b <= a + b) by (nonlinear_arith)
            requires
                q <= a / b + 1,
                b > 0,
                a >= 0,
        ;
    }
    q * s
}

/// `n / unit` with one decimal
pub fn with_one_decimal(n: u64, unit: u64) -> (r: String)
    requires
        0x400 <= unit <= 0x1_0000_0000_0000,
    ensures
        r@ == one_decimal(n as int, unit as int),
{
    let scaled: u128 = nearest_double(n) * 10;
    let tenths: u128 = nearest_quotient(scaled, unit as u128);
    proof {
        assert(scaled as int / unit as int <= 0x7fff_ffff_ffff_ffff) by (nonlinear_arith)
            requires
                0 <= scaled <= 10 * (0xffff_ffff_ffff_ffff + 2048),
                unit >= 0x400,
        ;
    }
    number((tenths / 10) as u64).concat(".").concat(number((tenths % 10) as u64).as_str())
}

/// `n / unit` with two decimals
pub fn with_two_decimals(n: u64, unit: u64) -> (r: String)
    requires
        0x400 <= unit <= 0x1_0000_0000_0000,
    ensures
        r@ == two_decimals(n as int, unit as int),
{
    let scaled: u128 = nearest_double(n) * 100;
    let hundredths: u128 = nearest_quotient(scaled, unit as u128);
    proof {
        assert(scaled as int / unit as int <= 0x7fff_ffff_ffff_ffff) by (nonlinear_arith)
            requires
                0 <= scaled <= 100 * (0xffff_ffff_ffff_ffff + 2048),
                unit >= 0x400,
        ;
    }
    number((hundredths / 100) as u64).concat(".").concat(
        number((hundredths / 10 % 10) as u64).as_str(),
    ).concat(number((hundredths % 10) as u64).as_str())
}

} // verus!
