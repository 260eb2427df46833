//! Amounts of memory.
use vstd::prelude::*;

use crate::text::{decimal, decimal_text, digit_char};

verus! {

/// The bytes of a number of mebibytes, the greatest number where they are more.
pub open spec fn bytes_of_mb(limit_mb: u64) -> u64 {
    if limit_mb * 1_048_576 <= u64::MAX {
        (limit_mb * 1_048_576) as u64
    } else {
        u64::MAX
    }
}

/// The bytes of a number of mebibytes, the greatest number where they are more.
pub fn mb_to_bytes(limit_mb: u64) -> (r: u64)
    ensures
        r == bytes_of_mb(limit_mb),
{
    match limit_mb.checked_mul(1_048_576) {
        Some(bytes) => bytes,
        None => u64::MAX,
    }
}

/// The whole number nearest to `n / d`, the even one of two that are equally near.
pub open spec fn nearest(n: nat, d: nat) -> nat {
    let q = n / d;
    let twice = 2 * (n % d);
    if twice > d || (twice == d && q % 2 == 1) {
        q + 1
    } else {
        q
    }
}

/// The distance between numbers with 53 significant bits at `n`.
pub open spec fn double_step(n: nat) -> nat
    decreases n,
{
    if n < 0x20_0000_0000_0000 {
        1
    } else {
        2 * double_step(n / 2)
    }
}

/// The number with 53 significant bits that is nearest to `n`.
pub open spec fn as_double(n: nat) -> nat {
    nearest(n, double_step(n)) * double_step(n)
}

/// An amount of memory for people: mebibytes with one digit after the point, gibibytes with two
/// from 1024 mebibytes on. Amounts beyond 53 significant bits are shown as the nearest amount
/// with 53.
pub open spec fn memory_text(bytes: nat) -> Seq<char> {
    let amount = as_double(bytes);
    if amount < 0x4000_0000 {
        let tenths = nearest(amount * 10, 0x10_0000);
        decimal(tenths / 10).push('.').push(digit_char(tenths % 10)) + " MB"@
    } else {
        let hundredths = nearest(amount * 100, 0x4000_0000);
        decimal(hundredths / 100).push('.').push(digit_char(hundredths / 10 % 10)).push(
            digit_char(hundredths % 10),
        ) + " GB"@
    }
}

fn nearest_of(n: u128, d: u128) -> (r: u128)
    requires
        0 < d <= 0x1_0000_0000_0000_0000,
    ensures
        r == nearest(n as nat, d as nat),
        r <= n / d + 1,
{
    let q: u128 = n / d;
    let twice: u128 = 2 * (n % d);
    assert(q < u128::MAX || d == 1) by (nonlinear_arith)
        requires
            d > 0,
            q == n / d,
            n <= u128::MAX,
    ;
    if twice > d || (twice == d && q % 2 == 1) {
        assert(d > 1);
        q + 1
    } else {
        q
    }
}

fn digit(d: u64) -> (c: char)
    requires
        d < 10,
    ensures
        c == digit_char(d as nat),
{
    match d {
        0 => '0',
        1 => '1',
        2 => '2',
        3 => '3',
        4 => '4',
        5 => '5',
        6 => '6',
        7 => '7',
        8 => '8',
        _ => '9',
    }
}

fn to_double(bytes: u64) -> (r: u128)
    ensures
        r == as_double(bytes as nat),
        r <= 0x2_0000_0000_0000_0000,
{
    let mut step: u128 = 1;
    let mut rest: u64 = bytes;
    assert(step * double_step(rest as nat) == double_step(bytes as nat));
    while rest >= 0x20_0000_0000_0000
        invariant
            step >= 1,
            step * rest <= bytes,
            step * double_step(rest as nat) == double_step(bytes as nat),
            rest >= 1 || step == 1,
        decreases rest,
    {
        let ghost half = double_step((rest / 2) as nat);
        assert(double_step(rest as nat) == 2 * half);
        assert(step * (2 * half) == (step * 2) * half) by (nonlinear_arith);
        assert((step * 2) * (rest / 2) <= step * rest) by (nonlinear_arith)
            requires
                step >= 1,
        ;
        assert(step * 2 <= u64::MAX) by (nonlinear_arith)
            requires
                step * rest <= u64::MAX,
                rest >= 2,
                step >= 1,
        ;
        step = step * 2;
        rest = rest / 2;
    }
    assert(double_step(rest as nat) == 1);
    assert(step == double_step(bytes as nat)) by (nonlinear_arith)
        requires
            step * double_step(rest as nat) == double_step(bytes as nat),
            double_step(rest as nat) == 1,
    ;
    assert(step <= u64::MAX) by (nonlinear_arith)
        requires
            step * rest <= u64::MAX,
            step >= 1,
            rest >= 1 || step == 1,
    ;
    let count = nearest_of(bytes as u128, step);
    assert(count * step <= bytes + step) by (nonlinear_arith)
        requires
            count <= bytes as u128 / step + 1,
            step >= 1,
    ;
    count * step
}

/// An amount of memory for people.
pub fn format_bytes(bytes: u64) -> (r: String)
    ensures
        r@ == memory_text(bytes as nat),
{
    let amount = to_double(bytes);
    let (number, unit) = if amount < 0x4000_0000 {
        let tenths: u64 = nearest_of(amount * 10, 0x10_0000) as u64;
        let mut text = decimal_text(tenths / 10);
        text.push('.');
        text.push(digit(tenths % 10));
        (text, " MB")
    } else {
        let hundredths: u64 = nearest_of(amount * 100, 0x4000_0000) as u64;
        let mut text = decimal_text(hundredths / 100);
        text.push('.');
        text.push(digit(hundredths / 10 % 10));
        text.push(digit(hundredths % 10));
        (text, " GB")
    };
    let mut text = number;
    text.append(unit);
    text
}

} // verus!
