//! Byte counts in human-readable units.
//!
//! A size of 1024 bytes or more is shown as a multiple of a binary unit with
//! one fractional digit, as a double-precision division by 1024 and a
//! rendering to one digit, ties to even, show it. Sizes above 2^53 are
//! first rounded to the nearest double-precision value, so the text is that
//! of the floating-point calculation for every 64-bit size.

use vstd::prelude::*;
use crate::text::decimal;
use crate::text::decimal_string;
use crate::text::digit_char;

verus! {

/// 2^53: up to here every whole number is a double-precision value.
pub const DOUBLE_EXACT_LIMIT: u64 = 9007199254740992;

/// The distance between neighbouring double-precision values at `n`: 1 below
/// 2^53, and twice as much with every further bit.
pub open spec fn double_spacing(n: nat) -> nat
    decreases n,
{
    if n < 9007199254740992 {
        1
    } else {
        2 * double_spacing(n / 2)
    }
}

/// `n / d` rounded to the nearest whole number, a tie going to the even one.
pub open spec fn round_half_even(n: nat, d: nat) -> nat
    recommends
        d > 0,
{
    let q = n / d;
    let r = n % d;
    if 2 * r < d || (2 * r == d && q % 2 == 0) {
        q
    } else {
        q + 1
    }
}

/// The double-precision value nearest to `n`, a tie going to the even mantissa.
pub open spec fn nearest_double(n: nat) -> nat {
    round_half_even(n, double_spacing(n)) * double_spacing(n)
}

/// 1024 to the power `k`.
pub open spec fn kibi_power(k: nat) -> nat
    decreases k,
{
    if k == 0 {
        1
    } else {
        1024 * kibi_power((k - 1) as nat)
    }
}

/// The number of divisions by 1024, counted on from `k`, after which `value`
/// has dropped below 1024; the eighth unit is the last.
pub open spec fn unit_steps(value: nat, k: nat) -> nat
    decreases 8 - k,
{
    if k >= 8 || value < kibi_power(k + 1) {
        k
    } else {
        unit_steps(value, k + 1)
    }
}

/// The suffix of the `k`-th unit: K, M, G, T, P, E, Z, Y.
pub open spec fn unit_letter(k: nat) -> char {
    if k <= 1 {
        'K'
    } else if k == 2 {
        'M'
    } else if k == 3 {
        'G'
    } else if k == 4 {
        'T'
    } else if k == 5 {
        'P'
    } else if k == 6 {
        'E'
    } else if k == 7 {
        'Z'
    } else {
        'Y'
    }
}

/// The human-readable text of a size: the plain number below 1024, else the
/// size in the largest unit that keeps it at 1 or above, with one fractional
/// digit and the unit's letter.
pub open spec fn human_readable(bytes: nat) -> Seq<char> {
    if bytes < 1024 {
        decimal(bytes)
    } else {
        let value = nearest_double(bytes);
        let k = unit_steps(value, 1);
        let tenths = round_half_even(value * 10, kibi_power(k));
        decimal(tenths / 10) + seq!['.', digit_char(tenths % 10), unit_letter(k)]
    }
}

/// The powers of 1024 up to the seventh.
pub proof fn lemma_kibi_powers()
    ensures
        kibi_power(0) == 1,
        kibi_power(1) == 1024,
        kibi_power(2) == 1048576,
        kibi_power(3) == 1073741824,
        kibi_power(4) == 1099511627776,
        kibi_power(5) == 1125899906842624,
        kibi_power(6) == 1152921504606846976,
        kibi_power(7) == 1180591620717411303424,
{
    reveal_with_fuel(kibi_power, 9);
}

/// Rounds `n / d` to the nearest whole number, ties to even.
pub fn rounded_quotient(n: u128, d: u128) -> (q: u128)
    requires
        d > 0,
    ensures
        q == round_half_even(n as nat, d as nat),
        q <= n / d + 1,
{
    let q = n / d;
    let r = n % d;
    if r < d - r || (r == d - r && q % 2 == 0) {
        q
    } else {
        assert(2 * (n / d) <= n) by (nonlinear_arith)
            requires
                d >= 2,
        ;
        q + 1
    }
}

/// Whether `n` is a power of two up to 2048: the spacings that a 64-bit size
/// can meet.
pub open spec fn is_spacing(n: nat) -> bool {
    n == 1 || n == 2 || n == 4 || n == 8 || n == 16 || n == 32 || n == 64 || n == 128 || n == 256
        || n == 512 || n == 1024 || n == 2048
}

/// The double-precision value nearest to `bytes`.
pub fn nearest_double_of(bytes: u64) -> (value: u128)
    ensures
        value == nearest_double(bytes as nat),
        value <= bytes + 2048,
{
    let mut spacing: u64 = 1;
    let mut rest: u64 = bytes;
    while rest >= DOUBLE_EXACT_LIMIT
        invariant
            is_spacing(spacing as nat),
            rest as nat * spacing as nat <= bytes,
            double_spacing(bytes as nat) == spacing * double_spacing(rest as nat),
        decreases rest,
    {
        assert(spacing < 2048) by (nonlinear_arith)
            requires
                rest >= 9007199254740992,
                rest as nat * spacing as nat <= bytes,
                bytes < 0x1_0000_0000_0000_0000,
        ;
        assert((rest / 2) as nat * (spacing * 2) as nat <= bytes) by (nonlinear_arith)
            requires
                rest as nat * spacing as nat <= bytes,
        ;
        assert(spacing * double_spacing(rest as nat) == (spacing * 2) * double_spacing(
            (rest / 2) as nat,
        )) by (nonlinear_arith)
            requires
                double_spacing(rest as nat) == 2 * double_spacing((rest / 2) as nat),
        ;
        rest = rest / 2;
        spacing = spacing * 2;
    }
    assert(double_spacing(rest as nat) == 1);
    assert(double_spacing(bytes as nat) == spacing) by (nonlinear_arith)
        requires
            double_spacing(bytes as nat) == spacing * double_spacing(rest as nat),
            double_spacing(rest as nat) == 1,
    ;
    let q = rounded_quotient(bytes as u128, spacing as u128);
    assert(q * spacing <= bytes + spacing) by (nonlinear_arith)
        requires
            q <= (bytes as u128) / (spacing as u128) + 1,
            spacing >= 1,
    ;
    q * (spacing as u128)
}

/// Converts a byte count to its human-readable text: the plain number below
/// 1024, else one fractional digit and a unit from K, M, G, T, P, E, Z, Y.
pub fn bytes_to_human_readable(bytes: u64) -> (text: String)
    ensures
        text@ == human_readable(bytes as nat),
{
    if bytes < 1024 {
        return decimal_string(bytes as u128);
    }
    let value = nearest_double_of(bytes);
    let mut k: u8 = 1;
    let mut scale: u128 = 1024;
    proof {
        lemma_kibi_powers();
    }
    while k < 8 && value >= scale * 1024
        invariant
            1 <= k <= 8,
            scale == kibi_power(k as nat),
            scale <= 0x2_0000_0000_0000_0000,
            value <= 0x2_0000_0000_0000_0000,
            unit_steps(value as nat, 1) == unit_steps(value as nat, k as nat),
        decreases 8 - k,
    {
        scale = scale * 1024;
        k = k + 1;
    }
    let tenths = rounded_quotient(value * 10, scale);
    let mut text = decimal_string(tenths / 10);
    text.push('.');
    text.push((48 + ((tenths % 10) as u8)) as char);
    let letter = if k == 1 {
        'K'
    } else if k == 2 {
        'M'
    } else if k == 3 {
        'G'
    } else if k == 4 {
        'T'
    } else if k == 5 {
        'P'
    } else if k == 6 {
        'E'
    } else if k == 7 {
        'Z'
    } else {
        'Y'
    };
    text.push(letter);
    assert(text@ =~= human_readable(bytes as nat));
    text
}

} // verus!
