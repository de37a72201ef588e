//! Numbers for human readers.
use crate::constants::{BILLION, MILLION, THOUSAND};
use crate::text::{
    decimal_text, double_quotient, human_number_text, round_half_even, rounded_quotient,
    whole_double,
};
use vstd::arithmetic::div_mod::{
    lemma_fundamental_div_mod, lemma_fundamental_div_mod_converse,
};
use vstd::prelude::*;

verus! {

/// The double nearest to a quotient is that quotient in units of a power of two that leave it 53
/// bits, rounded.
pub proof fn lemma_double_quotient(n: nat, d: nat)
    requires
        0 < n < 0x20_0000_0000_0000 * d,
    ensures
        ({
            let (a, b) = double_quotient(n, d);
            &&& b > 0
            &&& b * n >= 0x10_0000_0000_0000 * d
            &&& a == round_half_even(b * n, d)
            &&& n < 0x10_0000_0000_0000 * d ==> b % 2 == 0
        }),
    decreases 0x20_0000_0000_0000 * d - n,
{
    if n < 0x10_0000_0000_0000 * d {
        lemma_double_quotient(2 * n, d);
        let (a, b) = double_quotient(2 * n, d);
        assert((2 * b) * n == b * (2 * n)) by (nonlinear_arith);
    } else {
        assert(1 * n == n);
    }
}

/// Rounding moves a fraction by no more than a half.
pub proof fn lemma_round_half_even(n: nat, d: nat)
    requires
        d > 0,
    ensures
        2 * n - d <= 2 * (d * round_half_even(n, d)) <= 2 * n + d,
        n % d == 0 ==> round_half_even(n, d) == n / d,
{
    lemma_fundamental_div_mod(n as int, d as int);
    let floor = n / d;
    assert(d * (floor + 1) == d * floor + d) by (nonlinear_arith);
}

/// Rounding a quotient to a double first does not change how it is rounded to an integer, as long
/// as the number is not too large.
proof fn lemma_rounding_twice(n: nat, d: nat, a: nat, b: nat)
    requires
        0 < d,
        0 < n,
        b % 2 == 0,
        2 * d <= b,
        a == round_half_even(b * n, d),
    ensures
        round_half_even(a, b) == round_half_even(n, d),
{
    let q = n / d;
    let r = n % d;
    lemma_fundamental_div_mod(n as int, d as int);
    let whole = b * q;
    assert(b * n == d * whole + b * r) by (nonlinear_arith)
        requires
            n == d * q + r,
            whole == b * q,
    ;
    lemma_round_half_even(b * n, d);
    assert(b * r >= 0) by (nonlinear_arith);
    let x = a - whole;
    assert(d * a == d * whole + d * x) by (nonlinear_arith)
        requires
            x == a - whole,
    ;
    assert(2 * (b * r) - d <= 2 * (d * x) <= 2 * (b * r) + d);
    assert(x >= 0) by (nonlinear_arith)
        requires
            2 * (d * x) >= -d,
            d > 0,
    ;
    assert(b * r <= b * (d - 1)) by (nonlinear_arith)
        requires
            r <= d - 1,
            b > 0,
    ;
    assert(b * (d - 1) == b * d - b) by (nonlinear_arith);
    assert(x < b) by (nonlinear_arith)
        requires
            2 * (d * x) <= 2 * (b * d - b) + d,
            2 * d <= b,
            0 < d,
    ;
    lemma_fundamental_div_mod_converse(a as int, b as int, q as int, x);
    if 2 * r < d {
        assert(2 * x < b) by (nonlinear_arith)
            requires
                2 * (d * x) <= 2 * (b * r) + d,
                2 * r <= d - 1,
                2 * d <= b,
                0 < d,
        ;
    } else if 2 * r > d {
        assert(2 * x > b) by (nonlinear_arith)
            requires
                2 * (d * x) >= 2 * (b * r) - d,
                2 * r >= d + 1,
                2 * d <= b,
                0 < d,
        ;
    } else {
        let half = b / 2;
        assert(b * n == (whole + half) * d) by (nonlinear_arith)
            requires
                b * n == d * whole + b * r,
                2 * r == d,
                b == 2 * half,
        ;
        lemma_fundamental_div_mod_converse((b * n) as int, d as int, (whole + half) as int, 0);
    }
}

/// A number that is not too large is rounded to the nearest multiple of the unit, and to the even
/// one of two that are equally near.
pub proof fn law_rounded_quotient(value: u64, unit: u64)
    requires
        0 < unit,
        0 < value <= 0x8_0000_0000_0000,
    ensures
        rounded_quotient(value as nat, unit as nat) == round_half_even(value as nat, unit as nat),
{
    let (n, d) = (value as nat, unit as nat);
    assert(whole_double(n, 1) == n);
    lemma_double_quotient(n, d);
    let (a, b) = double_quotient(n, d);
    assert(2 * d <= b) by (nonlinear_arith)
        requires
            b * n >= 0x10_0000_0000_0000 * d,
            n <= 0x8_0000_0000_0000,
    ;
    lemma_rounding_twice(n, d, a, b);
}

/// How numbers that are not too large are shown: up to a thousand as they are, and above as a
/// rounded number of thousands, millions or billions.
pub proof fn law_human_number(value: u64)
    requires
        value <= 0x8_0000_0000_0000,
    ensures
        human_number_text(value) == if value > BILLION {
            decimal_text(round_half_even(value as nat, BILLION as nat)) + "B"@
        } else if value > MILLION {
            decimal_text(round_half_even(value as nat, MILLION as nat)) + "M"@
        } else if value > THOUSAND {
            decimal_text(round_half_even(value as nat, THOUSAND as nat)) + "K"@
        } else {
            decimal_text(value as nat)
        },
{
    if value > BILLION {
        law_rounded_quotient(value, BILLION);
    } else if value > MILLION {
        law_rounded_quotient(value, MILLION);
    } else if value > THOUSAND {
        law_rounded_quotient(value, THOUSAND);
    }
}

} // verus!
