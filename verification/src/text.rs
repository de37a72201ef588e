//! Numbers and file types as text.
use crate::constants::{BILLION, MILLION, THOUSAND};
use vstd::prelude::*;
use vstd::string::StringExecFns;

verus! {

/// The decimal digit for `d < 10`.
pub open spec fn digit(d: nat) -> char {
    seq!['0', '1', '2', '3', '4', '5', '6', '7', '8', '9'][d as int]
}

/// `n` in decimal.
pub open spec fn decimal_text(n: nat) -> Seq<char>
    decreases n,
{
    if n < 10 {
        seq![digit(n)]
    } else {
        decimal_text(n / 10).push(digit(n % 10))
    }
}

fn digit_str(d: u64) -> (s: &'static str)
    requires
        d < 10,
    ensures
        s@ == seq![digit(d as nat)],
{
    proof {
        reveal_strlit("0");
        reveal_strlit("1");
        reveal_strlit("2");
        reveal_strlit("3");
        reveal_strlit("4");
        reveal_strlit("5");
        reveal_strlit("6");
        reveal_strlit("7");
        reveal_strlit("8");
        reveal_strlit("9");
    }
    if d == 0 {
        "0"
    } else if d == 1 {
        "1"
    } else if d == 2 {
        "2"
    } else if d == 3 {
        "3"
    } else if d == 4 {
        "4"
    } else if d == 5 {
        "5"
    } else if d == 6 {
        "6"
    } else if d == 7 {
        "7"
    } else if d == 8 {
        "8"
    } else {
        "9"
    }
}

/// `n` in decimal.
pub fn decimal(n: u64) -> (text: String)
    ensures
        text@ == decimal_text(n as nat),
    decreases n,
{
    if n < 10 {
        digit_str(n).to_owned()
    } else {
        let mut text = decimal(n / 10);
        text.append(digit_str(n % 10));
        text
    }
}

/// The integer nearest to `n / d`; of two equally near, the even one.
pub open spec fn round_half_even(n: nat, d: nat) -> nat {
    let floor = n / d;
    let twice_rest = 2 * (n % d);
    if twice_rest < d || twice_rest == d && floor % 2 == 0 {
        floor
    } else {
        floor + 1
    }
}

/// `n / d` as a whole number with at most 53 significant bits: halved until it is below 2^53,
/// rounded, and doubled as often. With `d == 1` this is the double that stands for `n`.
pub open spec fn whole_double(n: nat, d: nat) -> nat
    decreases n - d,
{
    if d == 0 || n < 0x20_0000_0000_0000 * d {
        round_half_even(n, d)
    } else {
        2 * whole_double(n, 2 * d)
    }
}

/// The double nearest to `n / d`, a quotient below 2^53, as a fraction: doubled until it reaches
/// 2^52, rounded, and halved as often.
pub open spec fn double_quotient(n: nat, d: nat) -> (nat, nat)
    decreases 0x20_0000_0000_0000 * d - n,
{
    if n == 0 || n >= 0x10_0000_0000_0000 * d {
        (round_half_even(n, d), 1)
    } else {
        let (a, b) = double_quotient(2 * n, d);
        (a, 2 * b)
    }
}

/// `value / unit` computed in double precision and rounded to an integer.
pub open spec fn rounded_quotient(value: nat, unit: nat) -> nat {
    let (a, b) = double_quotient(whole_double(value, 1), unit);
    round_half_even(a, b)
}

/// `value` for human readers: above a thousand, a million or a billion as a rounded multiple of
/// that unit.
pub open spec fn human_number_text(value: u64) -> Seq<char> {
    if value > BILLION {
        decimal_text(rounded_quotient(value as nat, BILLION as nat)) + "B"@
    } else if value > MILLION {
        decimal_text(rounded_quotient(value as nat, MILLION as nat)) + "M"@
    } else if value > THOUSAND {
        decimal_text(rounded_quotient(value as nat, THOUSAND as nat)) + "K"@
    } else {
        decimal_text(value as nat)
    }
}

fn round_fraction(n: u128, d: u128) -> (r: u128)
    requires
        0 < d < 0x1_0000_0000_0000_0000_0000_0000,
        n < 0x1_0000_0000_0000_0000_0000_0000,
    ensures
        r == round_half_even(n as nat, d as nat),
        r <= n / d + 1,
{
    let floor: u128 = n / d;
    let twice_rest: u128 = 2 * (n % d);
    proof {
        assert(n / d <= n) by (nonlinear_arith)
            requires
                d > 0,
        ;
    }
    if twice_rest < d || twice_rest == d && floor % 2 == 0 {
        floor
    } else {
        floor + 1
    }
}

fn to_whole_double(n: u64, d: u128) -> (r: u128)
    requires
        0 < d <= n,
    ensures
        r == whole_double(n as nat, d as nat),
        d * r <= 2 * n,
        r >= 1,
    decreases n - d,
{
    if (n as u128) < 0x20_0000_0000_0000 * d {
        let r = round_fraction(n as u128, d);
        proof {
            assert(n as int / d as int >= 1) by (nonlinear_arith)
                requires
                    0 < d <= n,
            ;
            assert(d * (n as int / d as int) <= n) by (nonlinear_arith)
                requires
                    0 < d,
            ;
            assert(d * r <= d * (n as int / d as int) + d) by (nonlinear_arith)
                requires
                    r <= n as int / d as int + 1,
                    0 < d,
            ;
        }
        r
    } else {
        let half = to_whole_double(n, 2 * d);
        proof {
            assert(d * (2 * half) == (2 * d) * half) by (nonlinear_arith);
            assert(half <= (2 * d) * half) by (nonlinear_arith)
                requires
                    d >= 1,
                    half >= 0,
            ;
        }
        2 * half
    }
}

fn to_double_quotient(n: u128, d: u128) -> (r: (u128, u128))
    requires
        0 < d <= BILLION,
        0 < n < 0x20_0000_0000_0000 * d,
    ensures
        (r.0 as nat, r.1 as nat) == double_quotient(n as nat, d as nat),
        0 < r.1,
        r.1 * n < 0x20_0000_0000_0000 * d,
        r.0 <= 0x20_0000_0000_0000,
    decreases 0x20_0000_0000_0000 * d - n,
{
    if n >= 0x10_0000_0000_0000 * d {
        let a = round_fraction(n, d);
        proof {
            assert(n as int / d as int <= 0x20_0000_0000_0000 - 1) by (nonlinear_arith)
                requires
                    0 < d,
                    n < 0x20_0000_0000_0000 * d,
            ;
        }
        (a, 1)
    } else {
        let (a, b) = to_double_quotient(2 * n, d);
        proof {
            assert((2 * b) * n == b * (2 * n)) by (nonlinear_arith);
            assert(b <= b * (2 * n)) by (nonlinear_arith)
                requires
                    n >= 1,
                    b >= 0,
            ;
        }
        (a, 2 * b)
    }
}

fn rounded_multiple(value: u64, unit: u64) -> (r: u64)
    requires
        1000 <= unit <= BILLION,
        unit < value,
        value < 0x8_0000_0000_0000 * unit,
    ensures
        r == rounded_quotient(value as nat, unit as nat),
{
    let whole = to_whole_double(value, 1);
    let (a, b) = to_double_quotient(whole, unit as u128);
    proof {
        assert(b <= b * whole) by (nonlinear_arith)
            requires
                whole >= 1,
                b >= 0,
        ;
    }
    let r = round_fraction(a, b);
    proof {
        assert(a as int / b as int <= a) by (nonlinear_arith)
            requires
                b > 0,
                a >= 0,
        ;
    }
    r as u64
}

/// `value` for human readers: above a thousand, a million or a billion as a rounded multiple of
/// that unit.
pub fn human_number(value: u64) -> (text: String)
    ensures
        text@ == human_number_text(value),
{
    if value > BILLION {
        let mut text = decimal(rounded_multiple(value, BILLION));
        text.append("B");
        text
    } else if value > MILLION {
        let mut text = decimal(rounded_multiple(value, MILLION));
        text.append("M");
        text
    } else if value > THOUSAND {
        let mut text = decimal(rounded_multiple(value, THOUSAND));
        text.append("K");
        text
    } else {
        decimal(value)
    }
}

/// What the number of a quantization file type stands for.
pub open spec fn file_type_text(ft: u64) -> Seq<char> {
    if ft == 0 {
        "All F32"@
    } else if ft == 1 {
        "Mostly F16"@
    } else if ft == 2 {
        "Mostly Q4_0"@
    } else if ft == 3 {
        "Mostly Q4_1"@
    } else if ft == 4 {
        "Mostly Q4_1 Some F16"@
    } else if ft == 5 {
        "Mostly Q4_2 (UNSUPPORTED)"@
    } else if ft == 6 {
        "Mostly Q4_3 (UNSUPPORTED)"@
    } else if ft == 7 {
        "Mostly Q8_0"@
    } else if ft == 8 {
        "Mostly Q5_0"@
    } else if ft == 9 {
        "Mostly Q5_1"@
    } else if ft == 10 {
        "Mostly Q2_K"@
    } else if ft == 11 {
        "Mostly Q3_K"@
    } else if ft == 12 {
        "Mostly Q4_K"@
    } else if ft == 13 {
        "Mostly Q5_K"@
    } else if ft == 14 {
        "Mostly Q6_K"@
    } else if ft == 15 {
        "Mostly IQ2_XXS"@
    } else if ft == 16 {
        "Mostly IQ2_XS"@
    } else if ft == 17 {
        "Mostly IQ3_XXS"@
    } else if ft == 18 {
        "Mostly IQ1_S"@
    } else if ft == 19 {
        "Mostly IQ4_NL"@
    } else if ft == 20 {
        "Mostly IQ3_S"@
    } else if ft == 21 {
        "Mostly IQ2_S"@
    } else if ft == 22 {
        "Mostly IQ4_XS"@
    } else if ft == 23 {
        "Mostly IQ1_M"@
    } else if ft == 24 {
        "Mostly BF16"@
    } else {
        "unknown"@
    }
}

/// What the number of a quantization file type stands for.
pub fn file_type(ft: u64) -> (text: String)
    ensures
        text@ == file_type_text(ft),
{
    let text: &str = match ft {
        0 => "All F32",
        1 => "Mostly F16",
        2 => "Mostly Q4_0",
        3 => "Mostly Q4_1",
        4 => "Mostly Q4_1 Some F16",
        5 => "Mostly Q4_2 (UNSUPPORTED)",
        6 => "Mostly Q4_3 (UNSUPPORTED)",
        7 => "Mostly Q8_0",
        8 => "Mostly Q5_0",
        9 => "Mostly Q5_1",
        10 => "Mostly Q2_K",
        11 => "Mostly Q3_K",
        12 => "Mostly Q4_K",
        13 => "Mostly Q5_K",
        14 => "Mostly Q6_K",
        15 => "Mostly IQ2_XXS",
        16 => "Mostly IQ2_XS",
        17 => "Mostly IQ3_XXS",
        18 => "Mostly IQ1_S",
        19 => "Mostly IQ4_NL",
        20 => "Mostly IQ3_S",
        21 => "Mostly IQ2_S",
        22 => "Mostly IQ4_XS",
        23 => "Mostly IQ1_M",
        24 => "Mostly BF16",
        _ => "unknown",
    };
    text.to_owned()
}

} // verus!
