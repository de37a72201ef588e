//! Numbers as text.
use crate::constants::{BILLION, MILLION, THOUSAND};
use crate::laws::rounding::{law_human_number, lemma_double_quotient, lemma_round_half_even};
use crate::message::signed_text;
use crate::text::{
    decimal_text, digit, double_quotient, human_number_text, round_half_even, rounded_quotient,
    whole_double,
};
use vstd::prelude::*;

verus! {

/// The number that a text of digits stands for.
pub open spec fn number_of(text: Seq<char>) -> int
    decreases text.len(),
{
    if text.len() == 0 {
        0
    } else {
        10 * number_of(text.drop_last()) + (text.last() as int - '0' as int)
    }
}

/// Whether the text is a number in decimal: digits, and no zero in front of others.
pub open spec fn is_decimal(text: Seq<char>) -> bool {
    &&& text.len() > 0
    &&& forall|i: int| 0 <= i < text.len() ==> '0' as int <= #[trigger] text[i] as int <= '9' as int
    &&& text[0] == '0' ==> text.len() == 1
}

/// A number is shown by its digits, and the digits stand for that number.
pub proof fn law_decimal(n: nat)
    ensures
        is_decimal(decimal_text(n)),
        number_of(decimal_text(n)) == n,
        n > 0 ==> decimal_text(n)[0] != '0',
    decreases n,
{
    reveal_with_fuel(number_of, 2);
    if n < 10 {
        assert(seq![digit(n)].drop_last() =~= Seq::empty());
    } else {
        law_decimal(n / 10);
        let front = decimal_text(n / 10);
        let text = decimal_text(n);
        assert(text.drop_last() =~= front);
        assert(text[0] == front[0]);
        assert forall|i: int| 0 <= i < text.len() implies '0' as int <= #[trigger] text[i] as int
            <= '9' as int by {
            if i < front.len() {
                assert(text[i] == front[i]);
            }
        }
    }
}

/// A negative number is shown by a sign and what it is without it.
pub proof fn law_signed(n: int)
    ensures
        n >= 0 ==> is_decimal(signed_text(n)) && number_of(signed_text(n)) == n,
        n < 0 ==> {
            &&& signed_text(n).len() > 0
            &&& signed_text(n)[0] == '-'
            &&& is_decimal(signed_text(n).skip(1))
            &&& number_of(signed_text(n).skip(1)) == -n
        },
{
    if n >= 0 {
        law_decimal(n as nat);
    } else {
        law_decimal((-n) as nat);
        reveal_strlit("-");
        assert(signed_text(n).skip(1) =~= decimal_text((-n) as nat));
    }
}

/// Whether `r` units are nearest to `n`, and an even number of them where two are.
pub open spec fn nearest(r: int, n: int, unit: int) -> bool {
    &&& -unit <= 2 * (r * unit - n) <= unit
    &&& 2 * (r * unit - n) == unit || 2 * (r * unit - n) == -unit ==> r % 2 == 0
}

proof fn lemma_nearest(n: nat, unit: nat)
    requires
        unit > 0,
    ensures
        nearest(round_half_even(n, unit) as int, n as int, unit as int),
{
    vstd::arithmetic::div_mod::lemma_fundamental_div_mod(n as int, unit as int);
    let floor = (n / unit) as int;
    let rest = (n % unit) as int;
    assert(floor * unit == unit * floor) by (nonlinear_arith);
    assert((floor + 1) * unit == unit * floor + unit) by (nonlinear_arith);
}

/// Up to a thousand a number is shown as it is. Above it is shown as the nearest number of
/// thousands, above a million of millions, above a billion of billions.
pub proof fn law_human_number_is_nearest(value: u64) -> (r: nat)
    requires
        value <= 0x8_0000_0000_0000,
    ensures
        value <= 1_000 ==> r == value && human_number_text(value) == decimal_text(r),
        1_000 < value <= 1_000_000 ==> nearest(r as int, value as int, 1_000)
            && human_number_text(value) == decimal_text(r).push('K'),
        1_000_000 < value <= 1_000_000_000 ==> nearest(r as int, value as int, 1_000_000)
            && human_number_text(value) == decimal_text(r).push('M'),
        1_000_000_000 < value ==> nearest(r as int, value as int, 1_000_000_000)
            && human_number_text(value) == decimal_text(r).push('B'),
{
    law_human_number(value);
    reveal_strlit("K");
    reveal_strlit("M");
    reveal_strlit("B");
    let unit = if value > BILLION {
        BILLION
    } else if value > MILLION {
        MILLION
    } else {
        THOUSAND
    };
    let r = round_half_even(value as nat, unit as nat);
    lemma_nearest(value as nat, unit as nat);
    assert(decimal_text(r) + "K"@ =~= decimal_text(r).push('K'));
    assert(decimal_text(r) + "M"@ =~= decimal_text(r).push('M'));
    assert(decimal_text(r) + "B"@ =~= decimal_text(r).push('B'));
    if value <= 1_000 {
        value as nat
    } else {
        r
    }
}

proof fn lemma_whole_double(n: nat, d: nat)
    requires
        n < 0x1_0000_0000_0000_0000,
        0 < d <= 4096,
    ensures
        -4096 <= 2 * (d * whole_double(n, d)) - 2 * n <= 4096,
    decreases n - d,
{
    if n < 0x20_0000_0000_0000 * d {
        lemma_round_half_even(n, d);
    } else {
        lemma_whole_double(n, 2 * d);
        let half = whole_double(n, 2 * d);
        assert(d * (2 * half) == (2 * d) * half) by (nonlinear_arith);
    }
}

/// A number of any size above a billion is shown as a number of billions that is off by half a
/// billion at most, give or take the few thousand that double precision may lose.
pub proof fn law_human_number_of_any_size(value: u64) -> (r: nat)
    requires
        value > 1_000_000_000,
    ensures
        human_number_text(value) == decimal_text(r).push('B'),
        -1_000_020_000 <= 2 * (r * 1_000_000_000 - value) <= 1_000_020_000,
{
    let unit: nat = 1_000_000_000;
    let w = whole_double(value as nat, 1);
    lemma_whole_double(value as nat, 1);
    assert(1 * w == w);
    lemma_double_quotient(w, unit);
    let (a, b) = double_quotient(w, unit);
    lemma_round_half_even(b * w, unit);
    lemma_round_half_even(a, b);
    let r = round_half_even(a, b);
    assert(r == rounded_quotient(value as nat, unit));
    assert(b >= 100_000) by (nonlinear_arith)
        requires
            b * w >= 0x10_0000_0000_0000 * unit,
            unit == 1_000_000_000,
            w <= 0x1_0000_0000_0000_1000,
    ;
    assert(unit * (2 * (b * r)) == 2 * (b * (r * unit))) by (nonlinear_arith);
    assert(unit * (2 * a) == 2 * (unit * a)) by (nonlinear_arith);
    assert(unit * (2 * (b * r)) <= unit * (2 * a + b)) by (nonlinear_arith)
        requires
            2 * (b * r) <= 2 * a + b,
    ;
    assert(unit * (2 * (b * r)) >= unit * (2 * a - b)) by (nonlinear_arith)
        requires
            2 * (b * r) >= 2 * a - b,
    ;
    assert(unit * (2 * a + b) == 2 * (unit * a) + unit * b) by (nonlinear_arith);
    assert(unit * (2 * a - b) == 2 * (unit * a) - unit * b) by (nonlinear_arith);
    let x = 2 * (r * unit - w);
    assert(b * x == 2 * (b * (r * unit)) - 2 * (b * w)) by (nonlinear_arith)
        requires
            x == 2 * (r * unit - w),
    ;
    assert(-(unit * b) - unit <= b * x <= unit * b + unit);
    assert(-unit - 10_000 <= x <= unit + 10_000) by (nonlinear_arith)
        requires
            -(unit * b) - unit <= b * x <= unit * b + unit,
            b >= 100_000,
            unit == 1_000_000_000,
    ;
    reveal_strlit("B");
    assert(decimal_text(r) + "B"@ =~= decimal_text(r).push('B'));
    r
}

} // verus!
