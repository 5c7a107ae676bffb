//! Writing a number and reading it back.

use vstd::prelude::*;
use crate::op::magnitude;
use crate::op::quotient;
use crate::text::all_digits;
use crate::text::decimal;
use crate::text::digit_char;
use crate::text::digit_value;
use crate::text::digits_value;
use crate::text::has_sign;
use crate::text::i32_literal;
use crate::text::is_digit;
use crate::text::nat_decimal;

verus! {

proof fn lemma_nat_decimal_reads_back(n: nat)
    ensures
        nat_decimal(n).len() >= 1,
        all_digits(nat_decimal(n)),
        digits_value(nat_decimal(n)) == n,
    decreases n,
{
    if n < 10 {
        let text = nat_decimal(n);
        assert(text.drop_last() == Seq::<char>::empty());
        assert(digits_value(text.drop_last()) == 0);
    } else {
        let head = nat_decimal(n / 10);
        let last = digit_char((n % 10) as int);
        lemma_nat_decimal_reads_back(n / 10);
        assert(head.push(last).drop_last() == head);
        assert(is_digit(last));
        assert(digit_value(last) == n % 10);
    }
}

/// The text written for a number reads back as that number.
pub proof fn law_decimal_reads_back(n: i32)
    ensures
        i32_literal(decimal(n as int)) == Some(n),
{
    if n < 0 {
        let digits = nat_decimal((-n) as nat);
        let text = decimal(n as int);
        lemma_nat_decimal_reads_back((-n) as nat);
        assert(has_sign(text));
        assert(text.subrange(1, text.len() as int) == digits);
    } else {
        let text = decimal(n as int);
        lemma_nat_decimal_reads_back(n as nat);
        assert(is_digit(text[0]));
        assert(!has_sign(text));
    }
}

/// The quotient times the divisor is no further from zero than the
/// dividend, and less than one divisor away from it: the quotient is
/// rounded toward zero.
pub proof fn law_quotient_rounds_toward_zero(x: int, d: int)
    requires
        d != 0,
    ensures
        magnitude(quotient(x, d) * d) <= magnitude(x),
        magnitude(x - quotient(x, d) * d) < magnitude(d),
{
    let a = magnitude(x);
    let b = magnitude(d);
    let whole = a / b;
    vstd::arithmetic::div_mod::lemma_fundamental_div_mod(a, b);
    vstd::arithmetic::div_mod::lemma_mod_pos_bound(a, b);
    vstd::arithmetic::div_mod::lemma_div_pos_is_pos(a, b);
    assert(whole * (-b) == -(whole * b) && (-whole) * b == -(whole * b) && (-whole) * (-b) == whole
        * b && b * whole == whole * b) by (nonlinear_arith);
}

/// No other number than the quotient is rounded toward zero in that way.
pub proof fn law_quotient_is_the_only_one(x: int, d: int, q: int)
    requires
        d != 0,
        magnitude(q * d) <= magnitude(x),
        magnitude(x - q * d) < magnitude(d),
    ensures
        q == quotient(x, d),
{
    let other = quotient(x, d);
    law_quotient_rounds_toward_zero(x, d);
    // Two multiples of `d` that close to `x`, on the side of zero, are less
    // than one `d` apart: they are the same multiple.
    assert(magnitude(q * d - other * d) < magnitude(d));
    assert(q * d - other * d == (q - other) * d) by (nonlinear_arith);
    assert(q != other ==> magnitude((q - other) * d) >= magnitude(d)) by (nonlinear_arith)
        requires
            d != 0,
    ;
}

} // verus!
