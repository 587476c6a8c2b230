//! Decimal digits: the characters `0` to `9`, the numbers they spell, and the
//! digits that spell a number.

use vstd::prelude::*;

verus! {

/// The code of the character `0`; the codes of the other digits follow it in
/// order.
pub const ZERO: u8 = 48;

/// Whether `c` is one of the ten characters `0` to `9`.
pub open spec fn is_digit(c: char) -> bool {
    '0' <= c && c <= '9'
}

/// The number that the digit `c` stands for.
pub open spec fn digit_value(c: char) -> nat
    recommends
        is_digit(c),
{
    (c as int - '0' as int) as nat
}

/// The character that stands for `d`, a number below ten.
pub open spec fn digit_char(d: nat) -> char
    recommends
        d < 10,
{
    ('0' as int + d) as char
}

/// Ten to the power `e`.
pub open spec fn pow10(e: nat) -> nat
    decreases e,
{
    if e == 0 {
        1
    } else {
        10 * pow10((e - 1) as nat)
    }
}

/// Whether every character of `s` is a digit.
pub open spec fn all_digits(s: Seq<char>) -> bool {
    forall|i: int| 0 <= i < s.len() ==> is_digit(#[trigger] s[i])
}

/// The number that the digits in `s` spell when read from left to right.
/// Characters that are no digits are passed over.
pub open spec fn digits_value(s: Seq<char>) -> nat
    decreases s.len(),
{
    if s.len() == 0 {
        0
    } else if is_digit(s.last()) {
        10 * digits_value(s.drop_last()) + digit_value(s.last())
    } else {
        digits_value(s.drop_last())
    }
}

/// The digits of `n` in base ten, most significant first, without leading
/// zeros; zero is the single digit `0`.
pub open spec fn decimal_digits(n: nat) -> Seq<char>
    decreases n,
{
    if n < 10 {
        seq![digit_char(n)]
    } else {
        decimal_digits(n / 10).push(digit_char(n % 10))
    }
}

/// Whether `s` is the shortest way to write its number: at least one digit,
/// only digits, and no leading zero unless the zero stands alone.
pub open spec fn is_canonical(s: Seq<char>) -> bool {
    &&& s.len() >= 1
    &&& all_digits(s)
    &&& (s.len() == 1 || s[0] != '0')
}

/// A digit and its value determine each other.
pub proof fn lemma_digit_char_value(d: nat)
    requires
        d < 10,
    ensures
        is_digit(digit_char(d)),
        digit_value(digit_char(d)) == d,
{
}

/// The character of a digit's value is the digit.
pub proof fn lemma_digit_value_char(c: char)
    requires
        is_digit(c),
    ensures
        digit_value(c) < 10,
        digit_char(digit_value(c)) == c,
{
}

/// No power of ten is zero.
pub proof fn lemma_pow10_positive(e: nat)
    ensures
        pow10(e) >= 1,
    decreases e,
{
    if e > 0 {
        lemma_pow10_positive((e - 1) as nat);
    }
}

/// One more zero behind a number multiplies it by ten.
pub proof fn lemma_pow10_step(v: nat, e: nat)
    ensures
        v * pow10(e + 1) == 10 * (v * pow10(e)),
{
    let p = pow10(e);
    assert(pow10(e + 1) == 10 * p);
    assert(v * (10 * p) == 10 * (v * p)) by (nonlinear_arith);
}

/// More zeros behind a number make it no smaller.
pub proof fn lemma_pow10_scale_grows(v: nat, a: nat, b: nat)
    requires
        a <= b,
    ensures
        v * pow10(a) <= v * pow10(b),
    decreases b - a,
{
    if a < b {
        lemma_pow10_scale_grows(v, a, (b - 1) as nat);
        lemma_pow10_step(v, (b - 1) as nat);
    }
}

/// Characters that are no digits, put before a text, leave its number as
/// it is.
pub proof fn lemma_digits_value_skips_prefix(a: Seq<char>, b: Seq<char>)
    requires
        forall|i: int| 0 <= i < a.len() ==> !is_digit(#[trigger] a[i]),
    ensures
        digits_value(a + b) == digits_value(b),
    decreases a.len() + b.len(),
{
    if b.len() > 0 {
        assert((a + b).drop_last() == a + b.drop_last());
        lemma_digits_value_skips_prefix(a, b.drop_last());
    } else if a.len() > 0 {
        assert(a + b == a);
        assert(a.drop_last() + b == a.drop_last());
        lemma_digits_value_skips_prefix(a.drop_last(), b);
    } else {
        assert(a + b == b);
    }
}

/// Digits that do not begin with a zero spell a number that is not zero.
pub proof fn lemma_leading_digit_counts(s: Seq<char>)
    requires
        s.len() >= 1,
        all_digits(s),
        s[0] != '0',
    ensures
        digits_value(s) >= 1,
    decreases s.len(),
{
    if s.len() == 1 {
        assert(s.drop_last().len() == 0);
        assert(is_digit(s[0]));
    } else {
        let front = s.drop_last();
        assert(front[0] == s[0]);
        lemma_leading_digit_counts(front);
        assert(is_digit(s[s.len() - 1]));
    }
}

/// Writing the number that canonical digits spell gives the same digits.
pub proof fn lemma_canonical_digits_are_kept(s: Seq<char>)
    requires
        is_canonical(s),
    ensures
        decimal_digits(digits_value(s)) == s,
    decreases s.len(),
{
    let last = s.last();
    let front = s.drop_last();
    assert(is_digit(s[s.len() - 1]));
    lemma_digit_value_char(last);
    if s.len() == 1 {
        assert(front.len() == 0);
        assert(digits_value(s) == digit_value(last));
        assert(s == seq![last]);
    } else {
        assert(front[0] == s[0]);
        lemma_leading_digit_counts(front);
        lemma_canonical_digits_are_kept(front);
        let n = digits_value(s);
        assert(n == 10 * digits_value(front) + digit_value(last));
        assert(n / 10 == digits_value(front));
        assert(n % 10 == digit_value(last));
        assert(front.push(last) == s);
    }
}

/// The digits written for a number are canonical and spell that number.
pub proof fn lemma_decimal_digits_spell(n: nat)
    ensures
        is_canonical(decimal_digits(n)),
        digits_value(decimal_digits(n)) == n,
    decreases n,
{
    let s = decimal_digits(n);
    reveal_with_fuel(digits_value, 2);
    if n < 10 {
        lemma_digit_char_value(n);
        assert(s.drop_last().len() == 0);
        assert(s.last() == digit_char(n));
    } else {
        let front = decimal_digits(n / 10);
        lemma_decimal_digits_spell(n / 10);
        lemma_digit_char_value(n % 10);
        assert(s.drop_last() == front);
        assert(s.last() == digit_char(n % 10));
        assert(s[0] == front[0]);
        if front.len() == 1 {
            assert(front.drop_last().len() == 0);
            assert(is_digit(front[0]));
            assert(digits_value(front) == digit_value(front[0]));
        }
        assert forall|i: int| 0 <= i < s.len() implies is_digit(#[trigger] s[i]) by {
            if i < front.len() {
                assert(s[i] == front[i]);
            }
        }
    }
}

/// The number that `c` stands for, if `c` is a digit.
pub fn digit_of(c: char) -> (d: Option<u8>)
    ensures
        d is Some <==> is_digit(c),
        d matches Some(v) ==> v == digit_value(c) && v < 10,
{
    if c >= '0' && c <= '9' {
        Some(c as u8 - ZERO)
    } else {
        None
    }
}

/// The character that writes a number below ten.
pub fn char_of_digit(d: u8) -> (c: char)
    requires
        d < 10,
    ensures
        c == digit_char(d as nat),
{
    (ZERO + d) as char
}

/// Writes `n` in base ten at the end of `out`.
pub fn push_decimal(out: &mut String, n: u64)
    ensures
        final(out)@ == old(out)@ + decimal_digits(n as nat),
    decreases n,
{
    if n >= 10 {
        push_decimal(out, n / 10);
    }
    out.push(char_of_digit((n % 10) as u8));
}

} // verus!
