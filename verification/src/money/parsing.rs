//! What an amount text means: which of its characters are read, the count
//! of minor units they spell, and when the text is refused.

use crate::decimal::{digit_value, digits_value, is_digit, lemma_pow10_positive, pow10};
use vstd::prelude::*;

verus! {

/// Whether an amount text may hold `c`: a digit, the decimal point or the
/// minus sign.
pub open spec fn is_amount_char(c: char) -> bool {
    is_digit(c) || c == '.' || c == '-'
}

/// How many digits of `s` stand behind its first decimal point.
pub open spec fn fraction_digits(s: Seq<char>) -> nat
    decreases s.len(),
{
    if s.len() == 0 {
        0
    } else if is_digit(s.last()) && s.drop_last().contains('.') {
        fraction_digits(s.drop_last()) + 1
    } else {
        fraction_digits(s.drop_last())
    }
}

/// The part of `text` that is read character by character: its longest
/// prefix with at most two digits behind the first decimal point. Where
/// `text` goes on, its next character is a third such digit, which only
/// decides the rounding; nothing behind that digit is looked at.
pub open spec fn scanned(text: Seq<char>) -> Seq<char>
    decreases text.len(),
{
    if text.len() == 0 || fraction_digits(text) <= 2 {
        text
    } else {
        scanned(text.drop_last())
    }
}

/// Whether `text` has a third digit behind its decimal point and that digit
/// is five or more, so that the amount is raised by one minor unit.
pub open spec fn rounds_up(text: Seq<char>) -> bool {
    let read = scanned(text).len() as int;
    read < text.len() && digit_value(text[read]) > 4
}

/// The count of minor units that `text` spells: the digits that were read,
/// filled with zeros to two places behind the decimal point, and one more
/// where the third place rounds up.
pub open spec fn minor_units(text: Seq<char>) -> nat {
    let read = scanned(text);
    let filled = digits_value(read) * pow10((2 - fraction_digits(read)) as nat);
    if rounds_up(text) {
        filled + 1
    } else {
        filled
    }
}

/// Whether a minus sign was read in `text`.
pub open spec fn is_negative(text: Seq<char>) -> bool {
    scanned(text).contains('-')
}

/// Whether every character that is read in `text` may stand in an amount.
pub open spec fn is_well_formed(text: Seq<char>) -> bool {
    forall|i: int| 0 <= i < scanned(text).len() ==> is_amount_char(#[trigger] scanned(text)[i])
}

/// Whether `text` is accepted as an amount: it is well formed and its count
/// of minor units fits the magnitude.
pub open spec fn is_amount(text: Seq<char>) -> bool {
    is_well_formed(text) && minor_units(text) <= i64::MAX
}

/// A sequence with one more character holds `c` if the sequence did or the
/// new character is `c`.
pub proof fn lemma_contains_push(s: Seq<char>, last: char, c: char)
    ensures
        s.push(last).contains(c) <==> s.contains(c) || last == c,
{
    let t = s.push(last);
    if s.contains(c) {
        let i = choose|i: int| 0 <= i < s.len() && s[i] == c;
        assert(t[i] == c);
    }
    if last == c {
        assert(t[s.len() as int] == c);
    }
    if t.contains(c) {
        let i = choose|i: int| 0 <= i < t.len() && t[i] == c;
        if i < s.len() {
            assert(s[i] == c);
        }
    }
}

/// A longer prefix has no fewer digits behind the decimal point.
pub proof fn lemma_fraction_digits_grow(s: Seq<char>, i: int, j: int)
    requires
        0 <= i <= j <= s.len(),
    ensures
        fraction_digits(s.take(i)) <= fraction_digits(s.take(j)),
    decreases j - i,
{
    if i < j {
        lemma_fraction_digits_grow(s, i, j - 1);
        assert(s.take(j).drop_last() == s.take(j - 1));
    }
}

/// A longer prefix spells no smaller number.
pub proof fn lemma_digits_value_grows(s: Seq<char>, i: int, j: int)
    requires
        0 <= i <= j <= s.len(),
    ensures
        digits_value(s.take(i)) <= digits_value(s.take(j)),
    decreases j - i,
{
    if i < j {
        lemma_digits_value_grows(s, i, j - 1);
        assert(s.take(j).drop_last() == s.take(j - 1));
    }
}

/// What is read is a prefix of the text with at most two digits behind the
/// decimal point.
pub proof fn lemma_scanned_is_prefix(text: Seq<char>)
    ensures
        scanned(text).len() <= text.len(),
        scanned(text) == text.take(scanned(text).len() as int),
        fraction_digits(scanned(text)) <= 2,
    decreases text.len(),
{
    if text.len() == 0 || fraction_digits(text) <= 2 {
        assert(text.take(text.len() as int) == text);
    } else {
        let shorter = text.drop_last();
        lemma_scanned_is_prefix(shorter);
        let n = scanned(shorter).len() as int;
        assert(shorter.take(n) == text.take(n));
    }
}

/// Every prefix with at most two digits behind the decimal point is read in
/// full.
pub proof fn lemma_scanned_covers(text: Seq<char>, k: int)
    requires
        0 <= k <= text.len(),
        fraction_digits(text.take(k)) <= 2,
    ensures
        k <= scanned(text).len(),
    decreases text.len(),
{
    if text.len() == 0 || fraction_digits(text) <= 2 {
    } else {
        let shorter = text.drop_last();
        if k == text.len() {
            assert(text.take(k) == text);
        } else {
            assert(shorter.take(k) == text.take(k));
            lemma_scanned_covers(shorter, k);
        }
    }
}

/// Where the character at `k` is the third digit behind the decimal point,
/// exactly the `k` characters before it are read.
pub proof fn lemma_scanned_stops_at_third_digit(text: Seq<char>, k: int)
    requires
        0 <= k < text.len(),
        fraction_digits(text.take(k)) <= 2,
        fraction_digits(text.take(k + 1)) > 2,
    ensures
        scanned(text) == text.take(k),
{
    lemma_scanned_is_prefix(text);
    lemma_scanned_covers(text, k);
    let n = scanned(text).len() as int;
    if n > k {
        lemma_fraction_digits_grow(text, k + 1, n);
    }
}

/// The amount of a text with a third digit behind the decimal point, at
/// `k`: the digits before it, and one more if it is five or more.
pub proof fn lemma_amount_with_third_digit(text: Seq<char>, k: int)
    requires
        0 <= k < text.len(),
        fraction_digits(text.take(k)) <= 2,
        fraction_digits(text.take(k + 1)) > 2,
    ensures
        scanned(text) == text.take(k),
        minor_units(text) == digits_value(text.take(k)) + if digit_value(text[k]) > 4 {
            1nat
        } else {
            0nat
        },
{
    lemma_scanned_stops_at_third_digit(text, k);
    assert(text.take(k + 1).drop_last() == text.take(k));
    assert(fraction_digits(text.take(k)) == 2);
    assert(pow10(0) == 1);
    assert(digits_value(text.take(k)) * 1 == digits_value(text.take(k)));
}

/// The amount of a text with at most two digits behind the decimal point:
/// all of it is read, zeros fill the missing places, and nothing is rounded.
pub proof fn lemma_amount_without_third_digit(text: Seq<char>)
    requires
        fraction_digits(text) <= 2,
    ensures
        scanned(text) == text,
        !rounds_up(text),
        minor_units(text) == digits_value(text) * pow10((2 - fraction_digits(text)) as nat),
{
}

/// A character that may not stand in an amount, at a place that is read,
/// makes the text no amount.
pub proof fn lemma_foreign_char_is_refused(text: Seq<char>, k: int)
    requires
        0 <= k < text.len(),
        fraction_digits(text.take(k)) <= 2,
        !is_amount_char(text[k]),
    ensures
        !is_amount(text),
{
    assert(text.take(k + 1).drop_last() == text.take(k));
    lemma_scanned_covers(text, k + 1);
    lemma_scanned_is_prefix(text);
    assert(scanned(text)[k] == text[k]);
}

/// A count of minor units that the magnitude cannot hold makes the text no
/// amount, whether the digits, the zeros that fill the fraction or the
/// rounding take it over the limit.
pub proof fn lemma_overflow_is_refused(text: Seq<char>)
    requires
        minor_units(text) > i64::MAX,
    ensures
        !is_amount(text),
{
}

/// Digits that are read and spell more than the magnitude holds make the
/// text no amount, whatever follows them.
pub proof fn lemma_digits_overflow_is_refused(text: Seq<char>, k: int)
    requires
        0 <= k <= text.len(),
        fraction_digits(text.take(k)) <= 2,
        digits_value(text.take(k)) > i64::MAX,
    ensures
        !is_amount(text),
{
    lemma_scanned_covers(text, k);
    lemma_scanned_is_prefix(text);
    let read = scanned(text);
    lemma_digits_value_grows(text, k, read.len() as int);
    let fill = pow10((2 - fraction_digits(read)) as nat);
    lemma_pow10_positive((2 - fraction_digits(read)) as nat);
    assert(digits_value(read) * fill >= digits_value(read)) by (nonlinear_arith)
        requires
            fill >= 1,
    ;
}

} // verus!
