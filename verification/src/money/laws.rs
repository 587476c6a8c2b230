//! Laws that tie the reading of an amount to its writing.

use crate::currency::CurrencyView;
use crate::decimal::{
    all_digits, decimal_digits, digit_value, digits_value, is_canonical, is_digit,
    lemma_canonical_digits_are_kept, lemma_decimal_digits_spell, lemma_digit_char_value,
    lemma_digit_value_char, lemma_digits_value_skips_prefix, pow10,
};
use crate::money::parsing::{
    fraction_digits, is_amount, is_amount_char, is_negative, is_well_formed,
    lemma_amount_without_third_digit, minor_units, scanned,
};
use crate::money::rendering::{figures, lead, rendered, sign, two_digits, FillOptions};
use crate::money::MoneyView;
use vstd::prelude::*;

verus! {

/// An amount text in plain form: the minus sign of a negative amount, the
/// digits of the whole part and, where a fraction is given, the decimal
/// point and the digits of the fraction.
pub open spec fn plain_text(negative: bool, whole: Seq<char>, fraction: Option<Seq<char>>) -> Seq<
    char,
> {
    sign(negative) + whole + match fraction {
        Some(digits) => seq!['.'] + digits,
        None => Seq::empty(),
    }
}

/// Whether the parts are digits throughout, with at most two of them in the
/// fraction.
pub open spec fn is_plain(whole: Seq<char>, fraction: Option<Seq<char>>) -> bool {
    &&& all_digits(whole)
    &&& fraction matches Some(digits) ==> all_digits(digits) && digits.len() <= 2
}

/// The fraction in exactly two digits: zeros take the places that were not
/// written.
pub open spec fn two_places(fraction: Option<Seq<char>>) -> Seq<char> {
    match fraction {
        Some(digits) => digits + Seq::new((2 - digits.len()) as nat, |i: int| '0'),
        None => seq!['0', '0'],
    }
}

/// The count of minor units that the parts of a plain text stand for.
pub open spec fn plain_value(whole: Seq<char>, fraction: Option<Seq<char>>) -> nat {
    100 * digits_value(whole) + digits_value(two_places(fraction))
}

/// A text without a decimal point has no digits behind one.
pub proof fn lemma_no_point_no_fraction(s: Seq<char>)
    requires
        !s.contains('.'),
    ensures
        fraction_digits(s) == 0,
    decreases s.len(),
{
    if s.len() > 0 {
        let front = s.drop_last();
        if front.contains('.') {
            let i = choose|i: int| 0 <= i < front.len() && front[i] == '.';
            assert(s[i] == '.');
        }
        lemma_no_point_no_fraction(front);
    }
}

/// Two digits spell ten times the first plus the second, and that number is
/// written with the same two digits.
pub proof fn lemma_two_digits(first: char, second: char)
    requires
        is_digit(first),
        is_digit(second),
    ensures
        digits_value(seq![first, second]) == 10 * digit_value(first) + digit_value(second),
        two_digits(digits_value(seq![first, second])) == seq![first, second],
{
    let s = seq![first, second];
    reveal_with_fuel(digits_value, 3);
    assert(s.drop_last() == seq![first]);
    assert(seq![first].drop_last().len() == 0);
    lemma_digit_value_char(first);
    lemma_digit_value_char(second);
    let n = 10 * digit_value(first) + digit_value(second);
    assert(n / 10 == digit_value(first));
    assert(n % 10 == digit_value(second));
}

/// A plain text is read to its end as what it says: the count of minor
/// units of its parts, and negative exactly if it has the minus sign. It is
/// an amount exactly if that count fits the magnitude.
pub proof fn lemma_plain_text_is_read(negative: bool, whole: Seq<char>, fraction: Option<Seq<char>>)
    requires
        is_plain(whole, fraction),
    ensures
        is_well_formed(plain_text(negative, whole, fraction)),
        minor_units(plain_text(negative, whole, fraction)) == plain_value(whole, fraction),
        is_negative(plain_text(negative, whole, fraction)) == negative,
        is_amount(plain_text(negative, whole, fraction)) <==> plain_value(whole, fraction)
            <= i64::MAX,
{
    let text = plain_text(negative, whole, fraction);
    let head = sign(negative) + whole;
    let value = digits_value(whole);
    assert forall|i: int| 0 <= i < head.len() implies (#[trigger] head[i] == '-' || is_digit(
        head[i],
    )) by {
        if i >= sign(negative).len() {
            assert(head[i] == whole[i - sign(negative).len()]);
        }
    }
    assert(!head.contains('.'));
    lemma_no_point_no_fraction(head);
    lemma_digits_value_skips_prefix(sign(negative), whole);
    assert(pow10(0) == 1 && pow10(1) == 10 && pow10(2) == 100) by {
        reveal_with_fuel(pow10, 3);
    }
    let marked = head.push('.');
    assert(marked.drop_last() == head);
    assert(marked.last() == '.');
    assert(marked[head.len() as int] == '.');
    assert(marked.contains('.'));
    assert(fraction_digits(marked) == 0);
    assert(digits_value(marked) == value);
    match fraction {
        None => {
            assert(text == head);
            lemma_two_digits('0', '0');
            lemma_amount_without_third_digit(text);
            assert(minor_units(text) == value * pow10(2));
        },
        Some(digits) => {
            if digits.len() == 0 {
                assert(text == marked);
                assert(two_places(fraction) == seq!['0', '0']);
                lemma_two_digits('0', '0');
                lemma_amount_without_third_digit(text);
                assert(minor_units(text) == value * pow10(2));
            } else if digits.len() == 1 {
                let tenths = marked.push(digits[0]);
                assert(text == tenths);
                assert(tenths.drop_last() == marked);
                assert(tenths.last() == digits[0]);
                assert(is_digit(digits[0]));
                assert(fraction_digits(tenths) == 1);
                assert(digits_value(tenths) == 10 * value + digit_value(digits[0]));
                assert(two_places(fraction) == seq![digits[0], '0']);
                lemma_two_digits(digits[0], '0');
                lemma_amount_without_third_digit(text);
                assert(minor_units(text) == digits_value(tenths) * pow10(1));
            } else {
                let tenths = marked.push(digits[0]);
                let hundredths = tenths.push(digits[1]);
                assert(text == hundredths);
                assert(tenths.drop_last() == marked);
                assert(tenths.last() == digits[0]);
                assert(hundredths.drop_last() == tenths);
                assert(hundredths.last() == digits[1]);
                assert(is_digit(digits[0]) && is_digit(digits[1]));
                assert(tenths[head.len() as int] == '.');
                assert(tenths.contains('.'));
                assert(fraction_digits(tenths) == 1);
                assert(fraction_digits(hundredths) == 2);
                assert(digits_value(tenths) == 10 * value + digit_value(digits[0]));
                assert(digits_value(hundredths) == 10 * digits_value(tenths) + digit_value(
                    digits[1],
                ));
                assert(two_places(fraction) == seq![digits[0], digits[1]]);
                lemma_two_digits(digits[0], digits[1]);
                lemma_amount_without_third_digit(text);
                assert(minor_units(text) == digits_value(hundredths) * pow10(0));
            }
        },
    }
    assert(minor_units(text) == plain_value(whole, fraction));
    assert forall|i: int| 0 <= i < text.len() implies is_amount_char(#[trigger] text[i]) by {
        if i < head.len() {
            assert(text[i] == head[i]);
        } else if i > head.len() {
            assert(text[i] == fraction->0[i - head.len() - 1]);
        }
    }
    if negative {
        assert(text[0] == '-');
    } else {
        assert forall|i: int| 0 <= i < text.len() implies text[i] != '-' by {
            if i < head.len() {
                assert(text[i] == whole[i]);
            } else if i > head.len() {
                assert(text[i] == fraction->0[i - head.len() - 1]);
            }
        }
    }
}

/// Writing the amount that was read from a plain text gives the text back
/// in its canonical form: behind the lead of the currency come the sign,
/// the whole part without leading zeros, the decimal point, and the
/// fraction in two digits. Where the whole part was canonical to begin
/// with, it comes back as it was written. This holds of every plain text
/// whose amount fits the magnitude and is not zero.
pub proof fn lemma_round_trip(
    negative: bool,
    whole: Seq<char>,
    fraction: Option<Seq<char>>,
    currency: CurrencyView,
    options: FillOptions,
)
    requires
        is_plain(whole, fraction),
        0 < plain_value(whole, fraction) <= i64::MAX,
    ensures
        is_amount(plain_text(negative, whole, fraction)),
        rendered(
            MoneyView {
                magnitude: minor_units(plain_text(negative, whole, fraction)),
                negative: is_negative(plain_text(negative, whole, fraction)),
                currency,
            },
            options,
        ) == lead(currency.symbol, options) + sign(negative) + decimal_digits(digits_value(whole))
            + seq!['.'] + two_places(fraction),
        is_canonical(whole) ==> rendered(
            MoneyView {
                magnitude: minor_units(plain_text(negative, whole, fraction)),
                negative: is_negative(plain_text(negative, whole, fraction)),
                currency,
            },
            options,
        ) == lead(currency.symbol, options) + sign(negative) + whole + seq!['.'] + two_places(
            fraction,
        ),
{
    lemma_plain_text_is_read(negative, whole, fraction);
    let places = two_places(fraction);
    assert(places.len() == 2);
    assert(is_digit(places[0]) && is_digit(places[1])) by {
        if let Some(digits) = fraction {
            if digits.len() > 0 {
                assert(places[0] == digits[0]);
            }
            if digits.len() > 1 {
                assert(places[1] == digits[1]);
            }
        }
    }
    assert(places == seq![places[0], places[1]]);
    lemma_two_digits(places[0], places[1]);
    let magnitude = plain_value(whole, fraction);
    assert(magnitude / 100 == digits_value(whole));
    assert(magnitude % 100 == digits_value(places));
    assert(figures(magnitude) == decimal_digits(digits_value(whole)) + seq!['.'] + places);
    if is_canonical(whole) {
        lemma_canonical_digits_are_kept(whole);
    }
}

/// The figures of an amount always show two digits behind the decimal
/// point, and at least one digit and nothing but digits before it.
pub proof fn lemma_figures_have_two_places(magnitude: nat)
    ensures
        figures(magnitude).len() >= 4,
        figures(magnitude)[figures(magnitude).len() - 3] == '.',
        is_digit(figures(magnitude)[figures(magnitude).len() - 2]),
        is_digit(figures(magnitude)[figures(magnitude).len() - 1]),
        is_canonical(figures(magnitude).take(figures(magnitude).len() - 3)),
{
    let whole = decimal_digits(magnitude / 100);
    lemma_decimal_digits_spell(magnitude / 100);
    lemma_digit_char_value(magnitude % 100 / 10);
    lemma_digit_char_value(magnitude % 100 % 10);
    assert(figures(magnitude).take(figures(magnitude).len() - 3) == whole);
}

/// The figures of an amount, behind its sign, are a plain text that reads
/// back as the same amount.
pub proof fn lemma_figures_read_back(magnitude: nat, negative: bool)
    requires
        magnitude <= i64::MAX,
    ensures
        is_amount(sign(negative) + figures(magnitude)),
        minor_units(sign(negative) + figures(magnitude)) == magnitude,
        is_negative(sign(negative) + figures(magnitude)) == negative,
{
    let whole = decimal_digits(magnitude / 100);
    let cents = two_digits(magnitude % 100);
    lemma_decimal_digits_spell(magnitude / 100);
    lemma_digit_char_value(magnitude % 100 / 10);
    lemma_digit_char_value(magnitude % 100 % 10);
    assert(two_places(Some(cents)) == cents);
    assert(cents == seq![cents[0], cents[1]]);
    lemma_two_digits(cents[0], cents[1]);
    lemma_plain_text_is_read(negative, whole, Some(cents));
    assert(plain_text(negative, whole, Some(cents)) == sign(negative) + figures(magnitude));
}

} // verus!
