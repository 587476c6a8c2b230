//! Amounts of money: an exact count of minor units, a sign and a currency.

pub mod laws;
pub mod parsing;
pub mod rendering;

use crate::currency::iso::Iso;
use crate::currency::{registered, registered_or_default, Currency, CurrencyView};
use crate::strings::uppercase_of;
use crate::decimal::{
    char_of_digit, digit_of, digits_value, lemma_pow10_scale_grows, lemma_pow10_step, pow10,
    push_decimal,
};
use crate::error::Error;
use parsing::{
    fraction_digits, is_amount, is_amount_char, is_negative, lemma_contains_push,
    lemma_amount_with_third_digit, lemma_amount_without_third_digit,
    lemma_digits_overflow_is_refused, lemma_foreign_char_is_refused, minor_units, scanned,
};
use rendering::{figures, lead, rendered, sign, FillOptions};
use vstd::prelude::*;
use vstd::std_specs::iter::IteratorSpec;
use vstd::string::StringExecFns;

verus! {

/// An amount of money in one currency.
#[derive(Debug, PartialEq, Eq)]
pub struct Money {
    amount: i64,
    currency: &'static Currency,
    is_negative: bool,
}

/// An amount of money as plain values: the count of minor units, a hundred
/// of which make one major unit, the sign, and the currency's record.
pub struct MoneyView {
    pub magnitude: nat,
    pub negative: bool,
    pub currency: CurrencyView,
}

impl View for Money {
    type V = MoneyView;

    closed spec fn view(&self) -> MoneyView {
        MoneyView {
            magnitude: self.amount as nat,
            negative: self.is_negative,
            currency: self.currency@,
        }
    }
}

impl Clone for Money {
    fn clone(&self) -> (copy: Money)
        ensures
            copy@ == self@,
    {
        proof {
            use_type_invariant(self);
        }
        Money { amount: self.amount, currency: self.currency, is_negative: self.is_negative }
    }
}

impl std::str::FromStr for Money {
    type Err = Error;

    /// Reads an amount in the default currency.
    fn from_str(s: &str) -> (parsed: Result<Money, Error>)
        ensures
            parsed is Ok <==> is_amount(s@),
            parsed matches Ok(money) ==> money@ == (MoneyView {
                magnitude: minor_units(s@),
                negative: is_negative(s@),
                currency: Iso::USD.record(),
            }),
            parsed matches Err(e) ==> e == Error::InvalidAmount,
    {
        Money::from_text(s, Iso::USD.currency())
    }
}

impl Money {
    #[verifier::type_invariant]
    spec fn magnitude_is_a_count(self) -> bool {
        self.amount >= 0
    }

    /// Reads an amount from decimal text, in the currency whose code is
    /// given in upper or lower case. A code that the registry does not hold
    /// gives the default currency.
    pub fn from_string(s: String, currency: String) -> (parsed: Result<Money, Error>)
        ensures
            parsed is Ok <==> is_amount(s@),
            parsed matches Ok(money) ==> money@ == (MoneyView {
                magnitude: minor_units(s@),
                negative: is_negative(s@),
                currency: registered_or_default(uppercase_of(currency@)),
            }),
            parsed matches Ok(money) ==> (registered(uppercase_of(currency@)) is None
                ==> money@.currency == Iso::USD.record()),
            parsed matches Err(e) ==> e == Error::InvalidAmount,
    {
        let currency: &'static Currency = match Currency::from_string(currency) {
            Ok(record) => record,
            Err(_) => Iso::USD.currency(),
        };
        Money::from_text(s.as_str(), currency)
    }

    /// Reads an amount from decimal text, in the given currency.
    ///
    /// The text is read from left to right. A minus sign anywhere makes the
    /// amount negative and a decimal point starts the fraction. Two digits
    /// of the fraction are kept; a third rounds the amount up by one minor
    /// unit if it is five or more, and ends the reading. Any other
    /// character, and a count that does not fit, is refused.
    pub fn from_text(text: &str, currency: &'static Currency) -> (parsed: Result<Money, Error>)
        ensures
            parsed is Ok <==> is_amount(text@),
            parsed matches Ok(money) ==> money@ == (MoneyView {
                magnitude: minor_units(text@),
                negative: is_negative(text@),
                currency: currency@,
            }),
            parsed matches Err(e) ==> e == Error::InvalidAmount,
    {
        let ghost s = text@;
        let mut amount: i64 = 0;
        let mut is_negative: bool = false;
        let mut decimal_found: bool = false;
        let mut decimal_places: u8 = 0;
        let mut chars = text.chars();
        let ghost mut i: int = 0;
        assert(s.take(0) == Seq::<char>::empty());
        loop
            invariant
                s == text@,
                0 <= i <= s.len(),
                chars.remaining() == s.skip(i),
                decimal_places <= 2,
                fraction_digits(s.take(i)) == decimal_places,
                decimal_found == s.take(i).contains('.'),
                is_negative == s.take(i).contains('-'),
                0 <= amount,
                amount == digits_value(s.take(i)),
                forall|k: int| 0 <= k < i ==> is_amount_char(#[trigger] s[k]),
            ensures
                i == s.len(),
            decreases s.len() - i,
        {
            let c = match chars.next() {
                Some(c) => c,
                None => {
                    break ;
                },
            };
            proof {
                assert(c == s[i]);
                assert(s.take(i + 1) == s.take(i).push(c));
                assert(s.take(i + 1).drop_last() == s.take(i));
                assert(s.skip(i).drop_first() == s.skip(i + 1));
                lemma_contains_push(s.take(i), c, '.');
                lemma_contains_push(s.take(i), c, '-');
            }
            if c == '-' {
                is_negative = true;
            } else if c == '.' {
                decimal_found = true;
            } else {
                let digit: u8 = match digit_of(c) {
                    Some(digit) => digit,
                    None => {
                        proof {
                            lemma_foreign_char_is_refused(s, i);
                        }
                        return Err(Error::InvalidAmount);
                    },
                };
                if decimal_found {
                    if decimal_places == 2 {
                        proof {
                            lemma_amount_with_third_digit(s, i);
                            assert forall|k: int| 0 <= k < scanned(s).len() implies is_amount_char(
                                #[trigger] scanned(s)[k],
                            ) by {
                                assert(scanned(s)[k] == s[k]);
                            }
                        }
                        if digit > 4 {
                            amount = match amount.checked_add(1) {
                                Some(raised) => raised,
                                None => {
                                    return Err(Error::InvalidAmount);
                                },
                            };
                        }
                        return Ok(Money { amount, currency, is_negative });
                    }
                    decimal_places += 1;
                }
                let shifted: i64 = match amount.checked_mul(10) {
                    Some(shifted) => shifted,
                    None => {
                        proof {
                            lemma_digits_overflow_is_refused(s, i + 1);
                        }
                        return Err(Error::InvalidAmount);
                    },
                };
                amount = match shifted.checked_add(digit as i64) {
                    Some(sum) => sum,
                    None => {
                        proof {
                            lemma_digits_overflow_is_refused(s, i + 1);
                        }
                        return Err(Error::InvalidAmount);
                    },
                };
            }
            proof {
                i = i + 1;
            }
        }
        proof {
            assert(s.take(i) == s);
            lemma_amount_without_third_digit(s);
            assert(pow10(0) == 1);
            assert(digits_value(s) * 1 == digits_value(s));
        }
        let mut decimal_fill: u8 = 2 - decimal_places;
        while decimal_fill > 0
            invariant
                s == text@,
                decimal_places <= 2,
                decimal_fill <= 2 - decimal_places,
                minor_units(s) == digits_value(s) * pow10((2 - decimal_places) as nat),
                scanned(s) == s,
                fraction_digits(s) == decimal_places,
                is_negative == s.contains('-'),
                forall|k: int| 0 <= k < s.len() ==> is_amount_char(#[trigger] s[k]),
                0 <= amount,
                amount == digits_value(s) * pow10((2 - decimal_places - decimal_fill) as nat),
            decreases decimal_fill,
        {
            let ghost filled = (2 - decimal_places - decimal_fill) as nat;
            proof {
                lemma_pow10_step(digits_value(s), filled);
            }
            amount = match amount.checked_mul(10) {
                Some(shifted) => shifted,
                None => {
                    proof {
                        lemma_pow10_scale_grows(
                            digits_value(s),
                            filled + 1,
                            (2 - decimal_places) as nat,
                        );
                    }
                    return Err(Error::InvalidAmount);
                },
            };
            decimal_fill -= 1;
        }
        Ok(Money { amount, currency, is_negative })
    }

    /// The count of minor units, without the sign.
    pub fn amount(&self) -> (amount: i64)
        ensures
            amount == self@.magnitude,
    {
        proof {
            use_type_invariant(self);
        }
        self.amount
    }

    /// Whether the amount was written with a minus sign.
    pub fn is_negative(&self) -> (negative: bool)
        ensures
            negative == self@.negative,
    {
        self.is_negative
    }

    /// The currency of the amount.
    pub fn currency(&self) -> (currency: &'static Currency)
        ensures
            currency@ == self@.currency,
    {
        self.currency
    }

    /// Writes the amount without padding.
    pub fn to_string(&self) -> (text: String)
        ensures
            text@ == rendered(self@, (FillOptions { width: None, fill: ' ' })),
            self@.magnitude == 0 ==> text@ == seq!['0'],
    {
        self.format(&FillOptions::default())
    }

    /// Writes the amount: the currency's symbol, the padding that `options`
    /// asks for, the sign, and the figures with two decimal places. An
    /// amount of zero is written as `0` and nothing else.
    pub fn format(&self, options: &FillOptions) -> (text: String)
        ensures
            text@ == rendered(self@, *options),
            self@.magnitude == 0 ==> text@ == seq!['0'],
    {
        proof {
            use_type_invariant(self);
        }
        let mut text = String::new();
        if self.amount == 0 {
            text.push('0');
            assert(text@ == seq!['0']);
            return text;
        }
        let symbol: &'static str = self.currency.symbol;
        if !symbol.is_empty() {
            text.append(symbol);
            if let Some(width) = options.width {
                let mut written: usize = 0;
                while written < width
                    invariant
                        written <= width,
                        text@ == symbol@ + Seq::new(written as nat, |i: int| options.fill),
                    decreases width - written,
                {
                    text.push(options.fill);
                    written += 1;
                }
            }
        }
        let ghost head = text@;
        assert(head == lead(symbol@, *options));
        if self.is_negative {
            text.push('-');
        }
        assert(text@ == head + sign(self.is_negative));
        let whole: u64 = (self.amount / 100) as u64;
        let cents: u8 = (self.amount % 100) as u8;
        push_decimal(&mut text, whole);
        text.push('.');
        text.push(char_of_digit(cents / 10));
        text.push(char_of_digit(cents % 10));
        assert(text@ == head + sign(self.is_negative) + figures(self.amount as nat));
        text
    }
}

} // verus!
