//! How an amount is written: the figures with two decimal places, the sign,
//! the currency's symbol and the padding.

use crate::decimal::{decimal_digits, digit_char};
use crate::money::MoneyView;
use vstd::prelude::*;

verus! {

/// How an amount is padded when it is written.
#[derive(Debug, Clone, Copy, PartialEq, Eq)]
pub struct FillOptions {
    /// How many fill characters follow the currency's symbol, if any do.
    pub width: Option<usize>,
    /// The character to pad with.
    pub fill: char,
}

impl Default for FillOptions {
    /// No padding, and the space as the fill character.
    fn default() -> (options: FillOptions)
        ensures
            options == (FillOptions { width: None, fill: ' ' }),
    {
        FillOptions { width: None, fill: ' ' }
    }
}

/// The run of fill characters that `options` asks for.
pub open spec fn padding(options: FillOptions) -> Seq<char> {
    match options.width {
        Some(width) => Seq::new(width as nat, |i: int| options.fill),
        None => Seq::empty(),
    }
}

/// The minus sign of a negative amount, and nothing for any other.
pub open spec fn sign(negative: bool) -> Seq<char> {
    if negative {
        seq!['-']
    } else {
        Seq::empty()
    }
}

/// A number below a hundred in exactly two digits.
pub open spec fn two_digits(n: nat) -> Seq<char>
    recommends
        n < 100,
{
    seq![digit_char(n / 10), digit_char(n % 10)]
}

/// A count of minor units in major units: the whole part without leading
/// zeros, the decimal point, and the two digits of the fraction.
pub open spec fn figures(magnitude: nat) -> Seq<char> {
    decimal_digits(magnitude / 100) + seq!['.'] + two_digits(magnitude % 100)
}

/// What stands before the sign: for a currency with a symbol, the symbol
/// and then the padding; for one without, nothing, so that the padding is
/// left out as well.
pub open spec fn lead(symbol: Seq<char>, options: FillOptions) -> Seq<char> {
    if symbol.len() == 0 {
        Seq::empty()
    } else {
        symbol + padding(options)
    }
}

/// The text of an amount. Zero is the bare digit `0`, whatever the sign,
/// the currency and the padding. Any other amount is the lead of its
/// currency, the sign, and the figures.
pub open spec fn rendered(money: MoneyView, options: FillOptions) -> Seq<char> {
    if money.magnitude == 0 {
        seq!['0']
    } else {
        lead(money.currency.symbol, options) + sign(money.negative) + figures(money.magnitude)
    }
}

} // verus!
