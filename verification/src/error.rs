use vstd::prelude::*;

verus! {

/// The ways an operation of this crate can fail.
#[derive(Debug, Clone, Copy, PartialEq, Eq, Structural)]
pub enum Error {
    /// No currency is registered under the requested code.
    InvalidCurrency,
    /// The amount text is not a decimal number that fits the magnitude.
    InvalidAmount,
}

impl Error {
    /// The text of the message that describes this error.
    pub open spec fn message(self) -> Seq<char> {
        match self {
            Error::InvalidCurrency => "Currency was not valid"@,
            Error::InvalidAmount => "Amount is not a number"@,
        }
    }

    /// The message of the error as a string of its own.
    pub fn to_string(&self) -> (text: String)
        ensures
            text@ == self.message(),
    {
        self.description().to_owned()
    }

    /// A short, fixed description of the error.
    pub fn description(&self) -> (text: &'static str)
        ensures
            text@ == self.message(),
    {
        match *self {
            Error::InvalidCurrency => "Currency was not valid",
            Error::InvalidAmount => "Amount is not a number",
        }
    }
}

} // verus!
