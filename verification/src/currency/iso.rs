//! The currencies of ISO 4217 that this crate knows, as an enumeration.

use crate::currency::{Currency, CurrencyView};
use vstd::prelude::*;

verus! {

/// The alphabetic code of a supported currency.
#[derive(Debug, Clone, Copy, PartialEq, Eq, Structural)]
pub enum Iso {
    USD,
}

impl Iso {
    /// Every supported code, in the order in which the registry lists them.
    pub open spec fn all() -> Seq<Iso> {
        seq![Iso::USD]
    }

    /// The record that belongs to this code.
    pub open spec fn record(self) -> CurrencyView {
        match self {
            Iso::USD => CurrencyView {
                code: "USD"@,
                name: "United States Dollar"@,
                symbol: "$"@,
            },
        }
    }

    /// The code as text, spelled as the variant is.
    pub fn to_string(&self) -> (text: String)
        ensures
            text@ == self.record().code,
    {
        match self {
            Iso::USD => "USD".to_owned(),
        }
    }

    /// The record of this code, shared for the life of the program.
    pub fn currency(&self) -> (record: &'static Currency)
        ensures
            record@ == self.record(),
    {
        match self {
            Iso::USD => &Currency { code: "USD", name: "United States Dollar", symbol: "$" },
        }
    }
}

/// Every supported code, in registry order.
pub fn iso_currencies() -> (codes: Vec<Iso>)
    ensures
        codes@ == Iso::all(),
{
    let mut codes: Vec<Iso> = Vec::new();
    codes.push(Iso::USD);
    codes
}

/// Returns a Currency object given an ISO enum.
pub fn from_enum(code: &Iso) -> (record: Currency)
    ensures
        record@ == code.record(),
{
    *code.currency()
}

/// The list of supported codes leaves no code out.
pub proof fn lemma_all_lists_every_code(code: Iso)
    ensures
        Iso::all().contains(code),
{
    assert(Iso::all()[0] == Iso::USD);
}

} // verus!
