//! Currency records and the registry that finds them by their code.

pub mod iso;

use crate::error::Error;
use crate::strings::uppercase_of;
use iso::{iso_currencies, Iso};
use vstd::prelude::*;

verus! {

/// What is known of one currency.
#[derive(Debug, Clone, Copy, PartialEq, Eq)]
pub struct Currency {
    /// Alphabetic code of three upper-case letters, the key of the record.
    pub code: &'static str,
    /// Name for display.
    pub name: &'static str,
    /// Sign written before an amount; empty where none is shown.
    pub symbol: &'static str,
}

/// A currency record as plain sequences of characters.
pub struct CurrencyView {
    pub code: Seq<char>,
    pub name: Seq<char>,
    pub symbol: Seq<char>,
}

impl View for Currency {
    type V = CurrencyView;

    open spec fn view(&self) -> CurrencyView {
        CurrencyView { code: self.code@, name: self.name@, symbol: self.symbol@ }
    }
}

/// The records of all supported currencies, one for each code of `Iso`.
pub open spec fn registry() -> Seq<CurrencyView> {
    Iso::all().map_values(|code: Iso| code.record())
}

/// The first record of `table` whose code is `code`, if there is one.
pub open spec fn find_record(table: Seq<CurrencyView>, code: Seq<char>) -> Option<CurrencyView>
    decreases table.len(),
{
    if table.len() == 0 {
        None
    } else if table.first().code == code {
        Some(table.first())
    } else {
        find_record(table.drop_first(), code)
    }
}

/// The record that the registry holds under `code`, spelled exactly.
pub open spec fn registered(code: Seq<char>) -> Option<CurrencyView> {
    find_record(registry(), code)
}

/// The views of a table of shared records.
pub open spec fn views(table: Seq<&'static Currency>) -> Seq<CurrencyView> {
    table.map_values(|record: &'static Currency| record@)
}

/// The code under which the registry keeps the currency that stands in for
/// one it does not know.
pub open spec fn default_code() -> Seq<char> {
    "USD"@
}

/// The record that the registry gives for `code`, or the default currency's
/// record where it holds none under that code.
pub open spec fn registered_or_default(code: Seq<char>) -> CurrencyView {
    match registered(code) {
        Some(record) => record,
        None => Iso::USD.record(),
    }
}

impl Currency {
    /// Finds a currency by its alphabetic code, in upper or lower case.
    pub fn find(code: &str) -> (found: Result<&'static Currency, Error>)
        ensures
            match found {
                Ok(record) => registered(uppercase_of(code@)) == Some(record@),
                Err(e) => e == Error::InvalidCurrency && registered(uppercase_of(code@)) is None,
            },
    {
        Currency::from_string(code.to_owned())
    }

    /// Finds a currency by its alphabetic code, in upper or lower case.
    pub fn from_string(code: String) -> (found: Result<&'static Currency, Error>)
        ensures
            match found {
                Ok(record) => registered(uppercase_of(code@)) == Some(record@),
                Err(e) => e == Error::InvalidCurrency && registered(uppercase_of(code@)) is None,
            },
    {
        match Currency::find_by_alpha_iso(code) {
            Some(record) => Ok(record),
            None => Err(Error::InvalidCurrency),
        }
    }

    /// Returns a Currency given an alphabetic ISO-4217 currency code.
    pub fn find_by_alpha_iso(code: String) -> (found: Option<&'static Currency>)
        ensures
            match found {
                Some(record) => registered(uppercase_of(code@)) == Some(record@),
                None => registered(uppercase_of(code@)) is None,
            },
    {
        let upper = code.as_str().to_uppercase();
        Currency::find_by_code(upper.as_str())
    }

    /// Finds the currency whose code is spelled exactly as `code` is.
    pub fn find_by_code(code: &str) -> (found: Option<&'static Currency>)
        ensures
            match found {
                Some(record) => registered(code@) == Some(record@),
                None => registered(code@) is None,
            },
    {
        let table = Currency::generate_currencies_by_alpha_code();
        let mut i: usize = 0;
        assert(registry().skip(0) == registry());
        while i < table.len()
            invariant
                i <= table.len(),
                views(table@) == registry(),
                registered(code@) == find_record(registry().skip(i as int), code@),
            decreases table.len() - i,
        {
            let record: &'static Currency = table[i];
            proof {
                let rest = registry().skip(i as int);
                assert(rest.first() == record@);
                assert(rest.drop_first() == registry().skip(i + 1));
            }
            if record.code.eq(code) {
                return Some(record);
            }
            i += 1;
        }
        None
    }

    /// The records of all supported currencies, in the order of their codes.
    pub fn generate_currencies_by_alpha_code() -> (table: Vec<&'static Currency>)
        ensures
            views(table@) == registry(),
    {
        let codes = iso_currencies();
        let mut table: Vec<&'static Currency> = Vec::new();
        let mut i: usize = 0;
        while i < codes.len()
            invariant
                i <= codes.len(),
                codes@ == Iso::all(),
                table@.len() == i,
                forall|k: int| 0 <= k < i ==> (#[trigger] table@[k])@ == codes@[k].record(),
            decreases codes.len() - i,
        {
            table.push(codes[i].currency());
            i += 1;
        }
        assert(views(table@) =~= registry());
        table
    }

    /// The currency's code, which is how a currency is written.
    pub fn to_string(&self) -> (text: String)
        ensures
            text@ == self@.code,
    {
        self.code.to_owned()
    }
}

/// The registry holds at most one record for a code.
pub proof fn lemma_registry_codes_unique(i: int, j: int)
    requires
        0 <= i < registry().len(),
        0 <= j < registry().len(),
        registry()[i].code == registry()[j].code,
    ensures
        i == j,
{
}

/// A record found under a code is a record of the registry and carries that
/// code.
pub proof fn lemma_found_record_has_code(table: Seq<CurrencyView>, code: Seq<char>)
    ensures
        find_record(table, code) matches Some(record) ==> record.code == code && table.contains(
            record,
        ),
        find_record(table, code) is None ==> forall|i: int|
            0 <= i < table.len() ==> (#[trigger] table[i]).code != code,
    decreases table.len(),
{
    if table.len() > 0 && table.first().code != code {
        let rest = table.drop_first();
        lemma_found_record_has_code(rest, code);
        if let Some(record) = find_record(rest, code) {
            let k = choose|k: int| 0 <= k < rest.len() && rest[k] == record;
            assert(table[k + 1] == record);
        } else {
            assert forall|i: int| 0 <= i < table.len() implies (#[trigger] table[i]).code
                != code by {
                if i > 0 {
                    assert(rest[i - 1] == table[i]);
                }
            }
        }
    }
}

/// The registry holds the default currency under its code.
pub proof fn lemma_default_is_registered()
    ensures
        registered(default_code()) == Some(Iso::USD.record()),
{
    assert(registry()[0] == Iso::USD.record());
}

} // verus!
