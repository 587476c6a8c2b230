use fixed_money::{from_enum, iso_currencies, Currency, Error, Iso};

#[test]
fn currency_find_known_can_be_found() {
    let currency_by_alpha = Currency::find("USD").unwrap();
    assert_eq!(currency_by_alpha.code, "USD");
    assert_eq!(currency_by_alpha.symbol, "$");
}

#[test]
fn currency_find_unknown_code_raise_invalid_currency_error() {
    assert_eq!(Currency::find("AAA").unwrap_err(), Error::InvalidCurrency,);
}

#[test]
fn currency_find_ignores_case() {
    assert_eq!(Currency::find("usd").unwrap().code, "USD");
    assert_eq!(Currency::find("uSd").unwrap().name, "United States Dollar");
    assert_eq!(Currency::from_string("Usd".to_string()).unwrap().symbol, "$");
    assert_eq!(Currency::find_by_alpha_iso("usd".to_string()).unwrap().code, "USD");
}

#[test]
fn currency_find_uses_unicode_case_mapping() {
    // The long s is a lower-case letter whose upper case is the plain S.
    assert_eq!(Currency::find("u\u{17f}d").unwrap().code, "USD");
}

#[test]
fn currency_exact_lookup_is_case_sensitive() {
    assert_eq!(Currency::find_by_code("USD").unwrap().code, "USD");
    assert!(Currency::find_by_code("usd").is_none());
    assert!(Currency::find_by_code("").is_none());
    assert!(Currency::find_by_code("USDX").is_none());
}

#[test]
fn currency_lookup_failures() {
    assert!(Currency::find_by_alpha_iso("".to_string()).is_none());
    assert!(Currency::find_by_alpha_iso("US".to_string()).is_none());
    assert_eq!(Currency::from_string("EUR".to_string()).unwrap_err(), Error::InvalidCurrency);
}

#[test]
fn currency_table_has_one_record_per_code() {
    let table = Currency::generate_currencies_by_alpha_code();
    let codes = iso_currencies();
    assert_eq!(table.len(), codes.len());
    for (i, a) in table.iter().enumerate() {
        assert_eq!(**a, from_enum(&codes[i]));
        for b in table.iter().skip(i + 1) {
            assert_ne!(a.code, b.code);
        }
    }
}

#[test]
fn iso_record_of_usd() {
    let usd = from_enum(&Iso::USD);
    assert_eq!(usd.code, "USD");
    assert_eq!(usd.name, "United States Dollar");
    assert_eq!(usd.symbol, "$");
    assert_eq!(*Iso::USD.currency(), usd);
    assert_eq!(Iso::USD.to_string(), "USD");
    assert_eq!(usd.to_string(), "USD");
    assert_eq!(iso_currencies(), vec![Iso::USD]);
}

#[test]
fn error_messages() {
    assert_eq!(Error::InvalidCurrency.description(), "Currency was not valid");
    assert_eq!(Error::InvalidAmount.description(), "Amount is not a number");
    assert_eq!(Error::InvalidCurrency.to_string(), "Currency was not valid");
    assert_eq!(Error::InvalidAmount.to_string(), "Amount is not a number");
}
