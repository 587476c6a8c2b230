use fixed_money::{Currency, Error, FillOptions, Iso, Money};

fn usd(amount: &str) -> Money {
    Money::from_string(amount.to_string(), "USD".to_string()).unwrap()
}

fn refused(amount: &str) -> Error {
    Money::from_string(amount.to_string(), "USD".to_string()).unwrap_err()
}

#[test]
fn round_trip_keeps_canonical_text() {
    for (text, written) in [
        ("111.01", "$111.01"),
        ("111", "$111.00"),
        ("0.05", "$0.05"),
        ("0.5", "$0.50"),
        ("7.1", "$7.10"),
        ("1234567.89", "$1234567.89"),
        ("-0.5", "$-0.50"),
        ("-42.42", "$-42.42"),
    ] {
        assert_eq!(usd(text).to_string(), written);
    }
}

#[test]
fn round_trip_drops_leading_zeros() {
    assert_eq!(usd("007").to_string(), "$7.00");
    assert_eq!(usd("000.10").to_string(), "$0.10");
    assert_eq!(usd(".5").to_string(), "$0.50");
    assert_eq!(usd("-.07").to_string(), "$-0.07");
}

#[test]
fn figures_read_back_as_the_same_amount() {
    for amount in [1i64, 5, 99, 100, 101, 12345, 999999, i64::MAX] {
        let text = format!("{}.{:02}", amount / 100, amount % 100);
        let money = usd(&text);
        assert_eq!(money.amount(), amount);
        assert_eq!(money.to_string(), format!("${}", text));
    }
}

#[test]
fn zero_is_written_bare() {
    let wide = FillOptions { width: Some(4), fill: '*' };
    for text in ["", "0", "0.0", "0.00", "000", "-0", "-", ".", "-.", "0.004", "-0.001", "0."] {
        let money = usd(text);
        assert_eq!(money.amount(), 0);
        assert_eq!(money.to_string(), "0");
        assert_eq!(money.format(&wide), "0");
        assert_eq!(money.format(&FillOptions::default()), "0");
    }
}

#[test]
fn zero_keeps_its_sign_flag() {
    assert!(usd("-0").is_negative());
    assert!(!usd("0").is_negative());
}

#[test]
fn third_digit_rounds() {
    assert_eq!(usd("111.015").amount(), 11102);
    assert_eq!(usd("111.015").to_string(), "$111.02");
    assert_eq!(usd("111.012").amount(), 11101);
    assert_eq!(usd("111.012").to_string(), "$111.01");
    assert_eq!(usd("19.9999").amount(), 2000);
    assert_eq!(usd("19.9999").to_string(), "$20.00");
}

#[test]
fn third_digit_rounds_from_five_up() {
    assert_eq!(usd("0.994").amount(), 99);
    assert_eq!(usd("0.995").amount(), 100);
    assert_eq!(usd("0.995").to_string(), "$1.00");
    assert_eq!(usd("0.004").amount(), 0);
    assert_eq!(usd("0.005").amount(), 1);
    assert_eq!(usd("0.005").to_string(), "$0.01");
    assert_eq!(usd("2.5049").amount(), 250);
}

#[test]
fn nothing_behind_the_third_digit_is_read() {
    assert_eq!(usd("1.2349").amount(), 123);
    assert_eq!(usd("1.2351").amount(), 124);
    assert_eq!(usd("1.234x").amount(), 123);
    assert_eq!(usd("1.2345678901234567890123456789").amount(), 123);
    assert_eq!(usd("0.99999999999999999999x").amount(), 100);
    assert!(!usd("1.234-").is_negative());
    assert!(usd("1.23-4").is_negative());
}

#[test]
fn negative_sign_placement() {
    let money = usd("-20");
    assert_eq!(money.to_string(), "$-20.00");
    assert_eq!(money.format(&FillOptions { width: Some(1), fill: ' ' }), "$ -20.00");
    assert_eq!(money.amount(), 2000);
    assert!(money.is_negative());
}

#[test]
fn unknown_currency_falls_back_to_default() {
    for code in ["", "AAA", "EURO", "us", "$"] {
        let money = Money::from_string("1".to_string(), code.to_string()).unwrap();
        assert_eq!(money.currency().code, "USD");
        assert_eq!(*money.currency(), *Iso::USD.currency());
        assert_eq!(money.to_string(), "$1.00");
    }
}

#[test]
fn currency_code_is_read_in_any_case() {
    let money = Money::from_string("1".to_string(), "usd".to_string()).unwrap();
    assert_eq!(money.currency().code, "USD");
    assert_eq!(money.currency().name, "United States Dollar");
}

#[test]
fn bad_currency_never_fails_the_parse() {
    assert_eq!(
        Money::from_string("x".to_string(), "AAA".to_string()).unwrap_err(),
        Error::InvalidAmount
    );
}

#[test]
fn foreign_character_is_refused() {
    for text in [
        "111f.05f", "f", "1f", "f1", "1.2x", "1.x2", " 1", "1 ", "+1", "1,5", "$1", "1e3", "0x10",
        "12a.345", "\u{661}", "\u{ff11}", "1_000",
    ] {
        assert_eq!(refused(text), Error::InvalidAmount);
    }
}

#[test]
fn overflow_is_refused() {
    assert_eq!(refused("99999999999999999999"), Error::InvalidAmount);
    assert_eq!(refused("9223372036854775808"), Error::InvalidAmount);
    assert_eq!(refused("-99999999999999999999"), Error::InvalidAmount);
    assert_eq!(refused("99999999999999999999.5"), Error::InvalidAmount);
}

#[test]
fn overflow_of_the_fill_is_refused() {
    assert_eq!(refused("9223372036854775807"), Error::InvalidAmount);
    assert_eq!(refused("92233720368547759"), Error::InvalidAmount);
    assert_eq!(refused("922337203685477581.0"), Error::InvalidAmount);
    assert_eq!(refused("92233720368547758.1"), Error::InvalidAmount);
    assert_eq!(usd("92233720368547758").amount(), 9223372036854775800);
    assert_eq!(usd("92233720368547758.0").amount(), 9223372036854775800);
}

#[test]
fn largest_amount() {
    let money = usd("92233720368547758.07");
    assert_eq!(money.amount(), i64::MAX);
    assert_eq!(money.to_string(), "$92233720368547758.07");
    assert_eq!(usd("92233720368547758.074").amount(), i64::MAX);
    assert_eq!(usd("-92233720368547758.07").to_string(), "$-92233720368547758.07");
    assert_eq!(refused("92233720368547758.08"), Error::InvalidAmount);
}

#[test]
fn overflow_of_the_rounding_is_refused() {
    assert_eq!(refused("92233720368547758.075"), Error::InvalidAmount);
    assert_eq!(refused("92233720368547758.079"), Error::InvalidAmount);
}

#[test]
fn missing_places_are_filled_with_zeros() {
    assert_eq!(usd("5").amount(), 500);
    assert_eq!(usd("5.").amount(), 500);
    assert_eq!(usd("5.1").amount(), 510);
    assert_eq!(usd("5.12").amount(), 512);
    assert_eq!(usd("111.").to_string(), "$111.00");
}

#[test]
fn signs_and_points_may_stand_anywhere() {
    assert_eq!(usd("1.2.3").amount(), 123);
    assert_eq!(usd("1..5").amount(), 150);
    assert_eq!(usd("..").amount(), 0);
    assert_eq!(usd("1.2.3.4").amount(), 123);
    assert_eq!(usd("1.2.3.5").amount(), 124);
    let money = usd("1-2");
    assert_eq!(money.amount(), 1200);
    assert!(money.is_negative());
    assert_eq!(money.to_string(), "$-12.00");
    assert!(usd("--5").is_negative());
    assert!(usd("5-").is_negative());
    assert_eq!(usd("5.-5").to_string(), "$-5.50");
}

#[test]
fn padding_follows_the_symbol() {
    let money = usd("1");
    assert_eq!(money.format(&FillOptions { width: Some(3), fill: '*' }), "$***1.00");
    assert_eq!(money.format(&FillOptions { width: Some(0), fill: '*' }), "$1.00");
    assert_eq!(money.format(&FillOptions { width: None, fill: '*' }), "$1.00");
    assert_eq!(money.format(&FillOptions { width: Some(2), fill: '\u{e9}' }), "$\u{e9}\u{e9}1.00");
    assert_eq!(usd("-1").format(&FillOptions { width: Some(2), fill: '0' }), "$00-1.00");
}

#[test]
fn default_options_do_not_pad() {
    let options = FillOptions::default();
    assert_eq!(options, FillOptions { width: None, fill: ' ' });
    assert_eq!(options.width, None);
    assert_eq!(options.fill, ' ');
}

#[test]
fn currency_without_symbol_is_not_padded() {
    let plain: &'static Currency = &Currency { code: "XTS", name: "Testing", symbol: "" };
    let money = Money::from_text("-12.5", plain).unwrap();
    assert_eq!(money.to_string(), "-12.50");
    assert_eq!(money.format(&FillOptions { width: Some(3), fill: '*' }), "-12.50");
    assert_eq!(Money::from_text("0", plain).unwrap().to_string(), "0");
    assert_eq!(money.currency().code, "XTS");
}

#[test]
fn longer_symbol_is_written_whole() {
    let franc: &'static Currency = &Currency { code: "CHF", name: "Swiss Franc", symbol: "Fr." };
    let money = Money::from_text("3.5", franc).unwrap();
    assert_eq!(money.to_string(), "Fr.3.50");
    assert_eq!(money.format(&FillOptions { width: Some(1), fill: ' ' }), "Fr. 3.50");
}

#[test]
fn from_text_reads_like_from_string() {
    let record = Currency::find("USD").unwrap();
    for text in ["", "1", "1.005", "-3.3", "x", "1.2.3", "99999999999999999999"] {
        let a = Money::from_text(text, record);
        let b = Money::from_string(text.to_string(), "USD".to_string());
        assert_eq!(a, b);
        assert_eq!(text.parse::<Money>(), b);
    }
}

#[test]
fn clone_is_equal() {
    let money = usd("-12.345");
    let copy = money.clone();
    assert_eq!(copy, money);
    assert_eq!(copy.amount(), 1235);
    assert!(copy.is_negative());
    assert_ne!(usd("12.35"), money);
    assert_ne!(usd("-12.34"), money);
}

#[test]
fn small_amounts_keep_a_zero_before_the_point() {
    assert_eq!(usd("0.01").to_string(), "$0.01");
    assert_eq!(usd("0.10").to_string(), "$0.10");
    assert_eq!(usd("0.99").to_string(), "$0.99");
    assert_eq!(usd("1.00").to_string(), "$1.00");
    assert_eq!(usd("10.00").to_string(), "$10.00");
    assert_eq!(usd("100.09").to_string(), "$100.09");
}
