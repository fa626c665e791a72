use currency_core::{Currency, CurrencyCode, CurrencyCodeParsingError, CurrencyParsingError};

#[test]
fn code_is_upper_cased_and_trimmed() {
    let c = CurrencyCode::parse("  usd\t").unwrap();
    assert_eq!(c.text(), "USD");
    assert_eq!(c, CurrencyCode::new("USD"));
}

#[test]
fn code_round_trips_through_its_text() {
    for s in ["USD", "gbp", "AzN", "X-1", "€€€"] {
        let c = CurrencyCode::parse(s).unwrap();
        assert_eq!(CurrencyCode::parse(&c.text()), Ok(c));
    }
}

#[test]
fn code_of_wrong_length_is_rejected() {
    for s in ["", "US", "USDX", "   ", " U S D "] {
        assert_eq!(
            CurrencyCode::parse(s),
            Err(CurrencyCodeParsingError::InvalidLength)
        );
    }
}

#[test]
fn code_from_str_matches_parse() {
    let c: CurrencyCode = "eur".parse().unwrap();
    assert_eq!(c.text(), "EUR");
}

#[test]
fn currency_text_form_parses() {
    let c = Currency::parse("1.5 usd").unwrap();
    assert_eq!(c.code, CurrencyCode::new("USD"));
    assert_eq!(c.amount, 1_500_000);
    assert_eq!(Currency::parse(" -2.25 GBP ").unwrap().amount, -2_250_000);
    assert_eq!(Currency::parse("+3 EUR").unwrap().amount, 3_000_000);
    assert_eq!(Currency::parse(".5 EUR").unwrap().amount, 500_000);
    assert_eq!(Currency::parse("5. EUR").unwrap().amount, 5_000_000);
    assert_eq!(Currency::parse("0.000001 EUR").unwrap().amount, 1);
    assert_eq!(Currency::parse("007 EUR").unwrap().amount, 7_000_000);
}

#[test]
fn currency_largest_amounts() {
    assert_eq!(
        Currency::parse("9223372036854.775807 USD").unwrap().amount,
        i64::MAX
    );
    assert_eq!(
        Currency::parse("-9223372036854.775808 USD").unwrap().amount,
        i64::MIN
    );
    assert_eq!(
        Currency::parse("9223372036854.775808 USD"),
        Err(CurrencyParsingError::InvalidAmount)
    );
    assert_eq!(
        Currency::parse("100000000000000000000 USD"),
        Err(CurrencyParsingError::InvalidAmount)
    );
}

#[test]
fn currency_wrong_token_count_is_incorrect_format() {
    for s in ["1.0USD", "1.0  USD", "1 2 USD", "", "USD"] {
        assert_eq!(Currency::parse(s), Err(CurrencyParsingError::IncorrectFormat));
    }
}

#[test]
fn currency_bad_code_is_reported_before_amount() {
    assert_eq!(
        Currency::parse("abc US"),
        Err(CurrencyParsingError::InvalidCurrencyCode)
    );
}

#[test]
fn currency_bad_amount_is_invalid_amount() {
    for s in ["abc USD", "1.1234567 USD", ". USD", "1.2.3 USD", "- USD", "1e3 USD"] {
        assert_eq!(Currency::parse(s), Err(CurrencyParsingError::InvalidAmount), "{}", s);
    }
}

#[test]
fn currency_from_str_matches_parse() {
    let c: Currency = "2 usd".parse().unwrap();
    assert_eq!(c.amount, 2_000_000);
}

#[test]
fn currency_text_form() {
    let c = Currency::new(CurrencyCode::new("USD"), 1_500_000);
    assert_eq!(c.text(), "1.500000 USD");
    let c = Currency::new(CurrencyCode::new("GBP"), -1);
    assert_eq!(c.text(), "-0.000001 GBP");
    let c = Currency::new(CurrencyCode::new("AZN"), 0);
    assert_eq!(c.text(), "0.000000 AZN");
}

#[test]
fn currency_text_round_trips() {
    for amount in [0, 1, -1, 1_258_506, -2_250_000, i64::MAX, i64::MIN] {
        let c = Currency::new(CurrencyCode::new("eur"), amount);
        assert_eq!(Currency::parse(&c.text()), Ok(c));
    }
}
