use currency_core::{
    convert, Currency, CurrencyCode, CurrencyParsingError, Exchange, ExchangeError, Rates,
};

fn code(s: &str) -> CurrencyCode {
    CurrencyCode::new(s)
}

fn sample_rates() -> Rates {
    let rates = vec![
        (code("AZN"), 1_700_000),
        (code("GBP"), 794_593),
        (code("USD"), 1_000_000),
    ];
    Rates::build(
        "Usage subject to terms: https://openexchangerates.org/terms".to_string(),
        "https://openexchangerates.org/license".to_string(),
        1_700_000_000,
        code("USD"),
        rates,
    )
    .unwrap()
}

// Amounts are held in millionths: 1.258506 is 1_258_506.
#[test]
fn test_change() {
    let exchange_info = sample_rates();

    let mut currency_builder = Exchange::new();

    currency_builder
        .from(Currency::new(CurrencyCode::new("GBP"), 1_000_000))
        .to(CurrencyCode::new("USD"));

    let currency = currency_builder.exchange(&exchange_info).unwrap();

    assert_eq!(currency.amount, 1_258_506)
}

#[test]
fn usd_to_gbp_uses_the_gbp_rate() {
    let r = convert(&Currency::new(code("USD"), 1_000_000), code("GBP"), &sample_rates()).unwrap();
    assert_eq!(r.code, code("GBP"));
    assert_eq!(r.amount, 794_593);
    assert!(((r.amount as f64) / 1e6 - 0.794593).abs() < 1e-6);
}

#[test]
fn gbp_to_usd_is_the_inverse_rate() {
    let r = convert(&Currency::new(code("GBP"), 1_000_000), code("USD"), &sample_rates()).unwrap();
    assert_eq!(r.code, code("USD"));
    assert!(((r.amount as f64) / 1e6 - 1.0 / 0.794593).abs() < 1e-5);
}

#[test]
fn azn_to_gbp_goes_through_the_base() {
    // 1.0 AZN = 1/1.7 USD = 0.794593/1.7 GBP = 0.4674076..., rounded to 0.467408
    let r = convert(&Currency::new(code("AZN"), 1_000_000), code("GBP"), &sample_rates()).unwrap();
    assert_eq!(r.amount, 467_408);
}

#[test]
fn negative_amounts_round_away_from_zero() {
    let r = convert(&Currency::new(code("AZN"), -1_000_000), code("GBP"), &sample_rates()).unwrap();
    assert_eq!(r.amount, -467_408);
}

#[test]
fn identity_returns_the_amount_unchanged() {
    let from = Currency::new(code("GBP"), 123_456_789);
    let r = convert(&from, code("GBP"), &sample_rates()).unwrap();
    assert_eq!(r, from);
}

#[test]
fn identity_holds_for_a_code_the_snapshot_lacks() {
    let from = Currency::new(code("XXX"), 5);
    assert_eq!(convert(&from, code("XXX"), &sample_rates()), Ok(from));
}

#[test]
fn conversions_are_deterministic() {
    let rates = sample_rates();
    let from = Currency::new(code("AZN"), 3_141_592);
    let a = convert(&from, code("GBP"), &rates);
    let b = convert(&from, code("GBP"), &rates);
    assert_eq!(a, b);
}

#[test]
fn unsupported_source_currency() {
    let r = convert(&Currency::new(code("XXX"), 1_000_000), code("USD"), &sample_rates());
    assert_eq!(r, Err(ExchangeError::UnsupportedCurrency(code("XXX"))));
}

#[test]
fn unsupported_target_currency() {
    let r = convert(&Currency::new(code("USD"), 1_000_000), code("EUR"), &sample_rates());
    assert_eq!(r, Err(ExchangeError::UnsupportedCurrency(code("EUR"))));
}

#[test]
fn result_too_large_is_an_invalid_amount() {
    let rates = Rates::build(
        String::new(),
        String::new(),
        0,
        code("USD"),
        vec![(code("USD"), 1_000_000), (code("IDR"), 16_000_000_000)],
    )
    .unwrap();
    let r = convert(&Currency::new(code("USD"), i64::MAX), code("IDR"), &rates);
    assert_eq!(
        r,
        Err(ExchangeError::CurrencyError(CurrencyParsingError::InvalidAmount))
    );
}

#[test]
fn builder_without_target_is_invalid_configuration() {
    let mut e = Exchange::new();
    e.from(Currency::new(code("USD"), 1));
    assert_eq!(
        e.exchange(&sample_rates()),
        Err(ExchangeError::InvalidConfiguration)
    );
}

#[test]
fn builder_without_source_is_invalid_configuration() {
    let mut e = Exchange::new();
    e.to(code("USD"));
    assert_eq!(
        e.exchange(&sample_rates()),
        Err(ExchangeError::InvalidConfiguration)
    );
}
