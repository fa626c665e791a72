use currency_core::{CurrencyCode, Rates, RatesValidationError, RATE_SCALE};

fn code(s: &str) -> CurrencyCode {
    CurrencyCode::new(s)
}

fn build(base: &str, rates: Vec<(CurrencyCode, i64)>) -> Result<Rates, RatesValidationError> {
    Rates::build("d".to_string(), "l".to_string(), 42, code(base), rates)
}

#[test]
fn valid_table_makes_a_snapshot() {
    let r = build(
        "USD",
        vec![(code("USD"), RATE_SCALE), (code("GBP"), 794_593)],
    )
    .unwrap();
    assert_eq!(r.base(), code("USD"));
    assert_eq!(r.timestamp(), 42);
    assert_eq!(r.disclaimer(), "d");
    assert_eq!(r.license(), "l");
    assert_eq!(r.rate(code("GBP")), Some(794_593));
    assert_eq!(r.rate(code("USD")), Some(1_000_000));
    assert_eq!(r.rate(code("EUR")), None);
    assert_eq!(
        r.entries(),
        vec![(code("USD"), RATE_SCALE), (code("GBP"), 794_593)]
    );
}

#[test]
fn empty_table_is_rejected() {
    assert_eq!(build("USD", vec![]).err(), Some(RatesValidationError::EmptyRates));
}

#[test]
fn zero_rate_is_rejected() {
    let r = build("USD", vec![(code("USD"), RATE_SCALE), (code("GBP"), 0)]);
    assert_eq!(
        r.err(),
        Some(RatesValidationError::NonPositiveRate(code("GBP")))
    );
}

#[test]
fn negative_rate_is_rejected_naming_the_first() {
    let r = build(
        "USD",
        vec![
            (code("USD"), RATE_SCALE),
            (code("AZN"), -5),
            (code("GBP"), 0),
        ],
    );
    assert_eq!(
        r.err(),
        Some(RatesValidationError::NonPositiveRate(code("AZN")))
    );
}

#[test]
fn duplicate_code_is_rejected() {
    let r = build(
        "USD",
        vec![
            (code("USD"), RATE_SCALE),
            (code("GBP"), 1),
            (code("GBP"), 1),
        ],
    );
    assert_eq!(r.err(), Some(RatesValidationError::DuplicateCode(code("GBP"))));
}

#[test]
fn missing_base_is_rejected() {
    let r = build("USD", vec![(code("GBP"), 794_593)]);
    assert_eq!(r.err(), Some(RatesValidationError::MissingBase));
}

#[test]
fn base_rate_other_than_one_is_rejected() {
    let r = build("USD", vec![(code("USD"), 999_999)]);
    assert_eq!(r.err(), Some(RatesValidationError::BaseRateNotOne));
}
