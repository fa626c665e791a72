use currency_core::{
    get_error_info, ApiError, ApiErrorType, CurrencyCode, CurrencyCodeParsingError,
    CurrencyParsingError, ExchangeError, RatesValidationError,
};

fn only_field(e: &ApiError) -> (String, String) {
    match &e.error_type {
        ApiErrorType::BadRequest(v) => {
            assert_eq!(v.len(), 1);
            (v[0].field.clone(), v[0].description.clone())
        }
        other => panic!("not a bad request: {:?}", other),
    }
}

#[test]
fn status_codes() {
    assert_eq!(ApiErrorType::BadRequest(vec![]).get_status_code(), 400);
    assert_eq!(ApiErrorType::ServiceUnavailable.get_status_code(), 503);
    assert_eq!(
        ApiErrorType::UnsupportedCurrency(CurrencyCode::new("XXX")).get_status_code(),
        400
    );
}

#[test]
fn error_info_gives_status_and_type() {
    let info = get_error_info(&ApiError::new(ApiErrorType::ServiceUnavailable));
    assert_eq!(info.status, 503);
    assert_eq!(
        info.problem_type,
        "https://currency.lancastrian.dev/probs/service-unavailable"
    );
    let info = get_error_info(&ApiError::new(ApiErrorType::BadRequest(vec![])));
    assert_eq!(info.status, 400);
    assert_eq!(
        info.problem_type,
        "https://currency.lancastrian.dev/probs/bad-request"
    );
    let info = get_error_info(&ApiError::new(ApiErrorType::UnsupportedCurrency(
        CurrencyCode::new("XXX"),
    )));
    assert_eq!(
        info.problem_type,
        "https://currency.lancastrian.dev/probs/unsupported-currency"
    );
}

#[test]
fn unsupported_currency_passes_through() {
    let e = ApiError::from_exchange_error(ExchangeError::UnsupportedCurrency(CurrencyCode::new(
        "XXX",
    )));
    match e.error_type {
        ApiErrorType::UnsupportedCurrency(c) => assert_eq!(c.text(), "XXX"),
        other => panic!("unexpected {:?}", other),
    }
}

#[test]
fn invalid_configuration_is_a_bad_request() {
    let e = ApiError::from_exchange_error(ExchangeError::InvalidConfiguration);
    assert_eq!(only_field(&e).0, "exchange");
}

#[test]
fn parsing_errors_name_their_field() {
    let e = ApiError::from_exchange_error(ExchangeError::CurrencyError(
        CurrencyParsingError::InvalidAmount,
    ));
    assert_eq!(only_field(&e).0, "amount");
    let e = ApiError::from_parsing_error(CurrencyParsingError::IncorrectFormat);
    assert_eq!(only_field(&e).0, "currency");
    let e = ApiError::from_parsing_error(CurrencyParsingError::InvalidCurrencyCode);
    assert_eq!(only_field(&e).0, "code");
    let e = ApiError::from_code_error(CurrencyCodeParsingError::InvalidLength);
    assert_eq!(
        only_field(&e),
        (
            "code".to_string(),
            "The code provided must be 3 characters".to_string()
        )
    );
}

#[test]
fn validation_errors_name_their_field() {
    let e = ApiError::from_validation_error(RatesValidationError::NonPositiveRate(
        CurrencyCode::new("GBP"),
    ));
    assert_eq!(only_field(&e).0, "rates");
    let e = ApiError::from_validation_error(RatesValidationError::MissingBase);
    assert_eq!(only_field(&e).0, "base");
}

#[test]
fn fetch_failure_is_service_unavailable() {
    let e = ApiError::from_fetch_error(currency_core::FetchRatesError::UnexpectedResponse);
    assert!(matches!(e.error_type, ApiErrorType::ServiceUnavailable));
    assert_eq!(e.error_type.get_status_code(), 503);
}
