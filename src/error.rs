//! The problem kinds reported to clients, with their status codes.
use vstd::prelude::*;
use vstd::string::StringExecFns;

use crate::code::{CurrencyCode, CurrencyCodeParsingError};
use crate::exchange::ExchangeError;
use crate::money::CurrencyParsingError;
use crate::snapshot::RatesValidationError;

verus! {

/// One input field that failed validation, and why.
#[derive(Debug)]
pub struct FieldError {
    pub field: String,
    pub description: String,
}

/// Why the provider's latest rates could not be had.
#[derive(Debug, Clone, Copy, PartialEq, Eq, Structural)]
pub enum FetchRatesError {
    /// The response was not in a recognised format.
    UnexpectedResponse,
}

/// The closed set of problems a client can be told about.
#[derive(Debug)]
pub enum ApiErrorType {
    /// The request failed validation; one entry per faulty field.
    BadRequest(Vec<FieldError>),
    /// The rate store could not be reached.
    ServiceUnavailable,
    /// The latest snapshot has no rate for this code.
    UnsupportedCurrency(CurrencyCode),
}

/// A problem as reported to a client.
#[derive(Debug)]
pub struct ApiError {
    pub error_type: ApiErrorType,
}

/// What is said of a problem kind: its status code and its stable identifier.
#[derive(Debug)]
pub struct ApiErrorDetailResponse {
    pub status: u16,
    pub problem_type: String,
}

pub open spec fn status_of(t: ApiErrorType) -> u16 {
    match t {
        ApiErrorType::BadRequest(_) => 400,
        ApiErrorType::ServiceUnavailable => 503,
        ApiErrorType::UnsupportedCurrency(_) => 400,
    }
}

pub open spec fn problem_type_of(t: ApiErrorType) -> Seq<char> {
    match t {
        ApiErrorType::BadRequest(_) => "https://currency.lancastrian.dev/probs/bad-request"@,
        ApiErrorType::ServiceUnavailable => "https://currency.lancastrian.dev/probs/service-unavailable"@,
        ApiErrorType::UnsupportedCurrency(_) => "https://currency.lancastrian.dev/probs/unsupported-currency"@,
    }
}

impl ApiErrorType {
    /// The transport status that goes with the problem.
    pub fn get_status_code(&self) -> (r: u16)
        ensures
            r == status_of(*self),
    {
        match self {
            ApiErrorType::BadRequest(_) => 400,
            ApiErrorType::ServiceUnavailable => 503,
            ApiErrorType::UnsupportedCurrency(_) => 400,
        }
    }

    /// The stable machine-readable identifier of the problem.
    pub fn problem_type(&self) -> (r: &'static str)
        ensures
            r@ == problem_type_of(*self),
    {
        match self {
            ApiErrorType::BadRequest(_) => "https://currency.lancastrian.dev/probs/bad-request",
            ApiErrorType::ServiceUnavailable => "https://currency.lancastrian.dev/probs/service-unavailable",
            ApiErrorType::UnsupportedCurrency(_) => "https://currency.lancastrian.dev/probs/unsupported-currency",
        }
    }
}

impl ApiError {
    pub fn new(error_type: ApiErrorType) -> (r: Self)
        ensures
            r.error_type == error_type,
    {
        Self { error_type }
    }
}

/// The status and identifier of a reported problem.
pub fn get_error_info(error: &ApiError) -> (r: ApiErrorDetailResponse)
    ensures
        r.status == status_of(error.error_type),
        r.problem_type@ == problem_type_of(error.error_type),
{
    ApiErrorDetailResponse {
        status: error.error_type.get_status_code(),
        problem_type: String::from_str(error.error_type.problem_type()),
    }
}

/// The error is a bad request about exactly one field.
pub open spec fn is_field_problem(e: ApiError, field: Seq<char>, description: Seq<char>) -> bool {
    match e.error_type {
        ApiErrorType::BadRequest(v) => v@.len() == 1 && v@[0].field@ == field && v@[0].description@
            == description,
        _ => false,
    }
}

pub open spec fn code_problem(e: CurrencyCodeParsingError) -> (Seq<char>, Seq<char>) {
    match e {
        CurrencyCodeParsingError::InvalidLength => ("code"@, "The code provided must be 3 characters"@),
    }
}

pub open spec fn parsing_problem(e: CurrencyParsingError) -> (Seq<char>, Seq<char>) {
    match e {
        CurrencyParsingError::InvalidCurrencyCode => ("code"@, "Currency code provided is invalid"@),
        CurrencyParsingError::InvalidAmount => ("amount"@, "Amount of currency provided is invalid"@),
        CurrencyParsingError::IncorrectFormat => (
            "currency"@,
            "Currency was not provided in a known format"@,
        ),
    }
}

pub open spec fn validation_problem(e: RatesValidationError) -> (Seq<char>, Seq<char>) {
    match e {
        RatesValidationError::EmptyRates => ("rates"@, "No rates were provided"@),
        RatesValidationError::NonPositiveRate(_) => ("rates"@, "Every rate must be positive"@),
        RatesValidationError::DuplicateCode(_) => ("rates"@, "A currency is listed more than once"@),
        RatesValidationError::MissingBase => ("base"@, "The base currency has no rate"@),
        RatesValidationError::BaseRateNotOne => ("base"@, "The base currency's rate must be 1"@),
    }
}

/// How each failure of a conversion is reported.
pub open spec fn reports_exchange_error(r: ApiError, e: ExchangeError) -> bool {
    match e {
        ExchangeError::InvalidConfiguration => is_field_problem(
            r,
            "exchange"@,
            "The exchange was configured incorrectly, missing 'to' or 'from' currency"@,
        ),
        ExchangeError::CurrencyError(p) => is_field_problem(
            r,
            parsing_problem(p).0,
            parsing_problem(p).1,
        ),
        ExchangeError::UnsupportedCurrency(c) => r.error_type == ApiErrorType::UnsupportedCurrency(c),
    }
}

fn field_problem(field: &str, description: &str) -> (r: ApiError)
    ensures
        is_field_problem(r, field@, description@),
{
    let f = FieldError { field: String::from_str(field), description: String::from_str(description) };
    let v = vec![f];
    ApiError::new(ApiErrorType::BadRequest(v))
}

impl ApiError {
    /// Reports a text that is not a currency code.
    pub fn from_code_error(e: CurrencyCodeParsingError) -> (r: Self)
        ensures
            is_field_problem(r, code_problem(e).0, code_problem(e).1),
    {
        match e {
            CurrencyCodeParsingError::InvalidLength => field_problem(
                "code",
                "The code provided must be 3 characters",
            ),
        }
    }

    /// Reports a text that is not an amount of money.
    pub fn from_parsing_error(e: CurrencyParsingError) -> (r: Self)
        ensures
            is_field_problem(r, parsing_problem(e).0, parsing_problem(e).1),
    {
        match e {
            CurrencyParsingError::InvalidCurrencyCode => field_problem(
                "code",
                "Currency code provided is invalid",
            ),
            CurrencyParsingError::InvalidAmount => field_problem(
                "amount",
                "Amount of currency provided is invalid",
            ),
            CurrencyParsingError::IncorrectFormat => field_problem(
                "currency",
                "Currency was not provided in a known format",
            ),
        }
    }

    /// Reports a table of rates that cannot become a snapshot.
    pub fn from_validation_error(e: RatesValidationError) -> (r: Self)
        ensures
            is_field_problem(r, validation_problem(e).0, validation_problem(e).1),
    {
        match e {
            RatesValidationError::EmptyRates => field_problem("rates", "No rates were provided"),
            RatesValidationError::NonPositiveRate(_) => field_problem(
                "rates",
                "Every rate must be positive",
            ),
            RatesValidationError::DuplicateCode(_) => field_problem(
                "rates",
                "A currency is listed more than once",
            ),
            RatesValidationError::MissingBase => field_problem("base", "The base currency has no rate"),
            RatesValidationError::BaseRateNotOne => field_problem(
                "base",
                "The base currency's rate must be 1",
            ),
        }
    }

    /// Reports rates that could not be fetched: the provider is unavailable.
    pub fn from_fetch_error(e: FetchRatesError) -> (r: Self)
        ensures
            r.error_type is ServiceUnavailable,
    {
        match e {
            FetchRatesError::UnexpectedResponse => ApiError::new(ApiErrorType::ServiceUnavailable),
        }
    }

    /// Reports a failed conversion: an unsupported code passes through as
    /// it is, everything else is a bad request.
    pub fn from_exchange_error(e: ExchangeError) -> (r: Self)
        ensures
            reports_exchange_error(r, e),
    {
        match e {
            ExchangeError::InvalidConfiguration => field_problem(
                "exchange",
                "The exchange was configured incorrectly, missing 'to' or 'from' currency",
            ),
            ExchangeError::CurrencyError(p) => Self::from_parsing_error(p),
            ExchangeError::UnsupportedCurrency(c) => ApiError::new(ApiErrorType::UnsupportedCurrency(c)),
        }
    }
}

} // verus!
