//! Currency exchange core: validated currency codes, fixed-point amounts,
//! rate snapshots, triangulated conversion, an in-memory rate store and the
//! problem kinds reported to clients.
//!
//! Amounts and rates are held in millionths: an amount of `1_500_000` is 1.5
//! units of its currency, and a rate of `1_000_000` is 1.0.

pub mod text;

pub mod code;
pub mod error;
pub mod exchange;
pub mod money;
pub mod snapshot;
pub mod store;

pub use code::{CurrencyCode, CurrencyCodeParsingError};
pub use error::{
    get_error_info, ApiError, ApiErrorDetailResponse, ApiErrorType, FetchRatesError, FieldError,
};
pub use exchange::{convert, Exchange, ExchangeError};
pub use money::{Currency, CurrencyParsingError, AMOUNT_SCALE};
pub use snapshot::{Rates, RatesValidationError, RATE_SCALE};
pub use store::{RateRow, RateStore};
