//! Conversion between currencies through a snapshot's base.
use vstd::prelude::*;

use crate::code::CurrencyCode;
use crate::money::{Currency, CurrencyParsingError};
use crate::snapshot::Rates;

verus! {

/// Why a conversion failed.
#[derive(Debug, Clone, Copy, PartialEq, Eq, Structural)]
pub enum ExchangeError {
    /// The currency to convert from, or the one to convert to, was not set.
    InvalidConfiguration,
    /// The converted amount cannot be held.
    CurrencyError(CurrencyParsingError),
    /// The snapshot has no rate for this code.
    UnsupportedCurrency(CurrencyCode),
}

/// `amount` times `rate_to / rate_from`, rounded to the nearest unit, halves
/// away from zero.
pub open spec fn triangulate(amount: int, rate_from: int, rate_to: int) -> int {
    let magnitude = if amount < 0 { -amount } else { amount };
    let q = (magnitude * rate_to + rate_from / 2) / rate_from;
    if amount < 0 { -q } else { q }
}

pub open spec fn fits_i64(v: int) -> bool {
    i64::MIN <= v <= i64::MAX
}

/// What converting `from` into `to` against a snapshot with these rates gives.
pub open spec fn exchange_result(from: Currency, to: CurrencyCode, rates: Map<CurrencyCode, int>) -> Result<
    Currency,
    ExchangeError,
> {
    if from.code == to {
        Ok(from)
    } else if !rates.contains_key(from.code) {
        Err(ExchangeError::UnsupportedCurrency(from.code))
    } else if !rates.contains_key(to) {
        Err(ExchangeError::UnsupportedCurrency(to))
    } else {
        let amount = triangulate(from.amount as int, rates[from.code], rates[to]);
        if fits_i64(amount) {
            Ok(Currency { code: to, amount: amount as i64 })
        } else {
            Err(ExchangeError::CurrencyError(CurrencyParsingError::InvalidAmount))
        }
    }
}

/// Converts an amount into another currency. Both rates say how much of their
/// currency one unit of the base buys, so the amount is divided by the rate
/// it comes from and multiplied by the rate it goes to.
pub fn convert(from: &Currency, to: CurrencyCode, rates: &Rates) -> (r: Result<Currency, ExchangeError>)
    ensures
        r == exchange_result(*from, to, rates@.rates),
{
    if from.code == to {
        return Ok(*from);
    }
    let rate_from = match rates.rate(from.code) {
        Some(v) => v,
        None => {
            return Err(ExchangeError::UnsupportedCurrency(from.code));
        },
    };
    let rate_to = match rates.rate(to) {
        Some(v) => v,
        None => {
            return Err(ExchangeError::UnsupportedCurrency(to));
        },
    };
    let negative = from.amount < 0;
    let magnitude: u128 = if negative {
        (0i128 - (from.amount as i128)) as u128
    } else {
        from.amount as u128
    };
    let rf = rate_from as u128;
    let rt = rate_to as u128;
    assert(magnitude * rt <= 0x8000_0000_0000_0000u128 * 0x7fff_ffff_ffff_ffffu128) by (nonlinear_arith)
        requires
            magnitude <= 0x8000_0000_0000_0000u128,
            rt <= 0x7fff_ffff_ffff_ffffu128,
    ;
    let q: u128 = (magnitude * rt + rf / 2) / rf;
    if negative {
        if q > 0x8000_0000_0000_0000u128 {
            return Err(ExchangeError::CurrencyError(CurrencyParsingError::InvalidAmount));
        }
        Ok(Currency { code: to, amount: (0i128 - (q as i128)) as i64 })
    } else {
        if q > 0x7fff_ffff_ffff_ffffu128 {
            return Err(ExchangeError::CurrencyError(CurrencyParsingError::InvalidAmount));
        }
        Ok(Currency { code: to, amount: q as i64 })
    }
}

/// A conversion being set up: the currency to convert from and the code to
/// convert to, each possibly not set yet.
#[derive(Debug)]
pub struct Exchange {
    from: Option<Currency>,
    to: Option<CurrencyCode>,
}

impl View for Exchange {
    type V = (Option<Currency>, Option<CurrencyCode>);

    closed spec fn view(&self) -> (Option<Currency>, Option<CurrencyCode>) {
        (self.from, self.to)
    }
}

impl Exchange {
    /// A conversion with nothing set.
    pub fn new() -> (r: Self)
        ensures
            r@ == (None::<Currency>, None::<CurrencyCode>),
    {
        Exchange { from: None, to: None }
    }

    /// Sets the currency to convert to.
    pub fn to(&mut self, code: CurrencyCode) -> (r: &mut Self)
        ensures
            r@ == (old(self)@.0, Some(code)),
            *final(self) == *final(r),
    {
        self.to = Some(code);
        self
    }

    /// Sets the amount to convert from.
    pub fn from(&mut self, currency: Currency) -> (r: &mut Self)
        ensures
            r@ == (Some(currency), old(self)@.1),
            *final(self) == *final(r),
    {
        self.from = Some(currency);
        self
    }

    /// Runs the conversion that was set up; fails with `InvalidConfiguration`
    /// where either side was not set.
    pub fn exchange(self, rates: &Rates) -> (r: Result<Currency, ExchangeError>)
        ensures
            match self@ {
                (Some(f), Some(t)) => r == exchange_result(f, t, rates@.rates),
                _ => r == Err::<Currency, ExchangeError>(ExchangeError::InvalidConfiguration),
            },
    {
        match (self.from, self.to) {
            (Some(f), Some(t)) => convert(&f, t, rates),
            _ => Err(ExchangeError::InvalidConfiguration),
        }
    }
}

/// Converting an amount into its own currency gives it back unchanged, for
/// every snapshot.
pub proof fn lemma_exchange_identity(code: CurrencyCode, amount: i64, rates: Map<CurrencyCode, int>)
    ensures
        exchange_result(Currency { code, amount }, code, rates) == Ok::<Currency, ExchangeError>(
            Currency { code, amount },
        ),
{
}

/// The result of a conversion depends on its arguments alone: two snapshots
/// that hold the same rates give the same result for the same request.
pub proof fn lemma_exchange_deterministic(from: Currency, to: CurrencyCode, a: Rates, b: Rates)
    requires
        a@ == b@,
    ensures
        exchange_result(from, to, a@.rates) == exchange_result(from, to, b@.rates),
{
}

} // verus!
