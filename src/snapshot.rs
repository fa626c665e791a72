//! Rate snapshots: one observation of the rates relative to a base currency.
use vstd::prelude::*;

use crate::code::CurrencyCode;

verus! {

/// The multiplier that stands for 1.0: rates are held in millionths.
pub const RATE_SCALE: i64 = 1_000_000;

/// Why a table of rates cannot become a snapshot.
#[derive(Debug, Clone, Copy, PartialEq, Eq, Structural)]
pub enum RatesValidationError {
    /// The table holds no rate at all.
    EmptyRates,
    /// The code's rate is zero or negative.
    NonPositiveRate(CurrencyCode),
    /// The code is listed twice.
    DuplicateCode(CurrencyCode),
    /// The base code has no rate in the table.
    MissingBase,
    /// The base code's rate is not 1.0.
    BaseRateNotOne,
}

/// What a snapshot holds.
pub struct RatesView {
    pub disclaimer: Seq<char>,
    pub license: Seq<char>,
    pub timestamp: int,
    pub base: CurrencyCode,
    /// The table as it was given.
    pub entries: Seq<(CurrencyCode, i64)>,
    /// The table as a map: `table_map(entries)`.
    pub rates: Map<CurrencyCode, int>,
}

/// A validated snapshot of exchange rates. Each rate says how many millionths
/// of its currency one unit of the base buys; the base itself is listed at
/// exactly 1.0, and every rate is positive.
pub struct Rates {
    disclaimer: String,
    license: String,
    timestamp: i64,
    base: CurrencyCode,
    rates: Vec<(CurrencyCode, i64)>,
}

/// The code is listed at index `i`.
pub open spec fn listed_at(s: Seq<(CurrencyCode, i64)>, c: CurrencyCode, i: int) -> bool {
    0 <= i < s.len() && s[i].0 == c
}

pub open spec fn listed(s: Seq<(CurrencyCode, i64)>, c: CurrencyCode) -> bool {
    exists|i: int| listed_at(s, c, i)
}

/// No code is listed twice.
pub open spec fn codes_unique(s: Seq<(CurrencyCode, i64)>) -> bool {
    forall|i: int, j: int| 0 <= i < j < s.len() ==> #[trigger] s[i].0 != #[trigger] s[j].0
}

/// The table as a map from code to rate (the first listing of a code counts).
pub open spec fn table_map(s: Seq<(CurrencyCode, i64)>) -> Map<CurrencyCode, int> {
    Map::new(
        |c: CurrencyCode| listed(s, c),
        |c: CurrencyCode| s[first_listing(s, c)].1 as int,
    )
}

pub open spec fn first_listing(s: Seq<(CurrencyCode, i64)>, c: CurrencyCode) -> int {
    choose|i: int| listed_at(s, c, i) && forall|j: int| 0 <= j < i ==> s[j].0 != c
}

/// Index of the first rate that is not positive, if any.
pub open spec fn first_non_positive(s: Seq<(CurrencyCode, i64)>, i: int) -> bool {
    0 <= i < s.len() && s[i].1 <= 0 && forall|j: int| 0 <= j < i ==> s[j].1 > 0
}

/// Index of the first listing of a code that was listed before it.
pub open spec fn first_repeat(s: Seq<(CurrencyCode, i64)>, i: int) -> bool {
    &&& 0 <= i < s.len()
    &&& exists|k: int| 0 <= k < i && s[k].0 == s[i].0
    &&& codes_unique(s.take(i))
}

/// The first fault of a table, in the order in which they are looked for, or
/// `None` for a table that makes a snapshot.
pub open spec fn table_error(s: Seq<(CurrencyCode, i64)>, base: CurrencyCode) -> Option<
    RatesValidationError,
> {
    if s.len() == 0 {
        Some(RatesValidationError::EmptyRates)
    } else if exists|i: int| first_non_positive(s, i) {
        Some(RatesValidationError::NonPositiveRate(s[choose|i: int| first_non_positive(s, i)].0))
    } else if exists|i: int| first_repeat(s, i) {
        Some(RatesValidationError::DuplicateCode(s[choose|i: int| first_repeat(s, i)].0))
    } else if !listed(s, base) {
        Some(RatesValidationError::MissingBase)
    } else if table_map(s)[base] != RATE_SCALE {
        Some(RatesValidationError::BaseRateNotOne)
    } else {
        None
    }
}

proof fn lemma_first_listing(s: Seq<(CurrencyCode, i64)>, c: CurrencyCode, i: int)
    requires
        listed_at(s, c, i),
        forall|j: int| 0 <= j < i ==> s[j].0 != c,
    ensures
        first_listing(s, c) == i,
        table_map(s).contains_key(c),
        table_map(s)[c] == s[i].1 as int,
{
    assert(listed(s, c));
    let k = first_listing(s, c);
    if k < i {
        assert(s[k].0 != c);
    } else if k > i {
        assert(s[i].0 != c);
    }
}

/// Finds the first listing of a code.
fn find(s: &Vec<(CurrencyCode, i64)>, c: CurrencyCode) -> (r: Option<usize>)
    ensures
        r matches Some(i) ==> listed_at(s@, c, i as int) && table_map(s@)[c] == s@[i as int].1,
        r is None <==> !listed(s@, c),
{
    let n = s.len();
    let mut i: usize = 0;
    while i < n
        invariant
            n == s@.len(),
            i <= n,
            forall|j: int| 0 <= j < i ==> s@[j].0 != c,
        decreases n - i,
    {
        if s[i].0 == c {
            proof {
                lemma_first_listing(s@, c, i as int);
            }
            return Some(i);
        }
        i = i + 1;
    }
    proof {
        if listed(s@, c) {
            let k = choose|k: int| listed_at(s@, c, k);
            assert(s@[k].0 != c);
        }
    }
    None
}

impl View for Rates {
    type V = RatesView;

    closed spec fn view(&self) -> RatesView {
        RatesView {
            disclaimer: self.disclaimer@,
            license: self.license@,
            timestamp: self.timestamp as int,
            base: self.base,
            entries: self.rates@,
            rates: table_map(self.rates@),
        }
    }
}

impl Rates {
    #[verifier::type_invariant]
    spec fn well_formed(self) -> bool {
        &&& codes_unique(self.rates@)
        &&& forall|i: int| 0 <= i < self.rates@.len() ==> #[trigger] self.rates@[i].1 > 0
        &&& listed(self.rates@, self.base)
        &&& table_map(self.rates@)[self.base] == RATE_SCALE
    }

    /// Validates a table of rates and makes it a snapshot. This is the only
    /// way to make one.
    pub fn build(
        disclaimer: String,
        license: String,
        timestamp: i64,
        base: CurrencyCode,
        rates: Vec<(CurrencyCode, i64)>,
    ) -> (r: Result<Rates, RatesValidationError>)
        ensures
            match table_error(rates@, base) {
                Some(e) => r == Err::<Rates, RatesValidationError>(e),
                None => r is Ok && r->Ok_0@ == (RatesView {
                    disclaimer: disclaimer@,
                    license: license@,
                    timestamp: timestamp as int,
                    base,
                    entries: rates@,
                    rates: table_map(rates@),
                }),
            },
    {
        let n = rates.len();
        if n == 0 {
            return Err(RatesValidationError::EmptyRates);
        }
        let mut i: usize = 0;
        while i < n
            invariant
                n == rates@.len(),
                i <= n,
                forall|j: int| 0 <= j < i ==> #[trigger] rates@[j].1 > 0,
            decreases n - i,
        {
            if rates[i].1 <= 0 {
                proof {
                    assert(first_non_positive(rates@, i as int));
                    let k = choose|k: int| first_non_positive(rates@, k);
                    if k < i {
                        assert(rates@[k].1 > 0);
                    } else if k > i {
                        assert(rates@[i as int].1 > 0);
                    }
                }
                return Err(RatesValidationError::NonPositiveRate(rates[i].0));
            }
            i = i + 1;
        }
        assert(!exists|k: int| first_non_positive(rates@, k)) by {
            if exists|k: int| first_non_positive(rates@, k) {
                let k = choose|k: int| first_non_positive(rates@, k);
                assert(rates@[k].1 > 0);
            }
        }
        let mut i: usize = 0;
        while i < n
            invariant
                n == rates@.len(),
                i <= n,
                codes_unique(rates@.take(i as int)),
                n > 0,
                !exists|k: int| first_non_positive(rates@, k),
            decreases n - i,
        {
            let mut j: usize = 0;
            while j < i
                invariant
                    n == rates@.len(),
                    j <= i < n,
                    forall|k: int| 0 <= k < j ==> rates@[k].0 != rates@[i as int].0,
                    codes_unique(rates@.take(i as int)),
                    n > 0,
                    !exists|k: int| first_non_positive(rates@, k),
                decreases i - j,
            {
                if rates[j].0 == rates[i].0 {
                    proof {
                        assert(rates@[j as int].0 == rates@[i as int].0);
                        assert(first_repeat(rates@, i as int));
                        let k = choose|k: int| first_repeat(rates@, k);
                        if k < i {
                            let w = choose|w: int| 0 <= w < k && rates@[w].0 == rates@[k].0;
                            assert(rates@.take(i as int)[w] == rates@[w]);
                            assert(rates@.take(i as int)[k] == rates@[k]);
                        } else if k > i {
                            assert(rates@.take(k)[j as int] == rates@[j as int]);
                            assert(rates@.take(k)[i as int] == rates@[i as int]);
                        }
                    }
                    return Err(RatesValidationError::DuplicateCode(rates[i].0));
                }
                j = j + 1;
            }
            proof {
                let t = rates@.take(i + 1);
                assert forall|a: int, b: int| 0 <= a < b < t.len() implies #[trigger] t[a].0
                    != #[trigger] t[b].0 by {
                    if b < i {
                        assert(rates@.take(i as int)[a] == t[a]);
                        assert(rates@.take(i as int)[b] == t[b]);
                    }
                }
            }
            i = i + 1;
        }
        assert(rates@.take(n as int) =~= rates@);
        assert(!exists|k: int| first_repeat(rates@, k)) by {
            if exists|k: int| first_repeat(rates@, k) {
                let k = choose|k: int| first_repeat(rates@, k);
                let w = choose|w: int| 0 <= w < k && rates@[w].0 == rates@[k].0;
            }
        }
        match find(&rates, base) {
            None => Err(RatesValidationError::MissingBase),
            Some(b) => {
                if rates[b].1 != RATE_SCALE {
                    Err(RatesValidationError::BaseRateNotOne)
                } else {
                    Ok(Rates { disclaimer, license, timestamp, base, rates })
                }
            },
        }
    }
}

impl Rates {
    /// The rate of a code, if the snapshot lists it.
    pub fn rate(&self, code: CurrencyCode) -> (r: Option<i64>)
        ensures
            r is Some <==> self@.rates.contains_key(code),
            r matches Some(v) ==> v == self@.rates[code] && v > 0,
    {
        proof {
            use_type_invariant(self);
        }
        match find(&self.rates, code) {
            Some(i) => Some(self.rates[i].1),
            None => None,
        }
    }

    pub fn base(&self) -> (r: CurrencyCode)
        ensures
            r == self@.base,
    {
        self.base
    }

    /// Seconds since the Unix epoch at which the rates were observed.
    pub fn timestamp(&self) -> (r: i64)
        ensures
            r == self@.timestamp,
    {
        self.timestamp
    }

    pub fn disclaimer(&self) -> (r: &String)
        ensures
            r@ == self@.disclaimer,
    {
        &self.disclaimer
    }

    pub fn license(&self) -> (r: &String)
        ensures
            r@ == self@.license,
    {
        &self.license
    }

    /// The table of rates, in the order in which it was given.
    pub fn entries(&self) -> (r: Vec<(CurrencyCode, i64)>)
        ensures
            r@ == self@.entries,
    {
        let mut out: Vec<(CurrencyCode, i64)> = Vec::new();
        let n = self.rates.len();
        let mut i: usize = 0;
        while i < n
            invariant
                n == self.rates@.len(),
                i <= n,
                out@ == self.rates@.take(i as int),
            decreases n - i,
        {
            out.push(self.rates[i]);
            i = i + 1;
            assert(out@ =~= self.rates@.take(i as int));
        }
        assert(self.rates@.take(n as int) =~= self.rates@);
        out
    }
}

proof fn lemma_first_non_positive_exists(s: Seq<(CurrencyCode, i64)>, i: int)
    requires
        0 <= i < s.len(),
        s[i].1 <= 0,
    ensures
        exists|j: int| first_non_positive(s, j),
    decreases i,
{
    if forall|j: int| 0 <= j < i ==> s[j].1 > 0 {
        assert(first_non_positive(s, i));
    } else {
        let j = choose|j: int| 0 <= j < i && !(s[j].1 > 0);
        lemma_first_non_positive_exists(s, j);
    }
}

/// A table with a zero or negative rate never makes a snapshot: it is
/// refused, naming the first such rate's code.
pub proof fn lemma_non_positive_rejected(s: Seq<(CurrencyCode, i64)>, base: CurrencyCode, i: int)
    requires
        0 <= i < s.len(),
        s[i].1 <= 0,
    ensures
        table_error(s, base) matches Some(RatesValidationError::NonPositiveRate(c)) && exists|j: int|
            first_non_positive(s, j) && s[j].0 == c,
{
    lemma_first_non_positive_exists(s, i);
}

} // verus!
