//! An in-memory record of ingested rates: one row per timestamp and code.
use vstd::prelude::*;

use crate::code::CurrencyCode;
use crate::error::{is_field_problem, validation_problem, ApiError, ApiErrorType};
use crate::snapshot::{table_error, table_map, Rates, RatesView};

verus! {

/// One stored rate: the rate of `code` observed at `timestamp` (seconds since
/// the Unix epoch), in millionths.
#[derive(Debug, Clone, Copy, PartialEq, Eq, Structural)]
pub struct RateRow {
    pub timestamp: i64,
    pub code: CurrencyCode,
    pub rate: i64,
}

pub open spec fn same_key(a: RateRow, b: RateRow) -> bool {
    a.timestamp == b.timestamp && a.code == b.code
}

/// No two rows share a timestamp and a code.
pub open spec fn keys_unique(rows: Seq<RateRow>) -> bool {
    forall|i: int, j: int|
        0 <= i < rows.len() && 0 <= j < rows.len() && i != j ==> !same_key(
            #[trigger] rows[i],
            #[trigger] rows[j],
        )
}

pub open spec fn key_at(rows: Seq<RateRow>, row: RateRow, i: int) -> bool {
    0 <= i < rows.len() && same_key(rows[i], row)
}

/// The rows after one more is ingested: a row with the same timestamp and
/// code is replaced, otherwise the row is appended.
pub open spec fn ingested(rows: Seq<RateRow>, row: RateRow) -> Seq<RateRow> {
    if exists|i: int| key_at(rows, row, i) {
        rows.update(choose|i: int| key_at(rows, row, i), row)
    } else {
        rows.push(row)
    }
}

/// The rows after a table of rates observed at `timestamp` is ingested, one
/// entry after the other.
pub open spec fn ingested_table(rows: Seq<RateRow>, timestamp: i64, table: Seq<(CurrencyCode, i64)>) -> Seq<
    RateRow,
>
    decreases table.len(),
{
    if table.len() == 0 {
        rows
    } else {
        ingested(
            ingested_table(rows, timestamp, table.drop_last()),
            RateRow { timestamp, code: table.last().0, rate: table.last().1 },
        )
    }
}

/// The codes and rates of the rows observed at `timestamp`, in stored order.
pub open spec fn table_at(rows: Seq<RateRow>, timestamp: i64) -> Seq<(CurrencyCode, i64)>
    decreases rows.len(),
{
    if rows.len() == 0 {
        Seq::empty()
    } else {
        let rest = table_at(rows.drop_last(), timestamp);
        if rows.last().timestamp == timestamp {
            rest.push((rows.last().code, rows.last().rate))
        } else {
            rest
        }
    }
}

/// `t` is the latest timestamp of the rows.
pub open spec fn is_latest(rows: Seq<RateRow>, t: i64) -> bool {
    &&& exists|i: int| 0 <= i < rows.len() && rows[i].timestamp == t
    &&& forall|i: int| 0 <= i < rows.len() ==> rows[i].timestamp <= t
}

/// The stored rows, in the order in which their keys were first ingested.
pub struct RateStore {
    rows: Vec<RateRow>,
}

impl View for RateStore {
    type V = Seq<RateRow>;

    closed spec fn view(&self) -> Seq<RateRow> {
        self.rows@
    }
}

proof fn lemma_key_unique(rows: Seq<RateRow>, row: RateRow, i: int)
    requires
        keys_unique(rows),
        key_at(rows, row, i),
    ensures
        (choose|k: int| key_at(rows, row, k)) == i,
{
    let k = choose|k: int| key_at(rows, row, k);
    if k != i {
        assert(!same_key(rows[k], rows[i]));
    }
}

proof fn lemma_ingested_unique(rows: Seq<RateRow>, row: RateRow)
    requires
        keys_unique(rows),
    ensures
        keys_unique(ingested(rows, row)),
{
    let r = ingested(rows, row);
    if exists|i: int| key_at(rows, row, i) {
        let k = choose|i: int| key_at(rows, row, i);
        assert forall|i: int, j: int|
            0 <= i < r.len() && 0 <= j < r.len() && i != j implies !same_key(
            #[trigger] r[i],
            #[trigger] r[j],
        ) by {
            if i == k {
                assert(!same_key(rows[k], rows[j]));
            } else if j == k {
                assert(!same_key(rows[i], rows[k]));
            } else {
                assert(!same_key(rows[i], rows[j]));
            }
        }
    } else {
        assert forall|i: int, j: int|
            0 <= i < r.len() && 0 <= j < r.len() && i != j implies !same_key(
            #[trigger] r[i],
            #[trigger] r[j],
        ) by {
            if i == rows.len() {
                assert(!key_at(rows, row, j));
            } else if j == rows.len() {
                assert(!key_at(rows, row, i));
            } else {
                assert(!same_key(rows[i], rows[j]));
            }
        }
    }
}

impl RateStore {
    #[verifier::type_invariant]
    spec fn well_formed(self) -> bool {
        keys_unique(self.rows@)
    }

    /// An empty store.
    pub fn new() -> (r: Self)
        ensures
            r@ == Seq::<RateRow>::empty(),
    {
        RateStore { rows: Vec::new() }
    }

    /// Records the rate of `code` at `timestamp`. A rate already held for the
    /// same timestamp and code is replaced, so no key is ever stored twice.
    pub fn ingest(&mut self, timestamp: i64, code: CurrencyCode, rate: i64)
        ensures
            final(self)@ == ingested(old(self)@, RateRow { timestamp, code, rate }),
            keys_unique(final(self)@),
    {
        proof {
            use_type_invariant(&*self);
        }
        let row = RateRow { timestamp, code, rate };
        let ghost before = self.rows@;
        let n = self.rows.len();
        let mut i: usize = 0;
        while i < n
            invariant
                n == self.rows@.len(),
                self.rows@ == before,
                before == old(self)@,
                row == (RateRow { timestamp, code, rate }),
                keys_unique(before),
                i <= n,
                forall|j: int| 0 <= j < i ==> !key_at(before, row, j),
            decreases n - i,
        {
            let here = self.rows[i];
            if here.timestamp == timestamp && here.code == code {
                proof {
                    assert(here == before[i as int]);
                    assert(key_at(before, row, i as int));
                    assert(same_key(before[i as int], row));
                    lemma_key_unique(before, row, i as int);
                    lemma_ingested_unique(before, row);
                }
                let mut rows = Vec::new();
                std::mem::swap(&mut rows, &mut self.rows);
                rows.set(i, row);
                self.rows = rows;
                return;
            }
            i = i + 1;
        }
        proof {
            lemma_ingested_unique(before, row);
        }
        let mut rows = Vec::new();
        std::mem::swap(&mut rows, &mut self.rows);
        rows.push(row);
        self.rows = rows;
    }

    /// All stored rows.
    pub fn list_rates(&self) -> (r: Vec<RateRow>)
        ensures
            r@ == self@,
    {
        let mut out: Vec<RateRow> = Vec::new();
        let n = self.rows.len();
        let mut i: usize = 0;
        while i < n
            invariant
                n == self.rows@.len(),
                i <= n,
                out@ == self.rows@.take(i as int),
            decreases n - i,
        {
            out.push(self.rows[i]);
            i = i + 1;
            assert(out@ =~= self.rows@.take(i as int));
        }
        assert(self.rows@.take(n as int) =~= self.rows@);
        out
    }
}

impl RateStore {
    /// Records every entry of a table of rates observed at `timestamp`.
    pub fn ingest_table(&mut self, timestamp: i64, table: &Vec<(CurrencyCode, i64)>)
        ensures
            final(self)@ == ingested_table(old(self)@, timestamp, table@),
    {
        let n = table.len();
        let mut i: usize = 0;
        while i < n
            invariant
                n == table@.len(),
                i <= n,
                self@ == ingested_table(old(self)@, timestamp, table@.take(i as int)),
            decreases n - i,
        {
            let (code, rate) = table[i];
            self.ingest(timestamp, code, rate);
            proof {
                assert(table@.take(i + 1).drop_last() =~= table@.take(i as int));
            }
            i = i + 1;
        }
        assert(table@.take(n as int) =~= table@);
    }

    /// The latest timestamp held, if any row is.
    pub fn latest_timestamp(&self) -> (r: Option<i64>)
        ensures
            r is None <==> self@.len() == 0,
            r matches Some(t) ==> is_latest(self@, t),
    {
        let n = self.rows.len();
        if n == 0 {
            return None;
        }
        let mut best: i64 = self.rows[0].timestamp;
        let mut i: usize = 1;
        while i < n
            invariant
                n == self.rows@.len(),
                1 <= i <= n,
                exists|k: int| 0 <= k < n && self.rows@[k].timestamp == best,
                forall|k: int| 0 <= k < i ==> self.rows@[k].timestamp <= best,
            decreases n - i,
        {
            if self.rows[i].timestamp > best {
                best = self.rows[i].timestamp;
            }
            i = i + 1;
        }
        Some(best)
    }

    /// The snapshot of the latest timestamp held, with `base` as its base.
    /// An empty store is reported as unavailable; a table that cannot make a
    /// snapshot, as a bad request.
    pub fn latest_snapshot(&self, disclaimer: String, license: String, base: CurrencyCode) -> (r:
        Result<Rates, ApiError>)
        ensures
            self@.len() == 0 ==> (r matches Err(e) && e.error_type is ServiceUnavailable),
            self@.len() > 0 ==> exists|t: i64|
                is_latest(self@, t) && match table_error(table_at(self@, t), base) {
                    Some(e) => (r matches Err(x) && is_field_problem(
                        x,
                        validation_problem(e).0,
                        validation_problem(e).1,
                    )),
                    None => (r matches Ok(s) && s@ == (RatesView {
                        disclaimer: disclaimer@,
                        license: license@,
                        timestamp: t as int,
                        base,
                        entries: table_at(self@, t),
                        rates: table_map(table_at(self@, t)),
                    })),
                },
    {
        match self.latest_timestamp() {
            None => Err(ApiError::new(ApiErrorType::ServiceUnavailable)),
            Some(t) => {
                let table = self.rates_at(t);
                match Rates::build(disclaimer, license, t, base, table) {
                    Ok(s) => Ok(s),
                    Err(e) => Err(ApiError::from_validation_error(e)),
                }
            },
        }
    }

    /// The codes and rates observed at `timestamp`.
    pub fn rates_at(&self, timestamp: i64) -> (r: Vec<(CurrencyCode, i64)>)
        ensures
            r@ == table_at(self@, timestamp),
    {
        let mut out: Vec<(CurrencyCode, i64)> = Vec::new();
        let n = self.rows.len();
        let mut i: usize = 0;
        while i < n
            invariant
                n == self.rows@.len(),
                i <= n,
                out@ == table_at(self.rows@.take(i as int), timestamp),
            decreases n - i,
        {
            let row = self.rows[i];
            proof {
                assert(self.rows@.take(i + 1).drop_last() =~= self.rows@.take(i as int));
            }
            if row.timestamp == timestamp {
                out.push((row.code, row.rate));
            }
            i = i + 1;
        }
        assert(self.rows@.take(n as int) =~= self.rows@);
        out
    }
}

/// Ingesting the same row twice leaves the rows as ingesting it once did: no
/// duplicate row, and the same values.
pub proof fn lemma_ingest_idempotent(rows: Seq<RateRow>, row: RateRow)
    requires
        keys_unique(rows),
    ensures
        ingested(ingested(rows, row), row) == ingested(rows, row),
{
    let once = ingested(rows, row);
    lemma_ingested_unique(rows, row);
    if exists|i: int| key_at(rows, row, i) {
        let k = choose|i: int| key_at(rows, row, i);
        assert(key_at(once, row, k));
        lemma_key_unique(once, row, k);
        assert(once.update(k, row) =~= once);
    } else {
        let k = rows.len() as int;
        assert(key_at(once, row, k));
        lemma_key_unique(once, row, k);
        assert(once.update(k, row) =~= once);
    }
}

} // verus!
