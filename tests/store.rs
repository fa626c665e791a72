use currency_core::{CurrencyCode, RateRow, RateStore};

fn code(s: &str) -> CurrencyCode {
    CurrencyCode::new(s)
}

#[test]
fn ingesting_the_same_rate_twice_changes_nothing() {
    let mut s = RateStore::new();
    s.ingest(100, code("GBP"), 794_593);
    let once = s.list_rates();
    s.ingest(100, code("GBP"), 794_593);
    assert_eq!(s.list_rates(), once);
    assert_eq!(once.len(), 1);
}

#[test]
fn ingesting_a_new_rate_for_a_key_replaces_it() {
    let mut s = RateStore::new();
    s.ingest(100, code("GBP"), 794_593);
    s.ingest(100, code("USD"), 1_000_000);
    s.ingest(100, code("GBP"), 800_000);
    assert_eq!(
        s.list_rates(),
        vec![
            RateRow { timestamp: 100, code: code("GBP"), rate: 800_000 },
            RateRow { timestamp: 100, code: code("USD"), rate: 1_000_000 },
        ]
    );
}

#[test]
fn other_timestamps_are_kept_apart() {
    let mut s = RateStore::new();
    s.ingest(100, code("GBP"), 1);
    s.ingest(200, code("GBP"), 2);
    assert_eq!(s.list_rates().len(), 2);
    assert_eq!(s.latest_timestamp(), Some(200));
    assert_eq!(s.rates_at(100), vec![(code("GBP"), 1)]);
    assert_eq!(s.rates_at(200), vec![(code("GBP"), 2)]);
    assert_eq!(s.rates_at(300), vec![]);
}

#[test]
fn empty_store_has_no_latest() {
    let s = RateStore::new();
    assert_eq!(s.latest_timestamp(), None);
    assert!(s.list_rates().is_empty());
}

#[test]
fn ingesting_a_table_twice_changes_nothing() {
    let table = vec![(code("USD"), 1_000_000), (code("AZN"), 1_700_000)];
    let mut s = RateStore::new();
    s.ingest_table(7, &table);
    let once = s.list_rates();
    s.ingest_table(7, &table);
    assert_eq!(s.list_rates(), once);
    assert_eq!(s.rates_at(7), table);
}

#[test]
fn latest_snapshot_of_an_empty_store_is_unavailable() {
    let s = RateStore::new();
    let r = s.latest_snapshot(String::new(), String::new(), code("USD"));
    assert!(matches!(
        r.map(|_| ()).unwrap_err().error_type,
        currency_core::ApiErrorType::ServiceUnavailable
    ));
}

#[test]
fn latest_snapshot_uses_the_latest_timestamp() {
    let mut s = RateStore::new();
    s.ingest_table(1, &vec![(code("USD"), 1_000_000), (code("GBP"), 700_000)]);
    s.ingest_table(2, &vec![(code("USD"), 1_000_000), (code("GBP"), 800_000)]);
    let snap = s
        .latest_snapshot("d".to_string(), "l".to_string(), code("USD"))
        .unwrap();
    assert_eq!(snap.timestamp(), 2);
    assert_eq!(snap.rate(code("GBP")), Some(800_000));
}

#[test]
fn latest_snapshot_without_base_is_a_bad_request() {
    let mut s = RateStore::new();
    s.ingest(5, code("GBP"), 700_000);
    let e = s
        .latest_snapshot(String::new(), String::new(), code("USD"))
        .map(|_| ())
        .unwrap_err();
    match e.error_type {
        currency_core::ApiErrorType::BadRequest(v) => assert_eq!(v[0].field, "base"),
        other => panic!("unexpected {:?}", other),
    }
}
