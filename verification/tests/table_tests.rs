use gacha_session::errors::SessionErrKind;
use gacha_session::record::ATTR_CSRF_SECRET;
use gacha_session::record::SessionData;
use gacha_session::table::SessionTable;
use gacha_session::table::is_expired;

#[test]
fn empty_table_resolves_nothing() {
    let table = SessionTable::new();
    assert!(!table.contains_token(42));
    assert!(table.get(42).is_none());
}

#[test]
fn inserted_record_is_resolvable() {
    let mut table = SessionTable::new();
    table.insert(42, SessionData::new(7));
    assert!(table.contains_token(42));
    let rec = table.get(42).unwrap();
    assert_eq!(rec.last_access(), 7);
}

#[test]
fn touch_updates_last_access_and_reports_liveness() {
    let mut table = SessionTable::new();
    table.insert(1, SessionData::new(0));
    assert!(table.touch(1, 50));
    assert_eq!(table.get(1).unwrap().last_access(), 50);
    assert!(!table.touch(2, 50));
}

#[test]
fn session_data_round_trips_through_table() {
    let mut table = SessionTable::new();
    table.insert(9, SessionData::new(0));
    assert!(table.insert_session_data(9, ATTR_CSRF_SECRET, "s3cr3t".to_owned()).is_ok());
    let read = table.get_session_data(9, ATTR_CSRF_SECRET).unwrap();
    assert_eq!(read.unwrap(), "s3cr3t");
}

#[test]
fn unknown_token_is_store_unavailable() {
    let mut table = SessionTable::new();
    let err = table
        .insert_session_data(12, ATTR_CSRF_SECRET, "x".to_owned())
        .unwrap_err();
    assert_eq!(err.kind, SessionErrKind::StoreUnavailable);
    let err = table.get_session_data(12, ATTR_CSRF_SECRET).unwrap_err();
    assert_eq!(err.kind, SessionErrKind::StoreUnavailable);
}

#[test]
fn same_token_observes_same_record_instance() {
    let mut table = SessionTable::new();
    table.insert(5, SessionData::new(0));
    table
        .insert_session_data(5, ATTR_CSRF_SECRET, "shared".to_owned())
        .unwrap();
    let first = table.get_session_data(5, ATTR_CSRF_SECRET).unwrap().unwrap();
    let second = table.get_session_data(5, ATTR_CSRF_SECRET).unwrap().unwrap();
    assert!(std::ptr::eq(first, second));
    let rec_a = table.get(5).unwrap();
    let rec_b = table.get(5).unwrap();
    assert!(std::ptr::eq(rec_a, rec_b));
}

#[test]
fn expiry_test_uses_strict_threshold() {
    assert!(!is_expired(100, 100, 60));
    assert!(!is_expired(100, 160, 60));
    assert!(is_expired(100, 161, 60));
    assert!(!is_expired(200, 100, 60));
}

#[test]
fn sweep_removes_idle_records_only() {
    let mut table = SessionTable::new();
    table.insert(1, SessionData::new(0));
    table.insert(2, SessionData::new(3000));
    table.insert(3, SessionData::new(3900));
    let busy: Vec<u128> = Vec::new();
    table.sweep(4000, 3600, &busy);
    assert!(!table.contains_token(1));
    assert!(table.contains_token(2));
    assert!(table.contains_token(3));
}

#[test]
fn sweep_keeps_record_at_exact_threshold() {
    let mut table = SessionTable::new();
    table.insert(1, SessionData::new(400));
    let busy: Vec<u128> = Vec::new();
    table.sweep(4000, 3600, &busy);
    assert!(table.contains_token(1));
    table.sweep(4001, 3600, &busy);
    assert!(!table.contains_token(1));
}

#[test]
fn sweep_skips_busy_records() {
    let mut table = SessionTable::new();
    table.insert(1, SessionData::new(0));
    table.insert(2, SessionData::new(0));
    let busy: Vec<u128> = vec![2];
    table.sweep(10_000, 3600, &busy);
    assert!(!table.contains_token(1));
    assert!(table.contains_token(2));
}

#[test]
fn sweep_keeps_attributes_of_survivors() {
    let mut table = SessionTable::new();
    table.insert(7, SessionData::new(0));
    table
        .insert_session_data(7, ATTR_CSRF_SECRET, "keepme".to_owned())
        .unwrap();
    table.touch(7, 5_000);
    let busy: Vec<u128> = Vec::new();
    table.sweep(5_100, 3600, &busy);
    let read = table.get_session_data(7, ATTR_CSRF_SECRET).unwrap();
    assert_eq!(read.unwrap(), "keepme");
}
