use graphql_tracing::datetime::{DateTimeRfc3339, TimestampError};
use graphql_tracing::db::Database;

#[test]
fn timestamp_in_range() {
    let t = DateTimeRfc3339::from_timestamp(1_700_000_000).unwrap();
    assert_eq!(t.timestamp(), 1_700_000_000);
    assert_eq!(t.subsec_nanos(), 0);
    let e = DateTimeRfc3339::from_timestamp(0).unwrap();
    assert_eq!(e.timestamp(), 0);
}

#[test]
fn timestamp_out_of_range() {
    assert!(matches!(DateTimeRfc3339::from_timestamp(i64::MAX), Err(TimestampError::OutOfRange)));
    assert!(matches!(DateTimeRfc3339::from_timestamp(i64::MIN), Err(TimestampError::OutOfRange)));
}

#[test]
fn instant_with_nanos() {
    let t = DateTimeRfc3339::new(-1, 500_000_000).unwrap();
    assert_eq!(t.timestamp(), -1);
    assert_eq!(t.subsec_nanos(), 500_000_000);
}

#[test]
fn connection_shared() {
    let db = Database::new(41u32);
    assert_eq!(*db.get_connection(), 41);
}
