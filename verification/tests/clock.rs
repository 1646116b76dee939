use upt::calendar::Fields;
use upt::clock::{boot_from, fold_raw_local, normalize_parts, RawLocal};
use upt::instant::Instant;

fn raw(year: i32, nanos: u32, day: u32) -> RawLocal {
    RawLocal {
        year,
        month: 2,
        day,
        hour: 9,
        minute: 38,
        second: 11,
        nanos,
        offset_secs: 7200,
    }
}

#[test]
fn fold_raw_local_passes_fields_through() {
    let f = fold_raw_local(&raw(2023, 123, 28)).unwrap();
    assert_eq!(
        f,
        (
            Fields {
                year: 2023,
                month: 2,
                day: 28,
                hour: 9,
                minute: 38,
                second: 11,
                nanos: 123,
            },
            7200
        )
    );
}

#[test]
fn fold_raw_local_folds_leap_second_nanos() {
    let f = fold_raw_local(&raw(2023, 1_500_000_000, 28)).unwrap();
    assert_eq!(f.0.nanos, 500_000_000);
}

#[test]
fn fold_raw_local_rejects_impossible_readouts() {
    assert!(fold_raw_local(&raw(-1, 0, 28)).is_none());
    assert!(fold_raw_local(&raw(10000, 0, 28)).is_none());
    // February 29th exists only in a leap year
    assert!(fold_raw_local(&raw(2023, 0, 29)).is_none());
    assert!(fold_raw_local(&raw(2024, 0, 29)).is_some());
}

#[test]
fn normalize_parts_folds_leap_readout() {
    assert_eq!(
        normalize_parts(10, 1_000_000_001),
        Some(Instant::from_unix(11, 1))
    );
    assert_eq!(normalize_parts(10, 42), Some(Instant::from_unix(10, 42)));
    assert_eq!(normalize_parts(i64::MAX, 1_000_000_000), None);
}

#[test]
fn boot_from_subtracts_uptime_exactly() {
    let now = Instant::from_unix(1_000_000, 250_000_000);
    assert_eq!(
        boot_from(&now, 1000, 0),
        Some(Instant::from_unix(999_000, 250_000_000))
    );
    // borrowing across the second boundary
    assert_eq!(
        boot_from(&now, 0, 750_000_000),
        Some(Instant::from_unix(999_999, 500_000_000))
    );
    assert_eq!(boot_from(&Instant::from_unix(i64::MIN, 0), 1, 0), None);
}
