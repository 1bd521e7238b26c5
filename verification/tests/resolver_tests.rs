use jep_rs::errors::{DateField, VendingError};
use jep_rs::range::{parse_flexible_date, resolve_date_range, DEFAULT_LOOKBACK_MILLIS};

const DAY_MILLIS: i64 = 86_400_000;
const JAN1_2024: i64 = 1_704_067_200_000;

#[test]
fn bare_start_resolves_to_midnight() {
    assert_eq!(parse_flexible_date("2024-01-01", false).unwrap(), JAN1_2024);
    assert_eq!(parse_flexible_date("2024-01-01", false).unwrap() % DAY_MILLIS, 0);
}

#[test]
fn bare_end_resolves_to_end_of_day() {
    assert_eq!(
        parse_flexible_date("2024-01-01", true).unwrap(),
        JAN1_2024 + DAY_MILLIS - 1
    );
}

#[test]
fn epoch_day_resolves_to_zero() {
    assert_eq!(parse_flexible_date("1970-01-01", false).unwrap(), 0);
    assert_eq!(parse_flexible_date("1970-01-01", true).unwrap(), DAY_MILLIS - 1);
}

#[test]
fn timestamp_parses_as_itself() {
    assert_eq!(
        parse_flexible_date("2024-01-01T12:30:00Z", false).unwrap(),
        JAN1_2024 + (12 * 3600 + 30 * 60) * 1000
    );
}

#[test]
fn timestamp_with_offset_converts_to_utc() {
    assert_eq!(
        parse_flexible_date("2024-01-01T00:00:00+02:00", false).unwrap(),
        JAN1_2024 - 2 * 3600 * 1000
    );
}

#[test]
fn timestamp_ignores_end_of_day_adjustment() {
    assert_eq!(
        parse_flexible_date("2024-01-01T00:00:00Z", true).unwrap(),
        JAN1_2024
    );
}

#[test]
fn pre_epoch_date_resolves_negative() {
    assert_eq!(parse_flexible_date("1969-12-31", false).unwrap(), -DAY_MILLIS);
}

#[test]
fn leap_day_parses() {
    let ms = parse_flexible_date("2024-02-29", false).unwrap();
    assert_eq!(ms, JAN1_2024 + 59 * DAY_MILLIS);
}

#[test]
fn nonexistent_leap_day_is_invalid() {
    match parse_flexible_date("2023-02-29", false) {
        Err(VendingError::InvalidDateFormat { field, value }) => {
            assert_eq!(field, DateField::StartDate);
            assert_eq!(value, "2023-02-29");
        }
        _ => panic!("expected InvalidDateFormat"),
    }
}

#[test]
fn unparsable_date_yields_invalid_date_format() {
    match parse_flexible_date("not-a-date", false) {
        Err(VendingError::InvalidDateFormat { field, value }) => {
            assert_eq!(field, DateField::StartDate);
            assert_eq!(value, "not-a-date");
        }
        _ => panic!("expected InvalidDateFormat"),
    }
}

#[test]
fn unparsable_end_date_names_the_end_field() {
    match parse_flexible_date("2024-13-40", true) {
        Err(VendingError::InvalidDateFormat { field, value }) => {
            assert_eq!(field, DateField::EndDate);
            assert_eq!(value, "2024-13-40");
        }
        _ => panic!("expected InvalidDateFormat"),
    }
}

#[test]
fn missing_bounds_default_to_last_thirty_days() {
    let now = JAN1_2024;
    let (start, end) = resolve_date_range(None, None, now).unwrap();
    assert_eq!(start, now - DEFAULT_LOOKBACK_MILLIS);
    assert_eq!(end, now);
    assert_eq!(DEFAULT_LOOKBACK_MILLIS, 30 * DAY_MILLIS);
}

#[test]
fn supplied_bounds_override_defaults() {
    let start_s = String::from("2024-01-01");
    let end_s = String::from("2024-01-02");
    let (start, end) = resolve_date_range(Some(&start_s), Some(&end_s), 0).unwrap();
    assert_eq!(start, JAN1_2024);
    assert_eq!(end, JAN1_2024 + 2 * DAY_MILLIS - 1);
}

#[test]
fn start_error_takes_precedence() {
    let bad1 = String::from("nope");
    let bad2 = String::from("also-nope");
    match resolve_date_range(Some(&bad1), Some(&bad2), 0) {
        Err(VendingError::InvalidDateFormat { field, value }) => {
            assert_eq!(field, DateField::StartDate);
            assert_eq!(value, "nope");
        }
        _ => panic!("expected InvalidDateFormat"),
    }
}

#[test]
fn inverted_range_is_not_rejected() {
    let start_s = String::from("2024-01-02");
    let end_s = String::from("2024-01-01");
    let (start, end) = resolve_date_range(Some(&start_s), Some(&end_s), 0).unwrap();
    assert!(start > end);
}
