use chrono::Datelike;
use jep_rs::dates::{day_string_of_millis, epoch_days_of_ymd, ymd_of_epoch_days};

const DAY_MILLIS: i64 = 86_400_000;

#[test]
fn epoch_is_day_zero() {
    assert_eq!(epoch_days_of_ymd(1970, 1, 1), 0);
    assert_eq!(ymd_of_epoch_days(0), (1970, 1, 1));
}

#[test]
fn known_day_numbers() {
    assert_eq!(epoch_days_of_ymd(2024, 1, 1), 19723);
    assert_eq!(epoch_days_of_ymd(2024, 2, 29), 19782);
    assert_eq!(epoch_days_of_ymd(2000, 3, 1), 11017);
    assert_eq!(epoch_days_of_ymd(1969, 12, 31), -1);
    assert_eq!(epoch_days_of_ymd(1900, 3, 1), -25508);
}

#[test]
fn conversions_round_trip() {
    for z in [-1_000_000i64, -25508, -1, 0, 59, 19723, 19782, 2_000_000] {
        let (y, m, d) = ymd_of_epoch_days(z);
        assert_eq!(epoch_days_of_ymd(y, m as u8, d as u8), z);
    }
}

#[test]
fn day_strings_follow_the_utc_calendar() {
    assert_eq!(day_string_of_millis(0), "1970-01-01");
    assert_eq!(day_string_of_millis(-1), "1969-12-31");
    assert_eq!(day_string_of_millis(1_704_067_200_000), "2024-01-01");
    assert_eq!(day_string_of_millis(1_704_067_200_000 + DAY_MILLIS - 1), "2024-01-01");
    assert_eq!(day_string_of_millis(1_704_067_200_000 + DAY_MILLIS), "2024-01-02");
}

#[test]
fn day_strings_agree_with_chrono() {
    let samples: Vec<i64> = vec![
        0,
        -1,
        -86_400_000,
        951_868_800_000,
        1_704_067_200_000,
        1_709_164_800_000,
        -2_203_891_200_000,
        253_402_300_799_999,
    ];
    for ms in samples {
        let expected = chrono::DateTime::<chrono::Utc>::from_timestamp_millis(ms)
            .unwrap()
            .format("%Y-%m-%d")
            .to_string();
        assert_eq!(day_string_of_millis(ms), expected, "at {} ms", ms);
    }
}

#[test]
fn day_numbers_agree_with_chrono() {
    for &(y, m, d) in &[(1970, 1, 2), (1999, 12, 31), (2024, 2, 29), (1600, 2, 29), (2100, 3, 1)] {
        let date = chrono::NaiveDate::from_ymd_opt(y, m, d).unwrap();
        let epoch = chrono::NaiveDate::from_ymd_opt(1970, 1, 1).unwrap();
        let expected = (date - epoch).num_days();
        assert_eq!(epoch_days_of_ymd(y as i64, m as u8, d as u8), expected);
        let (ry, rm, rd) = ymd_of_epoch_days(expected);
        assert_eq!((ry as i32, rm as u32, rd as u32), (date.year(), date.month(), date.day()));
    }
}
