use jtime::calendar::{Calendar, RangeError};
use jtime::dates::Date;
use jtime::models::DateRange;

#[test]
fn test_range_days_for_month() {
    // Test for March 2025 (starts on Sunday)
    let result = Calendar::range_days_for_month(2025, 3).unwrap();
    assert_eq!(
        result,
        DateRange {
            from: Date::from_ymd_opt(2025, 02, 24).unwrap(),
            to: Date::from_ymd_opt(2025, 04, 06).unwrap(),
        }
    );
}

#[test]
fn test_range_days_for_april_2025() {
    // Test for April 2025 (starts on Tuesday)
    let result = Calendar::range_days_for_month(2025, 4).unwrap();
    assert_eq!(
        result,
        DateRange {
            from: Date::from_ymd_opt(2025, 03, 31).unwrap(),
            to: Date::from_ymd_opt(2025, 05, 4).unwrap(),
        }
    );
}

#[test]
fn test_range_days_for_week() {
    // Test for 2025-03-05 (Wednesday)
    let result =
        Calendar::range_days_for_week(&Date::from_ymd_opt(2025, 3, 5).unwrap()).unwrap();
    assert_eq!(
        result,
        DateRange {
            from: Date::from_ymd_opt(2025, 3, 3).unwrap(),
            to: Date::from_ymd_opt(2025, 3, 9).unwrap(),
        }
    );
}

#[test]
fn week_of_a_sunday_ends_a_week_later() {
    // 2025-03-09 is a Sunday: the range starts on that week's Monday but
    // ends on the Sunday seven days later, not on the input day.
    let sunday = Date::from_ymd_opt(2025, 3, 9).unwrap();
    let result = Calendar::range_days_for_week(&sunday).unwrap();
    assert_eq!(
        result,
        DateRange {
            from: Date::from_ymd_opt(2025, 3, 3).unwrap(),
            to: Date::from_ymd_opt(2025, 3, 16).unwrap(),
        }
    );
}

#[test]
fn month_range_is_monday_to_sunday_and_covers_month() {
    for month in 1..=12u32 {
        let range = Calendar::range_days_for_month(2024, month).unwrap();
        assert_eq!(range.from.weekday_from_monday(), 0);
        assert_eq!(range.to.weekday_from_monday(), 6);
        let first = Date::from_ymd_opt(2024, month as u8, 1).unwrap();
        assert!(range.from.datenum_u64() <= first.datenum_u64());
        let last = Date::from_ymd_opt(
            2024,
            month as u8,
            jtime::dates::days_in_month(2024, month as u8),
        )
        .unwrap();
        assert!(last.datenum_u64() < range.to.datenum_u64());
    }
}

#[test]
fn invalid_month_is_rejected() {
    assert!(matches!(
        Calendar::range_days_for_month(2025, 0),
        Err(RangeError::InvalidMonth)
    ));
    assert!(matches!(
        Calendar::range_days_for_month(2025, 13),
        Err(RangeError::InvalidMonth)
    ));
    assert_eq!(
        Calendar::range_days_for_month(2025, 0).unwrap_err().message(),
        "Invalid month"
    );
}

#[test]
fn december_rolls_into_next_year() {
    let range = Calendar::range_days_for_month(2024, 12).unwrap();
    assert_eq!(range.from, Date::from_ymd_opt(2024, 11, 25).unwrap());
    assert_eq!(range.to, Date::from_ymd_opt(2025, 1, 5).unwrap());
}
