use jtime::dates::Date;
use jtime::models::{DateRange, WorkLog, WorkLogListExt};

fn ts(year: i32, month: u32, day: u32, hour: u32, min: u32, sec: u32) -> i64 {
    chrono::NaiveDate::from_ymd_opt(year, month, day)
        .unwrap()
        .and_hms_opt(hour, min, sec)
        .unwrap()
        .and_utc()
        .timestamp()
}

#[test]
fn test_date_range_iterator() {
    let from = Date::from_ymd_opt(2023, 1, 1).unwrap();
    let to = Date::from_ymd_opt(2023, 1, 5).unwrap();
    let range = DateRange { from, to };

    let mut iter = range.into_iter();
    let mut dates: Vec<Date> = Vec::new();
    while let Some(d) = iter.next() {
        dates.push(d);
    }

    assert_eq!(dates.len(), 5);
    assert_eq!(dates[0], from);
    assert_eq!(dates[4], to);
}

#[test]
fn test_date_range_days_with_weekends() {
    // 2023-1-7 is Saturday and 2023-1-8 is Sunday
    let from = Date::from_ymd_opt(2023, 1, 6).unwrap(); // Friday
    let to = Date::from_ymd_opt(2023, 1, 9).unwrap(); // Monday
    let range = DateRange { from, to };

    let days_with_weekends = range.clone().days(true);
    assert_eq!(days_with_weekends.len(), 4);

    let days_without_weekends = range.days(false);
    assert_eq!(days_without_weekends.len(), 2);
    assert_eq!(days_without_weekends[0], from);
    assert_eq!(
        days_without_weekends[1],
        Date::from_ymd_opt(2023, 1, 9).unwrap()
    );
}

#[test]
fn test_worklog_get_by_day() {
    let day1 = Date::from_ymd_opt(2023, 1, 1).unwrap();
    let day2 = Date::from_ymd_opt(2023, 1, 2).unwrap();

    let log1 = WorkLog {
        day: ts(2023, 1, 1, 10, 0, 0),
        task: "Task1".to_string(),
        time_spent: "2h".to_string(),
    };

    let log2 = WorkLog {
        day: ts(2023, 1, 1, 14, 0, 0),
        task: "Task2".to_string(),
        time_spent: "3h".to_string(),
    };

    let log3 = WorkLog {
        day: ts(2023, 1, 2, 9, 0, 0),
        task: "Task3".to_string(),
        time_spent: "4h".to_string(),
    };

    let logs = vec![log1, log2, log3];

    let day1_logs = logs.get_by_day(&day1);
    assert_eq!(day1_logs.len(), 2);
    assert_eq!(day1_logs[0].task, "Task1");
    assert_eq!(day1_logs[1].task, "Task2");

    let day2_logs = logs.get_by_day(&day2);
    assert_eq!(day2_logs.len(), 1);
    assert_eq!(day2_logs[0].task, "Task3");

    let day3_logs = logs.get_by_day(&Date::from_ymd_opt(2023, 1, 3).unwrap());
    assert_eq!(day3_logs.len(), 0);
}

#[test]
fn day_window_edges_belong_to_the_right_day() {
    // Midnight belongs to the day that starts; the second before to the day
    // that ends.
    let day1 = Date::from_ymd_opt(2023, 1, 1).unwrap();
    let day2 = Date::from_ymd_opt(2023, 1, 2).unwrap();
    let logs = vec![
        WorkLog {
            day: ts(2023, 1, 2, 0, 0, 0),
            task: "Midnight".to_string(),
            time_spent: "1h".to_string(),
        },
        WorkLog {
            day: ts(2023, 1, 1, 23, 59, 59),
            task: "LateNight".to_string(),
            time_spent: "1h".to_string(),
        },
    ];
    let day2_logs = logs.get_by_day(&day2);
    assert_eq!(day2_logs.len(), 1);
    assert_eq!(day2_logs[0].task, "Midnight");
    let day1_logs = logs.get_by_day(&day1);
    assert_eq!(day1_logs.len(), 1);
    assert_eq!(day1_logs[0].task, "LateNight");
}

#[test]
fn datenum_matches_reference_day_count() {
    // The library's day number counts days since January 1 of year 1; the
    // reference calendar's count from the same day starts at 1.
    for &(y, m, d) in &[(1970, 1, 1), (2023, 1, 1), (2025, 3, 5), (2000, 2, 29)] {
        let ours = Date::from_ymd_opt(y, m as u8, d as u8).unwrap().datenum_u64();
        let theirs =
            chrono::Datelike::num_days_from_ce(&chrono::NaiveDate::from_ymd_opt(y, m, d).unwrap());
        assert_eq!(ours as i64, theirs as i64 - 1);
    }
}

#[test]
fn weekday_matches_reference_calendar() {
    let wednesday = Date::from_ymd_opt(2025, 3, 5).unwrap();
    assert_eq!(wednesday.weekday_from_monday(), 2);
    let sunday = Date::from_ymd_opt(2025, 3, 9).unwrap();
    assert_eq!(sunday.weekday_from_monday(), 6);
    let monday = Date::from_ymd_opt(2024, 12, 30).unwrap();
    assert_eq!(monday.weekday_from_monday(), 0);
}

#[test]
fn iso_formatting_pads_fields() {
    let d = Date::from_ymd_opt(987, 3, 5).unwrap();
    assert_eq!(jtime::dates::format_iso(&d), "0987-03-05");
    let e = Date::from_ymd_opt(2025, 12, 31).unwrap();
    assert_eq!(jtime::dates::format_iso(&e), "2025-12-31");
}
