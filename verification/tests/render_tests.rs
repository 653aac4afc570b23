use jtime::dates::Date;
use jtime::holidays::HolidayMap;
use jtime::models::{DateRange, Task, WorkLog};
use jtime::render::{render, render_cell, style_for_day, works_on, DayStyle};

fn ts(year: i32, month: u32, day: u32, hour: u32) -> i64 {
    chrono::NaiveDate::from_ymd_opt(year, month, day)
        .unwrap()
        .and_hms_opt(hour, 0, 0)
        .unwrap()
        .and_utc()
        .timestamp()
}

fn sample_logs() -> Vec<WorkLog> {
    vec![
        WorkLog {
            day: ts(2025, 3, 5, 10),
            task: "AB-1".to_string(),
            time_spent: "2h".to_string(),
        },
        WorkLog {
            day: ts(2025, 3, 6, 9),
            task: "AB-2".to_string(),
            time_spent: "1d".to_string(),
        },
    ]
}

#[test]
fn rendering_twice_is_byte_identical() {
    let range = DateRange {
        from: Date::from_ymd_opt(2025, 3, 3).unwrap(),
        to: Date::from_ymd_opt(2025, 3, 9).unwrap(),
    };
    let today = Date::from_ymd_opt(2025, 3, 5).unwrap();
    let mut map = HolidayMap::new();
    map.insert("2025-03-04".to_string(), "Carnival".to_string());
    let mut map2 = HolidayMap::new();
    map2.insert("2025-03-04".to_string(), "Carnival".to_string());
    let first = render(range, sample_logs(), true, Some(map), &today).unwrap();
    let second = render(range, sample_logs(), true, Some(map2), &today).unwrap();
    assert_eq!(first, second);
}

#[test]
fn rendered_grid_shows_entries_and_holidays() {
    let range = DateRange {
        from: Date::from_ymd_opt(2025, 3, 3).unwrap(),
        to: Date::from_ymd_opt(2025, 3, 9).unwrap(),
    };
    let today = Date::from_ymd_opt(2025, 3, 5).unwrap();
    let mut map = HolidayMap::new();
    map.insert("2025-03-04".to_string(), "Carnival".to_string());
    let text = render(range, sample_logs(), true, Some(map), &today).unwrap();
    // The header names all seven weekdays.
    for name in ["Mon", "Tue", "Wed", "Thu", "Fri", "Sat", "Sun"] {
        assert!(text.contains(name), "missing {} in {}", name, text);
    }
    // The duration appears in parentheses, the `1d` sentinel does not.
    assert!(text.contains("AB-1 (2h)"));
    assert!(text.contains("AB-2"));
    assert!(!text.contains("AB-2 (1d)"));
    assert!(!text.contains("(1d)"));
    // The holiday name is shown; empty days show the placeholder.
    assert!(text.contains("Carnival"));
    assert!(text.contains("-"));
}

#[test]
fn weekend_columns_drop_when_hidden() {
    let range = DateRange {
        from: Date::from_ymd_opt(2025, 3, 3).unwrap(),
        to: Date::from_ymd_opt(2025, 3, 9).unwrap(),
    };
    let today = Date::from_ymd_opt(2025, 3, 5).unwrap();
    let text = render(range, Vec::new(), false, None, &today).unwrap();
    assert!(text.contains("Fri"));
    assert!(!text.contains("Sat"));
    assert!(!text.contains("Sun"));
}

#[test]
fn cell_text_centers_day_number_over_body() {
    let day = Date::from_ymd_opt(2025, 3, 5).unwrap();
    let logs = vec![WorkLog {
        day: ts(2025, 3, 5, 10),
        task: "AB-1".to_string(),
        time_spent: "2h".to_string(),
    }];
    let today = Date::from_ymd_opt(2025, 3, 6).unwrap();
    let cell = render_cell(&day, &logs, None, &today);
    assert_eq!(cell.text, "    5    \nAB-1 (2h)");
    assert_eq!(cell.style, DayStyle::Normal);
}

#[test]
fn empty_cell_shows_placeholder() {
    let day = Date::from_ymd_opt(2025, 3, 5).unwrap();
    let today = Date::from_ymd_opt(2025, 3, 5).unwrap();
    let cell = render_cell(&day, &Vec::new(), None, &today);
    assert_eq!(cell.text, "5\n-");
    assert_eq!(cell.style, DayStyle::EmptyToday);
}

#[test]
fn sentinel_duration_hides_parentheses() {
    let day = Date::from_ymd_opt(2025, 3, 6).unwrap();
    let logs = vec![WorkLog {
        day: ts(2025, 3, 6, 9),
        task: "AB-2".to_string(),
        time_spent: "1d".to_string(),
    }];
    let today = Date::from_ymd_opt(2025, 3, 5).unwrap();
    let cell = render_cell(&day, &logs, None, &today);
    assert_eq!(cell.text, " 6  \nAB-2");
}

#[test]
fn holiday_line_precedes_tasks() {
    let day = Date::from_ymd_opt(2025, 3, 4).unwrap();
    let logs = vec![WorkLog {
        day: ts(2025, 3, 4, 9),
        task: "AB-3".to_string(),
        time_spent: "3h".to_string(),
    }];
    let today = Date::from_ymd_opt(2025, 3, 5).unwrap();
    let cell = render_cell(&day, &logs, Some("Carnival".to_string()), &today);
    assert_eq!(cell.text, "    4    \nCarnival\nAB-3 (3h)");
    assert_eq!(cell.style, DayStyle::Holiday);
}

#[test]
fn style_precedence_is_holiday_weekend_emptytoday_today() {
    // A holiday wins over everything.
    assert_eq!(style_for_day(true, 6, false, true), DayStyle::Holiday);
    // A weekend wins over today.
    assert_eq!(style_for_day(false, 5, false, true), DayStyle::Weekend);
    // Today with no entries is marked for attention.
    assert_eq!(style_for_day(false, 2, false, true), DayStyle::EmptyToday);
    // Today with entries is the current day.
    assert_eq!(style_for_day(false, 2, true, true), DayStyle::Today);
    // Anything else is plain.
    assert_eq!(style_for_day(false, 2, true, false), DayStyle::Normal);
}

#[test]
fn works_on_lists_tasks() {
    let tasks = vec![
        Task {
            id: "AB-1".to_string(),
            name: "First".to_string(),
        },
        Task {
            id: "AB-2".to_string(),
            name: "Second".to_string(),
        },
    ];
    assert_eq!(
        works_on(tasks),
        "Actually you work on:\n[AB-1] First\n[AB-2] Second"
    );
    assert_eq!(works_on(Vec::new()), "Actually you work on:\n");
}
