use chrono::Datelike;
use jtime::dates::Date;
use jtime::parser::{parse_date, parse_day_expr, parse_time, DayExpr, ParseError};

fn today() -> Date {
    let now = chrono::Utc::now().naive_utc().date();
    Date {
        year: now.year(),
        month: now.month() as u8,
        day: now.day() as u8,
    }
}

fn yesterday_of(d: Date) -> Date {
    d.prev_day()
}

#[test]
fn test_parse_today() {
    let now = today();
    let parsed = parse_date("today", false, &now).unwrap();
    assert_eq!(parsed.len(), 1);
    assert_eq!(parsed[0], now);
}

#[test]
fn test_parse_yesterday() {
    let now = today();
    let parsed = parse_date("yesterday", false, &now).unwrap();
    assert_eq!(parsed.len(), 1);
    assert_eq!(parsed[0], yesterday_of(now));
}

#[test]
fn test_parse_single_day() {
    let now = today();
    let parsed = parse_date("5", true, &now).unwrap();
    assert_eq!(parsed.len(), 1);
}

#[test]
fn test_parse_day_range() {
    let now = today();
    let parsed = parse_date("1-3", true, &now).unwrap();
    assert_eq!(
        parsed,
        vec![
            Date::from_ymd_opt(now.year, now.month, 1).unwrap(),
            Date::from_ymd_opt(now.year, now.month, 2).unwrap(),
            Date::from_ymd_opt(now.year, now.month, 3).unwrap(),
        ]
    );
}

#[test]
fn test_parse_day_range_without_weekend() {
    // Find a range in the current month where the first two days are weekend
    // and the third is a weekday.
    let now = today();
    let mut found = false;
    for start_day in 1..=28u8 {
        let d1 = Date::from_ymd_opt(now.year, now.month, start_day);
        let d2 = Date::from_ymd_opt(now.year, now.month, start_day + 1);
        let d3 = Date::from_ymd_opt(now.year, now.month, start_day + 2);
        if let (Some(d1), Some(d2), Some(d3)) = (d1, d2, d3) {
            if d1.weekday_from_monday() >= 5
                && d2.weekday_from_monday() >= 5
                && d3.weekday_from_monday() < 5
            {
                let range = format!("{}-{}", start_day, start_day + 2);
                let parsed = parse_date(&range, false, &now).unwrap();
                assert_eq!(parsed, vec![d3]);
                found = true;
                break;
            }
        }
    }
    assert!(
        found,
        "Could not find a suitable weekend-to-weekday range in this month"
    );
}

#[test]
fn test_parse_time_hours_only() {
    // 2 hours = 7200 seconds
    let seconds = parse_time("2h").unwrap();
    assert_eq!(seconds, 7200);
}

#[test]
fn test_parse_time_minutes_only() {
    // 45 minutes = 2700 seconds
    let seconds = parse_time("45m").unwrap();
    assert_eq!(seconds, 2700);
}

#[test]
fn test_parse_time_hour_and_minutes() {
    // 1 hour and 30 minutes = 3600 + 1800 = 5400 seconds
    let seconds = parse_time("1h30m").unwrap();
    assert_eq!(seconds, 5400);
}

#[test]
fn test_parse_time_invalid_unit() {
    // Using an invalid unit 's'
    let result = parse_time("10s");
    assert!(result.is_err());
}

#[test]
fn test_parse_time_incomplete_format() {
    // Trailing number without unit
    let result = parse_time("15");
    assert!(result.is_err());
}

#[test]
fn parse_time_repeated_units_accumulate() {
    assert_eq!(parse_time("1h1h").unwrap(), 7200);
    assert_eq!(parse_time("1h30m1h").unwrap(), 9000);
}

#[test]
fn parse_time_error_variants() {
    assert!(matches!(parse_time("h"), Err(ParseError::MissingNumber('h'))));
    assert!(matches!(parse_time("10s"), Err(ParseError::InvalidUnit('s'))));
    match parse_time("15") {
        Err(ParseError::TrailingDigits(t)) => assert_eq!(t, "15"),
        other => panic!("expected trailing digits, got {:?}", other),
    }
    assert!(matches!(
        parse_time("99999999999999999999h"),
        Err(ParseError::NumberTooLarge)
    ));
    assert_eq!(parse_time("").unwrap(), 0);
}

#[test]
fn parse_time_error_messages() {
    assert_eq!(
        parse_time("10s").unwrap_err().message(),
        "Invalid time unit: 's'"
    );
    assert_eq!(
        parse_time("15").unwrap_err().message(),
        "Incomplete time format, missing unit for '15'"
    );
    assert_eq!(
        parse_time("m").unwrap_err().message(),
        "No number provided for time unit 'm'"
    );
}

#[test]
fn parse_date_invalid_day() {
    let now = today();
    match parse_date("32", true, &now) {
        Err(ParseError::InvalidDay(d)) => assert_eq!(d, 32),
        other => panic!("expected invalid day, got {:?}", other),
    }
    assert_eq!(
        parse_date("32", true, &now).unwrap_err().message(),
        "Invalid day 32 for the current month"
    );
}

#[test]
fn parse_date_invalid_format() {
    let now = today();
    match parse_date("soon", true, &now) {
        Err(ParseError::InvalidDateFormat(t)) => assert_eq!(t, "soon"),
        other => panic!("expected invalid format, got {:?}", other),
    }
}

#[test]
fn parse_date_explicit_date_in_pair() {
    // A hyphenated expression whose right side is an explicit date resolves
    // as a pair of independent single-date tokens.
    let now = today();
    let parsed = parse_date("today-24-12-2025", true, &now).unwrap();
    assert_eq!(parsed.len(), 2);
    assert_eq!(parsed[0], now);
    assert_eq!(parsed[1], Date::from_ymd_opt(2025, 12, 24).unwrap());
}

#[test]
fn parse_day_expr_keeps_shapes_apart() {
    let now = today();
    assert!(matches!(
        parse_day_expr("today", true, &now),
        Ok(DayExpr::Single(_))
    ));
    assert!(matches!(
        parse_day_expr("1-3", true, &now),
        Ok(DayExpr::RangeOfDays(_))
    ));
    assert!(matches!(
        parse_day_expr("today-yesterday", true, &now),
        Ok(DayExpr::PairOfDates(_, _))
    ));
}

#[test]
fn parse_date_pair_of_dates() {
    let now = today();
    let parsed = parse_date("today-yesterday", true, &now).unwrap();
    assert_eq!(parsed, vec![now, yesterday_of(now)]);
}

#[test]
fn parse_date_trims_range_sides() {
    let now = today();
    let parsed = parse_date(" 1 - 2 ", true, &now).unwrap();
    assert_eq!(
        parsed,
        vec![
            Date::from_ymd_opt(now.year, now.month, 1).unwrap(),
            Date::from_ymd_opt(now.year, now.month, 2).unwrap(),
        ]
    );
}

#[test]
fn parse_date_weekend_only_range_is_empty() {
    // Find a Saturday-Sunday pair in the current month; filtering weekends
    // out of that two-day range leaves nothing.
    let now = today();
    let mut found = false;
    for start_day in 1..=27u8 {
        let d1 = Date::from_ymd_opt(now.year, now.month, start_day);
        let d2 = Date::from_ymd_opt(now.year, now.month, start_day + 1);
        if let (Some(d1), Some(d2)) = (d1, d2) {
            if d1.weekday_from_monday() >= 5 && d2.weekday_from_monday() >= 5 {
                let range = format!("{}-{}", start_day, start_day + 1);
                let result = parse_date(&range, false, &now);
                assert!(matches!(result, Err(ParseError::EmptyRange)));
                assert_eq!(
                    parse_date(&range, false, &now).unwrap_err().message(),
                    "No valid dates in the specified range"
                );
                found = true;
                break;
            }
        }
    }
    assert!(found, "Could not find a weekend pair in this month");
}
