use jtime::cli::{Cli, Commands};
use jtime::config::{apply_config_updates, clean_jira_url, Config};
use jtime::dates::Date;
use jtime::dayfilter::{holidays_on_dates, remove_holiday_days, remove_weekend_days, weekend_days};
use jtime::holidays::{get_all_holidays_map, HolidayMap, NagerHoliday};
use jtime::version::{current_version, normalize_tag};

#[test]
fn holiday_map_inserts_and_overwrites() {
    let mut map = HolidayMap::new();
    assert_eq!(map.len(), 0);
    assert_eq!(map.get(&"2025-01-01".to_string()), None);
    map.insert("2025-01-01".to_string(), "New Year".to_string());
    map.insert("2025-05-01".to_string(), "May Day".to_string());
    assert_eq!(map.len(), 2);
    assert_eq!(
        map.get(&"2025-01-01".to_string()),
        Some("New Year".to_string())
    );
    map.insert("2025-01-01".to_string(), "New Year's Day".to_string());
    assert_eq!(map.len(), 2);
    assert_eq!(
        map.get(&"2025-01-01".to_string()),
        Some("New Year's Day".to_string())
    );
}

#[test]
fn holiday_map_from_list_last_record_wins() {
    let list = vec![
        NagerHoliday {
            date: "2025-01-01".to_string(),
            local_name: "New Year".to_string(),
        },
        NagerHoliday {
            date: "2025-01-01".to_string(),
            local_name: "Nowy Rok".to_string(),
        },
    ];
    let map = get_all_holidays_map(&list);
    assert_eq!(
        map.get(&"2025-01-01".to_string()),
        Some("Nowy Rok".to_string())
    );
}

#[test]
fn weekend_filters_split_a_week() {
    // 2025-03-03 (Monday) through 2025-03-09 (Sunday).
    let days: Vec<Date> = (3..=9u8)
        .map(|d| Date::from_ymd_opt(2025, 3, d).unwrap())
        .collect();
    let weekends = weekend_days(&days);
    assert_eq!(
        weekends,
        vec![
            Date::from_ymd_opt(2025, 3, 8).unwrap(),
            Date::from_ymd_opt(2025, 3, 9).unwrap(),
        ]
    );
    let weekdays = remove_weekend_days(&days);
    assert_eq!(weekdays.len(), 5);
    assert_eq!(weekdays[0], Date::from_ymd_opt(2025, 3, 3).unwrap());
    assert_eq!(weekdays[4], Date::from_ymd_opt(2025, 3, 7).unwrap());
}

#[test]
fn holiday_filters_match_by_iso_date() {
    let days = vec![
        Date::from_ymd_opt(2025, 5, 1).unwrap(),
        Date::from_ymd_opt(2025, 5, 2).unwrap(),
    ];
    let holidays = vec![NagerHoliday {
        date: "2025-05-01".to_string(),
        local_name: "May Day".to_string(),
    }];
    let matched = holidays_on_dates(&days, &holidays);
    assert_eq!(matched.len(), 1);
    assert_eq!(matched[0].local_name, "May Day");
    let kept = remove_holiday_days(&days, &holidays);
    assert_eq!(kept, vec![Date::from_ymd_opt(2025, 5, 2).unwrap()]);
}

#[test]
fn clean_jira_url_strips_scheme_and_slashes() {
    assert_eq!(clean_jira_url("https://jira.example.com/"), "jira.example.com");
    assert_eq!(clean_jira_url("http://jira.example.com///"), "jira.example.com");
    assert_eq!(clean_jira_url("jira.example.com"), "jira.example.com");
}

#[test]
fn config_updates_apply_given_values_only() {
    let config = Config {
        jira_url: "old.example.com".to_string(),
        jira_token: "SECRET-REDACTED".to_string(),
        show_weekends: false,
        nager_url: None,
        nager_country_code: Some("PL".to_string()),
    };
    let (updated, changed) = apply_config_updates(
        config,
        &Some("https://new.example.com/".to_string()),
        &None,
        &None,
        &None,
        &Some(true),
    );
    assert!(changed);
    assert_eq!(updated.jira_url, "new.example.com");
    assert_eq!(updated.jira_token, "SECRET-REDACTED");
    assert!(updated.show_weekends);
    assert_eq!(updated.nager_country_code, Some("PL".to_string()));

    let (same, changed2) = apply_config_updates(updated, &None, &None, &None, &None, &None);
    assert!(!changed2);
    assert_eq!(same.jira_url, "new.example.com");
}

#[test]
fn version_tags_normalize() {
    assert_eq!(normalize_tag("v1.2.3\n"), "1.2.3");
    assert_eq!(normalize_tag("1.2.3"), "1.2.3");
    assert_eq!(normalize_tag("vv2.0"), "2.0");
    assert!(!current_version().is_empty());
}

#[test]
fn cli_commands_carry_their_arguments() {
    let cli = Cli {
        command: Commands::Month {
            cache: true,
            month: Some(3),
        },
    };
    match cli.command {
        Commands::Month { cache, month } => {
            assert!(cache);
            assert_eq!(month, Some(3));
        }
        _ => panic!("wrong command"),
    }
}
