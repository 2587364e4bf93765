use chrono::Utc;
use deepseek_cli::calendar::{day_of_clock, parse_ymd, today_epoch_day, ymd_text, MAX_EPOCH_DAY, MIN_EPOCH_DAY};
use deepseek_cli::error::DeepSeekError;
use deepseek_cli::status::{custom_range, end_date_limit, menu_choice_key, plan_time_range, start_date_bounds, RangePlan};
use deepseek_cli::usage::{compute_time_range, compute_time_range_from_dates, range_at, range_from_parsed, time_range_for};

#[test]
fn test_compute_time_range_today() {
    let (start, end) = compute_time_range("today").unwrap();
    let today = Utc::now().date_naive();
    let expected_start = today.and_hms_opt(0, 0, 0).unwrap().and_utc().timestamp();
    let expected_end = (today + chrono::Duration::days(1))
        .and_hms_opt(0, 0, 0)
        .unwrap()
        .and_utc()
        .timestamp();
    assert_eq!(start, expected_start);
    assert_eq!(end, expected_end);
    assert!((end - start - 86400).abs() < 2);
}

#[test]
fn test_compute_time_range_7d() {
    let (start, end) = compute_time_range("7d").unwrap();
    // End should be midnight of next day (up to 24h ahead of now)
    assert!(end >= Utc::now().timestamp());
    assert!(end - Utc::now().timestamp() <= 86400 + 5);
    // Range should be 7 days
    assert!((end - start - 7 * 86400).abs() < 2);
}

#[test]
fn test_compute_time_range_30d() {
    let (start, end) = compute_time_range("30d").unwrap();
    assert!((end - start - 30 * 86400).abs() < 2);
}

#[test]
fn test_compute_time_range_default() {
    let (start, end) = compute_time_range("unknown").unwrap();
    // Default should be 7d
    assert!((end - start - 7 * 86400).abs() < 2);
}

// 2024-03-15 is epoch day 19797.
const MARCH_15_2024: i32 = 19797;

#[test]
fn time_range_for_fixed_day() {
    assert_eq!(time_range_for("today", MARCH_15_2024), (1710460800, 1710547200));
    assert_eq!(time_range_for("7d", MARCH_15_2024), (1710460800 - 6 * 86400, 1710547200));
    assert_eq!(time_range_for("30d", MARCH_15_2024), (1710460800 - 29 * 86400, 1710547200));
    // 2024-03-01 00:00 UTC
    assert_eq!(time_range_for("this-month", MARCH_15_2024), (1709251200, 1710547200));
    // 2024-02-01 .. 2024-03-01 (leap February)
    assert_eq!(time_range_for("last-month", MARCH_15_2024), (1706745600, 1709251200));
    assert_eq!(time_range_for("whatever", MARCH_15_2024), time_range_for("7d", MARCH_15_2024));
}

#[test]
fn last_month_in_january_is_december() {
    // 2024-01-10 is epoch day 19732; December 2023 starts at 1701388800.
    assert_eq!(time_range_for("last-month", 19732), (1701388800, 1704067200));
}

#[test]
fn explicit_dates_range() {
    assert_eq!(
        compute_time_range_from_dates("2024-03-01", "2024-03-15").unwrap(),
        (1709251200, 1710547200)
    );
    assert_eq!(compute_time_range_from_dates("2024-03-01", "2024-03-01").unwrap(), (1709251200, 1709337600));
}

#[test]
fn explicit_dates_errors() {
    match compute_time_range_from_dates("2024-03-15", "2024-03-01") {
        Err(DeepSeekError::Parse(m)) => assert_eq!(m, "end date 2024-03-01 is before start date 2024-03-15"),
        other => panic!("unexpected {:?}", other),
    }
    match compute_time_range_from_dates("yesterday", "2024-03-01") {
        Err(DeepSeekError::Parse(m)) => assert!(m.starts_with("invalid start date 'yesterday': ")),
        other => panic!("unexpected {:?}", other),
    }
    match compute_time_range_from_dates("2024-03-01", "2024-13-01") {
        Err(DeepSeekError::Parse(m)) => assert!(m.starts_with("invalid end date '2024-13-01': ")),
        other => panic!("unexpected {:?}", other),
    }
}

#[test]
fn chrono_calendar_bounds() {
    assert_eq!(ymd_text(0), "1970-01-01");
    assert_eq!(ymd_text(19797), "2024-03-15");
    assert_eq!(ymd_text(-1), "1969-12-31");
    assert!(chrono::NaiveDate::from_epoch_days(MIN_EPOCH_DAY).is_some());
    assert!(chrono::NaiveDate::from_epoch_days(MIN_EPOCH_DAY - 1).is_none());
    assert!(chrono::NaiveDate::from_epoch_days(MAX_EPOCH_DAY).is_some());
    assert!(chrono::NaiveDate::from_epoch_days(MAX_EPOCH_DAY + 1).is_none());
    assert_eq!(parse_ymd("2005-09-10"), Ok(13036));
    assert!(parse_ymd("2005/09/10").is_err());
    assert_eq!(today_epoch_day(), Some(Utc::now().date_naive().to_epoch_days()));
}

#[test]
fn plan_precedence() {
    let s = |x: &str| Some(x.to_string());
    match plan_time_range(s("30d"), s("2024-03-01"), s("2024-03-10"), false, false) {
        RangePlan::Ready(Ok(r)) => assert_eq!(r, (1709251200, 1710115200)),
        _ => panic!("explicit dates take precedence"),
    }
    match plan_time_range(None, s("2024-03-01"), None, false, false) {
        RangePlan::Ready(Err(DeepSeekError::Parse(m))) => assert_eq!(m, "--start and --end must be used together"),
        _ => panic!("partial range must fail"),
    }
    match plan_time_range(None, s("2024-01-01"), s("2024-03-01"), false, false) {
        RangePlan::Ready(Err(DeepSeekError::Parse(m))) => assert_eq!(m, "date range cannot exceed 30 days"),
        _ => panic!("long range must fail"),
    }
    match plan_time_range(None, None, None, false, false) {
        RangePlan::Prompt => {}
        _ => panic!("no arguments: prompt"),
    }
    match plan_time_range(None, None, None, true, false) {
        RangePlan::Ready(Ok(r)) => assert_eq!(Some(r), compute_time_range("today")),
        _ => panic!("no prompt: today"),
    }
    match plan_time_range(None, None, None, false, true) {
        RangePlan::Ready(Ok(r)) => assert_eq!(r.1 - r.0, 86400),
        _ => panic!("json without prompt: today"),
    }
    match plan_time_range(None, s("2024-01-01"), s("+262142-12-31"), false, false) {
        RangePlan::EndDateOverflow => {}
        _ => panic!("last chrono date has no next day"),
    }
}

#[test]
fn thirty_day_limit_boundaries() {
    let s = |x: &str| Some(x.to_string());
    // 2024-03-01 .. 2024-03-30 is exactly 30 days.
    match plan_time_range(None, s("2024-03-01"), s("2024-03-30"), true, true) {
        RangePlan::Ready(Ok(r)) => assert_eq!(r.1 - r.0, 30 * 86400),
        _ => panic!("30 days accepted"),
    }
    match plan_time_range(None, s("2024-03-01"), s("2024-03-31"), true, true) {
        RangePlan::Ready(Err(_)) => {}
        _ => panic!("31 days refused"),
    }
    assert_eq!(custom_range(19797, 19797 + 29).unwrap().1 - custom_range(19797, 19797 + 29).unwrap().0, 30 * 86400);
    match custom_range(19797, 19797 + 30) {
        Err(DeepSeekError::Parse(m)) => assert_eq!(m, "date range cannot exceed 30 days"),
        _ => panic!("picked range too long"),
    }
    // The prompts and `--start`/`--end` accept the same ranges.
    let march_1 = parse_ymd("2024-03-01").unwrap();
    match plan_time_range(None, s("2024-03-01"), s("2024-03-30"), true, true) {
        RangePlan::Ready(Ok(r)) => assert_eq!(custom_range(march_1, march_1 + 29).unwrap(), r),
        _ => panic!("30 days accepted"),
    }
    assert!(custom_range(march_1, march_1 + 30).is_err());
}

#[test]
fn menu_keys() {
    assert_eq!(menu_choice_key("7d — Last 7 days (default)"), "7d");
    assert_eq!(menu_choice_key("this-month — Current month"), "this-month");
    assert_eq!(menu_choice_key("  custom  "), "custom");
}

#[test]
fn clock_readings() {
    // 2024-03-15 12:00 UTC.
    let noon = 1710460800 + 43200;
    assert_eq!(range_at("today", Some(noon)), Some((1710460800, 1710547200)));
    assert_eq!(range_at("7d", Some(noon)), Some((1710460800 - 6 * 86400, 1710547200)));
    assert_eq!(range_at("today", None), None);
    assert_eq!(range_at("today", Some(u64::MAX)), None);
    assert_eq!(day_of_clock(Some(0)), Some(0));
    assert_eq!(day_of_clock(Some(86399)), Some(0));
    assert_eq!(day_of_clock(Some(86400)), Some(1));
}

#[test]
fn explicit_dates_from_parse_results() {
    assert_eq!(range_from_parsed("a", "b", Ok(19797), Ok(19798)).unwrap(), (1710460800, 1710633600));
    match range_from_parsed("x", "b", Err("bad".to_string()), Ok(1)) {
        Err(DeepSeekError::Parse(m)) => assert_eq!(m, "invalid start date 'x': bad"),
        _ => panic!("start error first"),
    }
    match range_from_parsed("a", "y", Ok(1), Err("worse".to_string())) {
        Err(DeepSeekError::Parse(m)) => assert_eq!(m, "invalid end date 'y': worse"),
        _ => panic!("end error"),
    }
    match range_from_parsed("2024-03-16", "2024-03-15", Ok(19798), Ok(19797)) {
        Err(DeepSeekError::Parse(m)) => assert_eq!(m, "end date 2024-03-15 is before start date 2024-03-16"),
        _ => panic!("ordering error"),
    }
}

#[test]
fn picker_bounds() {
    assert_eq!(start_date_bounds(MARCH_15_2024), (MARCH_15_2024 - 365, MARCH_15_2024 - 29, MARCH_15_2024));
    assert_eq!(end_date_limit(MARCH_15_2024 - 40, MARCH_15_2024), MARCH_15_2024 - 11);
    assert_eq!(end_date_limit(MARCH_15_2024 - 10, MARCH_15_2024), MARCH_15_2024);
    assert_eq!(end_date_limit(MARCH_15_2024 - 29, MARCH_15_2024), MARCH_15_2024);
    assert_eq!(end_date_limit(MARCH_15_2024 - 30, MARCH_15_2024), MARCH_15_2024 - 1);
}
