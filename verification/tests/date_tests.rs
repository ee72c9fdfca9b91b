use braid::date::{format_scheduled, format_scheduled_at, parse_scheduled_date, relative_date_fits, scheduled_date_at};

const MIN: i128 = 60_000_000_000;
const HOUR: i128 = 60 * MIN;
const DAY: i128 = 24 * HOUR;
const NOW: i128 = 1_700_000_000_123_456_789;

fn now_real() -> i128 {
    let d = std::time::SystemTime::now().duration_since(std::time::UNIX_EPOCH).unwrap();
    d.as_nanos() as i128
}

#[test]
fn test_parse_tomorrow() {
    let before = now_real();
    let result = parse_scheduled_date("tomorrow").unwrap();
    let after = now_real();
    assert_eq!(result % DAY, 0);
    assert!(result > before && result <= after + DAY);
    assert!(result - before <= DAY);
}

#[test]
fn test_parse_relative_days() {
    let before = now_real();
    let result = parse_scheduled_date("+7d").unwrap();
    let diff_days = (result - before) / DAY;
    assert!(diff_days >= 6 && diff_days <= 7);
}

#[test]
fn test_parse_relative_weeks() {
    let before = now_real();
    let result = parse_scheduled_date("+2w").unwrap();
    let diff_days = (result - before) / DAY;
    assert!(diff_days >= 13 && diff_days <= 14);
}

#[test]
fn test_parse_relative_months() {
    let before = now_real();
    let result = parse_scheduled_date("+1mo").unwrap();
    let diff_days = (result - before) / DAY;
    assert!(diff_days >= 29 && diff_days <= 30);
}

#[test]
fn test_parse_iso_date() {
    let result = parse_scheduled_date("2025-12-25").unwrap();
    assert_eq!(result, 20447 * DAY);
}

#[test]
fn test_parse_invalid() {
    assert!(parse_scheduled_date("invalid").is_err());
    assert!(parse_scheduled_date("+abc").is_err());
    assert!(parse_scheduled_date("2025-13-01").is_err());
}

#[test]
fn relative_dates_at_a_fixed_time() {
    assert_eq!(scheduled_date_at("+7d", NOW).unwrap(), NOW + 7 * DAY);
    assert_eq!(scheduled_date_at("+2w", NOW).unwrap(), NOW + 14 * DAY);
    assert_eq!(scheduled_date_at("+1mo", NOW).unwrap(), NOW + 30 * DAY);
    assert_eq!(scheduled_date_at("  TOMORROW ", NOW).unwrap(), (NOW / DAY + 1) * DAY);
    assert_eq!(scheduled_date_at("+-1d", NOW).unwrap(), NOW - DAY);
}

#[test]
fn date_error_messages() {
    assert_eq!(scheduled_date_at("+abc", NOW).unwrap_err().to_text(), "parse error in date: invalid relative format '+abc'. use +Nd, +Nw, or +Nmo (e.g., +7d, +2w, +1mo)");
    assert_eq!(scheduled_date_at("+xd", NOW).unwrap_err().to_text(), "parse error in date: invalid days: xd");
    assert_eq!(scheduled_date_at("+3.5w", NOW).unwrap_err().to_text(), "parse error in date: invalid weeks: 3.5w");
    assert_eq!(scheduled_date_at("soon", NOW).unwrap_err().to_text(), "parse error in date: invalid date format 'soon'. use YYYY-MM-DD, +Nd, +Nw, +Nmo, or 'tomorrow'");
    assert!(scheduled_date_at("2025-02-30", NOW).unwrap_err().to_text().starts_with("parse error in date: invalid date '2025-02-30': "));
}

#[test]
fn oversized_spans_are_reported_before_parsing() {
    assert!(relative_date_fits("+7d"));
    assert!(relative_date_fits("2025-01-01"));
    assert!(!relative_date_fits("+9999999999999999d"));
    assert!(!relative_date_fits("+999999999999999mo"));
}

#[test]
fn test_format_scheduled_hours() {
    let now = now_real();
    let result = format_scheduled(now + 5 * HOUR + 30 * MIN);
    assert!(result.starts_with("in ") && result.ends_with("h"));
}

#[test]
fn test_format_scheduled_days() {
    let now = now_real();
    let result = format_scheduled(now + 2 * DAY);
    assert!(result.starts_with("in ") && result.ends_with("d"));
}

#[test]
fn test_format_scheduled_weeks() {
    let now = now_real();
    let result = format_scheduled(now + 10 * DAY);
    assert!(result.starts_with("in ") && result.ends_with("w"));
}

#[test]
fn test_format_scheduled_months() {
    let now = now_real();
    let result = format_scheduled(now + 45 * DAY);
    assert!(result.starts_with("in ") && result.ends_with("mo"));
}

#[test]
fn test_format_scheduled_past() {
    let now = now_real();
    assert_eq!(format_scheduled(now - DAY), "now");
}

#[test]
fn scheduled_text_at_a_fixed_time() {
    assert_eq!(format_scheduled_at(NOW + 30 * 1_000_000_000, NOW), "now");
    assert_eq!(format_scheduled_at(NOW + 10 * MIN, NOW), "in 1h");
    assert_eq!(format_scheduled_at(NOW + 5 * HOUR, NOW), "in 5h");
    assert_eq!(format_scheduled_at(NOW + 3 * DAY, NOW), "in 3d");
    assert_eq!(format_scheduled_at(NOW + 20 * DAY, NOW), "in 2w");
    assert_eq!(format_scheduled_at(NOW + 65 * DAY, NOW), "in 2mo");
}
