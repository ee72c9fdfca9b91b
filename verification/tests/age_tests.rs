use braid::ls::{format_age, format_age_at, format_age_minutes};

const MIN: i128 = 60_000_000_000;
const DAY: i128 = 86_400_000_000_000;
const NOW: i128 = 1_700_000_000_000_000_000;

fn age_ago(d: i128) -> String {
    format_age_at(NOW - d, NOW)
}

#[test]
fn test_format_age_minutes() {
    assert_eq!(age_ago(0), "1m");
    assert_eq!(age_ago(30 * MIN), "30m");
    assert_eq!(age_ago(59 * MIN), "59m");
}

#[test]
fn test_format_age_hours() {
    assert_eq!(age_ago(60 * MIN), "1h");
    assert_eq!(age_ago(12 * 60 * MIN), "12h");
    assert_eq!(age_ago(23 * 60 * MIN), "23h");
}

#[test]
fn test_format_age_days() {
    assert_eq!(age_ago(DAY), "1d");
    assert_eq!(age_ago(6 * DAY), "6d");
}

#[test]
fn test_format_age_weeks() {
    assert_eq!(age_ago(7 * DAY), "1w");
    assert_eq!(age_ago(14 * DAY), "2w");
    assert_eq!(age_ago(29 * DAY), "4w");
}

#[test]
fn test_format_age_months() {
    assert_eq!(age_ago(30 * DAY), "1mo");
    assert_eq!(age_ago(60 * DAY), "2mo");
    assert_eq!(age_ago(364 * DAY), "12mo");
}

#[test]
fn test_format_age_years() {
    assert_eq!(age_ago(365 * DAY), "1y");
    assert_eq!(age_ago(730 * DAY), "2y");
}

#[test]
fn test_format_age_future_date() {
    assert_eq!(format_age_at(NOW + 2 * DAY, NOW), "0m");
}

#[test]
fn seconds_round_toward_zero() {
    assert_eq!(age_ago(MIN - 1), "1m");
    assert_eq!(format_age_at(NOW + MIN - 1, NOW), "1m");
    assert_eq!(format_age_minutes(-1), "0m");
}

#[test]
fn age_of_something_created_long_ago_reads_in_years() {
    let created = 0;
    assert!(format_age(created).ends_with('y'));
}
