use env_server::bucket::BucketFormat;
use env_server::calendar::{
    civil_from_days, days_in_month, days_in_year, format_timestamp, is_leap_year,
    truncate_timestamp, MAX_EPOCH_DAY, MAX_TIMESTAMP,
};

#[test]
fn leap_year_rules() {
    assert!(is_leap_year(2024));
    assert!(!is_leap_year(2023));
    assert!(!is_leap_year(1900));
    assert!(is_leap_year(2000));
    assert_eq!(days_in_year(2024), 366);
    assert_eq!(days_in_year(2023), 365);
    assert_eq!(days_in_month(2024, 2), 29);
    assert_eq!(days_in_month(2023, 2), 28);
    assert_eq!(days_in_month(2023, 4), 30);
    assert_eq!(days_in_month(2023, 12), 31);
}

#[test]
fn civil_dates() {
    assert_eq!(civil_from_days(0), (1970, 1, 1));
    assert_eq!(civil_from_days(1), (1970, 1, 2));
    assert_eq!(civil_from_days(MAX_EPOCH_DAY), (9999, 12, 31));
    // 1700000000 / 86400 = 19675, which is 2023-11-14.
    assert_eq!(civil_from_days(19675), (2023, 11, 14));
}

#[test]
fn truncation_per_granularity() {
    let ts: u64 = 1700000000; // 2023-11-14T22:13:20Z
    assert_eq!(truncate_timestamp(ts, BucketFormat::Second), 1700000000);
    assert_eq!(truncate_timestamp(ts, BucketFormat::Hour), 1699999200);
    assert_eq!(truncate_timestamp(ts, BucketFormat::Day), 1699920000);
    assert_eq!(truncate_timestamp(ts, BucketFormat::Month), 1698796800); // 2023-11-01
    assert_eq!(truncate_timestamp(ts, BucketFormat::Year), 1672531200); // 2023-01-01
}

#[test]
fn truncation_in_a_leap_february() {
    let ts: u64 = 1709208000; // 2024-02-29T12:00:00Z
    assert_eq!(truncate_timestamp(ts, BucketFormat::Month), 1706745600); // 2024-02-01
    assert_eq!(truncate_timestamp(ts, BucketFormat::Year), 1704067200); // 2024-01-01
}

#[test]
fn truncation_at_the_edges() {
    assert_eq!(truncate_timestamp(0, BucketFormat::Year), 0);
    assert_eq!(truncate_timestamp(MAX_TIMESTAMP, BucketFormat::Day), 253402214400);
    assert_eq!(truncate_timestamp(MAX_TIMESTAMP, BucketFormat::Month), 253399622400);
    assert_eq!(truncate_timestamp(MAX_TIMESTAMP, BucketFormat::Year), 253370764800);
}

#[test]
fn formatting() {
    assert_eq!(format_timestamp(0), "1970-01-01T00:00:00Z");
    assert_eq!(format_timestamp(1700000000), "2023-11-14T22:13:20Z");
    assert_eq!(format_timestamp(1699999200), "2023-11-14T22:00:00Z");
    assert_eq!(format_timestamp(MAX_TIMESTAMP), "9999-12-31T23:59:59Z");
}
