use env_server::bucket::{
    select_bucket_format, timestamp_format, BucketFormat, DAY_SECONDS, GROUP_BY_DAY_LIMIT,
    GROUP_BY_HOUR_LIMIT, GROUP_BY_MONTH_LIMIT, UNGROUPED_LIMIT, YEAR_SECONDS,
};
use env_server::errors::EnvError;

#[test]
fn constants_match_their_derivations() {
    assert_eq!(DAY_SECONDS, 86400);
    assert_eq!(YEAR_SECONDS, 365 * 86400);
    assert_eq!(UNGROUPED_LIMIT, 302400); // 3.5 days
    assert_eq!(GROUP_BY_HOUR_LIMIT, 40 * 86400);
    assert_eq!(GROUP_BY_DAY_LIMIT, 85147200); // 2.7 years
    assert_eq!(GROUP_BY_MONTH_LIMIT, 83 * 365 * 86400);
}

#[test]
fn spans_below_one_second_are_rejected() {
    assert_eq!(select_bucket_format(0), Err(EnvError::Validation));
    assert_eq!(select_bucket_format(-1), Err(EnvError::Validation));
    assert_eq!(select_bucket_format(i64::MIN), Err(EnvError::Validation));
}

#[test]
fn raw_resolution_tier() {
    assert_eq!(select_bucket_format(1), Ok(BucketFormat::Second));
    assert_eq!(select_bucket_format(3600), Ok(BucketFormat::Second));
    assert_eq!(select_bucket_format(302399), Ok(BucketFormat::Second));
    assert_eq!(select_bucket_format(302400), Ok(BucketFormat::Hour));
}

#[test]
fn boundary_exactness_all_tiers() {
    assert_eq!(select_bucket_format(302399), Ok(BucketFormat::Second));
    assert_eq!(select_bucket_format(302400), Ok(BucketFormat::Hour));
    assert_eq!(select_bucket_format(302401), Ok(BucketFormat::Hour));

    assert_eq!(select_bucket_format(3455999), Ok(BucketFormat::Hour));
    assert_eq!(select_bucket_format(3456000), Ok(BucketFormat::Day));
    assert_eq!(select_bucket_format(3456001), Ok(BucketFormat::Day));

    assert_eq!(select_bucket_format(85147199), Ok(BucketFormat::Day));
    assert_eq!(select_bucket_format(85147200), Ok(BucketFormat::Month));
    assert_eq!(select_bucket_format(85147201), Ok(BucketFormat::Month));

    assert_eq!(select_bucket_format(2617487999), Ok(BucketFormat::Month));
    assert_eq!(select_bucket_format(2617488000), Ok(BucketFormat::Year));
    assert_eq!(select_bucket_format(2617488001), Ok(BucketFormat::Year));

    assert_eq!(select_bucket_format(i64::MAX), Ok(BucketFormat::Year));
}

#[test]
fn formats_per_tier() {
    assert_eq!(timestamp_format(BucketFormat::Second), "%Y-%m-%dT%H:%M:%SZ");
    assert_eq!(timestamp_format(BucketFormat::Hour), "%Y-%m-%dT%H:00:00Z");
    assert_eq!(timestamp_format(BucketFormat::Day), "%Y-%m-%dT00:00:00Z");
    assert_eq!(timestamp_format(BucketFormat::Month), "%Y-%m-01T00:00:00Z");
    assert_eq!(timestamp_format(BucketFormat::Year), "%Y-01-01T00:00:00Z");
}
