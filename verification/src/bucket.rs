//! Adaptive resolution selection: maps the width of a query interval to one
//! of five time-bucket granularities, so that the number of returned rows
//! stays roughly bounded however wide the interval is.

use vstd::prelude::*;

use crate::errors::EnvError;

verus! {

/// One day, in seconds.
pub const DAY_SECONDS: i64 = 86400;

/// One (non-leap) year, in seconds.
pub const YEAR_SECONDS: i64 = 365 * DAY_SECONDS;

/// Spans strictly below this (3.5 days) are served at raw resolution:
/// a sample every 5 minutes keeps such a span under ~1000 rows.
pub const UNGROUPED_LIMIT: i64 = 302400;

/// Spans strictly below this (40 days) are grouped by hour.
pub const GROUP_BY_HOUR_LIMIT: i64 = 40 * DAY_SECONDS;

/// Spans strictly below this (2.7 years) are grouped by day.
pub const GROUP_BY_DAY_LIMIT: i64 = 85147200;

/// Spans strictly below this (83 years, ~1000 months) are grouped by month;
/// anything at or above it is grouped by year.
pub const GROUP_BY_MONTH_LIMIT: i64 = 83 * YEAR_SECONDS;

/// The closed set of truncation granularities a query can be grouped by.
/// `Second` means no truncation at all: raw resolution.
#[derive(Clone, Copy, Debug, PartialEq, Eq, Structural)]
pub enum BucketFormat {
    Second,
    Hour,
    Day,
    Month,
    Year,
}

/// The granularity chosen for a span of `span_seconds` seconds: the first
/// tier, in ascending order, whose exclusive upper bound exceeds the span.
/// Meaningful for `span_seconds >= 1`.
pub open spec fn bucket_format_for(span_seconds: int) -> BucketFormat {
    if span_seconds < UNGROUPED_LIMIT {
        BucketFormat::Second
    } else if span_seconds < GROUP_BY_HOUR_LIMIT {
        BucketFormat::Hour
    } else if span_seconds < GROUP_BY_DAY_LIMIT {
        BucketFormat::Day
    } else if span_seconds < GROUP_BY_MONTH_LIMIT {
        BucketFormat::Month
    } else {
        BucketFormat::Year
    }
}

/// Picks the bucket granularity for a requested span of seconds.
///
/// A span below one second is invalid and is rejected; every valid span
/// falls in exactly one of the five half-open tiers.
pub fn select_bucket_format(span_seconds: i64) -> (r: Result<BucketFormat, EnvError>)
    ensures
        span_seconds < 1 ==> r == Err::<BucketFormat, EnvError>(EnvError::Validation),
        span_seconds >= 1 ==> r == Ok::<BucketFormat, EnvError>(
            bucket_format_for(span_seconds as int),
        ),
{
    if span_seconds < 1 {
        Err(EnvError::Validation)
    } else if span_seconds < UNGROUPED_LIMIT {
        Ok(BucketFormat::Second)
    } else if span_seconds < GROUP_BY_HOUR_LIMIT {
        Ok(BucketFormat::Hour)
    } else if span_seconds < GROUP_BY_DAY_LIMIT {
        Ok(BucketFormat::Day)
    } else if span_seconds < GROUP_BY_MONTH_LIMIT {
        Ok(BucketFormat::Month)
    } else {
        Ok(BucketFormat::Year)
    }
}

/// The `strftime`-style timestamp format that renders a bucket start at the
/// given granularity, as handed to the grouped-average SQL statement.
pub fn timestamp_format(format: BucketFormat) -> (r: &'static str)
    ensures
        format == BucketFormat::Second ==> r@ == "%Y-%m-%dT%H:%M:%SZ"@,
        format == BucketFormat::Hour ==> r@ == "%Y-%m-%dT%H:00:00Z"@,
        format == BucketFormat::Day ==> r@ == "%Y-%m-%dT00:00:00Z"@,
        format == BucketFormat::Month ==> r@ == "%Y-%m-01T00:00:00Z"@,
        format == BucketFormat::Year ==> r@ == "%Y-01-01T00:00:00Z"@,
{
    match format {
        BucketFormat::Second => "%Y-%m-%dT%H:%M:%SZ",
        BucketFormat::Hour => "%Y-%m-%dT%H:00:00Z",
        BucketFormat::Day => "%Y-%m-%dT00:00:00Z",
        BucketFormat::Month => "%Y-%m-01T00:00:00Z",
        BucketFormat::Year => "%Y-01-01T00:00:00Z",
    }
}

} // verus!
