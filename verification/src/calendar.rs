//! Proleptic Gregorian calendar arithmetic on unix timestamps: splitting an
//! epoch day into a civil date, truncating a timestamp to the start of its
//! hour, day, month or year, and rendering a bucket start as text.
//!
//! Timestamps are handled from the epoch up to the last second of year 9999,
//! the widest range the four-digit-year text form can carry.

use vstd::arithmetic::div_mod::{
    lemma_div_is_ordered, lemma_fundamental_div_mod, lemma_fundamental_div_mod_converse,
};
use vstd::prelude::*;
use vstd::string::StringExecFns;

use crate::bucket::BucketFormat;

verus! {

pub const SECONDS_PER_HOUR: u64 = 3600;

pub const SECONDS_PER_DAY: u64 = 86400;

/// The last supported second: 9999-12-31T23:59:59Z.
pub const MAX_TIMESTAMP: u64 = 253402300799;

/// The epoch day of 9999-12-31.
pub const MAX_EPOCH_DAY: u64 = 2932896;

pub open spec fn spec_is_leap_year(y: int) -> bool {
    y % 4 == 0 && (y % 100 != 0 || y % 400 == 0)
}

pub open spec fn spec_days_in_year(y: int) -> int {
    if spec_is_leap_year(y) {
        366
    } else {
        365
    }
}

pub open spec fn spec_days_in_month(y: int, m: int) -> int {
    if m == 2 {
        if spec_is_leap_year(y) {
            29
        } else {
            28
        }
    } else if m == 4 || m == 6 || m == 9 || m == 11 {
        30
    } else {
        31
    }
}

/// How many leap years lie in `[1, y]`.
pub open spec fn spec_leap_count(y: int) -> int {
    y / 4 - y / 100 + y / 400
}

/// Days from 1970-01-01 to the first day of year `y` (for `y >= 1970`).
pub open spec fn spec_days_to_year(y: int) -> int {
    365 * (y - 1970) + spec_leap_count(y - 1) - spec_leap_count(1969)
}

/// Days from the first of the year to the first of month `m` of year `y`.
pub open spec fn spec_days_to_month(y: int, m: int) -> int
    decreases m,
{
    if m <= 1 {
        0
    } else {
        spec_days_to_month(y, m - 1) + spec_days_in_month(y, m - 1)
    }
}

/// Walks years forward from `y`, consuming whole years out of `rem` days:
/// yields the year that day `rem` (counted from the first day of `y`) falls
/// in, together with the day's index within that year.
pub open spec fn spec_year_of_day(y: int, rem: nat) -> (int, nat)
    decreases rem,
{
    if rem >= spec_days_in_year(y) {
        spec_year_of_day(y + 1, (rem - spec_days_in_year(y)) as nat)
    } else {
        (y, rem)
    }
}

/// Walks months forward from `m` within year `y`: yields the month that day
/// `rem` (counted from the first of month `m`) falls in, together with the
/// day's index within that month.
pub open spec fn spec_month_of_day(y: int, m: int, rem: nat) -> (int, nat)
    decreases 12 - m,
{
    if m < 12 && rem >= spec_days_in_month(y, m) {
        spec_month_of_day(y, m + 1, (rem - spec_days_in_month(y, m)) as nat)
    } else {
        (m, rem)
    }
}

/// The civil date `(year, month, day)` of epoch day `z`.
pub open spec fn spec_civil_from_days(z: nat) -> (int, int, int) {
    let yr = spec_year_of_day(1970, z);
    let mr = spec_month_of_day(yr.0, 1, yr.1);
    (yr.0, mr.0, mr.1 + 1int)
}

proof fn lemma_div_dec(y: int, d: int)
    requires
        d >= 1,
    ensures
        y / d == (y - 1) / d + if y % d == 0 {
            1int
        } else {
            0int
        },
{
    lemma_fundamental_div_mod(y, d);
    let q = y / d;
    let r = y % d;
    if r == 0 {
        assert(y - 1 == (q - 1) * d + (d - 1)) by (nonlinear_arith)
            requires
                y == d * q + r,
                r == 0,
        ;
        lemma_fundamental_div_mod_converse(y - 1, d, q - 1, d - 1);
    } else {
        assert(y - 1 == q * d + (r - 1)) by (nonlinear_arith)
            requires
                y == d * q + r,
        ;
        lemma_fundamental_div_mod_converse(y - 1, d, q, r - 1);
    }
}

proof fn lemma_leap_step(y: int)
    requires
        y >= 1,
    ensures
        spec_leap_count(y) == spec_leap_count(y - 1) + if spec_is_leap_year(y) {
            1int
        } else {
            0int
        },
{
    lemma_div_dec(y, 4);
    lemma_div_dec(y, 100);
    lemma_div_dec(y, 400);
    if y % 400 == 0 {
        lemma_fundamental_div_mod(y, 400);
        assert(y == (4 * (y / 400)) * 100 + 0 && y == (100 * (y / 400)) * 4 + 0)
            by (nonlinear_arith)
            requires
                y == 400 * (y / 400) + 0,
        ;
        lemma_fundamental_div_mod_converse(y, 100, 4 * (y / 400), 0);
        lemma_fundamental_div_mod_converse(y, 4, 100 * (y / 400), 0);
    }
    if y % 100 == 0 {
        lemma_fundamental_div_mod(y, 100);
        assert(y == (25 * (y / 100)) * 4 + 0) by (nonlinear_arith)
            requires
                y == 100 * (y / 100) + 0,
        ;
        lemma_fundamental_div_mod_converse(y, 4, 25 * (y / 100), 0);
    }
}

proof fn lemma_days_to_year_step(y: int)
    requires
        y >= 1970,
    ensures
        spec_days_to_year(y + 1) == spec_days_to_year(y) + spec_days_in_year(y),
{
    lemma_leap_step(y);
}

proof fn lemma_days_to_year_mono(a: int, b: int)
    requires
        1970 <= a <= b,
    ensures
        spec_days_to_year(a) <= spec_days_to_year(b),
    decreases b - a,
{
    if a < b {
        lemma_days_to_year_step(b - 1);
        lemma_days_to_year_mono(a, b - 1);
    }
}

/// The twelve month lengths of a year add up to the year's length.
proof fn lemma_days_in_year_sum(y: int)
    ensures
        spec_days_to_month(y, 12) + spec_days_in_month(y, 12) == spec_days_in_year(y),
{
    reveal_with_fuel(spec_days_to_month, 13);
}

pub fn is_leap_year(y: u64) -> (r: bool)
    ensures
        r == spec_is_leap_year(y as int),
{
    y % 4 == 0 && (y % 100 != 0 || y % 400 == 0)
}

pub fn days_in_year(y: u64) -> (r: u64)
    ensures
        r as int == spec_days_in_year(y as int),
{
    if is_leap_year(y) {
        366
    } else {
        365
    }
}

pub fn days_in_month(y: u64, m: u64) -> (r: u64)
    ensures
        r as int == spec_days_in_month(y as int, m as int),
{
    if m == 2 {
        if is_leap_year(y) {
            29
        } else {
            28
        }
    } else if m == 4 || m == 6 || m == 9 || m == 11 {
        30
    } else {
        31
    }
}

/// Splits epoch day `z` into its year and its day index within that year.
pub fn year_of_day(z: u64) -> (r: (u64, u64))
    requires
        z <= MAX_EPOCH_DAY,
    ensures
        r.0 as int == spec_year_of_day(1970, z as nat).0,
        r.1 as nat == spec_year_of_day(1970, z as nat).1,
        1970 <= r.0 <= 9999,
        r.1 <= z,
        (r.1 as int) < spec_days_in_year(r.0 as int),
{
    let mut year: u64 = 1970;
    let mut rem: u64 = z;
    let mut diy = days_in_year(year);
    while rem >= diy
        invariant
            1970 <= year <= 9999,
            rem <= z <= MAX_EPOCH_DAY,
            diy as int == spec_days_in_year(year as int),
            spec_year_of_day(year as int, rem as nat) == spec_year_of_day(1970, z as nat),
            rem as int == z - spec_days_to_year(year as int),
        decreases rem,
    {
        proof {
            lemma_days_to_year_step(year as int);
            if year + 1 >= 10000 {
                lemma_days_to_year_mono(10000, year as int + 1);
                assert(spec_days_to_year(10000) == 2932897);
                assert(false);
            }
        }
        rem = rem - diy;
        year = year + 1;
        diy = days_in_year(year);
    }
    (year, rem)
}

/// Splits a day index within year `year` into its month and its day index
/// within that month.
pub fn month_of_day(year: u64, rem: u64) -> (r: (u64, u64))
    requires
        (rem as int) < spec_days_in_year(year as int),
    ensures
        r.0 as int == spec_month_of_day(year as int, 1, rem as nat).0,
        r.1 as nat == spec_month_of_day(year as int, 1, rem as nat).1,
        1 <= r.0 <= 12,
        r.1 <= rem,
        (r.1 as int) < spec_days_in_month(year as int, r.0 as int),
{
    let mut m: u64 = 1;
    let mut rem2: u64 = rem;
    let mut dim = days_in_month(year, m);
    while m < 12 && rem2 >= dim
        invariant
            1 <= m <= 12,
            rem2 <= rem,
            dim as int == spec_days_in_month(year as int, m as int),
            spec_month_of_day(year as int, m as int, rem2 as nat) == spec_month_of_day(
                year as int,
                1,
                rem as nat,
            ),
            rem2 as int == rem - spec_days_to_month(year as int, m as int),
            (rem as int) < spec_days_in_year(year as int),
        decreases 12 - m,
    {
        rem2 = rem2 - dim;
        m = m + 1;
        dim = days_in_month(year, m);
    }
    proof {
        if rem2 >= dim {
            lemma_days_in_year_sum(year as int);
            assert(false);
        }
    }
    (m, rem2)
}

/// The civil date of epoch day `z`: year, month and day of month, each
/// one-based as usually written.
pub fn civil_from_days(z: u64) -> (r: (u64, u64, u64))
    requires
        z <= MAX_EPOCH_DAY,
    ensures
        r.0 as int == spec_civil_from_days(z as nat).0,
        r.1 as int == spec_civil_from_days(z as nat).1,
        r.2 as int == spec_civil_from_days(z as nat).2,
        1970 <= r.0 <= 9999,
        1 <= r.1 <= 12,
        1 <= r.2 <= 31,
        r.2 as int <= spec_days_in_month(r.0 as int, r.1 as int),
        r.2 - 1 <= z,
{
    let (year, doy) = year_of_day(z);
    let (month, dom) = month_of_day(year, doy);
    (year, month, dom + 1)
}

/// The start of the bucket that second `ts` falls in, at the given
/// granularity: `ts` itself for `Second`, the enclosing hour or day by plain
/// remainder arithmetic, and the first second of the enclosing civil month
/// or year otherwise.
pub open spec fn spec_truncate_timestamp(ts: int, format: BucketFormat) -> int {
    match format {
        BucketFormat::Second => ts,
        BucketFormat::Hour => ts - ts % (SECONDS_PER_HOUR as int),
        BucketFormat::Day => ts - ts % (SECONDS_PER_DAY as int),
        BucketFormat::Month => {
            let z = ts / (SECONDS_PER_DAY as int);
            (z - (spec_civil_from_days(z as nat).2 - 1)) * (SECONDS_PER_DAY as int)
        },
        BucketFormat::Year => {
            let z = ts / (SECONDS_PER_DAY as int);
            (z - spec_year_of_day(1970, z as nat).1) * (SECONDS_PER_DAY as int)
        },
    }
}

/// Two timestamps fall in the same hour bucket exactly when they lie in the
/// same hour: hourly grouping yields one bucket per hour that has readings.
pub proof fn lemma_hour_bucket(a: int, b: int)
    ensures
        spec_truncate_timestamp(a, BucketFormat::Hour) == spec_truncate_timestamp(
            b,
            BucketFormat::Hour,
        ) <==> a / (SECONDS_PER_HOUR as int) == b / (SECONDS_PER_HOUR as int),
{
    lemma_fundamental_div_mod(a, SECONDS_PER_HOUR as int);
    lemma_fundamental_div_mod(b, SECONDS_PER_HOUR as int);
}

/// Truncates a timestamp to the start of its bucket.
pub fn truncate_timestamp(ts: u64, format: BucketFormat) -> (r: u64)
    requires
        ts <= MAX_TIMESTAMP,
    ensures
        r as int == spec_truncate_timestamp(ts as int, format),
        r <= ts,
{
    match format {
        BucketFormat::Second => ts,
        BucketFormat::Hour => ts - ts % SECONDS_PER_HOUR,
        BucketFormat::Day => ts - ts % SECONDS_PER_DAY,
        BucketFormat::Month => {
            let z = ts / SECONDS_PER_DAY;
            proof {
                lemma_div_is_ordered(ts as int, MAX_TIMESTAMP as int, SECONDS_PER_DAY as int);
                lemma_fundamental_div_mod(ts as int, SECONDS_PER_DAY as int);
            }
            let (year, month, day) = civil_from_days(z);
            (z - (day - 1)) * SECONDS_PER_DAY
        },
        BucketFormat::Year => {
            let z = ts / SECONDS_PER_DAY;
            proof {
                lemma_div_is_ordered(ts as int, MAX_TIMESTAMP as int, SECONDS_PER_DAY as int);
                lemma_fundamental_div_mod(ts as int, SECONDS_PER_DAY as int);
            }
            let (year, doy) = year_of_day(z);
            (z - doy) * SECONDS_PER_DAY
        },
    }
}

pub open spec fn spec_digit(d: int) -> char {
    if d == 0 {
        '0'
    } else if d == 1 {
        '1'
    } else if d == 2 {
        '2'
    } else if d == 3 {
        '3'
    } else if d == 4 {
        '4'
    } else if d == 5 {
        '5'
    } else if d == 6 {
        '6'
    } else if d == 7 {
        '7'
    } else if d == 8 {
        '8'
    } else {
        '9'
    }
}

/// Two decimal digits, zero padded, of `n < 100`.
pub open spec fn spec_dec2(n: int) -> Seq<char> {
    seq![spec_digit(n / 10), spec_digit(n % 10)]
}

/// Four decimal digits, zero padded, of `n < 10000`.
pub open spec fn spec_dec4(n: int) -> Seq<char> {
    seq![spec_digit(n / 1000), spec_digit(n / 100 % 10), spec_digit(n / 10 % 10), spec_digit(n % 10)]
}

/// The text form of a timestamp: year, month, day, hour, minute and second,
/// zero padded, as `%Y-%m-%dT%H:%M:%SZ` renders them.
pub open spec fn spec_format_timestamp(ts: int) -> Seq<char> {
    let z = ts / (SECONDS_PER_DAY as int);
    let c = spec_civil_from_days(z as nat);
    let secs = ts % (SECONDS_PER_DAY as int);
    spec_dec4(c.0) + seq!['-'] + spec_dec2(c.1) + seq!['-'] + spec_dec2(c.2) + seq!['T'] + spec_dec2(
        secs / (SECONDS_PER_HOUR as int),
    ) + seq![':'] + spec_dec2(secs % (SECONDS_PER_HOUR as int) / 60) + seq![':'] + spec_dec2(
        secs % 60,
    ) + seq!['Z']
}

fn digit_str(d: u64) -> (r: &'static str)
    requires
        d < 10,
    ensures
        r@ == seq![spec_digit(d as int)],
{
    let r: &'static str = if d == 0 {
        "0"
    } else if d == 1 {
        "1"
    } else if d == 2 {
        "2"
    } else if d == 3 {
        "3"
    } else if d == 4 {
        "4"
    } else if d == 5 {
        "5"
    } else if d == 6 {
        "6"
    } else if d == 7 {
        "7"
    } else if d == 8 {
        "8"
    } else {
        "9"
    };
    proof {
        reveal_strlit("0");
        reveal_strlit("1");
        reveal_strlit("2");
        reveal_strlit("3");
        reveal_strlit("4");
        reveal_strlit("5");
        reveal_strlit("6");
        reveal_strlit("7");
        reveal_strlit("8");
        reveal_strlit("9");
        assert(r@ =~= seq![spec_digit(d as int)]);
    }
    r
}

fn push_dec2(s: &mut String, n: u64)
    requires
        n < 100,
    ensures
        final(s)@ == old(s)@ + spec_dec2(n as int),
{
    s.append(digit_str(n / 10));
    s.append(digit_str(n % 10));
    proof {
        assert(final(s)@ =~= old(s)@ + spec_dec2(n as int));
    }
}

fn push_dec4(s: &mut String, n: u64)
    requires
        n < 10000,
    ensures
        final(s)@ == old(s)@ + spec_dec4(n as int),
{
    s.append(digit_str(n / 1000));
    s.append(digit_str(n / 100 % 10));
    s.append(digit_str(n / 10 % 10));
    s.append(digit_str(n % 10));
    proof {
        assert(final(s)@ =~= old(s)@ + spec_dec4(n as int));
    }
}

/// Renders a timestamp as `%Y-%m-%dT%H:%M:%SZ` does: applied to a bucket
/// start, this yields the bucket's label at every granularity, since the
/// truncated-away fields are zero.
pub fn format_timestamp(ts: u64) -> (r: String)
    requires
        ts <= MAX_TIMESTAMP,
    ensures
        r@ == spec_format_timestamp(ts as int),
{
    let z = ts / SECONDS_PER_DAY;
    let secs = ts % SECONDS_PER_DAY;
    proof {
        lemma_div_is_ordered(ts as int, MAX_TIMESTAMP as int, SECONDS_PER_DAY as int);
    }
    let (year, month, day) = civil_from_days(z);
    let mut s = String::new();
    push_dec4(&mut s, year);
    s.append("-");
    push_dec2(&mut s, month);
    s.append("-");
    push_dec2(&mut s, day);
    s.append("T");
    push_dec2(&mut s, secs / SECONDS_PER_HOUR);
    s.append(":");
    push_dec2(&mut s, secs % SECONDS_PER_HOUR / 60);
    s.append(":");
    push_dec2(&mut s, secs % 60);
    s.append("Z");
    proof {
        reveal_strlit("-");
        reveal_strlit("T");
        reveal_strlit(":");
        reveal_strlit("Z");
        assert(s@ =~= spec_format_timestamp(ts as int));
    }
    s
}

} // verus!
