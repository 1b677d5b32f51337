//! The parameterized SQL statements the service issues against its
//! relational store, and the builder for the grouped-average select.

use vstd::prelude::*;
use vstd::string::StringExecFns;

verus! {

pub const INSERT_LOCATION_SQL: &'static str = "INSERT INTO locations(name) VALUES (?);";

pub const INSERT_SENSOR_SQL: &'static str = "INSERT INTO sensors(name) VALUES (?);";

pub const INSERT_DATA_SQL: &'static str =
    "INSERT INTO data(timestamp, location, sensor, value) VALUES (?, ?, ?, ?);";

pub const ID_FROM_LOCATION_SQL: &'static str = "SELECT id FROM locations WHERE name = ?;";

pub const ID_FROM_SENSOR_SQL: &'static str = "SELECT id FROM sensors WHERE name = ?;";

/// Text of the grouped-average select up to the timestamp format.
pub const SELECT_DATA_PREFIX: &'static str = "
        SELECT
            strftime('";

/// Text of the grouped-average select after the timestamp format.
pub const SELECT_DATA_SUFFIX: &'static str = "', timestamp, 'unixepoch') AS ts,
            AVG(value) AS value
        FROM
            data
        WHERE
            timestamp BETWEEN ? AND ? AND sensor = ? AND location = ?
        GROUP BY
            ts
        ORDER BY
            ts;
    ";

/// Builds the grouped-average select for one timestamp format.
///
/// Truncating every row's timestamp to the given format and grouping by the
/// truncated text is what buckets the readings: a full to-the-second format
/// yields single-row groups, i.e. raw resolution.
pub fn select_data_sql(timestamp_format: &str) -> (r: String)
    ensures
        r@ == SELECT_DATA_PREFIX@ + timestamp_format@ + SELECT_DATA_SUFFIX@,
{
    let mut s = SELECT_DATA_PREFIX.to_owned();
    s.append(timestamp_format);
    s.append(SELECT_DATA_SUFFIX);
    s
}

} // verus!
