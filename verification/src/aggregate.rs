//! The shape of a query's result: matching readings grouped into buckets by
//! truncated timestamp, one row per non-empty bucket, rows in ascending
//! bucket order, each row carrying its contributing values in write order.

use vstd::prelude::*;

use crate::bucket::BucketFormat;
use crate::calendar::{spec_format_timestamp, spec_truncate_timestamp};
use crate::store::Reading;

verus! {

/// A reading the query matches: right location, right sensor, timestamp
/// within the closed `[from, to]` interval.
pub open spec fn spec_matches(r: Reading, lid: int, sid: int, from: int, to: int) -> bool {
    r.location_id == lid && r.sensor_id == sid && from <= r.timestamp <= to
}

/// One returned row: a bucket start (as unix second, and rendered as text)
/// and the bit patterns of the values that fall in the bucket, in write
/// order. The caller averages them; the store never computes on values.
#[derive(Clone, Debug, PartialEq, Eq)]
pub struct BucketRow {
    pub ts: String,
    pub bucket: u64,
    pub values: Vec<u32>,
}

/// Ghost image of one row: bucket start and contributing values.
pub open spec fn spec_row_model(row: BucketRow) -> (int, Seq<u32>) {
    (row.bucket as int, row.values@)
}

pub open spec fn spec_rows_model(rows: Seq<BucketRow>) -> Seq<(int, Seq<u32>)> {
    rows.map_values(|row: BucketRow| spec_row_model(row))
}

/// Bucket starts strictly ascend.
pub open spec fn spec_sorted(rows: Seq<(int, Seq<u32>)>) -> bool {
    forall|i: int, j: int|
        #![trigger rows[i], rows[j]]
        0 <= i < j < rows.len() ==> rows[i].0 < rows[j].0
}

/// Some row carries bucket `b`.
pub open spec fn spec_has_bucket(rows: Seq<(int, Seq<u32>)>, b: int) -> bool {
    exists|i: int| 0 <= i < rows.len() && (#[trigger] rows[i]).0 == b
}

/// The values that bucket `b` collects from the readings `rs`: the value of
/// every matching reading whose truncated timestamp is `b`, in write order.
pub open spec fn spec_bucket_values(
    rs: Seq<Reading>,
    lid: int,
    sid: int,
    from: int,
    to: int,
    format: BucketFormat,
    b: int,
) -> Seq<u32>
    decreases rs.len(),
{
    if rs.len() == 0 {
        Seq::empty()
    } else {
        let prev = spec_bucket_values(rs.drop_last(), lid, sid, from, to, format, b);
        let r = rs.last();
        if spec_matches(r, lid, sid, from, to) && spec_truncate_timestamp(
            r.timestamp as int,
            format,
        ) == b {
            prev.push(r.value_bits)
        } else {
            prev
        }
    }
}

/// What the query returns on success: the rows are sorted by bucket, there
/// is a row exactly for each bucket that collects at least one value, each
/// row carries exactly its bucket's values, and each row's text is its
/// bucket start rendered as a timestamp.
pub open spec fn spec_query_ok(
    rows: Seq<BucketRow>,
    rs: Seq<Reading>,
    lid: int,
    sid: int,
    from: int,
    to: int,
    format: BucketFormat,
) -> bool {
    let model = spec_rows_model(rows);
    &&& spec_sorted(model)
    &&& forall|c: int|
        spec_has_bucket(model, c) <==> spec_bucket_values(rs, lid, sid, from, to, format, c).len()
            > 0
    &&& forall|j: int|
        0 <= j < model.len() ==> (#[trigger] model[j]).1 == spec_bucket_values(
            rs,
            lid,
            sid,
            from,
            to,
            format,
            model[j].0,
        )
    &&& forall|j: int|
        0 <= j < rows.len() ==> (#[trigger] rows[j]).ts@ == spec_format_timestamp(
            spec_row_model(rows[j]).0,
        )
}

} // verus!
