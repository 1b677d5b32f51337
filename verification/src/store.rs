//! The store of readings: an append-only table of normalized samples keyed
//! by resolved location and sensor identifiers, with the two dictionaries
//! that resolve names. No two readings share a
//! `(timestamp, sensor, location)` triple; a write that would violate that
//! reports a duplicate and appends nothing.

use vstd::prelude::*;

use crate::aggregate::{
    spec_bucket_values, spec_has_bucket, spec_matches, spec_query_ok, spec_row_model,
    spec_rows_model, spec_sorted, BucketRow,
};
use crate::bucket::{bucket_format_for, select_bucket_format, BucketFormat, GROUP_BY_MONTH_LIMIT};
use crate::calendar::{
    format_timestamp, spec_format_timestamp, truncate_timestamp, MAX_TIMESTAMP,
};
use crate::dictionary::{spec_id_of, spec_register, Dictionary};
use crate::errors::EnvError;

verus! {

/// One normalized sample. The value is carried as the bit pattern of the
/// 32-bit float that was measured: the store never computes on it, so it
/// stays exact and comparable.
#[derive(Clone, Copy, Debug, PartialEq, Eq, Structural)]
pub struct Reading {
    pub timestamp: u64,
    pub location_id: i64,
    pub sensor_id: i64,
    pub value_bits: u32,
}

/// A reading references existing dictionary rows and carries a
/// representable timestamp.
pub open spec fn spec_wf_reading(r: Reading, nloc: int, nsens: int) -> bool {
    &&& 1 <= r.location_id <= nloc
    &&& 1 <= r.sensor_id <= nsens
    &&& r.timestamp <= MAX_TIMESTAMP
}

/// Some reading in `rs` carries exactly this `(timestamp, location, sensor)`
/// triple.
pub open spec fn spec_has_triple(rs: Seq<Reading>, ts: int, lid: int, sid: int) -> bool {
    exists|i: int|
        0 <= i < rs.len() && (#[trigger] rs[i]).timestamp == ts && rs[i].location_id == lid
            && rs[i].sensor_id == sid
}

/// No two readings share a triple.
pub open spec fn spec_unique_triples(rs: Seq<Reading>) -> bool {
    forall|i: int, j: int|
        0 <= i < j < rs.len() ==> !((#[trigger] rs[i]).timestamp == (#[trigger] rs[j]).timestamp
            && rs[i].location_id == rs[j].location_id && rs[i].sensor_id == rs[j].sensor_id)
}

/// After a reading is appended its triple is present, so a second write of
/// the same `(timestamp, location, sensor)` must observe the duplicate
/// outcome: exactly one row per triple ever persists.
pub proof fn lemma_duplicate_write_conflicts(rs: Seq<Reading>, r: Reading)
    ensures
        spec_has_triple(rs.push(r), r.timestamp as int, r.location_id as int, r.sensor_id as int),
{
    assert(rs.push(r)[rs.len() as int] == r);
}


/// Sorts one matching reading into the result rows: its value is appended
/// to the row of its bucket, or a new singleton row is created at the
/// ascending position. `rs` is the prefix of readings processed so far,
/// this one included as its last element.
#[verifier::loop_isolation(false)]
#[verifier::rlimit(100)]
fn sort_in_reading(
    rows: &mut Vec<BucketRow>,
    rd: Reading,
    format: BucketFormat,
    Ghost(rs): Ghost<Seq<Reading>>,
    Ghost(glid): Ghost<int>,
    Ghost(gsid): Ghost<int>,
    Ghost(gfrom): Ghost<int>,
    Ghost(gto): Ghost<int>,
)
    requires
        rd.timestamp <= MAX_TIMESTAMP,
        rs.len() > 0,
        rs.last() == rd,
        spec_matches(rd, glid, gsid, gfrom, gto),
        spec_sorted(spec_rows_model(old(rows)@)),
        forall|c: int|
            spec_has_bucket(spec_rows_model(old(rows)@), c) <==> spec_bucket_values(
                rs.drop_last(),
                glid,
                gsid,
                gfrom,
                gto,
                format,
                c,
            ).len() > 0,
        forall|j: int|
            0 <= j < old(rows)@.len() ==> (#[trigger] spec_rows_model(old(rows)@)[j]).1
                == spec_bucket_values(
                rs.drop_last(),
                glid,
                gsid,
                gfrom,
                gto,
                format,
                spec_rows_model(old(rows)@)[j].0,
            ),
        forall|j: int|
            0 <= j < old(rows)@.len() ==> (#[trigger] old(rows)@[j]).ts@ == spec_format_timestamp(
                spec_row_model(old(rows)@[j]).0,
            ),
        forall|j: int| 0 <= j < old(rows)@.len() ==> (#[trigger] old(rows)@[j]).bucket <= MAX_TIMESTAMP,
    ensures
        spec_sorted(spec_rows_model(final(rows)@)),
        forall|c: int|
            spec_has_bucket(spec_rows_model(final(rows)@), c) <==> spec_bucket_values(
                rs,
                glid,
                gsid,
                gfrom,
                gto,
                format,
                c,
            ).len() > 0,
        forall|j: int|
            0 <= j < final(rows)@.len() ==> (#[trigger] spec_rows_model(final(rows)@)[j]).1
                == spec_bucket_values(
                rs,
                glid,
                gsid,
                gfrom,
                gto,
                format,
                spec_rows_model(final(rows)@)[j].0,
            ),
        forall|j: int|
            0 <= j < final(rows)@.len() ==> (#[trigger] final(rows)@[j]).ts@
                == spec_format_timestamp(spec_row_model(final(rows)@[j]).0),
        forall|j: int| 0 <= j < final(rows)@.len() ==> (#[trigger] final(rows)@[j]).bucket <= MAX_TIMESTAMP,
{
    let ghost prefix = rs.drop_last();
    let ghost prefix1 = rs;
    proof {
        assert(prefix1.drop_last() =~= prefix);
        assert(prefix1.last() == rd);
    }
    let b = truncate_timestamp(rd.timestamp, format);
    let label = format_timestamp(b);
    let m = rows.len();
    let mut pos: usize = 0;
    while pos < m && rows[pos].bucket < b
        invariant
            pos <= m,
            m == rows@.len(),
            forall|i: int|
                0 <= i < pos ==> (#[trigger] spec_rows_model(rows@)[i]).0 < b as int,
        decreases m - pos,
    {
        pos = pos + 1;
    }
    let ghost rows0 = rows@;
    let ghost model0 = spec_rows_model(rows0);
    if pos < m && rows[pos].bucket == b {
        let mut row = rows.remove(pos);
        row.values.push(rd.value_bits);
        let ghost rowsnap = row;
        rows.insert(pos, row);
        proof {
            let model1 = spec_rows_model(rows@);
            assert(rows@ =~= rows0.update(pos as int, rowsnap));
            assert(rowsnap.bucket == b && rowsnap.ts == rows0[pos as int].ts);
            assert(rowsnap.values@ == rows0[pos as int].values@.push(rd.value_bits));
            assert(model1 =~= model0.update(
                pos as int,
                (b as int, model0[pos as int].1.push(rd.value_bits)),
            ));
            assert forall|x: int| 0 <= x < model1.len() implies (
            #[trigger] model1[x]).0 == model0[x].0 by {}
            assert(spec_sorted(model1));
            assert forall|x: int|
                0 <= x < model1.len() && x != pos implies (#[trigger] model1[x]).0 != b
                as int by {
                if x < pos {
                    assert(model0[x].0 < model0[pos as int].0);
                } else {
                    assert(model0[pos as int].0 < model0[x].0);
                }
            }
            assert forall|c: int|
                spec_has_bucket(model1, c) <==> spec_has_bucket(model0, c) by {
                if spec_has_bucket(model1, c) {
                    let w = choose|i: int|
                        0 <= i < model1.len() && (#[trigger] model1[i]).0 == c;
                    assert(model0[w].0 == c);
                }
                if spec_has_bucket(model0, c) {
                    let w = choose|i: int|
                        0 <= i < model0.len() && (#[trigger] model0[i]).0 == c;
                    assert(model1[w].0 == c);
                }
            }
            assert forall|c: int|
                spec_has_bucket(model1, c) <==> spec_bucket_values(
                    prefix1,
                    glid,
                    gsid,
                    gfrom,
                    gto,
                    format,
                    c,
                ).len() > 0 by {
                if c == b as int {
                    assert(model1[pos as int].0 == c);
                }
            }
            assert forall|j: int| 0 <= j < model1.len() implies (
            #[trigger] model1[j]).1 == spec_bucket_values(
                prefix1,
                glid,
                gsid,
                gfrom,
                gto,
                format,
                model1[j].0,
            ) by {
                if j == pos {
                    assert(model0[j].1 == spec_bucket_values(
                        prefix,
                        glid,
                        gsid,
                        gfrom,
                        gto,
                        format,
                        b as int,
                    ));
                } else {
                    assert(model1[j] == model0[j]);
                    assert(model1[j].0 != b as int);
                }
            }
        }
    } else {
        proof {
            assert forall|i: int| 0 <= i < model0.len() implies (
            #[trigger] model0[i]).0 != b as int by {
                if i < pos {
                } else if i == pos {
                } else {
                    assert(model0[pos as int].0 < model0[i].0);
                }
            }
            assert(!spec_has_bucket(model0, b as int));
            assert(spec_bucket_values(prefix, glid, gsid, gfrom, gto, format, b as int)
                =~= Seq::<u32>::empty());
        }
        let mut vals: Vec<u32> = Vec::new();
        vals.push(rd.value_bits);
        let row = BucketRow { ts: label, bucket: b, values: vals };
        rows.insert(pos, row);
        proof {
            let model1 = spec_rows_model(rows@);
            assert(model1 =~= model0.insert(pos as int, (b as int, seq![rd.value_bits])));
            assert forall|i: int, j: int|
                0 <= i < j < model1.len() implies model1[i].0 < model1[j].0 by {
                if j < pos {
                } else if i >= pos + 1 {
                    assert(model1[i] == model0[i - 1] && model1[j] == model0[j - 1]);
                } else if j == pos {
                    assert(model1[i] == model0[i]);
                } else if i == pos {
                    assert(model1[j] == model0[j - 1]);
                    assert(model0[pos as int].0 <= model0[j - 1].0);
                } else {
                    assert(model1[i] == model0[i] && model1[j] == model0[j - 1]);
                    assert(model0[i].0 < model0[j - 1].0);
                }
            }
            assert(spec_sorted(model1));
            assert forall|c: int|
                spec_has_bucket(model1, c) <==> spec_bucket_values(
                    prefix1,
                    glid,
                    gsid,
                    gfrom,
                    gto,
                    format,
                    c,
                ).len() > 0 by {
                if c == b as int {
                    assert(model1[pos as int].0 == c);
                } else {
                    if spec_has_bucket(model1, c) {
                        let w = choose|i: int|
                            0 <= i < model1.len() && (#[trigger] model1[i]).0 == c;
                        if w < pos {
                            assert(model0[w].0 == c);
                        } else {
                            assert(model0[w - 1].0 == c);
                        }
                    }
                    if spec_has_bucket(model0, c) {
                        let w = choose|i: int|
                            0 <= i < model0.len() && (#[trigger] model0[i]).0 == c;
                        if w < pos {
                            assert(model1[w].0 == c);
                        } else {
                            assert(model1[w + 1].0 == c);
                        }
                    }
                }
            }
            assert forall|j: int| 0 <= j < model1.len() implies (
            #[trigger] model1[j]).1 == spec_bucket_values(
                prefix1,
                glid,
                gsid,
                gfrom,
                gto,
                format,
                model1[j].0,
            ) by {
                if j < pos {
                    assert(model1[j] == model0[j]);
                    assert(model1[j].0 != b as int);
                } else if j == pos {
                    assert(model1[j].1 =~= spec_bucket_values(
                        prefix,
                        glid,
                        gsid,
                        gfrom,
                        gto,
                        format,
                        b as int,
                    ).push(rd.value_bits));
                } else {
                    assert(model1[j] == model0[j - 1]);
                    assert(model1[j].0 != b as int);
                }
            }
        }
    }
}

/// The relational store: two dictionaries and the append-only readings.
pub struct Store {
    pub locations: Dictionary,
    pub sensors: Dictionary,
    pub readings: Vec<Reading>,
}

impl Store {
    /// Dictionaries are duplicate-free and of identifier-assignable size,
    /// every reading references existing rows, and no triple repeats.
    pub open spec fn wf(&self) -> bool {
        &&& self.locations.wf()
        &&& self.sensors.wf()
        &&& self.locations@.len() < 0x7fff_ffff_ffff_ffff
        &&& self.sensors@.len() < 0x7fff_ffff_ffff_ffff
        &&& forall|i: int|
            0 <= i < self.readings@.len() ==> spec_wf_reading(
                #[trigger] self.readings@[i],
                self.locations@.len() as int,
                self.sensors@.len() as int,
            )
        &&& spec_unique_triples(self.readings@)
    }

    pub fn new() -> (r: Store)
        ensures
            r.wf(),
            r.locations@ == Seq::<Seq<char>>::empty(),
            r.sensors@ == Seq::<Seq<char>>::empty(),
            r.readings@ == Seq::<Reading>::empty(),
    {
        let s = Store { locations: Dictionary::new(), sensors: Dictionary::new(), readings: Vec::new() };
        proof {
            assert(s.readings@ =~= Seq::<Reading>::empty());
        }
        s
    }

    /// Registers a location name: one new row on first use, a tolerated
    /// no-op success when the name already exists. Returns the identifier.
    pub fn register_location(&mut self, name: &str) -> (id: i64)
        requires
            old(self).wf(),
            old(self).locations@.len() + 1 < 0x7fff_ffff_ffff_ffff,
        ensures
            final(self).wf(),
            final(self).locations@ == spec_register(old(self).locations@, name@),
            final(self).sensors@ == old(self).sensors@,
            final(self).readings@ == old(self).readings@,
            id == spec_id_of(final(self).locations@, name@),
            1 <= id <= final(self).locations@.len(),
            final(self).locations@[id - 1] == name@,
    {
        self.locations.register(name)
    }

    /// Registers a sensor name, with the same idempotent outcome as
    /// `register_location`.
    pub fn register_sensor(&mut self, name: &str) -> (id: i64)
        requires
            old(self).wf(),
            old(self).sensors@.len() + 1 < 0x7fff_ffff_ffff_ffff,
        ensures
            final(self).wf(),
            final(self).sensors@ == spec_register(old(self).sensors@, name@),
            final(self).locations@ == old(self).locations@,
            final(self).readings@ == old(self).readings@,
            id == spec_id_of(final(self).sensors@, name@),
            1 <= id <= final(self).sensors@.len(),
            final(self).sensors@[id - 1] == name@,
    {
        self.sensors.register(name)
    }

    /// Resolves a location name to its identifier; an unknown name yields
    /// `NotFound` and, the receiver being shared, registers nothing.
    pub fn resolve_location(&self, name: &str) -> (r: Result<i64, EnvError>)
        requires
            self.wf(),
        ensures
            r is Ok <==> self.locations@.contains(name@),
            r matches Ok(id) ==> id == spec_id_of(self.locations@, name@) && 1 <= id
                <= self.locations@.len(),
            r is Err ==> r == Err::<i64, EnvError>(EnvError::NotFound),
    {
        self.locations.resolve(name)
    }

    /// Resolves a sensor name, as `resolve_location` does.
    pub fn resolve_sensor(&self, name: &str) -> (r: Result<i64, EnvError>)
        requires
            self.wf(),
        ensures
            r is Ok <==> self.sensors@.contains(name@),
            r matches Ok(id) ==> id == spec_id_of(self.sensors@, name@) && 1 <= id
                <= self.sensors@.len(),
            r is Err ==> r == Err::<i64, EnvError>(EnvError::NotFound),
    {
        self.sensors.resolve(name)
    }

    /// Appends one reading. The timestamp must be representable; both names
    /// must already be registered (an unknown name fails the write, it never
    /// auto-registers); a duplicate `(timestamp, location, sensor)` triple is
    /// a distinguishable `Conflict` that appends nothing.
    #[verifier::loop_isolation(false)]
    pub fn write_reading(
        &mut self,
        location: &str,
        sensor: &str,
        timestamp: i64,
        value_bits: u32,
    ) -> (r: Result<(), EnvError>)
        requires
            old(self).wf(),
        ensures
            final(self).wf(),
            final(self).locations@ == old(self).locations@,
            final(self).sensors@ == old(self).sensors@,
            r is Err ==> final(self).readings@ == old(self).readings@,
            r == Err::<(), EnvError>(EnvError::Validation) <==> !(0 <= timestamp
                <= MAX_TIMESTAMP),
            r == Err::<(), EnvError>(EnvError::NotFound) <==> (0 <= timestamp <= MAX_TIMESTAMP
                && !(old(self).locations@.contains(location@) && old(self).sensors@.contains(
                sensor@,
            ))),
            r == Err::<(), EnvError>(EnvError::Conflict) <==> (0 <= timestamp <= MAX_TIMESTAMP
                && old(self).locations@.contains(location@) && old(self).sensors@.contains(sensor@)
                && spec_has_triple(
                old(self).readings@,
                timestamp as int,
                spec_id_of(old(self).locations@, location@),
                spec_id_of(old(self).sensors@, sensor@),
            )),
            r is Ok <==> (0 <= timestamp <= MAX_TIMESTAMP && old(self).locations@.contains(
                location@,
            ) && old(self).sensors@.contains(sensor@) && !spec_has_triple(
                old(self).readings@,
                timestamp as int,
                spec_id_of(old(self).locations@, location@),
                spec_id_of(old(self).sensors@, sensor@),
            )),
            r is Ok ==> final(self).readings@ == old(self).readings@.push(
                Reading {
                    timestamp: timestamp as u64,
                    location_id: spec_id_of(old(self).locations@, location@) as i64,
                    sensor_id: spec_id_of(old(self).sensors@, sensor@) as i64,
                    value_bits: value_bits,
                },
            ),
    {
        if timestamp < 0 || timestamp > MAX_TIMESTAMP as i64 {
            return Err(EnvError::Validation);
        }
        let lid = match self.locations.resolve(location) {
            Ok(id) => id,
            Err(e) => {
                return Err(e);
            },
        };
        let sid = match self.sensors.resolve(sensor) {
            Ok(id) => id,
            Err(e) => {
                return Err(e);
            },
        };
        let ts = timestamp as u64;
        let n = self.readings.len();
        let mut i: usize = 0;
        while i < n
            invariant
                *self == *old(self),
                self.wf(),
                n == self.readings@.len(),
                i <= n,
                forall|k: int|
                    0 <= k < i ==> !((#[trigger] self.readings@[k]).timestamp == ts
                        && self.readings@[k].location_id == lid && self.readings@[k].sensor_id
                        == sid),
            decreases n - i,
        {
            let rd = self.readings[i];
            if rd.timestamp == ts && rd.location_id == lid && rd.sensor_id == sid {
                return Err(EnvError::Conflict);
            }
            i = i + 1;
        }
        let ghost before = self.readings@;
        let fresh = Reading { timestamp: ts, location_id: lid, sensor_id: sid, value_bits };
        self.readings.push(fresh);
        proof {
            assert(!spec_has_triple(before, timestamp as int, lid as int, sid as int));
            assert forall|a: int, b: int| 0 <= a < b < self.readings@.len() implies !((
            #[trigger] self.readings@[a]).timestamp == (#[trigger] self.readings@[b]).timestamp
                && self.readings@[a].location_id == self.readings@[b].location_id
                && self.readings@[a].sensor_id == self.readings@[b].sensor_id) by {
                if b < before.len() {
                    assert(self.readings@[a] == before[a] && self.readings@[b] == before[b]);
                } else {
                    assert(self.readings@[b] == fresh);
                    assert(self.readings@[a] == before[a]);
                }
            }
        }
        Ok(())
    }

    /// Runs the adaptive-resolution range query. A zero-width or inverted
    /// interval is rejected before anything else; unknown names are rejected
    /// without registering. Otherwise the bucket granularity is chosen from
    /// the span, and the result holds one row per non-empty bucket, in
    /// ascending bucket order, each row carrying exactly the values of the
    /// matching readings that truncate into it.
    #[verifier::loop_isolation(false)]
    pub fn query(&self, location: &str, sensor: &str, from: i64, to: i64) -> (r: Result<
        Vec<BucketRow>,
        EnvError,
    >)
        requires
            self.wf(),
        ensures
            r == Err::<Vec<BucketRow>, EnvError>(EnvError::Validation) <==> to <= from,
            r == Err::<Vec<BucketRow>, EnvError>(EnvError::NotFound) <==> (to > from && !(
            self.locations@.contains(location@) && self.sensors@.contains(sensor@))),
            r is Ok <==> (to > from && self.locations@.contains(location@)
                && self.sensors@.contains(sensor@)),
            r matches Ok(rows) ==> spec_query_ok(
                rows@,
                self.readings@,
                spec_id_of(self.locations@, location@),
                spec_id_of(self.sensors@, sensor@),
                from as int,
                to as int,
                bucket_format_for(to - from),
            ),
    {
        if to <= from {
            return Err(EnvError::Validation);
        }
        let lid = match self.locations.resolve(location) {
            Ok(id) => id,
            Err(_) => {
                return Err(EnvError::NotFound);
            },
        };
        let sid = match self.sensors.resolve(sensor) {
            Ok(id) => id,
            Err(_) => {
                return Err(EnvError::NotFound);
            },
        };
        let span: i128 = to as i128 - from as i128;
        let format = if span >= GROUP_BY_MONTH_LIMIT as i128 {
            BucketFormat::Year
        } else {
            select_bucket_format(span as i64).unwrap()
        };
        proof {
            assert(format == bucket_format_for(to - from));
        }
        let ghost glid: int = lid as int;
        let ghost gsid: int = sid as int;
        let ghost gfrom: int = from as int;
        let ghost gto: int = to as int;
        let mut rows: Vec<BucketRow> = Vec::new();
        let n = self.readings.len();
        let mut k: usize = 0;
        proof {
            assert(self.readings@.take(0) =~= Seq::<Reading>::empty());
        }
        while k < n
            invariant
                k <= n,
                n == self.readings@.len(),
                spec_sorted(spec_rows_model(rows@)),
                forall|c: int|
                    spec_has_bucket(spec_rows_model(rows@), c) <==> spec_bucket_values(
                        self.readings@.take(k as int),
                        glid,
                        gsid,
                        gfrom,
                        gto,
                        format,
                        c,
                    ).len() > 0,
                forall|j: int|
                    0 <= j < rows@.len() ==> (#[trigger] spec_rows_model(rows@)[j]).1
                        == spec_bucket_values(
                        self.readings@.take(k as int),
                        glid,
                        gsid,
                        gfrom,
                        gto,
                        format,
                        spec_rows_model(rows@)[j].0,
                    ),
                forall|j: int|
                    0 <= j < rows@.len() ==> (#[trigger] rows@[j]).ts@ == spec_format_timestamp(
                        spec_row_model(rows@[j]).0,
                    ),
                forall|j: int| 0 <= j < rows@.len() ==> (#[trigger] rows@[j]).bucket <= MAX_TIMESTAMP,
            decreases n - k,
        {
            let rd = self.readings[k];
            let ghost prefix = self.readings@.take(k as int);
            let ghost prefix1 = self.readings@.take(k as int + 1);
            proof {
                assert(spec_wf_reading(
                    self.readings@[k as int],
                    self.locations@.len() as int,
                    self.sensors@.len() as int,
                ));
                assert(prefix1.drop_last() =~= prefix);
                assert(prefix1.last() == rd);
            }
            let is_match = rd.location_id == lid && rd.sensor_id == sid && from <= rd.timestamp
                as i64 && rd.timestamp as i64 <= to;
            proof {
                assert(is_match == spec_matches(rd, glid, gsid, gfrom, gto));
            }
            if is_match {
                sort_in_reading(
                    &mut rows,
                    rd,
                    format,
                    Ghost(prefix1),
                    Ghost(glid),
                    Ghost(gsid),
                    Ghost(gfrom),
                    Ghost(gto),
                );
            } else {
                proof {
                    assert forall|c: int|
                        spec_bucket_values(prefix1, glid, gsid, gfrom, gto, format, c)
                            == spec_bucket_values(prefix, glid, gsid, gfrom, gto, format, c) by {}
                }
            }
            k = k + 1;
        }
        proof {
            assert(self.readings@.take(n as int) =~= self.readings@);
        }
        Ok(rows)
    }
}

} // verus!
