use env_server::errors::EnvError;
use env_server::store::Store;

#[test]
fn registering_twice_leaves_one_row() {
    let mut s = Store::new();
    let id1 = s.register_location("garden");
    let id2 = s.register_location("garden");
    assert_eq!(id1, 1);
    assert_eq!(id2, 1);
    assert_eq!(s.locations.len(), 1);
    let id3 = s.register_location("cellar");
    assert_eq!(id3, 2);
    assert_eq!(s.locations.len(), 2);
    let sid1 = s.register_sensor("temperature");
    let sid2 = s.register_sensor("temperature");
    assert_eq!(sid1, 1);
    assert_eq!(sid2, 1);
    assert_eq!(s.sensors.len(), 1);
}

#[test]
fn resolving_unknown_name_fails_and_registers_nothing() {
    let mut s = Store::new();
    assert_eq!(s.resolve_location("nowhere"), Err(EnvError::NotFound));
    assert_eq!(s.locations.len(), 0);
    s.register_location("garden");
    assert_eq!(s.resolve_location("garden"), Ok(1));
    assert_eq!(s.resolve_location("Garden"), Err(EnvError::NotFound)); // case-sensitive
    assert_eq!(s.resolve_sensor("garden"), Err(EnvError::NotFound)); // separate namespace
    assert_eq!(s.locations.len(), 1);
    assert_eq!(s.sensors.len(), 0);
}

#[test]
fn writing_with_unresolved_name_appends_nothing() {
    let mut s = Store::new();
    let bits = 21.5f32.to_bits();
    assert_eq!(s.write_reading("garden", "temperature", 1700000000, bits), Err(EnvError::NotFound));
    assert_eq!(s.readings.len(), 0);
    s.register_location("garden");
    assert_eq!(s.write_reading("garden", "temperature", 1700000000, bits), Err(EnvError::NotFound));
    assert_eq!(s.readings.len(), 0);
    s.register_sensor("temperature");
    assert_eq!(s.write_reading("garden", "temperature", 1700000000, bits), Ok(()));
    assert_eq!(s.readings.len(), 1);
}

#[test]
fn unrepresentable_timestamps_are_rejected() {
    let mut s = Store::new();
    s.register_location("garden");
    s.register_sensor("temperature");
    let bits = 1.0f32.to_bits();
    assert_eq!(s.write_reading("garden", "temperature", -1, bits), Err(EnvError::Validation));
    assert_eq!(
        s.write_reading("garden", "temperature", 253402300800, bits),
        Err(EnvError::Validation)
    );
    assert_eq!(s.write_reading("garden", "temperature", 253402300799, bits), Ok(()));
    assert_eq!(s.readings.len(), 1);
}

#[test]
fn duplicate_triple_is_a_conflict_with_one_persisted_row() {
    let mut s = Store::new();
    s.register_location("garden");
    s.register_sensor("temperature");
    assert_eq!(s.write_reading("garden", "temperature", 1700000000, 5.0f32.to_bits()), Ok(()));
    assert_eq!(
        s.write_reading("garden", "temperature", 1700000000, 5.0f32.to_bits()),
        Err(EnvError::Conflict)
    );
    // a different value on the same triple is still a duplicate
    assert_eq!(
        s.write_reading("garden", "temperature", 1700000000, 6.0f32.to_bits()),
        Err(EnvError::Conflict)
    );
    assert_eq!(s.readings.len(), 1);
    // a different timestamp, location or sensor is not
    s.register_location("cellar");
    s.register_sensor("humidity");
    assert_eq!(s.write_reading("garden", "temperature", 1700000001, 5.0f32.to_bits()), Ok(()));
    assert_eq!(s.write_reading("cellar", "temperature", 1700000000, 5.0f32.to_bits()), Ok(()));
    assert_eq!(s.write_reading("garden", "humidity", 1700000000, 5.0f32.to_bits()), Ok(()));
    assert_eq!(s.readings.len(), 4);
}

#[test]
fn invalid_interval_is_rejected_before_anything_else() {
    let mut s = Store::new();
    assert_eq!(s.query("garden", "temperature", 10, 10), Err(EnvError::Validation));
    assert_eq!(s.query("garden", "temperature", 10, 5), Err(EnvError::Validation));
    // names unknown, but the interval is checked first
    s.register_location("garden");
    s.register_sensor("temperature");
    assert_eq!(s.query("nowhere", "temperature", 10, 10), Err(EnvError::Validation));
    assert_eq!(s.query("nowhere", "temperature", 0, 10), Err(EnvError::NotFound));
    assert_eq!(s.query("garden", "nothing", 0, 10), Err(EnvError::NotFound));
}

#[test]
fn raw_resolution_round_trip() {
    // Twelve readings at 5-minute intervals across one hour, queried over
    // that window at raw resolution: one bucket per reading, ascending,
    // each holding the single contributing value.
    let mut s = Store::new();
    s.register_location("garden");
    s.register_sensor("temperature");
    let t0: i64 = 1710050400; // 2024-03-10T06:00:00Z
    for i in 0..12i64 {
        let v = (20.0 + i as f32 * 0.5).to_bits();
        assert_eq!(s.write_reading("garden", "temperature", t0 + i * 300, v), Ok(()));
    }
    let rows = s.query("garden", "temperature", t0, t0 + 3599).unwrap();
    assert_eq!(rows.len(), 12);
    for i in 0..12usize {
        let row = &rows[i];
        assert_eq!(row.bucket, (t0 + i as i64 * 300) as u64);
        assert_eq!(row.values.len(), 1);
        let avg = f32::from_bits(row.values[0]);
        assert_eq!(avg, 20.0 + i as f32 * 0.5);
    }
    assert_eq!(rows[0].ts, "2024-03-10T06:00:00Z");
    assert_eq!(rows[1].ts, "2024-03-10T06:05:00Z");
    assert_eq!(rows[11].ts, "2024-03-10T06:55:00Z");
}

#[test]
fn hourly_grouping_averages_contributions() {
    // A five-day window selects the hour granularity; readings within the
    // same hour land in one row whose average covers them all.
    let mut s = Store::new();
    s.register_location("garden");
    s.register_sensor("temperature");
    let q0: i64 = 1710028800; // 2024-03-10T00:00:00Z
    assert_eq!(s.write_reading("garden", "temperature", q0 + 600, 10.0f32.to_bits()), Ok(()));
    assert_eq!(s.write_reading("garden", "temperature", q0 + 1200, 20.0f32.to_bits()), Ok(()));
    assert_eq!(s.write_reading("garden", "temperature", q0 + 3900, 30.0f32.to_bits()), Ok(()));
    let rows = s.query("garden", "temperature", q0, q0 + 5 * 86400).unwrap();
    assert_eq!(rows.len(), 2);
    assert_eq!(rows[0].bucket, q0 as u64);
    assert_eq!(rows[0].ts, "2024-03-10T00:00:00Z");
    assert_eq!(rows[0].values.len(), 2);
    let avg0: f64 = rows[0].values.iter().map(|b| f32::from_bits(*b) as f64).sum::<f64>()
        / rows[0].values.len() as f64;
    assert_eq!(avg0, 15.0);
    assert_eq!(rows[1].bucket, (q0 + 3600) as u64);
    assert_eq!(rows[1].ts, "2024-03-10T01:00:00Z");
    assert_eq!(rows[1].values.len(), 1);
    assert_eq!(f32::from_bits(rows[1].values[0]), 30.0);
}

#[test]
fn query_filters_by_identity_and_interval() {
    let mut s = Store::new();
    s.register_location("garden");
    s.register_location("cellar");
    s.register_sensor("temperature");
    assert_eq!(s.write_reading("garden", "temperature", 1000, 1.0f32.to_bits()), Ok(()));
    assert_eq!(s.write_reading("cellar", "temperature", 1000, 2.0f32.to_bits()), Ok(()));
    assert_eq!(s.write_reading("garden", "temperature", 5000, 3.0f32.to_bits()), Ok(()));
    // interval is inclusive on both ends; the other location is unseen
    let rows = s.query("garden", "temperature", 1000, 2000).unwrap();
    assert_eq!(rows.len(), 1);
    assert_eq!(rows[0].bucket, 1000);
    assert_eq!(rows[0].values, vec![1.0f32.to_bits()]);
    // out-of-window readings are omitted; empty result is fine
    let rows = s.query("garden", "temperature", 1001, 4999).unwrap();
    assert_eq!(rows.len(), 0);
}
