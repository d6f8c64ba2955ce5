use icutil::config::Config;
use icutil::reading::VolumeError;
use icutil::store::BoundedTimeSeriesStore;

fn default_store() -> BoundedTimeSeriesStore {
    BoundedTimeSeriesStore::new(&Config::default())
}

#[test]
fn capacity_invariant_holds() {
    // 1500 appends of 1.0 units against a 1000-reading capacity: the store
    // holds the last 1000 and the running total matches them.
    let mut store = default_store();
    for i in 0..1500u64 {
        store.append(1000, i, None).expect("append failed");
    }
    assert_eq!(store.get_readings_count(), 1000);
    assert_eq!(store.get_total(), 1_000_000);
}

#[test]
fn rejected_append_changes_nothing() {
    let mut store = default_store();
    store.append(5000, 1, None).expect("append failed");
    let count = store.get_readings_count();
    let total = store.get_total();

    let r = store.append(-1000, 2, None);
    assert!(matches!(r, Err(VolumeError::InvalidVolume(_))));
    assert_eq!(store.get_readings_count(), count);
    assert_eq!(store.get_total(), total);

    let r = store.append(10_000_001, 3, None);
    assert!(matches!(r, Err(VolumeError::InvalidVolume(_))));
    assert_eq!(store.get_readings_count(), count);
    assert_eq!(store.get_total(), total);

    let r = store.append(1000, 4, Some(String::from("bad id!")));
    assert!(matches!(r, Err(VolumeError::InvalidVolume(_))));
    assert_eq!(store.get_readings_count(), count);
    assert_eq!(store.get_total(), total);
}

#[test]
fn statistics_exact() {
    // Readings of 1.0, 2.0 and 3.0 units: average 2.0, min 1.0, max 3.0,
    // population standard deviation 0.816 (in thousandths: 816), total 6.0.
    let mut store = default_store();
    store.append(1000, 10, None).expect("append failed");
    store.append(2000, 20, None).expect("append failed");
    store.append(3000, 30, None).expect("append failed");
    let st = store.get_volume_statistics().expect("statistics failed");
    assert_eq!(st.count, 3);
    assert_eq!(st.average, 2000);
    assert_eq!(st.min, 1000);
    assert_eq!(st.max, 3000);
    assert_eq!(st.std_deviation, 816);
    assert_eq!(st.total_volume, 6000);
    assert_eq!(st.latest_volume, 3000);
}

#[test]
fn empty_store_distinction() {
    let mut store = default_store();
    assert!(matches!(
        store.get_volume_statistics(),
        Err(VolumeError::DataNotFound)
    ));
    assert!(matches!(
        store.get_recent_readings(5),
        Err(VolumeError::DataNotFound)
    ));

    store.append(1000, 1, None).expect("append failed");
    assert!(store.get_volume_statistics().is_ok());
    store.clear_all_readings();
    assert!(matches!(
        store.get_volume_statistics(),
        Err(VolumeError::DataNotFound)
    ));
    assert!(matches!(
        store.get_recent_readings(5),
        Err(VolumeError::DataNotFound)
    ));
    assert!(matches!(
        store.get_average_volume(),
        Err(VolumeError::DataNotFound)
    ));
    assert!(matches!(
        store.get_current_total_volume(),
        Err(VolumeError::DataNotFound)
    ));
    assert!(matches!(
        store.export_all_readings(),
        Err(VolumeError::DataNotFound)
    ));
}

#[test]
fn recent_returns_newest_first() {
    let mut store = default_store();
    for i in 0..5u64 {
        store.append((i as i64 + 1) * 100, i, None).expect("append failed");
    }
    let recent = store.get_recent_readings(3).expect("recent failed");
    assert_eq!(recent.len(), 3);
    assert_eq!(recent[0].value, 500);
    assert_eq!(recent[1].value, 400);
    assert_eq!(recent[2].value, 300);

    let all = store.get_recent_readings(100).expect("recent failed");
    assert_eq!(all.len(), 5);
}

#[test]
fn consumed_is_span_of_window() {
    let mut store = default_store();
    store.append(1000, 10, None).expect("append failed");
    store.append(4000, 20, None).expect("append failed");
    store.append(2500, 30, None).expect("append failed");
    store.append(9000, 40, None).expect("append failed");

    // Window [10, 30] holds 1.0, 4.0, 2.5: span 3.0 units.
    assert_eq!(store.get_volume_consumed(10, 30).expect("consumed failed"), 3000);
    // A window with no readings consumes nothing.
    assert_eq!(store.get_volume_consumed(100, 200).expect("consumed failed"), 0);
    // An empty store is reported as missing data instead.
    let empty = default_store();
    assert!(matches!(
        empty.get_volume_consumed(0, 100),
        Err(VolumeError::DataNotFound)
    ));
}

#[test]
fn export_returns_all_readings() {
    let mut store = default_store();
    store.append(1000, 1, Some(String::from("meter-1"))).expect("append failed");
    store.append(2000, 2, None).expect("append failed");
    let all = store.export_all_readings().expect("export failed");
    assert_eq!(all.len(), 2);
    assert_eq!(all[0].value, 1000);
    assert_eq!(all[0].device_id.as_deref(), Some("meter-1"));
    assert_eq!(all[1].value, 2000);
}

#[test]
fn filtered_page_respects_window_skip_and_limit() {
    let mut store = default_store();
    for i in 0..10u64 {
        store.append(100 * (i as i64 + 1), i * 10, None).expect("append failed");
    }
    // Timestamps 20..=70 hold values 300..=800; skip the first two matches,
    // then take three.
    let page = store.get_water_readings_filtered(2, 3, 20, 70);
    assert_eq!(page.len(), 3);
    assert_eq!(page[0].value, 500);
    assert_eq!(page[1].value, 600);
    assert_eq!(page[2].value, 700);

    let empty_page = store.get_water_readings_filtered(100, 3, 20, 70);
    assert_eq!(empty_page.len(), 0);
}

#[test]
fn daily_usage_groups_and_sorts() {
    let mut store = default_store();
    let day = 86400u64;
    store.append(1000, 2 * day + 5, None).expect("append failed");
    store.append(2000, 10, None).expect("append failed");
    store.append(3000, 2 * day + 100, None).expect("append failed");
    store.append(4000, day, None).expect("append failed");
    let usage = store.get_daily_usage();
    assert_eq!(usage.len(), 3);
    assert_eq!(usage[0], (0, 2000));
    assert_eq!(usage[1], (1, 4000));
    assert_eq!(usage[2], (2, 4000));
}

#[test]
fn guarded_reset_requires_capability() {
    let mut store = default_store();
    store.append(1000, 1, None).expect("append failed");
    let admins = vec![String::from("root")];

    let r = store.reset_data(&admins, &String::from("guest"));
    assert!(matches!(r, Err(VolumeError::Unauthorized(_))));
    assert_eq!(store.get_readings_count(), 1);

    store
        .reset_data(&admins, &String::from("root"))
        .expect("admin reset failed");
    assert_eq!(store.get_readings_count(), 0);
}

#[test]
fn eviction_keeps_total_consistent() {
    let mut cfg = Config::default();
    cfg.max_readings = 3;
    let mut store = BoundedTimeSeriesStore::new(&cfg);
    for i in 0..5u64 {
        store.append((i as i64 + 1) * 1000, i, None).expect("append failed");
    }
    // Only 3.0, 4.0 and 5.0 remain.
    assert_eq!(store.get_readings_count(), 3);
    assert_eq!(store.get_total(), 12_000);
    assert_eq!(store.get_average_volume().expect("average failed"), 4000);
    assert_eq!(store.get_current_total_volume().expect("latest failed"), 5000);
}
