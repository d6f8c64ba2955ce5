use icutil::config::Config;
use icutil::store::BoundedTimeSeriesStore;

#[test]
fn stress_test_throughput() {
    let mut store = BoundedTimeSeriesStore::new(&Config::default());

    for i in 0..10_000i64 {
        store
            .append((i % 1000) * 1000, i as u64, Some(String::from("test_device")))
            .expect("Recording failed");
    }

    let stats = store.get_volume_statistics().expect("Stats retrieval failed");

    assert!(stats.average > 0);
}
