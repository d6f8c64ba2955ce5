use icutil::arith::isqrt;
use icutil::config::Config;
use icutil::reading::{validate_reading, validate_volume, volume_alert};

#[test]
fn default_configuration() {
    let cfg = Config::default();
    assert_eq!(cfg.max_readings, 1000);
    assert_eq!(cfg.max_value, 10_000_000);
    assert_eq!(cfg.device_id_max_length, 32);
    assert_eq!(cfg.rate_limit_window, 60);
    assert_eq!(cfg.max_requests_per_window, 30);
    assert_eq!(cfg.backup_interval, 86400);
    assert_eq!(cfg.max_backups, 30);
    assert_eq!(cfg.retention_days, 30);
}

#[test]
fn volume_bounds() {
    let max = Config::default().max_value;
    assert!(validate_volume(0, max).is_ok());
    assert!(validate_volume(10_000_000, max).is_ok());
    assert!(validate_volume(-1, max).is_err());
    assert!(validate_volume(10_000_001, max).is_err());
}

#[test]
fn timestamp_tolerance() {
    assert!(validate_reading(100, 90, 60).is_ok());
    assert!(validate_reading(150, 90, 60).is_ok());
    assert!(validate_reading(151, 90, 60).is_err());
}

#[test]
fn alert_threshold() {
    let max = Config::default().max_value;
    // 90% of 10000.0 units is the critical line.
    assert!(!volume_alert(9_000_000, max));
    assert!(volume_alert(9_000_001, max));
}

#[test]
fn integer_square_roots() {
    assert_eq!(isqrt(0), 0);
    assert_eq!(isqrt(1), 1);
    assert_eq!(isqrt(3), 1);
    assert_eq!(isqrt(4), 2);
    assert_eq!(isqrt(666_666), 816);
    assert_eq!(isqrt(1_000_000_000_000), 1_000_000);
    assert_eq!(isqrt(u64::MAX as u128 * u64::MAX as u128), u64::MAX as u128);
}
