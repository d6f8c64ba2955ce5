//! Deployment configuration: capacity, validation and scheduling bounds,
//! gathered in one structure with the documented defaults.

use vstd::prelude::*;

verus! {

/// Configuration for a deployed metering store and its maintenance tasks.
///
/// Values are in thousandths of the domain unit; timestamps and intervals are
/// in seconds.
pub struct Config {
    /// Capacity bound of the reading store; the oldest readings are evicted
    /// beyond it.
    pub max_readings: usize,
    /// Largest admissible reading value, in thousandths of the unit.
    pub max_value: u64,
    /// Longest admissible device identifier, in characters.
    pub device_id_max_length: usize,
    /// Length of the fixed rate-limiting window, in seconds.
    pub rate_limit_window: u64,
    /// Admitted requests per caller within one window.
    pub max_requests_per_window: u64,
    /// Minimum gap between two successful backups, in seconds.
    pub backup_interval: u64,
    /// Largest number of backup records kept after a sweep.
    pub max_backups: usize,
    /// Age bound for backup records, in days.
    pub retention_days: u64,
}

impl Config {
    /// Machine limits on a usable configuration: the bounds keep every sum,
    /// square and product that the store computes inside `u64` and `u128`.
    pub open spec fn wf(self) -> bool {
        &&& 0 < self.max_readings <= 1_000_000
        &&& 0 < self.max_value <= 1_000_000_000_000
        &&& 0 < self.device_id_max_length <= 1_000_000
        &&& 0 < self.rate_limit_window
        &&& 0 < self.max_requests_per_window
        &&& 0 < self.backup_interval
        &&& 0 < self.max_backups <= 1_000_000
        &&& 0 < self.retention_days <= 1_000_000
    }
}

impl core::default::Default for Config {
    /// The documented defaults: 1000 readings, values up to 10000 units,
    /// 32-character identifiers, 60 s windows of 30 requests, daily backups,
    /// 30 backups kept for 30 days.
    fn default() -> (c: Config)
        ensures
            c.max_readings == 1000,
            c.max_value == 10_000_000,
            c.device_id_max_length == 32,
            c.rate_limit_window == 60,
            c.max_requests_per_window == 30,
            c.backup_interval == 86400,
            c.max_backups == 30,
            c.retention_days == 30,
            c.wf(),
    {
        Config {
            max_readings: 1000,
            max_value: 10_000_000,
            device_id_max_length: 32,
            rate_limit_window: 60,
            max_requests_per_window: 30,
            backup_interval: 86400,
            max_backups: 30,
            retention_days: 30,
        }
    }
}

} // verus!
