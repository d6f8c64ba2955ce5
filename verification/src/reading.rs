//! Readings, the error kinds of the service, and input validation.

use vstd::prelude::*;

use crate::device::valid_device_id;

verus! {

/// A single timestamped measurement. `value` is in thousandths of the domain
/// unit; `timestamp` is in seconds. Immutable once stored.
#[derive(Clone, Debug)]
pub struct Reading {
    pub timestamp: u64,
    pub value: u64,
    pub device_id: Option<String>,
}

/// The error kinds surfaced by the store and its maintenance tasks.
///
/// `RateLimit` and `TooFrequent` carry a wait-time hint in seconds.
#[derive(Clone, Debug)]
pub enum VolumeError {
    InvalidVolume(String),
    StorageError(String),
    DataNotFound,
    RateLimit(u64),
    Unauthorized(String),
    TooFrequent(u64),
}

/// Aggregates over the stored readings, in thousandths of the unit.
///
/// `average` is the integer quotient of the total by the count;
/// `std_deviation` is the integer square root of the population variance.
#[derive(Clone, Debug)]
pub struct VolumeStatistics {
    pub count: usize,
    pub average: u64,
    pub min: u64,
    pub max: u64,
    pub std_deviation: u64,
    pub total_volume: u64,
    pub latest_volume: u64,
}

/// A reading the store may hold: value within bound, identifier well-formed.
pub open spec fn valid_reading(r: Reading, max_value: u64, id_max_len: usize) -> bool {
    &&& r.value <= max_value
    &&& match r.device_id {
        Some(id) => valid_device_id(id@, id_max_len as int),
        None => true,
    }
}

/// Admission check for a proposed value, in thousandths of the unit.
/// Negative magnitudes and values over `max_value` are rejected; the
/// non-finite magnitudes of the ingestion boundary have no representation
/// here and are rejected before conversion.
pub fn validate_volume(value: i64, max_value: u64) -> (r: Result<(), String>)
    requires
        max_value <= 1_000_000_000_000,
    ensures
        r is Ok <==> 0 <= value <= max_value,
{
    if value < 0 {
        Err("Volume cannot be negative".to_string())
    } else if value as u64 > max_value {
        Err("Volume exceeds maximum allowed value".to_string())
    } else {
        Ok(())
    }
}

/// Timestamp admission: a producer-supplied timestamp may run ahead of the
/// server clock by at most `tolerance` seconds.
pub fn validate_reading(timestamp: u64, now: u64, tolerance: u64) -> (r: Result<(), String>)
    ensures
        r is Ok <==> timestamp <= now + tolerance,
{
    if (timestamp as u128) > (now as u128) + (tolerance as u128) {
        Err("Invalid timestamp".to_string())
    } else {
        Ok(())
    }
}

/// The alert threshold: a latest reading above nine tenths of the value bound
/// is critical.
pub fn volume_alert(latest: u64, max_value: u64) -> (r: bool)
    requires
        max_value <= 1_000_000_000_000,
    ensures
        r <==> latest * 10 > max_value * 9,
{
    (latest as u128) * 10 > (max_value as u128) * 9
}

} // verus!
