//! Core of an IoT utility-metering service: a bounded time-series store for
//! meter readings with rate-limited ingestion, periodic retention sweeps and
//! throttled backups, plus the user/role bookkeeping around it.
//!
//! Reading values are carried as scaled integers (thousandths of the domain
//! unit), so that totals and statistics are exact.

#![verifier::loop_isolation(false)]

use vstd::prelude::*;

pub mod arith;
pub mod auth;
pub mod backup;
pub mod config;
pub mod device;
pub mod queue;
pub mod rate_limiter;
pub mod reading;
pub mod series;
pub mod store;
pub mod users;

verus! {

/// Thousandths of the domain unit (kWh, litres, cubic metres) per whole unit.
pub const VALUE_SCALE: u64 = 1000;

} // verus!
