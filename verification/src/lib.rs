//! Core of a privacy-preserving telemetry collector.
//!
//! The library gathers runtime metrics in memory, periodically seals them
//! into encrypted record files attributed to a rotating device identity,
//! and drives an upload loop with persisted exponential backoff.  All
//! decisions are made here, over plain values; the host performs the file
//! and network operations that the decision functions ask for.

use vstd::prelude::*;

pub mod auxiliary;
pub mod backoff;
pub mod backoff_watch;
pub mod bootstrap;
pub mod calendar;
pub mod clock;
pub mod collector;
pub mod crypto;
pub mod encoding;
pub mod identity;
pub mod payload;
pub mod period;
pub mod request;
pub mod runner;
pub mod store;
pub mod timestamp;

verus! {

/// Milliseconds in one hour.
pub const HOUR_MS: u64 = 3_600_000;

/// Milliseconds in one day.
pub const DAY_MS: u64 = 86_400_000;

/// Milliseconds in one week.
pub const WEEK_MS: u64 = 604_800_000;

} // verus!
