//! An in-memory, bounded time-series store for device telemetry.
//!
//! Devices identified by opaque string ids send readings (a rate and a
//! cumulative volume); the store stamps each accepted reading with a
//! server-side, monotonically non-decreasing millisecond timestamp, keeps
//! a fixed-capacity FIFO history per device, and serves the latest reading
//! of every device that has written at least once, paired with its
//! registered display alias.

pub mod assoc;
pub mod clock;
pub mod data;
pub mod facade;
pub mod registry;
pub mod ring;
pub mod series;

use vstd::prelude::*;

verus! {

/// Capacity of each device's history buffer: one slot per second of a
/// 24-hour window.
pub const CAPACITY: usize = 86400;

} // verus!
