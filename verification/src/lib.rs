//! Verified core of a WireGuard traffic-log analyser.
//!
//! The library turns repeated, timestamped textual snapshots of `wg`'s
//! per-interface counters into hourly per-interface traffic deltas:
//! lines are parsed into observations, observations are merged into
//! slot-records within an eight-second tolerance, slot-records are
//! grouped by UTC calendar hour, and cumulative counters are diffed
//! across group boundaries.

pub mod diff;
pub mod fp;
pub mod group;
pub mod hours;
pub mod iface;
pub mod numbers;
pub mod parser;
pub mod parseutil;
pub mod pipeline;
pub mod report;
pub mod time;
pub mod timepoint;
pub mod transfer;

use vstd::prelude::*;

verus! {

/// Number of interface slots a slot-record holds; interface ordinals
/// must lie below this bound.
pub const NUM_INTERFACES: usize = 2;

} // verus!
