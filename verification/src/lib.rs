//! Developer-quality scoring over GitHub activity data, with a freshness-gated
//! two-tier cache in front of it.
//!
//! Scores are fixed-point values: a score of `p` points stands for the real
//! number `p / 1_000_000`, so the unit interval `[0.0, 1.0]` becomes
//! `[0, SCALE]`. Timestamps are seconds since the Unix epoch, UTC.

use vstd::prelude::*;

pub mod cache;
pub mod points;
pub mod scoring;
pub mod stats;

verus! {

/// The number of points that stand for a full score of one.
pub const SCALE: u64 = 1_000_000;

} // verus!
