//! Thresholds below which an animation counts as finished.

use vstd::prelude::*;

verus! {

/// The speed, 0.01 points per millisecond, below which motion has ended.
pub const VELOCITY_THRESHOLD: i64 = 10_000;

/// The displacement, 0.004 points, below which a spring is at rest.
pub const VALUE_THRESHOLD: i64 = 4_000;

} // verus!
