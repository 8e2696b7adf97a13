//! The daily temperature graph: one bucket per half hour of the last 24 hours.
use vstd::prelude::*;

verus! {

/// Number of half-hour buckets in the 24-hour graph.
pub const BUCKETS: usize = 48;

/// Seconds covered by one bucket.
pub const BUCKET_SECS: u64 = 1800;

/// The half-hour slot of a Unix time: buckets are compared by this key.
pub fn half_hour_key(unix_secs: u64) -> (k: u64)
    ensures
        k == unix_secs / 1800,
{
    unix_secs / BUCKET_SECS
}

} // verus!
