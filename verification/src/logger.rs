//! The process-wide metrics, handed explicitly to whoever reports into them.

use vstd::prelude::*;

verus! {

/// Counters of the balloon device.
#[derive(Debug, Clone, Copy, PartialEq, Eq, Structural)]
pub struct BalloonDeviceMetrics {
    /// Number of times an event of the device failed.
    pub event_fails: u64,
}

/// The metrics of the whole process.
#[derive(Debug, Clone, Copy, PartialEq, Eq, Structural)]
pub struct Metrics {
    /// Counters of the balloon device.
    pub balloon: BalloonDeviceMetrics,
}

impl Metrics {
    /// Metrics with every counter at zero.
    pub fn new() -> (metrics: Metrics)
        ensures
            metrics.balloon.event_fails == 0,
    {
        Metrics { balloon: BalloonDeviceMetrics { event_fails: 0 } }
    }
}

} // verus!
