//! What the core needs of the network device: its per-device metrics.

use vstd::prelude::*;

verus! {

/// Counters of one network device.
#[derive(Debug, Clone, Copy, PartialEq, Eq, Structural)]
pub struct NetDeviceMetrics {
    /// Number of times an event of the device failed.
    pub event_fails: u64,
}

impl NetDeviceMetrics {
    /// Metrics with every counter at zero.
    pub fn new() -> (metrics: NetDeviceMetrics)
        ensures
            metrics.event_fails == 0,
    {
        NetDeviceMetrics { event_fails: 0 }
    }
}

} // verus!
