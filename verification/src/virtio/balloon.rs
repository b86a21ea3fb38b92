//! What the core needs of the balloon device: its failures.

use vstd::prelude::*;
use crate::virtio::queue::QueueError;

verus! {

/// The failures of the balloon device.
#[derive(Debug)]
pub enum BalloonError {
    /// The device is not active.
    DeviceNotActive,
    /// Failed to signal the guest.
    InterruptError(std::io::Error),
    /// The guest gave a malformed descriptor.
    MalformedDescriptor,
    /// The guest gave a malformed payload.
    MalformedPayload,
    /// Error during queue processing.
    Queue(QueueError),
}

} // verus!
