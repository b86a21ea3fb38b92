//! What the core needs of the socket-relay device: its failures.

use vstd::prelude::*;
use crate::virtio::queue::QueueError;

verus! {

/// The failures of the socket-relay device.
#[derive(Debug)]
pub enum VsockError {
    /// The buffer that a descriptor names is too small for a packet.
    BufDescTooSmall,
    /// The queue held no chain where one was expected.
    EmptyQueue,
    /// A descriptor that the device must read is write-only.
    UnreadableDescriptor,
    /// A descriptor that the device must fill is read-only.
    UnwritableDescriptor,
    /// Error during queue processing.
    QueueError(QueueError),
}

} // verus!
