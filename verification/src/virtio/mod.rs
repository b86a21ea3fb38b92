//! The virtio transport shared by the paravirtualized devices.

pub mod balloon;
pub mod barrier;
pub mod descriptor;
pub mod interrupt;
pub mod net;
pub mod queue;
pub mod round_trip;
pub mod vsock;
