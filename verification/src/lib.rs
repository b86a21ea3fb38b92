//! Emulates virtual and hardware devices.
//!
//! This crate is the device-emulation core of a virtual machine monitor. It
//! holds the address-space [`Bus`] that routes every trapped guest access to
//! the emulated device owning the address, and the virtio queue engine in
//! [`virtio::queue`] through which paravirtualized devices exchange buffers
//! with the guest. Everything here works on guest-supplied, unvalidated data
//! and is proved never to panic on it.

use vstd::prelude::*;

pub mod bus;
pub mod logger;
pub mod memory;
pub mod virtio;

pub use bus::{AddressRange, Bus, BusDevice, BusError};

use crate::logger::{BalloonDeviceMetrics, Metrics};
use crate::virtio::balloon::BalloonError;
use crate::virtio::net::NetDeviceMetrics;
use crate::virtio::queue::QueueError;
use crate::virtio::vsock::VsockError;

verus! {

/// `std::io::Error`, carried through as an opaque value.
#[verifier::external_type_specification]
#[verifier::external_body]
pub struct ExIoError(std::io::Error);

/// The failures a device can meet while serving the guest.
#[derive(Debug)]
pub enum DeviceError {
    /// Failed to read from the TAP device.
    FailedReadTap,
    /// Failed to signal irq.
    FailedSignalingIrq(std::io::Error),
    /// IO error.
    IoError(std::io::Error),
    /// Device received malformed payload.
    MalformedPayload,
    /// Device received malformed descriptor.
    MalformedDescriptor,
    /// Error during queue processing.
    QueueError(QueueError),
    /// Vsock device error.
    VsockError(VsockError),
}

/// The value of a free-running event counter after one more event.
pub open spec fn counted(before: u64) -> u64 {
    if before == u64::MAX {
        0
    } else {
        (before + 1) as u64
    }
}

/// Accounts for a failed event of a network device.
///
/// Network metrics are kept per device, so the caller hands in the metrics of
/// the device that met `err`. The failure counter of that device moves on by
/// one, wrapping at the end of its range; nothing else in the metrics changes.
pub fn report_net_event_fail(net_iface_metrics: &mut NetDeviceMetrics, err: DeviceError)
    ensures
        *final(net_iface_metrics) == (NetDeviceMetrics {
            event_fails: counted(old(net_iface_metrics).event_fails),
            ..*old(net_iface_metrics)
        }),
{
    net_iface_metrics.event_fails = net_iface_metrics.event_fails.wrapping_add(1);
}

/// Accounts for a failed event of the balloon device in the process-wide
/// metrics: its failure counter moves on by one, wrapping at the end of its
/// range, and every other metric stays as it was.
pub fn report_balloon_event_fail(metrics: &mut Metrics, err: BalloonError)
    ensures
        *final(metrics) == (Metrics {
            balloon: BalloonDeviceMetrics {
                event_fails: counted(old(metrics).balloon.event_fails),
                ..old(metrics).balloon
            },
            ..*old(metrics)
        }),
{
    metrics.balloon.event_fails = metrics.balloon.event_fails.wrapping_add(1);
}

} // verus!
