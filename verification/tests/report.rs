use devices::logger::Metrics;
use devices::virtio::balloon::BalloonError;
use devices::virtio::net::NetDeviceMetrics;
use devices::virtio::queue::QueueError;
use devices::virtio::vsock::VsockError;
use devices::{report_balloon_event_fail, report_net_event_fail, DeviceError};

#[test]
fn net_failures_are_counted() {
    let mut metrics = NetDeviceMetrics::new();
    assert_eq!(metrics.event_fails, 0);
    report_net_event_fail(&mut metrics, DeviceError::MalformedDescriptor);
    assert_eq!(metrics.event_fails, 1);
    report_net_event_fail(&mut metrics, DeviceError::FailedReadTap);
    report_net_event_fail(&mut metrics, DeviceError::MalformedPayload);
    report_net_event_fail(&mut metrics, DeviceError::QueueError(QueueError::InvalidQueueConfig));
    report_net_event_fail(&mut metrics, DeviceError::VsockError(VsockError::EmptyQueue));
    report_net_event_fail(&mut metrics, DeviceError::IoError(std::io::Error::from_raw_os_error(5)));
    report_net_event_fail(
        &mut metrics,
        DeviceError::FailedSignalingIrq(std::io::Error::from_raw_os_error(11)),
    );
    assert_eq!(metrics.event_fails, 7);
}

#[test]
fn net_failure_counter_wraps() {
    let mut metrics = NetDeviceMetrics { event_fails: u64::MAX - 1 };
    report_net_event_fail(&mut metrics, DeviceError::MalformedPayload);
    assert_eq!(metrics.event_fails, u64::MAX);
    report_net_event_fail(&mut metrics, DeviceError::MalformedPayload);
    assert_eq!(metrics.event_fails, 0);
}

#[test]
fn net_devices_are_counted_apart() {
    let mut first = NetDeviceMetrics::new();
    let mut second = NetDeviceMetrics::new();
    report_net_event_fail(&mut first, DeviceError::MalformedDescriptor);
    report_net_event_fail(&mut first, DeviceError::MalformedDescriptor);
    report_net_event_fail(&mut second, DeviceError::MalformedDescriptor);
    assert_eq!((first.event_fails, second.event_fails), (2, 1));
}

#[test]
fn balloon_failures_are_counted() {
    let mut metrics = Metrics::new();
    assert_eq!(metrics.balloon.event_fails, 0);
    report_balloon_event_fail(&mut metrics, BalloonError::MalformedDescriptor);
    report_balloon_event_fail(&mut metrics, BalloonError::Queue(QueueError::NotEnabled));
    report_balloon_event_fail(&mut metrics, BalloonError::DeviceNotActive);
    assert_eq!(metrics.balloon.event_fails, 3);
    metrics.balloon.event_fails = u64::MAX;
    report_balloon_event_fail(&mut metrics, BalloonError::MalformedPayload);
    assert_eq!(metrics.balloon.event_fails, 0);
}

#[test]
fn errors_print_their_names() {
    assert_eq!(format!("{:?}", DeviceError::MalformedDescriptor), "MalformedDescriptor");
    assert_eq!(
        format!("{:?}", DeviceError::QueueError(QueueError::InvalidQueueConfig)),
        "QueueError(InvalidQueueConfig)"
    );
    assert_eq!(format!("{:?}", BalloonError::MalformedPayload), "MalformedPayload");
}
