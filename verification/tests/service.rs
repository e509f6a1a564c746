use minivna::daemon::{
    bind_next, call_next, stop_outcome, BindAction, BindEvent, CallAction, CallOutcome,
    FailureEvent, FailureReason, StopOutcome, StopReply,
};
use minivna::protocol::ProtocolError;
use minivna::service::{
    DaemonClock, ScanService, ServiceAction, ServiceEvent, ServiceNotice, ServiceStep,
    SocketAction, SocketEvent,
};

const HOUR: u128 = 3_600_000_000_000;

#[test]
fn each_caller_starts_the_hour_anew() {
    let mut clock = DaemonClock::new(0);
    assert_eq!(clock.step(SocketEvent::Waited, false, HOUR - 1), SocketAction::Accept);
    let served = SocketEvent::Served { stop: false };
    assert_eq!(clock.step(served, false, HOUR + 5), SocketAction::Accept);
    assert_eq!(clock.step(SocketEvent::Waited, false, 2 * HOUR + 4), SocketAction::Accept);
    assert_eq!(clock.step(SocketEvent::Waited, false, 2 * HOUR + 5), SocketAction::Stop);
}

#[test]
fn the_daemon_stops_when_it_is_told_to() {
    let mut clock = DaemonClock::new(7);
    assert_eq!(clock.step(SocketEvent::Waited, true, 8), SocketAction::Stop);
    assert_eq!(clock.step(SocketEvent::Served { stop: true }, false, 8), SocketAction::Stop);
    assert_eq!(clock.step(SocketEvent::Failed, false, 8), SocketAction::Fail);
    assert_eq!(clock.step(SocketEvent::Waited, false, 0), SocketAction::Accept);
}

fn plain(notice: Option<ServiceNotice>, action: ServiceAction) -> ServiceStep {
    ServiceStep { replace_port: false, notice, action }
}

#[test]
fn a_scan_succeeds_once_all_is_published() {
    let mut service = ScanService::new();
    let reloaded = ServiceEvent::Reloaded { device_changed: true, identified: true };
    assert_eq!(
        service.step(reloaded),
        ServiceStep { replace_port: true, notice: None, action: ServiceAction::Allocate }
    );
    assert_eq!(
        service.step(ServiceEvent::Allocated),
        plain(Some(ServiceNotice::Accepted), ServiceAction::LoadCalibration)
    );
    assert_eq!(
        service.step(ServiceEvent::CalibrationLoaded),
        plain(Some(ServiceNotice::CalibrationLoaded), ServiceAction::Acquire)
    );
    assert_eq!(
        service.step(ServiceEvent::Acquired { calibrated: true }),
        plain(Some(ServiceNotice::Quality), ServiceAction::Publish)
    );
    assert_eq!(
        service.step(ServiceEvent::Published),
        plain(None, ServiceAction::PublishSnapshot)
    );
    assert_eq!(
        service.step(ServiceEvent::SnapshotPublished),
        plain(Some(ServiceNotice::Completed), ServiceAction::Reply { ok: true })
    );
}

#[test]
fn samples_that_were_not_calibrated_live_are_calibrated_before_they_are_published() {
    let mut service = ScanService::new();
    service.step(ServiceEvent::Reloaded { device_changed: false, identified: true });
    service.step(ServiceEvent::Allocated);
    service.step(ServiceEvent::CalibrationLoaded);
    assert_eq!(
        service.step(ServiceEvent::Acquired { calibrated: false }),
        plain(None, ServiceAction::Calibrate)
    );
    assert_eq!(
        service.step(ServiceEvent::Calibrated),
        plain(Some(ServiceNotice::Quality), ServiceAction::Publish)
    );
}

#[test]
fn every_failure_is_announced_and_told() {
    let failed = |failure| {
        plain(Some(ServiceNotice::Failed(failure)), ServiceAction::Reply { ok: false })
    };
    assert_eq!(
        ScanService::new()
            .step(ServiceEvent::Reloaded { device_changed: false, identified: false }),
        failed(FailureEvent::OtherFailed)
    );
    let cancelled = ProtocolError::Cancelled { received: 24, expected: 24 };
    assert_eq!(
        ScanService::new().step(ServiceEvent::Failed(Some(cancelled))),
        failed(FailureEvent::Cancelled)
    );
    let broken = ProtocolError::Io { received: 0, expected: 24 };
    assert_eq!(
        ScanService::new().step(ServiceEvent::Failed(Some(broken))),
        failed(FailureEvent::AcquisitionFailed)
    );
    assert_eq!(
        ScanService::new().step(ServiceEvent::Failed(None)),
        failed(FailureEvent::OtherFailed)
    );
}

#[test]
fn a_socket_is_taken_only_from_a_daemon_that_is_gone() {
    assert_eq!(bind_next(false, BindEvent::Absent), BindAction::Bind);
    assert_eq!(bind_next(false, BindEvent::Present), BindAction::Probe);
    assert_eq!(bind_next(false, BindEvent::Answered), BindAction::GiveWay);
    assert_eq!(bind_next(false, BindEvent::Silent), BindAction::Remove);
    assert_eq!(bind_next(false, BindEvent::Removed), BindAction::Bind);
    assert_eq!(bind_next(false, BindEvent::RemoveFailed), BindAction::Fail);
    assert_eq!(bind_next(true, BindEvent::Bound), BindAction::Listen);
    assert_eq!(bind_next(true, BindEvent::InUse), BindAction::Probe);
    assert_eq!(bind_next(true, BindEvent::Answered), BindAction::GiveWay);
    assert_eq!(bind_next(true, BindEvent::Silent), BindAction::Fail);
    assert_eq!(bind_next(true, BindEvent::BindFailed), BindAction::Fail);
}

#[test]
fn daemons_are_called_and_stopped() {
    assert_eq!(call_next(CallOutcome::Connected), CallAction::Talk);
    assert_eq!(call_next(CallOutcome::NotFound), CallAction::NoDaemon);
    assert_eq!(call_next(CallOutcome::Refused), CallAction::NoDaemon);
    assert_eq!(call_next(CallOutcome::Failed), CallAction::Fail);

    let complete = |ok, explained| stop_outcome(StopReply::Complete { ok, explained });
    assert_eq!(complete(true, false), StopOutcome::Stopped);
    assert_eq!(complete(false, true), StopOutcome::Refused(FailureReason::Given));
    assert_eq!(complete(false, false), StopOutcome::Refused(FailureReason::Unexplained));
    assert_eq!(stop_outcome(StopReply::Event), StopOutcome::Unexpected);
}
