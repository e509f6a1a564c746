use minivna::acquisition::{
    automatic_scan_timeouts, standard_plan, Acquisition, AcquisitionAction, AcquisitionEvent,
    AcquisitionFailure, AcquisitionNotice, AcquisitionPlan, AcquisitionStep, ProgressReporter,
    RetryStage,
};
use minivna::protocol::{ProtocolError, ScanControl, ScanProgress};

fn step(notice: Option<AcquisitionNotice>, close: bool, action: AcquisitionAction) -> AcquisitionStep {
    AcquisitionStep { notice, close, action }
}

const TIMEOUT: ProtocolError =
    ProtocolError::OverallTimeout { limit_ms: 1, received: 0, expected: 24 };

const CANCELLED: ProtocolError = ProtocolError::Cancelled { received: 24, expected: 24 };

/// An acquisition whose scan is running.
fn scanning(plan: AcquisitionPlan) -> Acquisition {
    let mut acquisition = Acquisition::new(plan);
    acquisition.step(AcquisitionEvent::Opened { already: true });
    acquisition.step(AcquisitionEvent::ReadingsTaken);
    acquisition
}

#[test]
fn a_new_port_must_be_quiet_before_it_is_used() {
    let mut acquisition = Acquisition::new(standard_plan());
    assert_eq!(
        acquisition.step(AcquisitionEvent::Opened { already: false }),
        step(
            Some(AcquisitionNotice::PortOpened { attempt: 1 }),
            false,
            AcquisitionAction::RequireQuiet
        )
    );
    assert_eq!(
        acquisition.step(AcquisitionEvent::Quiet),
        step(None, false, AcquisitionAction::QueryReadings)
    );
    assert_eq!(
        acquisition.step(AcquisitionEvent::ReadingsTaken),
        step(Some(AcquisitionNotice::Starting { attempt: 1 }), false, AcquisitionAction::Scan)
    );
    assert_eq!(
        acquisition.step(AcquisitionEvent::Scanned { received: 5, calibrated: Some(5) }),
        step(None, false, AcquisitionAction::Finish)
    );
}

#[test]
fn a_port_that_is_open_is_reused() {
    let mut acquisition = Acquisition::new(standard_plan());
    assert_eq!(
        acquisition.step(AcquisitionEvent::Opened { already: true }).action,
        AcquisitionAction::QueryReadings
    );
}

#[test]
fn residual_bytes_are_refused_without_a_retry() {
    let mut acquisition = Acquisition::new(standard_plan());
    acquisition.step(AcquisitionEvent::Opened { already: false });
    assert_eq!(
        acquisition.step(AcquisitionEvent::NotQuiet),
        step(None, true, AcquisitionAction::Fail(AcquisitionFailure::NotQuiet))
    );
    assert_eq!(
        AcquisitionFailure::NotQuiet.context().unwrap(),
        "device is not at a command boundary; refusing to treat residual scan bytes as a new response"
    );
}

#[test]
fn a_failing_port_is_opened_three_times() {
    let mut acquisition = Acquisition::new(standard_plan());
    for attempt in 1..=2 {
        assert_eq!(
            acquisition.step(AcquisitionEvent::OpenFailed),
            step(
                Some(AcquisitionNotice::Retrying {
                    stage: RetryStage::Open,
                    attempt,
                    next_attempt: attempt + 1,
                }),
                true,
                AcquisitionAction::Open
            )
        );
    }
    assert_eq!(
        acquisition.step(AcquisitionEvent::OpenFailed),
        step(None, false, AcquisitionAction::Fail(AcquisitionFailure::Open))
    );
    assert_eq!(AcquisitionFailure::Open.context(), None);
}

#[test]
fn failed_scans_close_the_port_and_are_tried_again() {
    let mut acquisition = scanning(standard_plan());
    let retry = acquisition.step(AcquisitionEvent::ScanFailed(TIMEOUT));
    assert_eq!(
        retry,
        step(
            Some(AcquisitionNotice::Retrying {
                stage: RetryStage::Scan,
                attempt: 1,
                next_attempt: 2,
            }),
            true,
            AcquisitionAction::Open
        )
    );
    assert_eq!(RetryStage::Scan.recovery(), Some("close_and_reopen"));
    assert_eq!(RetryStage::Open.recovery(), None);

    assert_eq!(acquisition.attempt, 1);

    let mut last = scanning(AcquisitionPlan { retries: 0, reset_after_cancel: true });
    assert_eq!(
        last.step(AcquisitionEvent::ScanFailed(TIMEOUT)),
        step(None, true, AcquisitionAction::Fail(AcquisitionFailure::Protocol(TIMEOUT)))
    );
}

#[test]
fn cancelled_scans_are_not_tried_again() {
    let mut acquisition = scanning(AcquisitionPlan { retries: 2, reset_after_cancel: false });
    assert_eq!(
        acquisition.step(AcquisitionEvent::ScanFailed(CANCELLED)),
        step(None, true, AcquisitionAction::Fail(AcquisitionFailure::Protocol(CANCELLED)))
    );
}

#[test]
fn cancelled_scans_restart_the_controller_and_are_not_tried_again() {
    let shutdown = ProtocolError::Shutdown { received: 12, expected: 24 };
    for (error, event, notice) in [
        (CANCELLED, AcquisitionEvent::ResetDone, AcquisitionNotice::AbandonedResetCompleted),
        (CANCELLED, AcquisitionEvent::ResetFailed, AcquisitionNotice::AbandonedResetFailed),
        (shutdown, AcquisitionEvent::ResetDone, AcquisitionNotice::AbandonedResetCompleted),
    ] {
        let mut acquisition = scanning(standard_plan());
        assert_eq!(
            acquisition.step(AcquisitionEvent::ScanFailed(error)),
            step(None, true, AcquisitionAction::Reset)
        );
        assert_eq!(
            acquisition.step(event),
            step(
                Some(notice),
                false,
                AcquisitionAction::Fail(AcquisitionFailure::Protocol(error))
            )
        );
    }
}

#[test]
fn failed_readings_fail_the_acquisition_in_the_end() {
    let mut acquisition = Acquisition::new(AcquisitionPlan { retries: 1, reset_after_cancel: true });
    acquisition.step(AcquisitionEvent::Opened { already: true });
    assert_eq!(
        acquisition.step(AcquisitionEvent::ReadingsFailed),
        step(
            Some(AcquisitionNotice::Retrying {
                stage: RetryStage::DirectDeviceQueries,
                attempt: 1,
                next_attempt: 2,
            }),
            true,
            AcquisitionAction::Open
        )
    );
    assert_eq!(RetryStage::DirectDeviceQueries.recovery(), Some("close_and_reopen"));
    acquisition.step(AcquisitionEvent::Opened { already: true });
    assert_eq!(
        acquisition.step(AcquisitionEvent::ReadingsFailed),
        step(None, true, AcquisitionAction::Fail(AcquisitionFailure::Readings))
    );
    assert_eq!(
        AcquisitionFailure::Readings.context().unwrap(),
        "failed to read device temperature and supply"
    );
}

#[test]
fn samples_that_were_not_all_calibrated_are_no_success() {
    let mut acquisition = scanning(standard_plan());
    let failure = AcquisitionFailure::CountMismatch { calibrated: 4, received: 5 };
    assert_eq!(
        acquisition.step(AcquisitionEvent::Scanned { received: 5, calibrated: Some(4) }),
        step(None, true, AcquisitionAction::Fail(failure))
    );
    assert_eq!(
        failure.context().unwrap(),
        "calibrated 4 live points but received 5 raw points"
    );
    let mut acquisition = scanning(standard_plan());
    assert_eq!(
        acquisition.step(AcquisitionEvent::Scanned { received: 5, calibrated: None }).action,
        AcquisitionAction::Finish
    );
    let mut acquisition = scanning(standard_plan());
    assert_eq!(
        acquisition.step(AcquisitionEvent::LiveCalibrationFailed),
        step(None, true, AcquisitionAction::Fail(AcquisitionFailure::LiveCalibration))
    );
}

#[test]
fn retries_never_restart_the_controller() {
    let failures = [
        TIMEOUT,
        ProtocolError::IdleTimeout { idle_ms: 1, received: 0, expected: 24, elapsed_ms: 2 },
        ProtocolError::Io { received: 0, expected: 24 },
    ];
    for reset_after_cancel in [false, true] {
        for error in failures {
            let mut acquisition = scanning(AcquisitionPlan { retries: 1, reset_after_cancel });
            assert_eq!(
                acquisition.step(AcquisitionEvent::ScanFailed(error)).action,
                AcquisitionAction::Open
            );
        }
    }
}

#[test]
fn the_standard_plan_retries_twice_and_recovers_after_a_cancellation() {
    assert_eq!(standard_plan(), AcquisitionPlan { retries: 2, reset_after_cancel: true });
}

#[test]
fn deadlines_grow_with_the_points() {
    let millisecond = 1_000_000;
    let short = automatic_scan_timeouts(2);
    assert_eq!(short.idle_ns, 10_000 * millisecond);
    assert_eq!(short.overall_ns, 300_000 * millisecond);
    assert_eq!(automatic_scan_timeouts(30_001).overall_ns, (30_001 * 25 + 30_000) * millisecond);
    assert_eq!(
        automatic_scan_timeouts(usize::MAX).overall_ns,
        u128::from(u64::MAX) * millisecond
    );
}

fn progress(complete_points: usize, elapsed_ns: u128) -> ScanProgress {
    ScanProgress {
        received_bytes: complete_points * 12,
        total_bytes: 120,
        complete_points,
        total_points: 10,
        elapsed_ns,
    }
}

#[test]
fn each_point_is_reported_once() {
    let mut reporter = ProgressReporter::new(1);
    assert!(reporter.observe(&progress(0, 0), ScanControl::Continue).is_empty());
    let reports = reporter.observe(&progress(3, 5_000_000), ScanControl::Continue);
    let seen: Vec<_> = reports.iter().map(|report| (report.points, report.delta_ms)).collect();
    assert_eq!(seen, vec![(1, 5), (2, 0), (3, 0)]);
    assert!(reporter.observe(&progress(3, 6_000_000), ScanControl::Continue).is_empty());
    assert!(reporter.observe(&progress(9, 7_000_000), ScanControl::Cancel).is_empty());
    let reports = reporter.observe(&progress(4, 9_000_000), ScanControl::Continue);
    assert_eq!(reports[0].delta_ms, 4);
    assert_eq!(reports[0].elapsed_ms, 9);
    assert_eq!(reports[0].received_bytes, 48);
}

#[test]
fn the_end_is_reported_even_between_steps() {
    let mut reporter = ProgressReporter::new(4);
    let reports = reporter.observe(&progress(10, 1_000_000), ScanControl::Continue);
    let seen: Vec<_> = reports.iter().map(|report| report.points).collect();
    assert_eq!(seen, vec![4, 8, 10]);
    assert!(reporter.observe(&progress(10, 2_000_000), ScanControl::Continue).is_empty());
}
