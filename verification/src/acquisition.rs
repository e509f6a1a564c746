//! One acquisition as a machine that decides what to do next: open the port,
//! wait for quiet, read temperature and supply, scan, and try again where that
//! is safe.
//!
//! The machine touches no hardware. It is handed what came of its last action
//! and answers with a step: something to announce, whether to close the port,
//! and the next action.
use vstd::prelude::*;

use crate::protocol::{ProtocolError, ScanControl, ScanProgress, ScanTimeouts};
use crate::scan::NANOSECONDS_PER_MILLISECOND;
use crate::text;

verus! {

/// How often a failed scan is tried again.
pub const SCAN_RETRIES: usize = 2;

/// After how many points the progress is reported.
pub const PROGRESS_EVERY_POINTS: usize = 1;

pub const SCAN_IDLE_TIMEOUT_MS: u64 = 10_000;

pub const MIN_SCAN_OVERALL_TIMEOUT_MS: u64 = 300_000;

pub const SCAN_POINT_BUDGET_MS: u64 = 25;

pub const SCAN_START_BUDGET_MS: u64 = 30_000;

pub const TEMPERATURE_QUERY_TIMEOUT_MS: u64 = 1_000;

pub const DEVICE_QUIET_WINDOW_MS: u64 = 250;

/// How an acquisition is carried out.
#[derive(Clone, Copy, Debug, PartialEq, Eq, Structural)]
pub struct AcquisitionPlan {
    pub retries: usize,
    /// Restart the instrument's controller after a scan that was cancelled or
    /// shut down. A retry never does.
    pub reset_after_cancel: bool,
}

/// The plan of every acquisition.
pub fn standard_plan() -> (plan: AcquisitionPlan)
    ensures
        plan == (AcquisitionPlan { retries: SCAN_RETRIES, reset_after_cancel: true }),
{
    AcquisitionPlan { retries: SCAN_RETRIES, reset_after_cancel: true }
}

/// Where an acquisition stands.
#[derive(Clone, Copy, Debug, PartialEq, Eq, Structural)]
pub enum AcquisitionPhase {
    Opening,
    Quieting,
    Querying,
    Scanning,
    /// The controller is restarted after a scan that ended like this.
    Abandoning(ProtocolError),
    Ended,
}

/// What came of the last action.
#[derive(Clone, Copy, Debug, PartialEq, Eq, Structural)]
pub enum AcquisitionEvent {
    /// The port is open; `already` says that it had been open before.
    Opened { already: bool },
    OpenFailed,
    /// Nothing arrived during the quiet window.
    Quiet,
    NotQuiet,
    ReadingsTaken,
    ReadingsFailed,
    /// The scan finished with this many samples, and this many of them
    /// calibrated if a calibration was at hand.
    Scanned { received: usize, calibrated: Option<usize> },
    /// A sample could not be calibrated while the scan was running.
    LiveCalibrationFailed,
    ScanFailed(ProtocolError),
    ResetDone,
    ResetFailed,
}

/// What failed before a retry.
#[derive(Clone, Copy, Debug, PartialEq, Eq, Structural)]
pub enum RetryStage {
    Open,
    DirectDeviceQueries,
    Scan,
}

/// What to announce.
#[derive(Clone, Copy, Debug, PartialEq, Eq, Structural)]
pub enum AcquisitionNotice {
    /// The attempt failed and `next_attempt` follows; both count from one.
    Retrying { stage: RetryStage, attempt: usize, next_attempt: usize },
    PortOpened { attempt: usize },
    /// The readings, and then the start of the scan.
    Starting { attempt: usize },
    AbandonedResetCompleted,
    AbandonedResetFailed,
}

/// Why an acquisition failed.
#[derive(Clone, Copy, Debug, PartialEq, Eq, Structural)]
pub enum AcquisitionFailure {
    Open,
    NotQuiet,
    Readings,
    LiveCalibration,
    CountMismatch { calibrated: usize, received: usize },
    Protocol(ProtocolError),
}

/// What to do next.
#[derive(Clone, Copy, Debug, PartialEq, Eq, Structural)]
pub enum AcquisitionAction {
    Open,
    RequireQuiet,
    QueryReadings,
    Scan,
    Reset,
    Finish,
    Fail(AcquisitionFailure),
}

/// One step: announce, close the port if asked to, then act.
#[derive(Clone, Copy, Debug, PartialEq, Eq, Structural)]
pub struct AcquisitionStep {
    pub notice: Option<AcquisitionNotice>,
    pub close: bool,
    pub action: AcquisitionAction,
}

/// An acquisition in progress. Attempts count from zero here.
#[derive(Clone, Copy, Debug, PartialEq, Eq, Structural)]
pub struct Acquisition {
    pub plan: AcquisitionPlan,
    pub attempt: usize,
    pub phase: AcquisitionPhase,
}

impl AcquisitionFailure {
    /// What the failure is put down to, where its cause says nothing of it.
    pub open spec fn context_text(self) -> Option<Seq<char>> {
        match self {
            AcquisitionFailure::Open => None,
            AcquisitionFailure::NotQuiet => Some(
                "device is not at a command boundary; refusing to treat residual scan bytes as a new response"@,
            ),
            AcquisitionFailure::Readings => Some("failed to read device temperature and supply"@),
            AcquisitionFailure::LiveCalibration => Some("failed to calibrate a live scan point"@),
            AcquisitionFailure::CountMismatch { calibrated, received } => Some(
                "calibrated "@ + text::decimal(calibrated as nat)
                    + " live points but received "@ + text::decimal(received as nat)
                    + " raw points"@,
            ),
            AcquisitionFailure::Protocol(_) => None,
        }
    }

    pub fn context(&self) -> (context: Option<String>)
        ensures
            match (context, self.context_text()) {
                (Some(context), Some(expected)) => context@ == expected,
                (None, None) => true,
                _ => false,
            },
    {
        let mut out: String = String::new();
        match *self {
            AcquisitionFailure::Open => return None,
            AcquisitionFailure::NotQuiet => out.append(
                "device is not at a command boundary; refusing to treat residual scan bytes as a new response",
            ),
            AcquisitionFailure::Readings => out.append(
                "failed to read device temperature and supply",
            ),
            AcquisitionFailure::LiveCalibration => out.append(
                "failed to calibrate a live scan point",
            ),
            AcquisitionFailure::CountMismatch { calibrated, received } => {
                out.append("calibrated ");
                text::push_decimal(&mut out, calibrated as u128);
                out.append(" live points but received ");
                text::push_decimal(&mut out, received as u128);
                out.append(" raw points");
            },
            AcquisitionFailure::Protocol(_) => return None,
        }
        assert(out@ =~= self.context_text()->0);
        Some(out)
    }
}

impl RetryStage {
    pub open spec fn recovery_text(self) -> Option<Seq<char>> {
        match self {
            RetryStage::Open => None,
            RetryStage::DirectDeviceQueries | RetryStage::Scan => Some("close_and_reopen"@),
        }
    }

    /// How the announcement of a retry names the recovery of the port.
    pub fn recovery(self) -> (recovery: Option<&'static str>)
        ensures
            match (recovery, self.recovery_text()) {
                (Some(recovery), Some(expected)) => recovery@ == expected,
                (None, None) => true,
                _ => false,
            },
    {
        match self {
            RetryStage::Open => None,
            RetryStage::DirectDeviceQueries | RetryStage::Scan => Some("close_and_reopen"),
        }
    }
}

impl Acquisition {
    pub open spec fn valid(self) -> bool {
        self.attempt <= self.plan.retries && self.plan.retries < usize::MAX - 1
    }

    /// `event` can come of what the acquisition asked for last.
    pub open spec fn accepts(self, event: AcquisitionEvent) -> bool {
        match self.phase {
            AcquisitionPhase::Opening => event is Opened || event is OpenFailed,
            AcquisitionPhase::Quieting => event is Quiet || event is NotQuiet,
            AcquisitionPhase::Querying => event is ReadingsTaken || event is ReadingsFailed,
            AcquisitionPhase::Scanning => event is Scanned || event is LiveCalibrationFailed
                || event is ScanFailed,
            AcquisitionPhase::Abandoning(_) => event is ResetDone || event is ResetFailed,
            AcquisitionPhase::Ended => false,
        }
    }

    pub open spec fn failing(
        self,
        notice: Option<AcquisitionNotice>,
        close: bool,
        failure: AcquisitionFailure,
    ) -> (Acquisition, AcquisitionStep) {
        (
            Acquisition { phase: AcquisitionPhase::Ended, ..self },
            AcquisitionStep { notice, close, action: AcquisitionAction::Fail(failure) },
        )
    }

    /// The next attempt, which reopens the port, or the failure if there is none
    /// left. A failure to open leaves no port to close.
    pub open spec fn retrying(self, stage: RetryStage, failure: AcquisitionFailure) -> (
        Acquisition,
        AcquisitionStep,
    ) {
        if self.attempt >= self.plan.retries {
            self.failing(None, stage != RetryStage::Open, failure)
        } else {
            let notice = Some(
                AcquisitionNotice::Retrying {
                    stage,
                    attempt: (self.attempt + 1) as usize,
                    next_attempt: (self.attempt + 2) as usize,
                },
            );
            (
                Acquisition {
                    attempt: (self.attempt + 1) as usize,
                    phase: AcquisitionPhase::Opening,
                    ..self
                },
                AcquisitionStep { notice, close: true, action: AcquisitionAction::Open },
            )
        }
    }

    /// The end of a scan that was cancelled or shut down.
    pub open spec fn abandoning(self, error: ProtocolError) -> (Acquisition, AcquisitionStep) {
        if self.plan.reset_after_cancel {
            (
                Acquisition { phase: AcquisitionPhase::Abandoning(error), ..self },
                AcquisitionStep { notice: None, close: true, action: AcquisitionAction::Reset },
            )
        } else {
            self.failing(None, true, AcquisitionFailure::Protocol(error))
        }
    }

    pub open spec fn querying(self) -> (Acquisition, AcquisitionStep) {
        (
            Acquisition { phase: AcquisitionPhase::Querying, ..self },
            AcquisitionStep {
                notice: None,
                close: false,
                action: AcquisitionAction::QueryReadings,
            },
        )
    }

    /// The next state and step.
    pub open spec fn next(self, event: AcquisitionEvent) -> (Acquisition, AcquisitionStep) {
        match event {
            AcquisitionEvent::Opened { already } => if already {
                self.querying()
            } else {
                (
                    Acquisition { phase: AcquisitionPhase::Quieting, ..self },
                    AcquisitionStep {
                        notice: Some(
                            AcquisitionNotice::PortOpened { attempt: (self.attempt + 1) as usize },
                        ),
                        close: false,
                        action: AcquisitionAction::RequireQuiet,
                    },
                )
            },
            AcquisitionEvent::OpenFailed => self.retrying(
                RetryStage::Open,
                AcquisitionFailure::Open,
            ),
            AcquisitionEvent::Quiet => self.querying(),
            AcquisitionEvent::NotQuiet => self.failing(None, true, AcquisitionFailure::NotQuiet),
            AcquisitionEvent::ReadingsTaken => (
                Acquisition { phase: AcquisitionPhase::Scanning, ..self },
                AcquisitionStep {
                    notice: Some(
                        AcquisitionNotice::Starting { attempt: (self.attempt + 1) as usize },
                    ),
                    close: false,
                    action: AcquisitionAction::Scan,
                },
            ),
            AcquisitionEvent::ReadingsFailed => self.retrying(
                RetryStage::DirectDeviceQueries,
                AcquisitionFailure::Readings,
            ),
            AcquisitionEvent::Scanned { received, calibrated } => match calibrated {
                Some(calibrated) if calibrated != received => self.failing(
                    None,
                    true,
                    AcquisitionFailure::CountMismatch { calibrated, received },
                ),
                _ => (
                    Acquisition { phase: AcquisitionPhase::Ended, ..self },
                    AcquisitionStep {
                        notice: None,
                        close: false,
                        action: AcquisitionAction::Finish,
                    },
                ),
            },
            AcquisitionEvent::LiveCalibrationFailed => self.failing(
                None,
                true,
                AcquisitionFailure::LiveCalibration,
            ),
            AcquisitionEvent::ScanFailed(error) => if error is Cancelled || error is Shutdown {
                self.abandoning(error)
            } else {
                self.retrying(RetryStage::Scan, AcquisitionFailure::Protocol(error))
            },
            AcquisitionEvent::ResetDone => self.failing(
                Some(AcquisitionNotice::AbandonedResetCompleted),
                false,
                AcquisitionFailure::Protocol(self.phase->0),
            ),
            AcquisitionEvent::ResetFailed => self.failing(
                Some(AcquisitionNotice::AbandonedResetFailed),
                false,
                AcquisitionFailure::Protocol(self.phase->0),
            ),
        }
    }
}

impl Acquisition {
    /// An acquisition that is about to open the port.
    pub fn new(plan: AcquisitionPlan) -> (acquisition: Acquisition)
        requires
            plan.retries < usize::MAX - 1,
        ensures
            acquisition == initial(plan),
            acquisition.valid(),
    {
        Acquisition { plan, attempt: 0, phase: AcquisitionPhase::Opening }
    }

    fn fail(
        &mut self,
        notice: Option<AcquisitionNotice>,
        close: bool,
        failure: AcquisitionFailure,
    ) -> (step: AcquisitionStep)
        ensures
            (*final(self), step) == old(self).failing(notice, close, failure),
    {
        self.phase = AcquisitionPhase::Ended;
        AcquisitionStep { notice, close, action: AcquisitionAction::Fail(failure) }
    }

    fn retry(&mut self, stage: RetryStage, failure: AcquisitionFailure) -> (step: AcquisitionStep)
        requires
            old(self).valid(),
        ensures
            (*final(self), step) == old(self).retrying(stage, failure),
    {
        if self.attempt >= self.plan.retries {
            return self.fail(None, stage != RetryStage::Open, failure);
        }
        let notice: Option<AcquisitionNotice> = Some(
            AcquisitionNotice::Retrying {
                stage,
                attempt: self.attempt + 1,
                next_attempt: self.attempt + 2,
            },
        );
        self.attempt = self.attempt + 1;
        self.phase = AcquisitionPhase::Opening;
        AcquisitionStep { notice, close: true, action: AcquisitionAction::Open }
    }

    fn query(&mut self) -> (step: AcquisitionStep)
        ensures
            (*final(self), step) == old(self).querying(),
    {
        self.phase = AcquisitionPhase::Querying;
        AcquisitionStep { notice: None, close: false, action: AcquisitionAction::QueryReadings }
    }

    fn abandon(&mut self, notice: AcquisitionNotice) -> (step: AcquisitionStep)
        requires
            old(self).phase is Abandoning,
        ensures
            (*final(self), step) == old(self).failing(
                Some(notice),
                false,
                AcquisitionFailure::Protocol(old(self).phase->0),
            ),
    {
        match self.phase {
            AcquisitionPhase::Abandoning(error) => self.fail(
                Some(notice),
                false,
                AcquisitionFailure::Protocol(error),
            ),
            _ => vstd::pervasive::unreached(),
        }
    }

    /// Takes in what came of the last action and says what to do next.
    pub fn step(&mut self, event: AcquisitionEvent) -> (step: AcquisitionStep)
        requires
            old(self).valid(),
            old(self).accepts(event),
        ensures
            final(self).valid(),
            (*final(self), step) == old(self).next(event),
    {
        match event {
            AcquisitionEvent::Opened { already } => {
                if already {
                    return self.query();
                }
                self.phase = AcquisitionPhase::Quieting;
                AcquisitionStep {
                    notice: Some(AcquisitionNotice::PortOpened { attempt: self.attempt + 1 }),
                    close: false,
                    action: AcquisitionAction::RequireQuiet,
                }
            },
            AcquisitionEvent::OpenFailed => self.retry(
                RetryStage::Open,
                AcquisitionFailure::Open,
            ),
            AcquisitionEvent::Quiet => self.query(),
            AcquisitionEvent::NotQuiet => self.fail(None, true, AcquisitionFailure::NotQuiet),
            AcquisitionEvent::ReadingsTaken => {
                self.phase = AcquisitionPhase::Scanning;
                AcquisitionStep {
                    notice: Some(AcquisitionNotice::Starting { attempt: self.attempt + 1 }),
                    close: false,
                    action: AcquisitionAction::Scan,
                }
            },
            AcquisitionEvent::ReadingsFailed => self.retry(
                RetryStage::DirectDeviceQueries,
                AcquisitionFailure::Readings,
            ),
            AcquisitionEvent::Scanned { received, calibrated } => {
                if let Some(calibrated) = calibrated {
                    if calibrated != received {
                        return self.fail(
                            None,
                            true,
                            AcquisitionFailure::CountMismatch { calibrated, received },
                        );
                    }
                }
                self.phase = AcquisitionPhase::Ended;
                AcquisitionStep { notice: None, close: false, action: AcquisitionAction::Finish }
            },
            AcquisitionEvent::LiveCalibrationFailed => self.fail(
                None,
                true,
                AcquisitionFailure::LiveCalibration,
            ),
            AcquisitionEvent::ScanFailed(error) => {
                let abandoned: bool = match error {
                    ProtocolError::Cancelled { .. } => true,
                    ProtocolError::Shutdown { .. } => true,
                    _ => false,
                };
                if !abandoned {
                    return self.retry(RetryStage::Scan, AcquisitionFailure::Protocol(error));
                }
                if self.plan.reset_after_cancel {
                    self.phase = AcquisitionPhase::Abandoning(error);
                    return AcquisitionStep {
                        notice: None,
                        close: true,
                        action: AcquisitionAction::Reset,
                    };
                }
                self.fail(None, true, AcquisitionFailure::Protocol(error))
            },
            AcquisitionEvent::ResetDone => self.abandon(
                AcquisitionNotice::AbandonedResetCompleted,
            ),
            AcquisitionEvent::ResetFailed => self.abandon(AcquisitionNotice::AbandonedResetFailed),
        }
    }
}

/// The state in which an acquisition starts: the port is to be opened.
pub open spec fn initial(plan: AcquisitionPlan) -> Acquisition {
    Acquisition { plan, attempt: 0, phase: AcquisitionPhase::Opening }
}

// ---------------------------------------------------------------------------
// Deadlines and progress reports
// ---------------------------------------------------------------------------
/// The hard deadline of a scan, in milliseconds: 25 for each point and 30
/// seconds on top, but five minutes at least.
pub open spec fn overall_timeout_ms(points: nat) -> int {
    let budget = if points * SCAN_POINT_BUDGET_MS > u64::MAX {
        u64::MAX as int
    } else {
        points * SCAN_POINT_BUDGET_MS
    };
    let total = if budget + SCAN_START_BUDGET_MS > u64::MAX {
        u64::MAX as int
    } else {
        budget + SCAN_START_BUDGET_MS
    };
    if total < MIN_SCAN_OVERALL_TIMEOUT_MS {
        MIN_SCAN_OVERALL_TIMEOUT_MS as int
    } else {
        total
    }
}

pub fn automatic_scan_timeouts(points: usize) -> (timeouts: ScanTimeouts)
    ensures
        timeouts.idle_ns == SCAN_IDLE_TIMEOUT_MS * NANOSECONDS_PER_MILLISECOND,
        timeouts.overall_ns == overall_timeout_ms(points as nat) * NANOSECONDS_PER_MILLISECOND,
{
    let budget: u64 = match (points as u64).checked_mul(SCAN_POINT_BUDGET_MS) {
        Some(budget) => budget,
        None => u64::MAX,
    };
    let total: u64 = budget.saturating_add(SCAN_START_BUDGET_MS);
    let overall: u64 = if total < MIN_SCAN_OVERALL_TIMEOUT_MS {
        MIN_SCAN_OVERALL_TIMEOUT_MS
    } else {
        total
    };
    ScanTimeouts {
        idle_ns: SCAN_IDLE_TIMEOUT_MS as u128 * NANOSECONDS_PER_MILLISECOND,
        overall_ns: overall as u128 * NANOSECONDS_PER_MILLISECOND,
    }
}

/// One report of progress.
#[derive(Clone, Copy, Debug, PartialEq, Eq, Structural)]
pub struct ProgressReport {
    pub points: usize,
    pub total_points: usize,
    pub received_bytes: usize,
    pub total_bytes: usize,
    pub elapsed_ms: u128,
    pub delta_ms: u128,
}

/// What has been reported so far.
#[derive(Clone, Copy, Debug, PartialEq, Eq, Structural)]
pub struct ProgressReporter {
    pub every: usize,
    pub reported: usize,
    pub elapsed_ms: u128,
}

/// The report that `points` points are complete.
pub open spec fn report_of(progress: ScanProgress, points: int, previous_ms: u128) -> ProgressReport {
    let elapsed_ms = progress.elapsed_ns / NANOSECONDS_PER_MILLISECOND;
    ProgressReport {
        points: points as usize,
        total_points: progress.total_points,
        received_bytes: progress.received_bytes,
        total_bytes: progress.total_bytes,
        elapsed_ms,
        delta_ms: if elapsed_ms >= previous_ms {
            (elapsed_ms - previous_ms) as u128
        } else {
            0
        },
    }
}

impl ProgressReporter {
    /// The reports that are due: one for each full step that has become
    /// complete, and one for the end if no step falls on it.
    pub open spec fn due(self, progress: ScanProgress) -> (ProgressReporter, Seq<ProgressReport>)
        decreases progress.complete_points - self.reported,
    {
        if self.every > 0 && self.reported + self.every <= progress.complete_points {
            let first = report_of(progress, self.reported + self.every, self.elapsed_ms);
            let (after, reports) = (ProgressReporter {
                reported: (self.reported + self.every) as usize,
                elapsed_ms: progress.elapsed_ns / NANOSECONDS_PER_MILLISECOND,
                ..self
            }).due(progress);
            (after, seq![first] + reports)
        } else if progress.complete_points == progress.total_points && self.reported
            != progress.total_points {
            (
                ProgressReporter { reported: progress.total_points, ..self },
                seq![report_of(progress, progress.total_points as int, self.elapsed_ms)],
            )
        } else {
            (self, Seq::empty())
        }
    }

    pub fn new(every: usize) -> (reporter: ProgressReporter)
        ensures
            reporter == (ProgressReporter { every, reported: 0, elapsed_ms: 0 }),
    {
        ProgressReporter { every, reported: 0, elapsed_ms: 0 }
    }

    /// Takes in the progress, and what whoever watches the scan said to it, and
    /// says what to report. A scan that is being stopped reports nothing.
    pub fn observe(&mut self, progress: &ScanProgress, control: ScanControl) -> (reports: Vec<
        ProgressReport,
    >)
        requires
            old(self).every > 0,
        ensures
            (*final(self), reports@) == if control == ScanControl::Continue {
                old(self).due(*progress)
            } else {
                (*old(self), Seq::empty())
            },
    {
        if control != ScanControl::Continue {
            return Vec::new();
        }
        let ghost goal = self.due(*progress);
        let mut reports: Vec<ProgressReport> = Vec::new();
        let elapsed_ms: u128 = progress.elapsed_ns / NANOSECONDS_PER_MILLISECOND;
        while self.reported <= usize::MAX - self.every && self.reported + self.every
            <= progress.complete_points
            invariant
                self.every > 0,
                elapsed_ms == progress.elapsed_ns / NANOSECONDS_PER_MILLISECOND,
                goal == old(self).due(*progress),
                goal.0 == self.due(*progress).0,
                goal.1 == reports@ + self.due(*progress).1,
            decreases progress.complete_points - self.reported,
        {
            let ghost before = *self;
            let ghost sofar = reports@;
            let report: ProgressReport = report(progress, self.reported + self.every, self.elapsed_ms);
            reports.push(report);
            self.reported = self.reported + self.every;
            self.elapsed_ms = elapsed_ms;
            proof {
                assert(before.due(*progress).1 == seq![report] + self.due(*progress).1);
                assert(sofar + (seq![report] + self.due(*progress).1) =~= reports@ + self.due(
                    *progress,
                ).1);
            }
        }
        if progress.complete_points == progress.total_points && self.reported
            != progress.total_points {
            let report: ProgressReport = report(progress, progress.total_points, self.elapsed_ms);
            proof {
                assert(self.due(*progress).1 == seq![report]);
                assert(reports@ + seq![report] =~= reports@.push(report));
            }
            reports.push(report);
            self.reported = progress.total_points;
        } else {
            assert(reports@ + Seq::<ProgressReport>::empty() =~= reports@);
        }
        reports
    }
}

fn report(progress: &ScanProgress, points: usize, previous_ms: u128) -> (report: ProgressReport)
    ensures
        report == report_of(*progress, points as int, previous_ms),
{
    let elapsed_ms: u128 = progress.elapsed_ns / NANOSECONDS_PER_MILLISECOND;
    ProgressReport {
        points,
        total_points: progress.total_points,
        received_bytes: progress.received_bytes,
        total_bytes: progress.total_bytes,
        elapsed_ms,
        delta_ms: if elapsed_ms >= previous_ms {
            elapsed_ms - previous_ms
        } else {
            0
        },
    }
}

// ---------------------------------------------------------------------------
// Laws
// ---------------------------------------------------------------------------
/// The state after `history`.
pub open spec fn run(state: Acquisition, history: Seq<AcquisitionEvent>) -> Acquisition
    decreases history.len(),
{
    if history.len() == 0 {
        state
    } else {
        run(state, history.drop_last()).next(history.last()).0
    }
}

/// The last step that `history` led to.
pub open spec fn last_step(state: Acquisition, history: Seq<AcquisitionEvent>) -> AcquisitionStep {
    run(state, history.drop_last()).next(history.last()).1
}

/// Each event of `history` can come of what the acquisition had asked for.
pub open spec fn possible(state: Acquisition, history: Seq<AcquisitionEvent>) -> bool
    decreases history.len(),
{
    history.len() == 0 || (possible(state, history.drop_last()) && run(
        state,
        history.drop_last(),
    ).accepts(history.last()))
}

/// How often `history` asked for the port to be opened, the first time left
/// out.
pub open spec fn reopenings(state: Acquisition, history: Seq<AcquisitionEvent>) -> nat
    decreases history.len(),
{
    if history.len() == 0 {
        0
    } else {
        reopenings(state, history.drop_last()) + if last_step(state, history).action
            == AcquisitionAction::Open {
            1nat
        } else {
            0nat
        }
    }
}

/// Every step of an acquisition leads to an acquisition.
pub proof fn law_acquisition_stays_valid(state: Acquisition, event: AcquisitionEvent)
    requires
        state.valid(),
        state.accepts(event),
    ensures
        state.next(event).0.valid(),
        state.next(event).0.plan == state.plan,
{
}

/// The port is opened once for each attempt, and there is one attempt more than
/// there are retries, at most.
pub proof fn law_attempts_are_bounded(plan: AcquisitionPlan, history: Seq<AcquisitionEvent>)
    requires
        plan.retries < usize::MAX - 1,
        possible(initial(plan), history),
    ensures
        run(initial(plan), history).valid(),
        run(initial(plan), history).plan == plan,
        reopenings(initial(plan), history) == run(initial(plan), history).attempt,
        reopenings(initial(plan), history) <= plan.retries,
    decreases history.len(),
{
    if history.len() > 0 {
        law_attempts_are_bounded(plan, history.drop_last());
    }
}

/// How many events of one attempt have passed at most.
spec fn rank(phase: AcquisitionPhase) -> int {
    match phase {
        AcquisitionPhase::Opening => 0,
        AcquisitionPhase::Quieting => 1,
        AcquisitionPhase::Querying => 2,
        AcquisitionPhase::Scanning => 3,
        AcquisitionPhase::Abandoning(_) => 4,
        AcquisitionPhase::Ended => 5,
    }
}

/// An acquisition ends: no history has more than five events for each attempt.
pub proof fn law_acquisition_ends(plan: AcquisitionPlan, history: Seq<AcquisitionEvent>)
    requires
        plan.retries < usize::MAX - 1,
        possible(initial(plan), history),
    ensures
        history.len() <= 5 * (plan.retries + 1),
{
    lemma_rank(plan, history);
    law_attempts_are_bounded(plan, history);
}

proof fn lemma_rank(plan: AcquisitionPlan, history: Seq<AcquisitionEvent>)
    requires
        plan.retries < usize::MAX - 1,
        possible(initial(plan), history),
    ensures
        history.len() <= 5 * run(initial(plan), history).attempt + rank(
            run(initial(plan), history).phase,
        ),
    decreases history.len(),
{
    if history.len() > 0 {
        lemma_rank(plan, history.drop_last());
        law_attempts_are_bounded(plan, history.drop_last());
    }
}

/// An acquisition succeeds only with a finished scan whose samples, where they
/// were calibrated while it ran, were all calibrated.
pub proof fn law_success_means_a_finished_scan(state: Acquisition, event: AcquisitionEvent)
    requires
        state.accepts(event),
    ensures
        state.next(event).1.action is Finish <==> (event matches AcquisitionEvent::Scanned {
            received,
            calibrated,
        } && (calibrated is None || calibrated == Some(received))),
{
}

/// No attempt scans before it has its own readings, and a port that this
/// acquisition opened is used only after it was found quiet.
pub proof fn law_gates(state: Acquisition, event: AcquisitionEvent)
    requires
        state.accepts(event),
    ensures
        state.next(event).1.action is Scan <==> event is ReadingsTaken,
        state.next(event).1.action is QueryReadings <==> event is Quiet || event
            == (AcquisitionEvent::Opened { already: true }),
        state.next(event).1.action is RequireQuiet <==> event == (AcquisitionEvent::Opened {
            already: false,
        }),
{
}

/// A scan that was cancelled or shut down is never tried again.
pub proof fn law_cancelled_scans_are_not_repeated(
    state: Acquisition,
    error: ProtocolError,
    history: Seq<AcquisitionEvent>,
)
    requires
        state.phase is Scanning,
        error is Cancelled || error is Shutdown,
        possible(state.next(AcquisitionEvent::ScanFailed(error)).0, history),
    ensures
        reopenings(state.next(AcquisitionEvent::ScanFailed(error)).0, history) == 0,
        history.len() <= 1,
        history.len() == 0 && !state.plan.reset_after_cancel ==> state.next(
            AcquisitionEvent::ScanFailed(error),
        ).1.action == AcquisitionAction::Fail(AcquisitionFailure::Protocol(error)),
        history.len() == 1 ==> last_step(
            state.next(AcquisitionEvent::ScanFailed(error)).0,
            history,
        ).action == AcquisitionAction::Fail(AcquisitionFailure::Protocol(error)),
    decreases history.len(),
{
    reveal_with_fuel(run, 3);
    reveal_with_fuel(possible, 3);
    reveal_with_fuel(reopenings, 3);
    if history.len() > 1 {
        law_cancelled_scans_are_not_repeated(state, error, history.drop_last());
    }
}

/// Whoever fails, and whoever tries again, has closed the port: in this step,
/// in an earlier one, or because it never was open.
pub proof fn law_failures_close_the_port(state: Acquisition, event: AcquisitionEvent)
    requires
        state.accepts(event),
    ensures
        state.next(event).1.action is Fail ==> state.next(event).1.close || state.phase is Opening
            || state.phase is Abandoning,
        state.next(event).1.action is Open || state.next(event).1.action is Reset ==> state.next(
            event,
        ).1.close,
        state.next(event).0.phase is Abandoning ==> state.next(event).1.close,
        state.next(event).1.action is Finish ==> !state.next(event).1.close,
{
}

/// Whatever failed, unless somebody asked for it: while there are attempts left,
/// the retry is announced, and the port is closed and reopened at once.
pub proof fn law_retries_close_and_reopen(state: Acquisition, event: AcquisitionEvent)
    requires
        state.valid(),
        state.accepts(event),
        event is OpenFailed || event is ReadingsFailed || (event matches AcquisitionEvent::ScanFailed(
            error,
        ) && !(error is Cancelled || error is Shutdown)),
        state.attempt < state.plan.retries,
    ensures
        state.next(event).1.notice matches Some(
            AcquisitionNotice::Retrying { stage, attempt, next_attempt },
        ) && attempt == state.attempt + 1 && next_attempt == state.attempt + 2,
        state.next(event).1.close,
        state.next(event).1.action is Open,
        state.next(event).0 == (Acquisition {
            attempt: (state.attempt + 1) as usize,
            phase: AcquisitionPhase::Opening,
            ..state
        }),
{
}

/// The controller is restarted after a scan that was cancelled or shut down, if
/// the plan asks for it, and at no other time: a retry never restarts it.
pub proof fn law_only_cancelled_scans_restart_the_controller(
    plan: AcquisitionPlan,
    history: Seq<AcquisitionEvent>,
)
    requires
        possible(initial(plan), history),
        history.len() > 0,
    ensures
        last_step(initial(plan), history).action is Reset <==> plan.reset_after_cancel && (
        history.last() matches AcquisitionEvent::ScanFailed(error) && (error is Cancelled
            || error is Shutdown)),
{
    lemma_plan_stays(plan, history.drop_last());
}

proof fn lemma_plan_stays(plan: AcquisitionPlan, history: Seq<AcquisitionEvent>)
    ensures
        run(initial(plan), history).plan == plan,
    decreases history.len(),
{
    if history.len() > 0 {
        lemma_plan_stays(plan, history.drop_last());
    }
}

/// The points of the reports grow, none is ahead of what is complete, and once
/// all points are complete all of them have been reported.
pub proof fn law_reports_follow_the_progress(reporter: ProgressReporter, progress: ScanProgress)
    requires
        reporter.every > 0,
        reporter.reported <= progress.complete_points <= progress.total_points,
    ensures
        ({
            let (after, reports) = reporter.due(progress);
            &&& reporter.reported <= after.reported <= progress.complete_points
            &&& progress.complete_points < after.reported + reporter.every
            &&& progress.complete_points == progress.total_points ==> after.reported
                == progress.total_points
            &&& forall|i: int|
                0 <= i < reports.len() ==> reporter.reported < (#[trigger] reports[i]).points
                    <= progress.complete_points
            &&& forall|i: int, j: int|
                0 <= i < j < reports.len() ==> (#[trigger] reports[i]).points < (
                #[trigger] reports[j]).points
        }),
    decreases progress.complete_points - reporter.reported,
{
    if reporter.reported + reporter.every <= progress.complete_points {
        let next = ProgressReporter {
            reported: (reporter.reported + reporter.every) as usize,
            elapsed_ms: progress.elapsed_ns / NANOSECONDS_PER_MILLISECOND,
            ..reporter
        };
        law_reports_follow_the_progress(next, progress);
        let rest = next.due(progress).1;
        let reports = reporter.due(progress).1;
        assert forall|i: int| 0 <= i < reports.len() implies reporter.reported < (
        #[trigger] reports[i]).points <= progress.complete_points by {
            if i > 0 {
                assert(reports[i] == rest[i - 1]);
            }
        }
        assert forall|i: int, j: int| 0 <= i < j < reports.len() implies (
        #[trigger] reports[i]).points < (#[trigger] reports[j]).points by {
            assert(reports[j] == rest[j - 1]);
            if i > 0 {
                assert(reports[i] == rest[i - 1]);
            }
        }
    }
}

/// An announcement names the attempt by its number, counted from one: one more
/// than the port was reopened. A retry names what failed, and both attempts.
pub proof fn law_announcements_name_the_attempt(
    plan: AcquisitionPlan,
    history: Seq<AcquisitionEvent>,
)
    requires
        plan.retries < usize::MAX - 1,
        possible(initial(plan), history),
        history.len() > 0,
    ensures
        ({
            let number = reopenings(initial(plan), history.drop_last()) + 1;
            let event = history.last();
            match last_step(initial(plan), history).notice {
                Some(AcquisitionNotice::PortOpened { attempt }) => attempt == number && event
                    == (AcquisitionEvent::Opened { already: false }),
                Some(AcquisitionNotice::Starting { attempt }) => attempt == number
                    && event is ReadingsTaken,
                Some(AcquisitionNotice::Retrying { stage, attempt, next_attempt }) => {
                    &&& attempt == number && next_attempt == number + 1
                    &&& number <= plan.retries
                    &&& stage == RetryStage::Open <==> event is OpenFailed
                    &&& stage == RetryStage::DirectDeviceQueries <==> event is ReadingsFailed
                    &&& stage == RetryStage::Scan <==> event is ScanFailed
                },
                Some(AcquisitionNotice::AbandonedResetCompleted) => event is ResetDone,
                Some(AcquisitionNotice::AbandonedResetFailed) => event is ResetFailed,
                None => true,
            }
        }),
{
    law_attempts_are_bounded(plan, history.drop_last());
}

/// An acquisition fails with what went wrong last: at once where a retry does not
/// help, and else when no attempt is left.
pub proof fn law_failures_name_their_cause(state: Acquisition, event: AcquisitionEvent)
    requires
        state.valid(),
        state.accepts(event),
    ensures
        ({
            let exhausted = state.attempt == state.plan.retries;
            match state.next(event).1.action {
                AcquisitionAction::Fail(AcquisitionFailure::Open) => event is OpenFailed
                    && exhausted,
                AcquisitionAction::Fail(AcquisitionFailure::NotQuiet) => event is NotQuiet,
                AcquisitionAction::Fail(AcquisitionFailure::Readings) => event is ReadingsFailed
                    && exhausted,
                AcquisitionAction::Fail(AcquisitionFailure::LiveCalibration) =>
                    event is LiveCalibrationFailed,
                AcquisitionAction::Fail(
                    AcquisitionFailure::CountMismatch { calibrated, received },
                ) => calibrated != received && event == (AcquisitionEvent::Scanned {
                    received,
                    calibrated: Some(calibrated),
                }),
                AcquisitionAction::Fail(AcquisitionFailure::Protocol(error)) => {
                    ||| event == AcquisitionEvent::ScanFailed(error) && (exhausted
                        || error is Cancelled || error is Shutdown)
                    ||| state.phase == AcquisitionPhase::Abandoning(error)
                },
                _ => !(event is NotQuiet) && !(event is LiveCalibrationFailed)
                    && !(event is ResetDone) && !(event is ResetFailed) && !(exhausted && (
                event is OpenFailed || event is ReadingsFailed)),
            }
        }),
{
}

/// A scan has 25 milliseconds for each point and 30 seconds on top, and five
/// minutes in any case. It may be idle for ten seconds.
pub proof fn law_scan_deadline(points: nat)
    requires
        points <= 700_000_000_000_000_000,
    ensures
        overall_timeout_ms(points) >= 300_000,
        overall_timeout_ms(points) >= 25 * points + 30_000,
        overall_timeout_ms(points) == 300_000 || overall_timeout_ms(points) == 25 * points + 30_000,
        SCAN_IDLE_TIMEOUT_MS == 10_000,
{
}

/// There is one report for each full step that has become complete, in order, and
/// one for the end of the scan if no step falls on it. The time since the report
/// before goes to the first of them.
pub proof fn law_reports_count_the_steps(
    reporter: ProgressReporter,
    progress: ScanProgress,
    i: int,
)
    requires
        reporter.every > 0,
        reporter.reported <= progress.complete_points <= progress.total_points,
        0 <= i < reporter.due(progress).1.len(),
    ensures
        ({
            let (after, reports) = reporter.due(progress);
            let report = reports[i];
            let elapsed = progress.elapsed_ns as int / 1_000_000;
            &&& report.points == reporter.reported + (i + 1) * reporter.every || (report.points
                == progress.total_points && i == reports.len() - 1)
            &&& report.total_points == progress.total_points
            &&& report.received_bytes == progress.received_bytes
            &&& report.total_bytes == progress.total_bytes
            &&& report.elapsed_ms == elapsed
            &&& i == 0 && elapsed >= reporter.elapsed_ms ==> report.delta_ms == elapsed
                - reporter.elapsed_ms
            &&& i > 0 ==> report.delta_ms == 0
            &&& after.every == reporter.every
        }),
        reporter.reported + reporter.every <= progress.complete_points ==> reporter.due(
            progress,
        ).0.elapsed_ms == progress.elapsed_ns as int / 1_000_000,
    decreases progress.complete_points - reporter.reported,
{
    if reporter.reported + reporter.every <= progress.complete_points {
        let next = ProgressReporter {
            reported: (reporter.reported + reporter.every) as usize,
            elapsed_ms: progress.elapsed_ns / NANOSECONDS_PER_MILLISECOND,
            ..reporter
        };
        let rest = next.due(progress).1;
        let reports = reporter.due(progress).1;
        assert(reports.len() == rest.len() + 1);
        assert(1 * reporter.every == reporter.every) by (nonlinear_arith);
        if i > 0 {
            law_reports_count_the_steps(next, progress, i - 1);
            assert(reports[i] == rest[i - 1]);
            assert(reporter.every + i * reporter.every == (i + 1) * reporter.every)
                by (nonlinear_arith);
        } else if rest.len() > 0 {
            law_reports_count_the_steps(next, progress, 0);
        }
        lemma_last_report_time(next, progress);
    }
}

/// Steps that follow at once bring no new time.
proof fn lemma_last_report_time(reporter: ProgressReporter, progress: ScanProgress)
    requires
        reporter.every > 0,
        reporter.reported <= progress.complete_points <= progress.total_points,
        reporter.elapsed_ms == progress.elapsed_ns / NANOSECONDS_PER_MILLISECOND,
    ensures
        reporter.due(progress).0.elapsed_ms == reporter.elapsed_ms,
        reporter.due(progress).0.every == reporter.every,
    decreases progress.complete_points - reporter.reported,
{
    if reporter.reported + reporter.every <= progress.complete_points {
        lemma_last_report_time(
            ProgressReporter {
                reported: (reporter.reported + reporter.every) as usize,
                elapsed_ms: progress.elapsed_ns / NANOSECONDS_PER_MILLISECOND,
                ..reporter
            },
            progress,
        );
    }
}

/// The words for samples that were not all calibrated name the calibrated ones
/// first.
pub proof fn law_mismatch_names_its_numbers(calibrated: usize, received: usize)
    ensures
        (AcquisitionFailure::CountMismatch { calibrated, received }).context_text() is Some,
        text::numbers(
            (AcquisitionFailure::CountMismatch { calibrated, received }).context_text()->0,
        ) == seq![calibrated as nat, received as nat],
{
    reveal_strlit("calibrated ");
    reveal_strlit(" live points but received ");
    reveal_strlit(" raw points");
    text::lemma_two_numbers(
        "calibrated "@,
        calibrated as nat,
        " live points but received "@,
        received as nat,
        " raw points"@,
    );
    text::lemma_words_hold_no_number(" raw points"@, Seq::empty());
}

} // verus!
