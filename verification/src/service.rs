//! The background process at work: how long it stays, and how it serves one
//! scan from the request to the reply.
use vstd::prelude::*;

use crate::daemon::{failure_event, FailureEvent, PORT_IDLE_NS};
use crate::daemon;
use crate::protocol::ProtocolError;

verus! {

// ---------------------------------------------------------------------------
// How long the daemon stays
// ---------------------------------------------------------------------------
/// What happened at the daemon's socket.
#[derive(Clone, Copy, Debug, PartialEq, Eq, Structural)]
pub enum SocketEvent {
    /// Nobody called.
    Waited,
    /// A caller was served; `stop` says that it asked the daemon to stop.
    Served { stop: bool },
    /// Nobody can call any more.
    Failed,
}

#[derive(Clone, Copy, Debug, PartialEq, Eq, Structural)]
pub enum SocketAction {
    /// See whether somebody calls.
    Accept,
    /// Close the port and exit.
    Stop,
    Fail,
}

/// The daemon between its callers: when it started, or served the last of them.
#[derive(Clone, Copy, Debug, PartialEq, Eq, Structural)]
pub struct DaemonClock {
    pub last_activity_ns: u128,
}

/// The time from `earlier` to `later`, or nothing if it ran backwards.
pub open spec fn span_ns(earlier: u128, later: u128) -> u128 {
    if later >= earlier {
        (later - earlier) as u128
    } else {
        0
    }
}

impl DaemonClock {
    /// Whoever was served starts the hour anew. The daemon stops if it is asked
    /// to, if it is interrupted, or if the hour is over.
    pub open spec fn next(self, event: SocketEvent, interrupted: bool, now_ns: u128) -> (
        DaemonClock,
        SocketAction,
    ) {
        let after = if event is Served {
            DaemonClock { last_activity_ns: now_ns }
        } else {
            self
        };
        let action = if event is Failed {
            SocketAction::Fail
        } else if event == (SocketEvent::Served { stop: true }) || interrupted || span_ns(
            after.last_activity_ns,
            now_ns,
        ) >= PORT_IDLE_NS {
            SocketAction::Stop
        } else {
            SocketAction::Accept
        };
        (after, action)
    }

    pub fn new(now_ns: u128) -> (clock: DaemonClock)
        ensures
            clock == (DaemonClock { last_activity_ns: now_ns }),
    {
        DaemonClock { last_activity_ns: now_ns }
    }

    /// Takes in what happened at the socket and says what to do next. Before the
    /// first call nobody has called.
    pub fn step(&mut self, event: SocketEvent, interrupted: bool, now_ns: u128) -> (action:
        SocketAction)
        ensures
            (*final(self), action) == old(self).next(event, interrupted, now_ns),
    {
        match event {
            SocketEvent::Failed => return SocketAction::Fail,
            SocketEvent::Served { stop } => {
                self.last_activity_ns = now_ns;
                if stop {
                    return SocketAction::Stop;
                }
            },
            SocketEvent::Waited => {},
        }
        let idle_ns: u128 = if now_ns >= self.last_activity_ns {
            now_ns - self.last_activity_ns
        } else {
            0
        };
        if daemon::daemon_continues(interrupted, idle_ns) {
            SocketAction::Accept
        } else {
            SocketAction::Stop
        }
    }
}

// ---------------------------------------------------------------------------
// One scan
// ---------------------------------------------------------------------------
/// Where the service of a scan stands.
#[derive(Clone, Copy, Debug, PartialEq, Eq, Structural)]
pub enum ServicePhase {
    /// The configuration is read again.
    Reloading,
    /// A name is looked for that no output has yet.
    Allocating,
    LoadingCalibration,
    Acquiring,
    /// Samples that were not calibrated as they arrived are calibrated now.
    Calibrating,
    Publishing,
    /// The configuration is published beside the output.
    PublishingSnapshot,
    Ended,
}

/// What came of the last action.
#[derive(Clone, Copy, Debug, PartialEq, Eq, Structural)]
pub enum ServiceEvent {
    /// `device_changed`: the port is another one by now. `identified`: the scan
    /// has an identifier.
    Reloaded { device_changed: bool, identified: bool },
    Allocated,
    CalibrationLoaded,
    Acquired { calibrated: bool },
    Calibrated,
    Published,
    SnapshotPublished,
    /// Something failed; a failure of the exchange with the instrument has its
    /// error.
    Failed(Option<ProtocolError>),
}

/// What to announce.
#[derive(Clone, Copy, Debug, PartialEq, Eq, Structural)]
pub enum ServiceNotice {
    Accepted,
    CalibrationLoaded,
    /// The quality of the samples, if there is anything to be said of it.
    Quality,
    Completed,
    Failed(FailureEvent),
}

#[derive(Clone, Copy, Debug, PartialEq, Eq, Structural)]
pub enum ServiceAction {
    Reload,
    Allocate,
    LoadCalibration,
    Acquire,
    Calibrate,
    Publish,
    PublishSnapshot,
    /// Tell the client how the scan ended.
    Reply { ok: bool },
}

/// One step: give up the port if it is another one by now, announce, then act.
#[derive(Clone, Copy, Debug, PartialEq, Eq, Structural)]
pub struct ServiceStep {
    pub replace_port: bool,
    pub notice: Option<ServiceNotice>,
    pub action: ServiceAction,
}

/// One scan that is being served.
#[derive(Clone, Copy, Debug, PartialEq, Eq, Structural)]
pub struct ScanService {
    pub phase: ServicePhase,
}

pub open spec fn plain_step(notice: Option<ServiceNotice>, action: ServiceAction) -> ServiceStep {
    ServiceStep { replace_port: false, notice, action }
}

impl ScanService {
    /// `event` can come of what was asked for last.
    pub open spec fn accepts(self, event: ServiceEvent) -> bool {
        if event is Failed {
            !(self.phase is Ended)
        } else {
            match self.phase {
                ServicePhase::Reloading => event is Reloaded,
                ServicePhase::Allocating => event is Allocated,
                ServicePhase::LoadingCalibration => event is CalibrationLoaded,
                ServicePhase::Acquiring => event is Acquired,
                ServicePhase::Calibrating => event is Calibrated,
                ServicePhase::Publishing => event is Published,
                ServicePhase::PublishingSnapshot => event is SnapshotPublished,
                ServicePhase::Ended => false,
            }
        }
    }

    /// A failure is announced, and the client is told.
    pub open spec fn failing(error: Option<ProtocolError>) -> (ServicePhase, ServiceStep) {
        (
            ServicePhase::Ended,
            plain_step(
                Some(ServiceNotice::Failed(daemon::failure_of(error))),
                ServiceAction::Reply { ok: false },
            ),
        )
    }

    /// The next phase and step.
    pub open spec fn next(event: ServiceEvent) -> (ServicePhase, ServiceStep) {
        match event {
            ServiceEvent::Reloaded { device_changed, identified } => if identified {
                (
                    ServicePhase::Allocating,
                    ServiceStep {
                        replace_port: device_changed,
                        ..plain_step(None, ServiceAction::Allocate)
                    },
                )
            } else {
                (
                    ServicePhase::Ended,
                    ServiceStep {
                        replace_port: device_changed,
                        ..ScanService::failing(None).1
                    },
                )
            },
            ServiceEvent::Allocated => (
                ServicePhase::LoadingCalibration,
                plain_step(Some(ServiceNotice::Accepted), ServiceAction::LoadCalibration),
            ),
            ServiceEvent::CalibrationLoaded => (
                ServicePhase::Acquiring,
                plain_step(Some(ServiceNotice::CalibrationLoaded), ServiceAction::Acquire),
            ),
            ServiceEvent::Acquired { calibrated: false } => (
                ServicePhase::Calibrating,
                plain_step(None, ServiceAction::Calibrate),
            ),
            ServiceEvent::Acquired { calibrated: true } | ServiceEvent::Calibrated => (
                ServicePhase::Publishing,
                plain_step(Some(ServiceNotice::Quality), ServiceAction::Publish),
            ),
            ServiceEvent::Published => (
                ServicePhase::PublishingSnapshot,
                plain_step(None, ServiceAction::PublishSnapshot),
            ),
            ServiceEvent::SnapshotPublished => (
                ServicePhase::Ended,
                plain_step(Some(ServiceNotice::Completed), ServiceAction::Reply { ok: true }),
            ),
            ServiceEvent::Failed(error) => ScanService::failing(error),
        }
    }

    /// A scan whose configuration is to be read first.
    pub fn new() -> (service: ScanService)
        ensures
            service.phase == ServicePhase::Reloading,
    {
        ScanService { phase: ServicePhase::Reloading }
    }

    /// Takes in what came of the last action and says what to do next.
    pub fn step(&mut self, event: ServiceEvent) -> (step: ServiceStep)
        requires
            old(self).accepts(event),
        ensures
            (final(self).phase, step) == ScanService::next(event),
    {
        let (replace_port, notice, action, phase): (
            bool,
            Option<ServiceNotice>,
            ServiceAction,
            ServicePhase,
        ) = match event {
            ServiceEvent::Reloaded { device_changed, identified } => if identified {
                (device_changed, None, ServiceAction::Allocate, ServicePhase::Allocating)
            } else {
                (
                    device_changed,
                    Some(ServiceNotice::Failed(failure_event(None))),
                    ServiceAction::Reply { ok: false },
                    ServicePhase::Ended,
                )
            },
            ServiceEvent::Allocated => (
                false,
                Some(ServiceNotice::Accepted),
                ServiceAction::LoadCalibration,
                ServicePhase::LoadingCalibration,
            ),
            ServiceEvent::CalibrationLoaded => (
                false,
                Some(ServiceNotice::CalibrationLoaded),
                ServiceAction::Acquire,
                ServicePhase::Acquiring,
            ),
            ServiceEvent::Acquired { calibrated: false } => (
                false,
                None,
                ServiceAction::Calibrate,
                ServicePhase::Calibrating,
            ),
            ServiceEvent::Acquired { calibrated: true } | ServiceEvent::Calibrated => (
                false,
                Some(ServiceNotice::Quality),
                ServiceAction::Publish,
                ServicePhase::Publishing,
            ),
            ServiceEvent::Published => (
                false,
                None,
                ServiceAction::PublishSnapshot,
                ServicePhase::PublishingSnapshot,
            ),
            ServiceEvent::SnapshotPublished => (
                false,
                Some(ServiceNotice::Completed),
                ServiceAction::Reply { ok: true },
                ServicePhase::Ended,
            ),
            ServiceEvent::Failed(error) => (
                false,
                Some(ServiceNotice::Failed(failure_event(error))),
                ServiceAction::Reply { ok: false },
                ServicePhase::Ended,
            ),
        };
        self.phase = phase;
        ServiceStep { replace_port, notice, action }
    }
}

// ---------------------------------------------------------------------------
// Laws
// ---------------------------------------------------------------------------
/// What happened at the socket, and when it was seen.
pub struct SocketMoment {
    pub event: SocketEvent,
    pub interrupted: bool,
    pub now_ns: u128,
}

/// The clock after `history`.
pub open spec fn clock_after(start: DaemonClock, history: Seq<SocketMoment>) -> DaemonClock
    decreases history.len(),
{
    if history.len() == 0 {
        start
    } else {
        let last = history.last();
        clock_after(start, history.drop_last()).next(last.event, last.interrupted, last.now_ns).0
    }
}

/// When the last caller was served, or else `start_ns`.
pub open spec fn last_served(start_ns: u128, history: Seq<SocketMoment>) -> u128
    decreases history.len(),
{
    if history.len() == 0 {
        start_ns
    } else if history.last().event is Served {
        history.last().now_ns
    } else {
        last_served(start_ns, history.drop_last())
    }
}

/// Unless it is interrupted, asked to stop or cut off, the daemon stays for the
/// hour that follows its last caller, however many hours it has run, and stops
/// when that hour is over.
pub proof fn law_each_caller_starts_the_hour_anew(start_ns: u128, history: Seq<SocketMoment>)
    requires
        history.len() > 0,
    ensures
        ({
            let start = DaemonClock { last_activity_ns: start_ns };
            let last = history.last();
            let (after, action) = clock_after(start, history.drop_last()).next(
                last.event,
                last.interrupted,
                last.now_ns,
            );
            &&& after.last_activity_ns == last_served(start_ns, history)
            &&& !last.interrupted && !(last.event is Failed) && last.event
                != (SocketEvent::Served { stop: true }) ==> action == if span_ns(
                last_served(start_ns, history),
                last.now_ns,
            ) < PORT_IDLE_NS {
                SocketAction::Accept
            } else {
                SocketAction::Stop
            }
        }),
{
    lemma_clock(start_ns, history.drop_last());
}

proof fn lemma_clock(start_ns: u128, history: Seq<SocketMoment>)
    ensures
        clock_after(DaemonClock { last_activity_ns: start_ns }, history).last_activity_ns
            == last_served(start_ns, history),
    decreases history.len(),
{
    if history.len() > 0 {
        lemma_clock(start_ns, history.drop_last());
    }
}

/// The phase after `history`.
pub open spec fn phase_after(history: Seq<ServiceEvent>) -> ServicePhase {
    if history.len() == 0 {
        ServicePhase::Reloading
    } else {
        ScanService::next(history.last()).0
    }
}

/// Each event of `history` can come of what had been asked for.
pub open spec fn possible(history: Seq<ServiceEvent>) -> bool
    decreases history.len(),
{
    history.len() == 0 || (possible(history.drop_last()) && (ScanService {
        phase: phase_after(history.drop_last()),
    }).accepts(history.last()))
}

/// Where a phase stands in the order of phases.
spec fn place(phase: ServicePhase) -> int {
    match phase {
        ServicePhase::Reloading => 0,
        ServicePhase::Allocating => 1,
        ServicePhase::LoadingCalibration => 2,
        ServicePhase::Acquiring => 3,
        ServicePhase::Calibrating => 4,
        ServicePhase::Publishing => 5,
        ServicePhase::PublishingSnapshot => 6,
        ServicePhase::Ended => 7,
    }
}

/// What has happened by the time a phase is reached.
spec fn reached(phase: ServicePhase, history: Seq<ServiceEvent>) -> bool {
    let at = place(phase);
    &&& at <= 4 ==> history.len() == at
    &&& at >= 1 ==> history.len() > 0 && history[0] is Reloaded
    &&& at >= 2 ==> history.len() > 1 && history[1] is Allocated
    &&& at >= 3 ==> history.len() > 2 && history[2] is CalibrationLoaded
    &&& at >= 4 ==> history.len() > 3 && history[3] is Acquired
    &&& at >= 5 ==> history.len() == at - 1 || (history.len() == at && history[4] is Calibrated)
    &&& at == 6 ==> history.last() is Published
}

proof fn lemma_reached(history: Seq<ServiceEvent>)
    requires
        possible(history),
    ensures
        !(phase_after(history) is Ended) ==> reached(phase_after(history), history),
        phase_after(history) is Ended ==> 0 < history.len() <= 7,
    decreases history.len(),
{
    if history.len() > 0 {
        let before = history.drop_last();
        lemma_reached(before);
        assert(forall|i: int| 0 <= i < before.len() ==> history[i] == before[i]);
        assert(history.last() == history[history.len() - 1]);
    }
}

/// A client is told of success only when its scan was accepted, calibrated and
/// acquired, its output published, and the configuration published beside it, in
/// this order. A step later there is nothing left to do.
pub proof fn law_success_is_told_after_publication(history: Seq<ServiceEvent>)
    requires
        possible(history),
        history.len() > 0,
        ScanService::next(history.last()).1.action == (ServiceAction::Reply { ok: true }),
    ensures
        6 <= history.len() <= 7,
        history[0] is Reloaded,
        history[1] is Allocated,
        history[2] is CalibrationLoaded,
        history[3] is Acquired,
        history.len() == 7 ==> history[4] is Calibrated,
        history[history.len() - 2] is Published,
        history[history.len() - 1] is SnapshotPublished,
        forall|next: ServiceEvent| !possible(#[trigger] history.push(next)),
{
    let before = history.drop_last();
    lemma_reached(before);
    assert(phase_after(before) is PublishingSnapshot);
    assert(forall|i: int| 0 <= i < before.len() ==> history[i] == before[i]);
    assert forall|next: ServiceEvent| !possible(#[trigger] history.push(next)) by {
        assert(history.push(next).drop_last() =~= history);
    }
}

/// Every scan comes to an end within seven events. A scan that fails is
/// announced as failed and its client told so, whatever failed.
pub proof fn law_every_scan_is_answered(history: Seq<ServiceEvent>)
    requires
        possible(history),
        history.len() > 0,
    ensures
        history.len() <= 7,
        phase_after(history) is Ended <==> ScanService::next(history.last()).1.action is Reply,
        history.last() is Failed ==> ScanService::next(history.last()).1 == plain_step(
            Some(ServiceNotice::Failed(daemon::failure_of(history.last()->0))),
            ServiceAction::Reply { ok: false },
        ),
{
    lemma_reached(history);
}

/// A daemon that nobody calls or interrupts goes on for an hour of nanoseconds
/// and then stops. A clock that runs backwards counts as no time.
pub proof fn law_the_hour(clock: DaemonClock, now_ns: u128)
    ensures
        ({
            let (after, action) = clock.next(SocketEvent::Waited, false, now_ns);
            &&& after == clock
            &&& action == if now_ns - clock.last_activity_ns >= 3_600_000_000_000 {
                SocketAction::Stop
            } else {
                SocketAction::Accept
            }
        }),
        clock.next(SocketEvent::Waited, true, now_ns).1 == SocketAction::Stop,
        clock.next(SocketEvent::Served { stop: true }, false, now_ns).1 == SocketAction::Stop,
        clock.next(SocketEvent::Served { stop: false }, false, now_ns).1 == SocketAction::Accept,
        clock.next(SocketEvent::Served { stop: false }, false, now_ns).0.last_activity_ns == now_ns,
        clock.next(SocketEvent::Failed, false, now_ns).1 == SocketAction::Fail,
{
}

/// Each event leads to the next thing to do, and is announced where a client wants
/// to know. The port is given up only if it is another one by now.
pub proof fn law_steps_of_a_scan(event: ServiceEvent)
    ensures
        ({
            let step = ScanService::next(event).1;
            &&& step.replace_port <==> event is Reloaded && event->device_changed
            &&& step.action is Allocate <==> event is Reloaded && event->identified
            &&& step.action is LoadCalibration <==> event is Allocated
            &&& step.action is Acquire <==> event is CalibrationLoaded
            &&& step.action is Calibrate <==> event == (ServiceEvent::Acquired {
                calibrated: false,
            })
            &&& step.action is Publish <==> event is Calibrated || event
                == (ServiceEvent::Acquired { calibrated: true })
            &&& step.action is PublishSnapshot <==> event is Published
            &&& step.action == (ServiceAction::Reply { ok: true }) <==> event is SnapshotPublished
            &&& step.notice == Some(ServiceNotice::Accepted) <==> event is Allocated
            &&& step.notice == Some(ServiceNotice::CalibrationLoaded)
                <==> event is CalibrationLoaded
            &&& step.notice == Some(ServiceNotice::Quality) <==> step.action is Publish
            &&& step.notice == Some(ServiceNotice::Completed) <==> event is SnapshotPublished
        }),
{
}

} // verus!
