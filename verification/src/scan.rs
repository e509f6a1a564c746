//! One wire-level scan as a machine that decides what to do next.
//!
//! The machine never touches the serial port. It asks for a field to be
//! written, an observer to be told, or bytes to be read, and is handed what
//! came of it together with the time. It keeps two independent clocks: an idle
//! deadline that moves only when bytes arrive, and a hard overall deadline that
//! never moves.
use vstd::prelude::*;
use vstd::slice::slice_subrange;

use crate::model::{RawSample, ScanSpec, BYTES_PER_SAMPLE};
use crate::model;
use crate::protocol::{
    decode_frame, ProtocolError, ScanControl, ScanObservation, ScanProgress, ScanResult,
    ScanTimeouts,
};
use crate::protocol;

verus! {

/// The most bytes that one read asks for.
pub const READ_SIZE: usize = 8192;

/// The number of fields of a scan command.
pub const COMMAND_FIELDS: usize = 5;

pub const NANOSECONDS_PER_MILLISECOND: u128 = 1_000_000;

/// Where a scan stands.
#[derive(Clone, Copy, Debug, PartialEq, Eq, Structural)]
pub enum ScanPhase {
    /// The field with this index is being written.
    Writing(usize),
    /// The observer is being told of the progress.
    Reporting,
    /// The observer is being told of a sample.
    Sampling,
    /// Bytes are being read.
    Reading,
    /// The scan is over.
    Ended,
}

/// Why a read brought nothing.
#[derive(Clone, Copy, Debug, PartialEq, Eq, Structural)]
pub enum ReadFault {
    TimedOut,
    WouldBlock,
    Interrupted,
    Other,
}

/// What came of the last action.
#[derive(Debug)]
pub enum ScanEvent {
    /// The field was written and flushed.
    Written,
    WriteFailed,
    /// What the observer answered.
    Answered(ScanControl),
    /// What a read brought; nothing at all counts as no data.
    Arrived(Vec<u8>),
    ReadFailed(ReadFault),
}

/// What to do next.
#[derive(Clone, Copy, Debug, PartialEq, Eq, Structural)]
pub enum ScanAction {
    /// Write and flush the command field with this index.
    Write { field: usize },
    Observe(ScanObservation),
    /// Read at most `max` bytes.
    Read { max: usize },
    Finish,
    Fail(ProtocolError),
}

/// The state of a scan.
#[verifier::ext_equal]
pub struct ScanState {
    pub spec: ScanSpec,
    pub timeouts: ScanTimeouts,
    pub phase: ScanPhase,
    pub bytes: Seq<u8>,
    pub samples: Seq<RawSample>,
    pub cancelled: bool,
    pub started_ns: u128,
    pub last_data_ns: u128,
}

/// The sample at `index` of the answer `bytes`.
pub open spec fn sample_at(spec: ScanSpec, bytes: Seq<u8>, index: int) -> RawSample {
    protocol::frame_sample(
        bytes.subrange(index * BYTES_PER_SAMPLE, (index + 1) * BYTES_PER_SAMPLE),
        spec.label(index),
    )
}

/// All complete samples of the answer `bytes`.
pub open spec fn decode_all(spec: ScanSpec, bytes: Seq<u8>) -> Seq<RawSample> {
    Seq::new(
        (bytes.len() / BYTES_PER_SAMPLE as nat) as nat,
        |index: int| sample_at(spec, bytes, index),
    )
}

/// The time from `earlier` to `later`, or nothing if it ran backwards.
pub open spec fn span_ns(earlier: u128, later: u128) -> u128 {
    if later >= earlier {
        (later - earlier) as u128
    } else {
        0
    }
}

impl ScanState {
    /// The length of a full answer.
    pub open spec fn expected(self) -> int {
        self.spec.points * BYTES_PER_SAMPLE
    }

    pub open spec fn complete_points(self) -> int {
        self.bytes.len() as int / BYTES_PER_SAMPLE as int
    }

    /// What holds of every scan.
    pub open spec fn valid(self) -> bool {
        &&& self.spec.valid()
        &&& self.bytes.len() <= self.expected()
        &&& self.samples.len() <= self.complete_points()
        &&& forall|i: int|
            0 <= i < self.samples.len() ==> #[trigger] self.samples[i] == sample_at(
                self.spec,
                self.bytes,
                i,
            )
        &&& match self.phase {
            ScanPhase::Writing(field) => field < COMMAND_FIELDS && self.bytes.len() == 0
                && !self.cancelled,
            ScanPhase::Reporting => self.samples.len() == self.complete_points(),
            ScanPhase::Sampling => self.samples.len() < self.complete_points(),
            ScanPhase::Reading => self.samples.len() == self.complete_points()
                && self.bytes.len() < self.expected(),
            ScanPhase::Ended => true,
        }
    }

    /// The scan ended with the full answer, every sample of it decoded and
    /// shown to the observer, and nobody asked to cancel it.
    pub open spec fn finished(self) -> bool {
        &&& self.phase == ScanPhase::Ended
        &&& !self.cancelled
        &&& self.bytes.len() == self.expected()
        &&& self.samples == decode_all(self.spec, self.bytes)
        &&& self.samples.len() == self.spec.points
    }

    /// `result` is what the scan brought, told at `now_ns`.
    pub open spec fn results_in(self, result: ScanResult, now_ns: u128) -> bool {
        &&& result.samples@ == decode_all(self.spec, self.bytes)
        &&& result.received_bytes == self.bytes.len()
        &&& result.elapsed_ns == span_ns(self.started_ns, now_ns)
    }

    /// How many bytes the next read may bring.
    pub open spec fn room(self) -> int {
        if self.expected() - self.bytes.len() < READ_SIZE {
            self.expected() - self.bytes.len()
        } else {
            READ_SIZE as int
        }
    }

    /// `event` can come of what the scan asked for last.
    pub open spec fn accepts(self, event: ScanEvent) -> bool {
        match self.phase {
            ScanPhase::Writing(_) => event is Written || event is WriteFailed,
            ScanPhase::Reporting | ScanPhase::Sampling => event is Answered,
            ScanPhase::Reading => match event {
                ScanEvent::Arrived(bytes) => bytes@.len() <= self.room(),
                ScanEvent::ReadFailed(_) => true,
                _ => false,
            },
            ScanPhase::Ended => false,
        }
    }

    pub open spec fn progress(self, now_ns: u128) -> ScanProgress {
        ScanProgress {
            received_bytes: self.bytes.len() as usize,
            total_bytes: self.expected() as usize,
            complete_points: self.complete_points() as usize,
            total_points: self.spec.points,
            elapsed_ns: span_ns(self.started_ns, now_ns),
        }
    }

    /// The scan ends here.
    pub open spec fn ended(self) -> ScanState {
        ScanState { phase: ScanPhase::Ended, ..self }
    }

    pub open spec fn failing(self, error: ProtocolError) -> (ScanState, ScanAction) {
        (self.ended(), ScanAction::Fail(error))
    }

    /// The observer is told of the next sample that is complete, and of the
    /// progress once it knows all of them.
    pub open spec fn observing(self, now_ns: u128) -> (ScanState, ScanAction) {
        if self.samples.len() < self.complete_points() {
            (
                ScanState { phase: ScanPhase::Sampling, ..self },
                ScanAction::Observe(
                    ScanObservation::RawSample {
                        point_index: self.samples.len() as usize,
                        total_points: self.spec.points,
                        sample: sample_at(self.spec, self.bytes, self.samples.len() as int),
                    },
                ),
            )
        } else {
            (
                ScanState { phase: ScanPhase::Reporting, ..self },
                ScanAction::Observe(ScanObservation::Progress(self.progress(now_ns))),
            )
        }
    }

    pub open spec fn received(self) -> usize {
        self.bytes.len() as usize
    }

    /// What follows a progress report that did not shut the scan down.
    pub open spec fn reported(self, now_ns: u128) -> (ScanState, ScanAction) {
        let received = self.received();
        let expected = self.expected() as usize;
        if received == expected {
            if self.cancelled {
                self.failing(ProtocolError::Cancelled { received, expected })
            } else {
                (self.ended(), ScanAction::Finish)
            }
        } else if span_ns(self.started_ns, now_ns) >= self.timeouts.overall_ns {
            self.failing(
                ProtocolError::OverallTimeout {
                    limit_ms: self.timeouts.overall_ns / NANOSECONDS_PER_MILLISECOND,
                    received,
                    expected,
                },
            )
        } else if span_ns(self.last_data_ns, now_ns) >= self.timeouts.idle_ns {
            self.failing(
                ProtocolError::IdleTimeout {
                    idle_ms: self.timeouts.idle_ns / NANOSECONDS_PER_MILLISECOND,
                    received,
                    expected,
                    elapsed_ms: span_ns(self.started_ns, now_ns) / NANOSECONDS_PER_MILLISECOND,
                },
            )
        } else {
            (
                ScanState { phase: ScanPhase::Reading, ..self },
                ScanAction::Read { max: self.room() as usize },
            )
        }
    }

    /// The next state and the next action.
    pub open spec fn next(self, event: ScanEvent, now_ns: u128) -> (ScanState, ScanAction) {
        let received = self.received();
        let expected = self.expected() as usize;
        match (self.phase, event) {
            (ScanPhase::Writing(field), ScanEvent::Written) => if field + 1 < COMMAND_FIELDS {
                (
                    ScanState { phase: ScanPhase::Writing((field + 1) as usize), ..self },
                    ScanAction::Write { field: (field + 1) as usize },
                )
            } else {
                (ScanState { started_ns: now_ns, last_data_ns: now_ns, ..self }).observing(now_ns)
            },
            (ScanPhase::Writing(_), _) => self.failing(ProtocolError::Io { received: 0, expected }),
            (_, ScanEvent::Answered(ScanControl::Shutdown)) => self.failing(
                ProtocolError::Shutdown { received, expected },
            ),
            (ScanPhase::Reporting, ScanEvent::Answered(control)) => (ScanState {
                cancelled: self.cancelled || control == ScanControl::Cancel,
                ..self
            }).reported(now_ns),
            (ScanPhase::Sampling, ScanEvent::Answered(control)) => (ScanState {
                cancelled: self.cancelled || control == ScanControl::Cancel,
                samples: self.samples.push(
                    sample_at(self.spec, self.bytes, self.samples.len() as int),
                ),
                ..self
            }).observing(now_ns),
            (_, ScanEvent::Arrived(bytes)) => if bytes@.len() == 0 {
                self.observing(now_ns)
            } else {
                (ScanState {
                    bytes: self.bytes + bytes@,
                    last_data_ns: now_ns,
                    ..self
                }).observing(now_ns)
            },
            (_, ScanEvent::ReadFailed(ReadFault::Other)) => self.failing(
                ProtocolError::Io { received, expected },
            ),
            _ => self.observing(now_ns),
        }
    }
}

/// A scan in progress.
#[derive(Debug)]
pub struct ScanSession {
    spec: ScanSpec,
    timeouts: ScanTimeouts,
    phase: ScanPhase,
    bytes: Vec<u8>,
    samples: Vec<RawSample>,
    cancelled: bool,
    started_ns: u128,
    last_data_ns: u128,
}

impl View for ScanSession {
    type V = ScanState;

    closed spec fn view(&self) -> ScanState {
        ScanState {
            spec: self.spec,
            timeouts: self.timeouts,
            phase: self.phase,
            bytes: self.bytes@,
            samples: self.samples@,
            cancelled: self.cancelled,
            started_ns: self.started_ns,
            last_data_ns: self.last_data_ns,
        }
    }
}

/// The state in which a scan starts: its first field is to be written.
pub open spec fn initial(spec: ScanSpec, timeouts: ScanTimeouts) -> ScanState {
    ScanState {
        spec,
        timeouts,
        phase: ScanPhase::Writing(0),
        bytes: Seq::empty(),
        samples: Seq::empty(),
        cancelled: false,
        started_ns: 0,
        last_data_ns: 0,
    }
}

fn elapsed(earlier: u128, later: u128) -> (span: u128)
    ensures
        span == span_ns(earlier, later),
{
    if later >= earlier {
        later - earlier
    } else {
        0
    }
}

impl ScanSession {
    pub open spec fn well_formed(self) -> bool {
        self@.valid()
    }

    /// A scan that has yet to write its command.
    pub fn new(spec: &ScanSpec, timeouts: ScanTimeouts) -> (session: Result<
        ScanSession,
        ProtocolError,
    >)
        ensures
            match session {
                Ok(session) => spec.valid() && session.well_formed() && session@ == initial(
                    *spec,
                    timeouts,
                ),
                Err(error) => spec.verdict() is Err && error == ProtocolError::InvalidSpec(
                    spec.verdict()->Err_0,
                ),
            },
    {
        if let Err(error) = spec.validate() {
            return Err(ProtocolError::InvalidSpec(error));
        }
        let session: ScanSession = ScanSession {
            spec: *spec,
            timeouts,
            phase: ScanPhase::Writing(0),
            bytes: Vec::new(),
            samples: Vec::new(),
            cancelled: false,
            started_ns: 0,
            last_data_ns: 0,
        };
        assert(session@ =~= initial(*spec, timeouts));
        Ok(session)
    }

    /// Where the scan stands.
    pub fn phase(&self) -> (phase: ScanPhase)
        ensures
            phase == self@.phase,
    {
        self.phase
    }

    /// The length of a full answer.
    fn expected(&self) -> (expected: usize)
        requires
            self@.spec.valid(),
        ensures
            expected == self@.expected(),
    {
        self.spec.points * BYTES_PER_SAMPLE
    }

    fn fail(&mut self, error: ProtocolError) -> (action: ScanAction)
        requires
            old(self).well_formed(),
        ensures
            final(self).well_formed(),
            (final(self)@, action) == old(self)@.failing(error),
    {
        self.phase = ScanPhase::Ended;
        assert(self@ =~= old(self)@.ended());
        ScanAction::Fail(error)
    }

    fn observe(&mut self, now_ns: u128) -> (action: ScanAction)
        requires
            old(self).well_formed(),
        ensures
            final(self).well_formed(),
            (final(self)@, action) == old(self)@.observing(now_ns),
    {
        let complete: usize = self.bytes.len() / BYTES_PER_SAMPLE;
        if self.samples.len() < complete {
            self.phase = ScanPhase::Sampling;
            let index: usize = self.samples.len();
            let sample: RawSample = self.sample(index);
            assert(self@ =~= (ScanState { phase: ScanPhase::Sampling, ..old(self)@ }));
            ScanAction::Observe(
                ScanObservation::RawSample {
                    point_index: index,
                    total_points: self.spec.points,
                    sample,
                },
            )
        } else {
            self.phase = ScanPhase::Reporting;
            assert(self@ =~= (ScanState { phase: ScanPhase::Reporting, ..old(self)@ }));
            ScanAction::Observe(
                ScanObservation::Progress(
                    ScanProgress {
                        received_bytes: self.bytes.len(),
                        total_bytes: self.expected(),
                        complete_points: complete,
                        total_points: self.spec.points,
                        elapsed_ns: elapsed(self.started_ns, now_ns),
                    },
                ),
            )
        }
    }

    /// The sample at `index`, which is complete.
    fn sample(&self, index: usize) -> (sample: RawSample)
        requires
            self@.spec.valid(),
            self@.bytes.len() <= self@.expected(),
            index < self@.complete_points(),
        ensures
            sample == sample_at(self@.spec, self@.bytes, index as int),
    {
        proof {
            model::lemma_label_range(self.spec, index as int);
        }
        let offset: usize = index * BYTES_PER_SAMPLE;
        let frame: &[u8] = slice_subrange(
            self.bytes.as_slice(),
            offset,
            offset + BYTES_PER_SAMPLE,
        );
        assert(frame@ =~= self@.bytes.subrange(
            index * BYTES_PER_SAMPLE,
            (index + 1) * BYTES_PER_SAMPLE,
        ));
        decode_frame(frame, self.spec.frequency_at(index))
    }

    fn report(&mut self, now_ns: u128) -> (action: ScanAction)
        requires
            old(self).well_formed(),
            old(self)@.samples.len() == old(self)@.complete_points(),
        ensures
            final(self).well_formed(),
            (final(self)@, action) == old(self)@.reported(now_ns),
    {
        let received: usize = self.bytes.len();
        let expected: usize = self.expected();
        if received == expected {
            if self.cancelled {
                return self.fail(ProtocolError::Cancelled { received, expected });
            }
            self.phase = ScanPhase::Ended;
            assert(self@ =~= old(self)@.ended());
            return ScanAction::Finish;
        }
        if elapsed(self.started_ns, now_ns) >= self.timeouts.overall_ns {
            let limit_ms: u128 = self.timeouts.overall_ns / NANOSECONDS_PER_MILLISECOND;
            return self.fail(ProtocolError::OverallTimeout { limit_ms, received, expected });
        }
        if elapsed(self.last_data_ns, now_ns) >= self.timeouts.idle_ns {
            let idle_ms: u128 = self.timeouts.idle_ns / NANOSECONDS_PER_MILLISECOND;
            let elapsed_ms: u128 = elapsed(self.started_ns, now_ns) / NANOSECONDS_PER_MILLISECOND;
            return self.fail(
                ProtocolError::IdleTimeout { idle_ms, received, expected, elapsed_ms },
            );
        }
        self.phase = ScanPhase::Reading;
        assert(self@ =~= (ScanState { phase: ScanPhase::Reading, ..old(self)@ }));
        let left: usize = expected - received;
        ScanAction::Read {
            max: if left < READ_SIZE {
                left
            } else {
                READ_SIZE
            },
        }
    }

    /// Takes in what came of the last action and says what to do next.
    pub fn step(&mut self, event: ScanEvent, now_ns: u128) -> (action: ScanAction)
        requires
            old(self).well_formed(),
            old(self)@.accepts(event),
        ensures
            final(self).well_formed(),
            (final(self)@, action) == old(self)@.next(event, now_ns),
            action is Finish ==> final(self)@.finished(),
    {
        proof {
            law_scan_stays_valid(self@, event, now_ns);
            law_success_means_a_full_answer(self@, event, now_ns);
        }
        let received: usize = self.bytes.len();
        let expected: usize = self.expected();
        match self.phase {
            ScanPhase::Writing(field) => {
                if let ScanEvent::Written = event {
                    if field + 1 < COMMAND_FIELDS {
                        self.phase = ScanPhase::Writing(field + 1);
                        assert(self@ =~= (ScanState {
                            phase: ScanPhase::Writing((field + 1) as usize),
                            ..old(self)@
                        }));
                        return ScanAction::Write { field: field + 1 };
                    }
                    self.started_ns = now_ns;
                    self.last_data_ns = now_ns;
                    assert(self@ =~= (ScanState {
                        started_ns: now_ns,
                        last_data_ns: now_ns,
                        ..old(self)@
                    }));
                    return self.observe(now_ns);
                }
                self.fail(ProtocolError::Io { received: 0, expected })
            },
            ScanPhase::Reporting => {
                if let ScanEvent::Answered(control) = event {
                    match control {
                        ScanControl::Shutdown => {
                            return self.fail(ProtocolError::Shutdown { received, expected });
                        },
                        ScanControl::Cancel => {
                            self.cancelled = true;
                        },
                        ScanControl::Continue => {},
                    }
                    assert(self@ =~= (ScanState {
                        cancelled: old(self)@.cancelled || control == ScanControl::Cancel,
                        ..old(self)@
                    }));
                    return self.report(now_ns);
                }
                self.observe(now_ns)
            },
            ScanPhase::Sampling => {
                if let ScanEvent::Answered(control) = event {
                    match control {
                        ScanControl::Shutdown => {
                            return self.fail(ProtocolError::Shutdown { received, expected });
                        },
                        ScanControl::Cancel => {
                            self.cancelled = true;
                        },
                        ScanControl::Continue => {},
                    }
                    let sample: RawSample = self.sample(self.samples.len());
                    self.samples.push(sample);
                    // The phase is settled by what is observed next.
                    self.phase = ScanPhase::Ended;
                    let ghost answered = ScanState {
                        cancelled: old(self)@.cancelled || control == ScanControl::Cancel,
                        samples: old(self)@.samples.push(sample),
                        ..old(self)@
                    };
                    assert(self@ =~= answered.ended());
                    assert(answered.ended().observing(now_ns) == answered.observing(now_ns));
                    return self.observe(now_ns);
                }
                self.observe(now_ns)
            },
            ScanPhase::Reading => match event {
                ScanEvent::Arrived(bytes) => {
                    if bytes.len() == 0 {
                        return self.observe(now_ns);
                    }
                    self.bytes.extend_from_slice(bytes.as_slice());
                    self.last_data_ns = now_ns;
                    self.phase = ScanPhase::Ended;
                    let ghost arrived = ScanState {
                        bytes: old(self)@.bytes + bytes@,
                        last_data_ns: now_ns,
                        ..old(self)@
                    };
                    assert(self@ =~= arrived.ended());
                    assert(arrived.ended().observing(now_ns) == arrived.observing(now_ns));
                    proof {
                        lemma_samples_survive(old(self)@, bytes@);
                    }
                    self.observe(now_ns)
                },
                ScanEvent::ReadFailed(ReadFault::Other) => self.fail(
                    ProtocolError::Io { received, expected },
                ),
                _ => self.observe(now_ns),
            },
            ScanPhase::Ended => self.observe(now_ns),
        }
    }

    /// The result of a scan that has finished.
    pub fn finish(self, now_ns: u128) -> (result: ScanResult)
        requires
            self.well_formed(),
            self@.finished(),
        ensures
            self@.results_in(result, now_ns),
    {
        ScanResult {
            elapsed_ns: elapsed(self.started_ns, now_ns),
            received_bytes: self.bytes.len(),
            samples: self.samples,
        }
    }
}

/// What has been decoded stays what it is when more bytes arrive.
proof fn lemma_samples_survive(state: ScanState, more: Seq<u8>)
    requires
        state.valid(),
    ensures
        forall|i: int|
            0 <= i < state.samples.len() ==> #[trigger] state.samples[i] == sample_at(
                state.spec,
                state.bytes + more,
                i,
            ),
{
    assert forall|i: int| 0 <= i < state.samples.len() implies #[trigger] state.samples[i]
        == sample_at(state.spec, state.bytes + more, i) by {
        assert((i + 1) * BYTES_PER_SAMPLE <= state.bytes.len());
        assert((state.bytes + more).subrange(i * BYTES_PER_SAMPLE, (i + 1) * BYTES_PER_SAMPLE)
            =~= state.bytes.subrange(i * BYTES_PER_SAMPLE, (i + 1) * BYTES_PER_SAMPLE));
    }
}

// ---------------------------------------------------------------------------
// Laws
// ---------------------------------------------------------------------------
/// Every step of a valid scan leads to a valid scan.
pub proof fn law_scan_stays_valid(state: ScanState, event: ScanEvent, now_ns: u128)
    requires
        state.valid(),
        state.accepts(event),
    ensures
        state.next(event, now_ns).0.valid(),
{
    if let ScanEvent::Arrived(bytes) = event {
        lemma_samples_survive(state, bytes@);
    }
}

/// A scan succeeds only with its full answer, all samples decoded from it in
/// order, and only if nobody asked to cancel it.
pub proof fn law_success_means_a_full_answer(state: ScanState, event: ScanEvent, now_ns: u128)
    requires
        state.valid(),
        state.accepts(event),
    ensures
        state.next(event, now_ns).1 is Finish ==> state.next(event, now_ns).0.finished(),
{
    if state.next(event, now_ns).1 is Finish {
        let end = state.next(event, now_ns).0;
        law_scan_stays_valid(state, event, now_ns);
        assert(state.phase == ScanPhase::Reporting);
        assert(end.complete_points() == end.spec.points);
        assert(end.samples =~= decode_all(end.spec, end.bytes));
    }
}

/// A scan never asks for more than its answer still lacks, nor for nothing,
/// and asks for nothing once a deadline has passed.
pub proof fn law_reads_stay_within_the_answer(state: ScanState, event: ScanEvent, now_ns: u128)
    requires
        state.valid(),
        state.accepts(event),
    ensures
        state.next(event, now_ns).1 matches ScanAction::Read { max } ==> {
            &&& 0 < max <= READ_SIZE
            &&& state.bytes.len() + max <= state.expected()
            &&& span_ns(state.started_ns, now_ns) < state.timeouts.overall_ns
            &&& span_ns(state.last_data_ns, now_ns) < state.timeouts.idle_ns
        },
{
}

/// Only bytes that arrive move the idle clock, and nothing moves the overall
/// clock once the command is written.
pub proof fn law_clocks(state: ScanState, event: ScanEvent, now_ns: u128)
    requires
        state.valid(),
        state.accepts(event),
        !(state.phase is Writing),
    ensures
        state.next(event, now_ns).0.started_ns == state.started_ns,
        state.next(event, now_ns).0.last_data_ns == if event is Arrived
            && event->Arrived_0@.len() > 0 {
            now_ns
        } else {
            state.last_data_ns
        },
        state.next(event, now_ns).0.timeouts == state.timeouts,
{
}

/// A sequence of events, each with its time.
pub type ScanHistory = Seq<(ScanEvent, u128)>;

/// The state after `history`.
pub open spec fn run(state: ScanState, history: ScanHistory) -> ScanState
    decreases history.len(),
{
    if history.len() == 0 {
        state
    } else {
        run(state, history.drop_last()).next(history.last().0, history.last().1).0
    }
}

/// The last action that `history` led to.
pub open spec fn last_action(state: ScanState, history: ScanHistory) -> ScanAction {
    run(state, history.drop_last()).next(history.last().0, history.last().1).1
}

/// Each event of `history` can come of what the scan had asked for.
pub open spec fn possible(state: ScanState, history: ScanHistory) -> bool
    decreases history.len(),
{
    history.len() == 0 || (possible(state, history.drop_last()) && run(
        state,
        history.drop_last(),
    ).accepts(history.last().0))
}

/// All bytes that arrived, whatever pieces they came in.
pub open spec fn delivered(history: ScanHistory) -> Seq<u8>
    decreases history.len(),
{
    if history.len() == 0 {
        Seq::empty()
    } else {
        delivered(history.drop_last()) + match history.last().0 {
            ScanEvent::Arrived(bytes) => bytes@,
            _ => Seq::empty(),
        }
    }
}

/// A scan holds exactly the bytes that arrived.
pub proof fn law_no_byte_is_lost(state: ScanState, history: ScanHistory)
    requires
        state.valid(),
        possible(state, history),
    ensures
        run(state, history).valid(),
        run(state, history).spec == state.spec,
        run(state, history).bytes == state.bytes + delivered(history),
    decreases history.len(),
{
    if history.len() > 0 {
        law_no_byte_is_lost(state, history.drop_last());
        let before = run(state, history.drop_last());
        law_scan_stays_valid(before, history.last().0, history.last().1);
    }
    assert(run(state, history).bytes =~= state.bytes + delivered(history));
}

/// The samples of a scan that succeeds depend on the bytes that arrived alone:
/// not on the pieces in which they arrived, the times, or failed reads.
pub proof fn law_pieces_do_not_matter(spec: ScanSpec, timeouts: ScanTimeouts, history: ScanHistory)
    requires
        spec.valid(),
        history.len() > 0,
        possible(initial(spec, timeouts), history),
        last_action(initial(spec, timeouts), history) is Finish,
    ensures
        run(initial(spec, timeouts), history).samples == decode_all(spec, delivered(history)),
        delivered(history).len() == spec.points * BYTES_PER_SAMPLE,
{
    let start = initial(spec, timeouts);
    law_no_byte_is_lost(start, history);
    law_no_byte_is_lost(start, history.drop_last());
    law_success_means_a_full_answer(
        run(start, history.drop_last()),
        history.last().0,
        history.last().1,
    );
    assert(start.bytes + delivered(history) =~= delivered(history));
}

/// A scan that was asked to cancel never succeeds, and it reports the
/// cancellation only after it has taken in its full answer, so that no byte
/// of it is left for the next scan.
pub proof fn law_cancelling_drains_the_answer(state: ScanState, history: ScanHistory)
    requires
        state.valid(),
        state.cancelled,
        possible(state, history),
    ensures
        run(state, history).cancelled,
        history.len() > 0 ==> !(last_action(state, history) is Finish),
        history.len() > 0 && last_action(state, history) is Fail && last_action(
            state,
            history,
        )->Fail_0 is Cancelled ==> run(state, history).bytes.len() == state.expected(),
    decreases history.len(),
{
    if history.len() > 0 {
        law_cancelling_drains_the_answer(state, history.drop_last());
        law_no_byte_is_lost(state, history.drop_last());
    }
}

/// Whoever asks to cancel is heard, whatever is being observed.
pub proof fn law_cancelling_is_heard(state: ScanState, now_ns: u128)
    requires
        state.valid(),
        state.phase is Reporting || state.phase is Sampling,
    ensures
        state.next(ScanEvent::Answered(ScanControl::Cancel), now_ns).0.cancelled,
        state.next(ScanEvent::Answered(ScanControl::Shutdown), now_ns).1 == ScanAction::Fail(
            ProtocolError::Shutdown {
                received: state.received(),
                expected: state.expected() as usize,
            },
        ),
{
}

/// The five fields of the command are written first, and the exchange stops
/// at the first one that fails.
pub proof fn law_command_comes_first(
    spec: ScanSpec,
    timeouts: ScanTimeouts,
    history: ScanHistory,
)
    requires
        spec.valid(),
        possible(initial(spec, timeouts), history),
    ensures
        forall|i: int|
            0 <= i < history.len() && i < COMMAND_FIELDS ==> (#[trigger] history[i]).0 is Written
                || (history[i].0 is WriteFailed && i == history.len() - 1),
{
    let start = initial(spec, timeouts);
    assert forall|i: int| 0 <= i < history.len() && i < COMMAND_FIELDS implies (
    #[trigger] history[i]).0 is Written || (history[i].0 is WriteFailed && i == history.len()
        - 1) by {
        lemma_prefix_possible(start, history, i + 1);
        lemma_prefix_possible(start, history, i);
        lemma_writing(spec, timeouts, history, i);
        assert(history.take(i + 1).drop_last() =~= history.take(i));
        if history[i].0 is WriteFailed && i < history.len() - 1 {
            lemma_prefix_possible(start, history, i + 2);
            assert(history.take(i + 2).drop_last() =~= history.take(i + 1));
            assert(run(start, history.take(i + 1)).phase is Ended);
        }
    }
}

/// Whatever comes first in a possible history is possible itself.
proof fn lemma_prefix_possible(state: ScanState, history: ScanHistory, n: int)
    requires
        possible(state, history),
        0 <= n <= history.len(),
    ensures
        possible(state, history.take(n)),
    decreases history.len(),
{
    if n == history.len() {
        assert(history.take(n) =~= history);
    } else {
        lemma_prefix_possible(state, history.drop_last(), n);
        assert(history.drop_last().take(n) =~= history.take(n));
    }
}

/// Before its event `i`, one of the first five, a scan that goes on is writing
/// field `i`.
proof fn lemma_writing(spec: ScanSpec, timeouts: ScanTimeouts, history: ScanHistory, i: int)
    requires
        possible(initial(spec, timeouts), history),
        0 <= i < history.len(),
        i < COMMAND_FIELDS,
    ensures
        run(initial(spec, timeouts), history.take(i)).phase == ScanPhase::Writing(i as usize),
    decreases i,
{
    let start = initial(spec, timeouts);
    if i > 0 {
        lemma_writing(spec, timeouts, history, i - 1);
        lemma_prefix_possible(start, history, i);
        lemma_prefix_possible(start, history, i + 1);
        assert(history.take(i).drop_last() =~= history.take(i - 1));
        assert(history.take(i + 1).drop_last() =~= history.take(i));
    } else {
        assert(history.take(0).len() == 0);
    }
}

/// Each sample of an answer is read from its own twelve bytes, in the order in
/// which they arrived, and is labelled with the frequency of its place.
pub proof fn law_samples_are_in_their_places(spec: ScanSpec, bytes: Seq<u8>, i: int)
    requires
        spec.valid(),
        0 <= i < spec.points,
        12 * (i + 1) <= bytes.len(),
    ensures
        i < decode_all(spec, bytes).len(),
        decode_all(spec, bytes).len() == bytes.len() / 12,
        ({
            let sample = decode_all(spec, bytes)[i];
            &&& sample == sample_at(spec, bytes, i)
            &&& sample.frequency_hz == spec.start_hz + (spec.stop_hz - spec.start_hz) / (spec.points
                - 1) * i
            &&& sample.p1 == bytes[12 * i] + 256 * bytes[12 * i + 1] + 65536 * bytes[12 * i + 2]
            &&& sample.p3 == bytes[12 * i + 3] + 256 * bytes[12 * i + 4] + 65536 * bytes[12 * i + 5]
            &&& sample.p2 == bytes[12 * i + 6] + 256 * bytes[12 * i + 7] + 65536 * bytes[12 * i + 8]
            &&& sample.p4 == bytes[12 * i + 9] + 256 * bytes[12 * i + 10] + 65536 * bytes[12 * i
                + 11]
            &&& sample.real.is_halves(sample.p1 - sample.p2)
            &&& sample.imaginary.is_halves(sample.p3 - sample.p4)
        }),
{
    let frame = bytes.subrange(i * BYTES_PER_SAMPLE, (i + 1) * BYTES_PER_SAMPLE);
    model::lemma_label_range(spec, i);
    protocol::law_frame_is_read_byte_by_byte(frame, spec.label(i) as u64);
}

/// The observer is shown the samples one after the other, each once it is
/// complete, and then how far the scan has come: the bytes received out of twelve
/// for each point, the points complete, and the time since the command was
/// written.
pub proof fn law_observations_are_true(state: ScanState, event: ScanEvent, now_ns: u128)
    requires
        state.valid(),
        state.accepts(event),
    ensures
        ({
            let (after, action) = state.next(event, now_ns);
            action matches ScanAction::Observe(observation) ==> match observation {
                ScanObservation::RawSample { point_index, total_points, sample } => {
                    &&& point_index == after.samples.len()
                    &&& total_points == state.spec.points
                    &&& 12 * (point_index + 1) <= after.bytes.len()
                    &&& sample == sample_at(state.spec, after.bytes, point_index as int)
                },
                ScanObservation::Progress(progress) => {
                    &&& progress.received_bytes == after.bytes.len()
                    &&& progress.total_bytes == 12 * state.spec.points
                    &&& progress.complete_points == after.bytes.len() / 12
                    &&& progress.complete_points == after.samples.len()
                    &&& progress.total_points == state.spec.points
                    &&& progress.elapsed_ns == if now_ns >= after.started_ns {
                        now_ns - after.started_ns
                    } else {
                        0
                    }
                },
            }
        }),
{
}

/// After a report a scan ends if it has its full answer, as cancelled if it was
/// asked to. Else it fails if the time since its command has reached the overall
/// limit, or the time since the last bytes the idle limit, and reads on
/// otherwise: what is missing, and 8192 bytes at most.
pub proof fn law_deadlines(state: ScanState, control: ScanControl, now_ns: u128)
    requires
        state.valid(),
        state.phase is Reporting,
        control != ScanControl::Shutdown,
        now_ns >= state.started_ns,
        now_ns >= state.last_data_ns,
    ensures
        ({
            let action = state.next(ScanEvent::Answered(control), now_ns).1;
            let received = state.bytes.len();
            let expected = 12 * state.spec.points;
            let cancelled = state.cancelled || control == ScanControl::Cancel;
            let total = now_ns - state.started_ns;
            let idle = now_ns - state.last_data_ns;
            if received == expected {
                if cancelled {
                    action == ScanAction::Fail(
                        ProtocolError::Cancelled {
                            received: received as usize,
                            expected: expected as usize,
                        },
                    )
                } else {
                    action is Finish
                }
            } else if total >= state.timeouts.overall_ns {
                action == ScanAction::Fail(
                    ProtocolError::OverallTimeout {
                        limit_ms: state.timeouts.overall_ns / 1_000_000,
                        received: received as usize,
                        expected: expected as usize,
                    },
                )
            } else if idle >= state.timeouts.idle_ns {
                action == ScanAction::Fail(
                    ProtocolError::IdleTimeout {
                        idle_ms: state.timeouts.idle_ns / 1_000_000,
                        received: received as usize,
                        expected: expected as usize,
                        elapsed_ms: (total / 1_000_000) as u128,
                    },
                )
            } else {
                action == (ScanAction::Read {
                    max: (if expected - received < 8192 {
                        expected - received
                    } else {
                        8192
                    }) as usize,
                })
            }
        }),
{
}

/// A read that brings nothing, or fails in passing, ends in another report. One
/// that fails for good ends the scan, with the count of what had arrived.
pub proof fn law_failed_reads(state: ScanState, fault: ReadFault, now_ns: u128)
    requires
        state.valid(),
        state.phase is Reading,
    ensures
        ({
            let (after, action) = state.next(ScanEvent::ReadFailed(fault), now_ns);
            if fault is Other {
                action == ScanAction::Fail(
                    ProtocolError::Io {
                        received: state.bytes.len() as usize,
                        expected: (12 * state.spec.points) as usize,
                    },
                ) && after.phase is Ended
            } else {
                action is Observe && after.phase is Reporting
            }
        }),
        state.next(ScanEvent::ReadFailed(fault), now_ns).0.bytes == state.bytes,
        state.next(ScanEvent::ReadFailed(fault), now_ns).0.samples == state.samples,
{
}

/// The time between two moments is their distance, and none if the clock ran
/// backwards.
pub proof fn law_elapsed_time(earlier: u128, later: u128)
    ensures
        later >= earlier ==> earlier + span_ns(earlier, later) == later,
        later <= earlier ==> span_ns(earlier, later) == 0,
{
}

/// The fields of the command are written one after the other. When the last of
/// them is written both clocks start, and the observer is told that nothing has
/// arrived. A field that cannot be written fails the scan.
pub proof fn law_command_is_written_field_by_field(state: ScanState, field: usize, now_ns: u128)
    requires
        state.valid(),
        state.phase == ScanPhase::Writing(field),
    ensures
        ({
            let (after, action) = state.next(ScanEvent::Written, now_ns);
            &&& field < 5
            &&& field < 4 ==> action == (ScanAction::Write { field: (field + 1) as usize })
                && after.phase == ScanPhase::Writing((field + 1) as usize)
            &&& field == 4 ==> {
                &&& action == ScanAction::Observe(
                    ScanObservation::Progress(
                        ScanProgress {
                            received_bytes: 0,
                            total_bytes: (12 * state.spec.points) as usize,
                            complete_points: 0,
                            total_points: state.spec.points,
                            elapsed_ns: 0,
                        },
                    ),
                )
                &&& after.phase is Reporting
                &&& after.started_ns == now_ns && after.last_data_ns == now_ns
            }
        }),
        state.next(ScanEvent::WriteFailed, now_ns).1 == ScanAction::Fail(
            ProtocolError::Io { received: 0, expected: (12 * state.spec.points) as usize },
        ),
{
}

/// What arrives is put behind what had arrived, and whatever is new is shown. A
/// sample that was shown is kept, and nobody cancels a scan but who asks for it.
pub proof fn law_what_arrives_is_kept_and_shown(
    state: ScanState,
    bytes: Vec<u8>,
    control: ScanControl,
    now_ns: u128,
)
    requires
        state.valid(),
        control != ScanControl::Shutdown,
    ensures
        state.phase is Reading && bytes@.len() <= state.room() ==> {
            let (after, action) = state.next(ScanEvent::Arrived(bytes), now_ns);
            &&& after.bytes == state.bytes + bytes@
            &&& after.samples == state.samples
            &&& after.cancelled == state.cancelled
            &&& action is Observe
        },
        state.phase is Sampling ==> {
            let (after, action) = state.next(ScanEvent::Answered(control), now_ns);
            &&& after.bytes == state.bytes
            &&& after.samples == state.samples.push(
                sample_at(state.spec, state.bytes, state.samples.len() as int),
            )
            &&& after.cancelled == (state.cancelled || control == ScanControl::Cancel)
            &&& action is Observe
        },
        state.phase is Reporting ==> {
            let after = state.next(ScanEvent::Answered(control), now_ns).0;
            &&& after.bytes == state.bytes
            &&& after.samples == state.samples
            &&& after.cancelled == (state.cancelled || control == ScanControl::Cancel)
        },
{
    assert(state.bytes + Seq::<u8>::empty() =~= state.bytes);
    if bytes@.len() == 0 {
        assert(bytes@ =~= Seq::empty());
    }
}

/// The result of a finished scan has a sample for each point, read from its own
/// twelve bytes, all bytes that were asked for, and the time since the command was
/// written.
pub proof fn law_result_of_a_scan(state: ScanState, result: ScanResult, now_ns: u128, i: int)
    requires
        state.valid(),
        state.finished(),
        state.results_in(result, now_ns),
        0 <= i < state.spec.points,
    ensures
        result.samples@.len() == state.spec.points,
        result.samples@[i] == sample_at(state.spec, state.bytes, i),
        result.samples@[i] == state.samples[i],
        result.received_bytes == 12 * state.spec.points,
        now_ns >= state.started_ns ==> result.elapsed_ns == now_ns - state.started_ns,
{
}

} // verus!
