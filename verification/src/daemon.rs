//! The background process that owns the serial port, and the short-lived
//! client that talks to it: what each decides when something happens.
use vstd::prelude::*;

use crate::acquisition::{
    automatic_scan_timeouts, standard_plan, AcquisitionPlan, PROGRESS_EVERY_POINTS,
};
use crate::acquisition;
use crate::config::{AppConfig, DeviceSettings, LoadedConfig};
use crate::model::{OutputFormat, ScanSpec};
use crate::paths;
use crate::protocol::{ProtocolError, ScanControl, ScanTimeouts};
use crate::scan::NANOSECONDS_PER_MILLISECOND;
use crate::text;

verus! {

/// How long the port stays open after the last scan.
pub const PORT_IDLE_NS: u128 = 3_600_000_000_000;

/// How long the client waits for the daemon to come up.
pub const DAEMON_START_TIMEOUT_NS: u128 = 5_000_000_000;

/// How often the client and the daemon look around.
pub const DAEMON_POLL_MS: u64 = 50;

/// The longest request that the daemon reads.
pub const MAX_REQUEST_BYTES: usize = 65_536;

/// How long a free name for an output is looked for.
pub const ALLOCATION_TIMEOUT_NS: u128 = 2_000_000_000;

/// The exit code of a client that was interrupted.
pub const INTERRUPTED_EXIT_CODE: u8 = 130;

// ---------------------------------------------------------------------------
// The socket
// ---------------------------------------------------------------------------
pub const FNV_OFFSET: u64 = 0xcbf2_9ce4_8422_2325;

pub const FNV_PRIME: u64 = 0x100_0000_01b3;

/// The 64-bit FNV-1a hash: each byte is mixed in and the whole multiplied by
/// the prime, modulo two to the power 64.
pub open spec fn fnv(bytes: Seq<u8>) -> u64
    decreases bytes.len(),
{
    if bytes.len() == 0 {
        FNV_OFFSET
    } else {
        vstd::wrapping::u64_specs::wrapping_mul(
            fnv(bytes.drop_last()) ^ (bytes.last() as u64),
            FNV_PRIME,
        )
    }
}

/// The name of the socket of the daemon for a configuration file.
pub open spec fn socket_text(config_path: Seq<u8>) -> Seq<char> {
    text::hex(fnv(config_path) as nat, 16) + ".sock"@
}

pub fn socket_name(config_path: &[u8]) -> (name: String)
    ensures
        name@ == socket_text(config_path@),
{
    let mut hash: u64 = FNV_OFFSET;
    let mut i: usize = 0;
    assert(config_path@.take(0) =~= Seq::empty());
    while i < config_path.len()
        invariant
            i <= config_path.len(),
            hash == fnv(config_path@.take(i as int)),
        decreases config_path.len() - i,
    {
        proof {
            assert(config_path@.take(i + 1).drop_last() =~= config_path@.take(i as int));
        }
        hash = (hash ^ (config_path[i] as u64)).wrapping_mul(FNV_PRIME);
        i = i + 1;
    }
    assert(config_path@.take(i as int) =~= config_path@);
    let mut name: String = String::new();
    text::push_hex(&mut name, hash, 16);
    name.append(".sock");
    assert(name@ =~= text::hex(fnv(config_path@) as nat, 16) + ".sock"@);
    name
}

/// The directory of the sockets: in the runtime directory if one is set, and
/// beside the configuration if not.
pub open spec fn socket_directory(
    xdg_runtime: Option<Vec<u8>>,
    config_directory: Seq<u8>,
) -> Seq<u8> {
    paths::joined(
        match paths::set_value(xdg_runtime) {
            Some(base) => base,
            None => paths::joined(config_directory, paths::bytes_of(".minivna-runtime"@)),
        },
        paths::bytes_of("minivna"@),
    )
}

pub fn runtime_directory(xdg_runtime: &Option<Vec<u8>>, config_directory: &[u8]) -> (directory: Vec<
    u8,
>)
    ensures
        directory@ == socket_directory(*xdg_runtime, config_directory@),
{
    match xdg_runtime {
        Some(base) if base.len() > 0 => paths::join(base.as_slice(), "minivna".as_bytes()),
        _ => {
            let base: Vec<u8> = paths::join(config_directory, ".minivna-runtime".as_bytes());
            paths::join(base.as_slice(), "minivna".as_bytes())
        },
    }
}

// ---------------------------------------------------------------------------
// Requests
// ---------------------------------------------------------------------------
/// What to do about a request that is being read.
#[derive(Clone, Copy, Debug, PartialEq, Eq, Structural)]
pub enum RequestAction {
    /// Read one more byte.
    Read,
    /// The request is complete.
    Complete,
    /// The request is longer than any request is.
    TooLong,
    /// The client is gone.
    Disconnected,
}

/// A request as far as it has arrived, one byte at a time. It ends in a line
/// feed.
#[derive(Debug)]
pub struct RequestReader {
    pub bytes: Vec<u8>,
}

/// A request with one more byte.
pub open spec fn request_after(bytes: Seq<u8>, byte: Option<u8>) -> Seq<u8> {
    match byte {
        Some(byte) if byte != 10 => bytes.push(byte),
        _ => bytes,
    }
}

/// What to do about a request once a byte has come, or none has.
pub open spec fn request_action(bytes: Seq<u8>, byte: Option<u8>) -> RequestAction {
    match byte {
        None => RequestAction::Disconnected,
        Some(10) => RequestAction::Complete,
        Some(_) => if bytes.len() + 1 >= MAX_REQUEST_BYTES {
            RequestAction::TooLong
        } else {
            RequestAction::Read
        },
    }
}

impl RequestReader {
    pub fn new() -> (reader: RequestReader)
        ensures
            reader.bytes@.len() == 0,
    {
        RequestReader { bytes: Vec::new() }
    }

    /// Takes in what one read brought: a byte, or nothing if the client is
    /// gone.
    pub fn take(&mut self, byte: Option<u8>) -> (action: RequestAction)
        requires
            old(self).bytes@.len() < MAX_REQUEST_BYTES,
        ensures
            final(self).bytes@ == request_after(old(self).bytes@, byte),
            action == request_action(old(self).bytes@, byte),
    {
        match byte {
            None => RequestAction::Disconnected,
            Some(byte) => {
                if byte == 10 {
                    return RequestAction::Complete;
                }
                self.bytes.push(byte);
                if self.bytes.len() >= MAX_REQUEST_BYTES {
                    RequestAction::TooLong
                } else {
                    RequestAction::Read
                }
            },
        }
    }
}

impl RequestAction {
    pub open spec fn failure_text(self) -> Option<Seq<char>> {
        match self {
            RequestAction::TooLong => Some("daemon request exceeds 65536 bytes"@),
            RequestAction::Disconnected => Some(
                "client disconnected before sending a daemon request"@,
            ),
            _ => None,
        }
    }

    pub fn failure(self) -> (message: Option<&'static str>)
        ensures
            match (message, self.failure_text()) {
                (Some(message), Some(expected)) => message@ == expected,
                (None, None) => true,
                _ => false,
            },
    {
        match self {
            RequestAction::TooLong => Some("daemon request exceeds 65536 bytes"),
            RequestAction::Disconnected => Some(
                "client disconnected before sending a daemon request",
            ),
            _ => None,
        }
    }
}

// ---------------------------------------------------------------------------
// The client
// ---------------------------------------------------------------------------
/// What the client received while it waited.
#[derive(Clone, Copy, Debug, PartialEq, Eq, Structural)]
pub enum ClientInput {
    /// An event to relay.
    Event,
    /// The scan is over; `explained` says that a failure comes with a reason.
    Complete { ok: bool, explained: bool },
    /// Something that is no response.
    Invalid,
    TimedOut,
    Disconnected,
}

/// The words for a failure that the daemon did not explain.
pub const UNEXPLAINED_FAILURE: &'static str = "background scan failed";

/// Where a failure that the client reports gets its words.
#[derive(Clone, Copy, Debug, PartialEq, Eq, Structural)]
pub enum FailureReason {
    /// The daemon gave them.
    Given,
    /// The daemon gave none.
    Unexplained,
}

#[derive(Clone, Copy, Debug, PartialEq, Eq, Structural)]
pub enum ClientAction {
    /// Ask the daemon to cancel, say so, and exit with this code.
    Cancel { exit_code: u8 },
    Relay,
    Finish,
    /// The scan failed, which has been reported already.
    Fail { reason: FailureReason, exit_code: u8 },
    RejectResponse,
    LostDaemon,
    Wait,
}

/// Before it waits, a client that was interrupted cancels. After that it goes
/// by what it received.
pub open spec fn client_action(interrupted: bool, input: ClientInput) -> ClientAction {
    if interrupted {
        ClientAction::Cancel { exit_code: INTERRUPTED_EXIT_CODE }
    } else {
        match input {
            ClientInput::Event => ClientAction::Relay,
            ClientInput::Complete { ok, explained } => if ok {
                ClientAction::Finish
            } else if explained {
                ClientAction::Fail { reason: FailureReason::Given, exit_code: 1 }
            } else {
                ClientAction::Fail { reason: FailureReason::Unexplained, exit_code: 1 }
            },
            ClientInput::Invalid => ClientAction::RejectResponse,
            ClientInput::TimedOut => ClientAction::Wait,
            ClientInput::Disconnected => ClientAction::LostDaemon,
        }
    }
}

pub fn client_next(interrupted: bool, input: ClientInput) -> (action: ClientAction)
    ensures
        action == client_action(interrupted, input),
{
    if interrupted {
        return ClientAction::Cancel { exit_code: INTERRUPTED_EXIT_CODE };
    }
    match input {
        ClientInput::Event => ClientAction::Relay,
        ClientInput::Complete { ok, explained } => {
            if ok {
                return ClientAction::Finish;
            }
            let reason: FailureReason = if explained {
                FailureReason::Given
            } else {
                FailureReason::Unexplained
            };
            ClientAction::Fail { reason, exit_code: 1 }
        },
        ClientInput::Invalid => ClientAction::RejectResponse,
        ClientInput::TimedOut => ClientAction::Wait,
        ClientInput::Disconnected => ClientAction::LostDaemon,
    }
}

/// What the client sees while the daemon comes up.
#[derive(Clone, Copy, Debug, PartialEq, Eq, Structural)]
pub enum StartupAction {
    Interrupted,
    Connected,
    Exited,
    TimedOut,
    Wait,
}

/// What counts, in this order: an interrupt, a connection, an end of the daemon,
/// the end of patience.
pub open spec fn startup_action(
    interrupted: bool,
    connected: bool,
    exited: bool,
    elapsed_ns: u128,
) -> StartupAction {
    if interrupted {
        StartupAction::Interrupted
    } else if connected {
        StartupAction::Connected
    } else if exited {
        StartupAction::Exited
    } else if elapsed_ns >= DAEMON_START_TIMEOUT_NS {
        StartupAction::TimedOut
    } else {
        StartupAction::Wait
    }
}

/// Decides what to do while the daemon comes up.
pub fn startup_next(interrupted: bool, connected: bool, exited: bool, elapsed_ns: u128) -> (action:
    StartupAction)
    ensures
        action == startup_action(interrupted, connected, exited, elapsed_ns),
{
    if interrupted {
        StartupAction::Interrupted
    } else if connected {
        StartupAction::Connected
    } else if exited {
        StartupAction::Exited
    } else if elapsed_ns >= DAEMON_START_TIMEOUT_NS {
        StartupAction::TimedOut
    } else {
        StartupAction::Wait
    }
}

/// What came of calling the daemon.
#[derive(Clone, Copy, Debug, PartialEq, Eq, Structural)]
pub enum CallOutcome {
    Connected,
    /// There is no socket.
    NotFound,
    /// There is a socket at which nobody listens.
    Refused,
    Failed,
}

#[derive(Clone, Copy, Debug, PartialEq, Eq, Structural)]
pub enum CallAction {
    /// Talk to the daemon.
    Talk,
    /// There is no daemon.
    NoDaemon,
    Fail,
}

/// Decides whether there is a daemon. A client that wants a scan starts one if
/// there is none; one that wants the port for itself has it then.
pub fn call_next(outcome: CallOutcome) -> (action: CallAction)
    ensures
        action == match outcome {
            CallOutcome::Connected => CallAction::Talk,
            CallOutcome::NotFound | CallOutcome::Refused => CallAction::NoDaemon,
            CallOutcome::Failed => CallAction::Fail,
        },
{
    match outcome {
        CallOutcome::Connected => CallAction::Talk,
        CallOutcome::NotFound | CallOutcome::Refused => CallAction::NoDaemon,
        CallOutcome::Failed => CallAction::Fail,
    }
}

/// What a daemon answered that was asked to stop.
#[derive(Clone, Copy, Debug, PartialEq, Eq, Structural)]
pub enum StopReply {
    Complete { ok: bool, explained: bool },
    Event,
}

#[derive(Clone, Copy, Debug, PartialEq, Eq, Structural)]
pub enum StopOutcome {
    Stopped,
    Refused(FailureReason),
    /// The answer is none to the question.
    Unexpected,
}

/// The words for a daemon that does not stop and does not say why.
pub const UNEXPLAINED_REFUSAL: &'static str = "daemon refused shutdown";

/// Whether a daemon that was asked to stop has done so.
pub fn stop_outcome(reply: StopReply) -> (outcome: StopOutcome)
    ensures
        outcome == match reply {
            StopReply::Complete { ok, explained } => if ok {
                StopOutcome::Stopped
            } else if explained {
                StopOutcome::Refused(FailureReason::Given)
            } else {
                StopOutcome::Refused(FailureReason::Unexplained)
            },
            StopReply::Event => StopOutcome::Unexpected,
        },
{
    match reply {
        StopReply::Complete { ok: true, .. } => StopOutcome::Stopped,
        StopReply::Complete { explained: true, .. } => StopOutcome::Refused(FailureReason::Given),
        StopReply::Complete { .. } => StopOutcome::Refused(FailureReason::Unexplained),
        StopReply::Event => StopOutcome::Unexpected,
    }
}

// ---------------------------------------------------------------------------
// The daemon
// ---------------------------------------------------------------------------
/// What a starting daemon finds at its socket.
#[derive(Clone, Copy, Debug, PartialEq, Eq, Structural)]
pub enum BindEvent {
    Absent,
    Present,
    /// Another daemon answers.
    Answered,
    Silent,
    Removed,
    RemoveFailed,
    Bound,
    InUse,
    BindFailed,
}

#[derive(Clone, Copy, Debug, PartialEq, Eq, Structural)]
pub enum BindAction {
    /// Call the socket.
    Probe,
    /// Remove the socket, which nobody listens at.
    Remove,
    Bind,
    Listen,
    /// Leave the socket to the daemon that is there.
    GiveWay,
    Fail,
}

/// A daemon gives way to one that answers. It removes a socket only if nobody
/// answers there, and only before it has tried to listen itself.
pub open spec fn bind_action(tried: bool, event: BindEvent) -> BindAction {
    match event {
        BindEvent::Absent | BindEvent::Removed => BindAction::Bind,
        BindEvent::Present | BindEvent::InUse => BindAction::Probe,
        BindEvent::Answered => BindAction::GiveWay,
        BindEvent::Silent => if tried {
            BindAction::Fail
        } else {
            BindAction::Remove
        },
        BindEvent::Bound => BindAction::Listen,
        BindEvent::RemoveFailed | BindEvent::BindFailed => BindAction::Fail,
    }
}

/// Decides how a daemon gets its socket. `tried` says that it has tried to
/// listen.
pub fn bind_next(tried: bool, event: BindEvent) -> (action: BindAction)
    ensures
        action == bind_action(tried, event),
{
    match event {
        BindEvent::Absent | BindEvent::Removed => BindAction::Bind,
        BindEvent::Present | BindEvent::InUse => BindAction::Probe,
        BindEvent::Answered => BindAction::GiveWay,
        BindEvent::Silent => {
            if tried {
                BindAction::Fail
            } else {
                BindAction::Remove
            }
        },
        BindEvent::Bound => BindAction::Listen,
        BindEvent::RemoveFailed | BindEvent::BindFailed => BindAction::Fail,
    }
}

/// Whether the daemon goes on: until it is interrupted or the port has been
/// idle for an hour.
pub fn daemon_continues(interrupted: bool, idle_ns: u128) -> (answer: bool)
    ensures
        answer == (!interrupted && idle_ns < PORT_IDLE_NS),
{
    !interrupted && idle_ns < PORT_IDLE_NS
}

/// What came over the connection of a client whose scan is running.
#[derive(Debug)]
pub enum ControlInput {
    Line(String),
    Closed,
    Failed,
}

/// A client cancels by saying so, or by going away before its scan is over.
pub open spec fn cancels(input: ControlInput, finished: bool) -> bool {
    match input {
        ControlInput::Line(line) => text::lower(text::trim(line@)) == "cancel"@,
        ControlInput::Closed | ControlInput::Failed => !finished,
    }
}

pub fn is_cancellation(input: &ControlInput, finished: bool) -> (answer: bool)
    ensures
        answer == cancels(*input, finished),
{
    match input {
        ControlInput::Line(line) => {
            let chars: Vec<char> = text::chars_of(line.as_str());
            let lowered: Vec<char> = text::lowered(text::trimmed(chars.as_slice()));
            text::same(lowered.as_slice(), "cancel")
        },
        ControlInput::Closed => !finished,
        ControlInput::Failed => !finished,
    }
}

/// What a running scan is told: a shutdown of the daemon comes before the wish
/// of its client.
pub fn scan_control(interrupted: bool, cancelled: bool) -> (control: ScanControl)
    ensures
        control == if interrupted {
            ScanControl::Shutdown
        } else if cancelled {
            ScanControl::Cancel
        } else {
            ScanControl::Continue
        },
{
    if interrupted {
        ScanControl::Shutdown
    } else if cancelled {
        ScanControl::Cancel
    } else {
        ScanControl::Continue
    }
}

/// How the failure of a scan is announced.
#[derive(Clone, Copy, Debug, PartialEq, Eq, Structural)]
pub enum FailureEvent {
    Cancelled,
    AcquisitionFailed,
    OtherFailed,
}

impl FailureEvent {
    pub open spec fn event_text(self) -> Seq<char> {
        match self {
            FailureEvent::Cancelled => "scan_cancelled"@,
            _ => "scan_failed"@,
        }
    }

    pub open spec fn stage_text(self) -> Option<Seq<char>> {
        match self {
            FailureEvent::Cancelled => None,
            FailureEvent::AcquisitionFailed => Some("acquisition"@),
            FailureEvent::OtherFailed => Some("configuration_or_output"@),
        }
    }

    /// The name of the event.
    pub fn event(self) -> (event: &'static str)
        ensures
            event@ == self.event_text(),
    {
        match self {
            FailureEvent::Cancelled => "scan_cancelled",
            _ => "scan_failed",
        }
    }

    /// The stage that the event names.
    pub fn stage(self) -> (stage: Option<&'static str>)
        ensures
            match (stage, self.stage_text()) {
                (Some(stage), Some(expected)) => stage@ == expected,
                (None, None) => true,
                _ => false,
            },
    {
        match self {
            FailureEvent::Cancelled => None,
            FailureEvent::AcquisitionFailed => Some("acquisition"),
            FailureEvent::OtherFailed => Some("configuration_or_output"),
        }
    }
}

/// The announcement of a failure. Without a protocol error the failure lies
/// outside the exchange with the instrument.
pub open spec fn failure_of(error: Option<ProtocolError>) -> FailureEvent {
    match error {
        Some(ProtocolError::Cancelled { .. }) => FailureEvent::Cancelled,
        Some(ProtocolError::Shutdown { .. }) => FailureEvent::Cancelled,
        Some(_) => FailureEvent::AcquisitionFailed,
        None => FailureEvent::OtherFailed,
    }
}

pub fn failure_event(error: Option<ProtocolError>) -> (event: FailureEvent)
    ensures
        event == failure_of(error),
{
    match error {
        Some(ProtocolError::Cancelled { .. }) => FailureEvent::Cancelled,
        Some(ProtocolError::Shutdown { .. }) => FailureEvent::Cancelled,
        Some(_) => FailureEvent::AcquisitionFailed,
        None => FailureEvent::OtherFailed,
    }
}

/// Whether the port must be given up because its settings have changed.
pub fn device_changed(active: &DeviceSettings, refreshed: &DeviceSettings) -> (answer: bool)
    ensures
        answer == (active.port@ != refreshed.port@),
{
    !text::equal(active.port.as_str(), refreshed.port.as_str())
}

/// The error that a scan has no identifier.
pub const EMPTY_SCAN_ID: &'static str = "scan id cannot be empty";

/// One scan as it was asked for: everything that does not depend on the time.
#[derive(Debug)]
pub struct ScanRequest {
    pub id: String,
    pub spec: ScanSpec,
    pub calibration_path: String,
    pub config_path: String,
    pub config_snapshot: String,
    pub directory_prefix: String,
    pub format: OutputFormat,
    pub timeouts: ScanTimeouts,
    pub plan: AcquisitionPlan,
    pub progress_every_points: usize,
}

/// `request` is the scan `id` of a configuration.
pub open spec fn requests(request: ScanRequest, loaded: LoadedConfig, id: Seq<char>) -> bool {
    &&& request.id@ == id
    &&& request.spec == loaded.settings.spec()
    &&& request.calibration_path@ == loaded.settings.scan.calibration@
    &&& request.config_path@ == loaded.path@
    &&& request.config_snapshot@ == loaded.text@
    &&& request.directory_prefix@ == loaded.settings.directory_prefix@
    &&& request.format == loaded.settings.output
    &&& request.timeouts.idle_ns == acquisition::SCAN_IDLE_TIMEOUT_MS * NANOSECONDS_PER_MILLISECOND
    &&& request.timeouts.overall_ns == acquisition::overall_timeout_ms(request.spec.points as nat)
        * NANOSECONDS_PER_MILLISECOND
    &&& request.plan == (AcquisitionPlan {
        retries: acquisition::SCAN_RETRIES,
        reset_after_cancel: true,
    })
    &&& request.progress_every_points == PROGRESS_EVERY_POINTS
}

/// The scan that a configuration asks for, and none without an identifier.
pub fn request_from_config(loaded: &LoadedConfig, id: &str) -> (request: Option<ScanRequest>)
    ensures
        match request {
            Some(request) => text::trim(id@).len() > 0 && requests(request, *loaded, id@),
            None => text::trim(id@).len() == 0,
        },
{
    if text::blank(id) {
        return None;
    }
    let settings: &AppConfig = &loaded.settings;
    let spec: ScanSpec = settings.scan_spec();
    Some(
        ScanRequest {
            id: text::copy_of(id),
            spec,
            calibration_path: text::copy_of(settings.scan.calibration.as_str()),
            config_path: text::copy_of(loaded.path.as_str()),
            config_snapshot: text::copy_of(loaded.text.as_str()),
            directory_prefix: text::copy_of(settings.directory_prefix.as_str()),
            format: settings.output,
            timeouts: automatic_scan_timeouts(spec.points),
            plan: standard_plan(),
            progress_every_points: PROGRESS_EVERY_POINTS,
        },
    )
}

// ---------------------------------------------------------------------------
// Output names
// ---------------------------------------------------------------------------
/// The directory of a run and its scan file, by their names.
#[derive(Debug)]
pub struct RunNames {
    pub directory: String,
    pub file: String,
}

/// The directory of a run: the prefix and the time.
pub open spec fn run_directory(prefix: Seq<char>, stamp: Seq<char>) -> Seq<char> {
    prefix + stamp
}

/// The scan file of a run: the same with the format's extension.
pub open spec fn run_file(prefix: Seq<char>, stamp: Seq<char>, format: OutputFormat) -> Seq<char> {
    prefix + stamp + "."@ + format.text()
}

/// The names of a run.
pub fn run_names(prefix: &str, stamp: &str, format: OutputFormat) -> (names: RunNames)
    ensures
        names.directory@ == run_directory(prefix@, stamp@),
        names.file@ == run_file(prefix@, stamp@, format),
{
    let mut directory: String = String::new();
    directory.append(prefix);
    directory.append(stamp);
    let mut file: String = String::new();
    file.append(prefix);
    file.append(stamp);
    file.append(".");
    file.append(format.name());
    assert(directory@ =~= prefix@ + stamp@);
    assert(file@ =~= prefix@ + stamp@ + "."@ + format.text());
    RunNames { directory, file }
}

/// The name of a calibration file.
pub open spec fn calibration_file(stamp: Seq<char>) -> Seq<char> {
    "calibration_"@ + stamp + ".json"@
}

pub fn calibration_name(stamp: &str) -> (name: String)
    ensures
        name@ == calibration_file(stamp@),
{
    let mut name: String = String::new();
    name.append("calibration_");
    name.append(stamp);
    name.append(".json");
    assert(name@ =~= "calibration_"@ + stamp@ + ".json"@);
    name
}

#[derive(Clone, Copy, Debug, PartialEq, Eq, Structural)]
pub enum AllocationAction {
    Take,
    GiveUp,
    TryAgain,
}

/// Whether a name is taken for a new output: never one that is in use, and
/// there is no waiting for another for more than two seconds.
pub open spec fn allocation_action(in_use: bool, elapsed_ns: u128) -> AllocationAction {
    if !in_use {
        AllocationAction::Take
    } else if elapsed_ns >= ALLOCATION_TIMEOUT_NS {
        AllocationAction::GiveUp
    } else {
        AllocationAction::TryAgain
    }
}

pub fn allocation_next(in_use: bool, elapsed_ns: u128) -> (action: AllocationAction)
    ensures
        action == allocation_action(in_use, elapsed_ns),
{
    if !in_use {
        AllocationAction::Take
    } else if elapsed_ns >= ALLOCATION_TIMEOUT_NS {
        AllocationAction::GiveUp
    } else {
        AllocationAction::TryAgain
    }
}

// ---------------------------------------------------------------------------
// Runs
// ---------------------------------------------------------------------------
/// What a run was started for.
#[derive(Clone, Copy, Debug, PartialEq, Eq, Structural)]
pub enum Task {
    /// Nothing: the help is shown.
    Help,
    Scan,
    Calibrate,
    Reset,
    Daemon,
}

/// What a run does before its task.
#[derive(Clone, Copy, Debug, PartialEq, Eq, Structural)]
pub struct RunPlan {
    pub announce_created: bool,
    /// Write this output format to the configuration and read it again.
    pub persist_output: Option<OutputFormat>,
    pub announce_output: Option<OutputFormat>,
    /// Stop the daemon, so that the task has the port for itself.
    pub stop_daemon: bool,
}

/// An output format that was asked for is announced, and written if it is a
/// new one. Only what talks to the instrument itself needs the port.
pub open spec fn plan_of(
    created: bool,
    current: OutputFormat,
    requested: Option<OutputFormat>,
    task: Task,
) -> RunPlan {
    RunPlan {
        announce_created: created,
        persist_output: if requested == Some(current) {
            None
        } else {
            requested
        },
        announce_output: requested,
        stop_daemon: task == Task::Calibrate || task == Task::Reset,
    }
}

pub fn plan_run(
    created: bool,
    current: OutputFormat,
    requested: Option<OutputFormat>,
    task: Task,
) -> (plan: RunPlan)
    ensures
        plan == plan_of(created, current, requested, task),
{
    RunPlan {
        announce_created: created,
        persist_output: match requested {
            Some(requested) if requested != current => Some(requested),
            _ => None,
        },
        announce_output: requested,
        stop_daemon: task == Task::Calibrate || task == Task::Reset,
    }
}

// ---------------------------------------------------------------------------
// Laws
// ---------------------------------------------------------------------------
/// An interrupt is heard whatever else happened, and only then does a client
/// exit with the code of an interrupt.
pub proof fn law_interrupt_comes_first(interrupted: bool, input: ClientInput)
    ensures
        client_action(interrupted, input) is Cancel <==> interrupted,
        client_action(true, input) == (ClientAction::Cancel { exit_code: 130 }),
        client_action(interrupted, input) is Finish ==> !interrupted && input is Complete
            && input->ok,
{
}

/// The hash of no bytes is the FNV offset, and each byte is mixed into the lowest
/// bits before the whole is multiplied by the FNV prime, modulo two to the power
/// 64.
pub proof fn law_hash_grows_byte_by_byte(bytes: Seq<u8>, byte: u8)
    ensures
        fnv(Seq::empty()) as int == 14_695_981_039_346_656_037int,
        fnv(bytes.push(byte)) as int == ((fnv(bytes) ^ (byte as u64)) as int * 1_099_511_628_211)
            % 18_446_744_073_709_551_616int,
{
    assert(bytes.push(byte).drop_last() =~= bytes);
}

/// A client cancels with the word `cancel`, in any case and with white space
/// around it, and by going away before its scan is over.
pub proof fn law_cancellation(line: String, finished: bool)
    ensures
        cancels(ControlInput::Line(line), finished) <==> text::spells(
            text::trim(line@),
            "cancel"@,
        ),
        cancels(ControlInput::Closed, finished) <==> !finished,
        cancels(ControlInput::Failed, finished) <==> !finished,
{
    reveal_strlit("cancel");
    text::law_spelling(text::trim(line@), "cancel"@);
}

/// What a daemon finds at its socket: it never removes a socket at which somebody
/// answers, or one that appeared after it had tried to listen itself.
pub proof fn law_only_dead_sockets_are_removed(tried: bool, event: BindEvent)
    ensures
        bind_action(tried, event) is Remove <==> event is Silent && !tried,
        bind_action(tried, event) is GiveWay <==> event is Answered,
        bind_action(tried, event) is Listen <==> event is Bound,
        bind_action(tried, event) is Bind <==> event is Absent || event is Removed,
        bind_action(tried, event) is Probe <==> event is Present || event is InUse,
{
}

/// A scan that somebody stopped is announced as cancelled, any other failure of
/// the exchange with the instrument as one of the acquisition.
pub proof fn law_announced_failures(error: ProtocolError)
    ensures
        failure_of(Some(error)) == FailureEvent::Cancelled <==> error is Cancelled
            || error is Shutdown,
        failure_of(Some(error)) == FailureEvent::AcquisitionFailed <==> !(error is Cancelled
            || error is Shutdown),
        failure_of(None) == FailureEvent::OtherFailed,
{
}

/// A request is all bytes before the first line feed, in their order. It is too
/// long once 65536 bytes have come without one.
pub proof fn law_request_is_what_was_sent(input: Seq<u8>, byte: u8)
    requires
        !input.contains(10),
        input.len() < 65_536,
    ensures
        request_received(input) == input,
        request_after(input, Some(10)) == input,
        request_action(input, Some(10)) == RequestAction::Complete,
        request_after(input, None) == input,
        request_action(input, None) == RequestAction::Disconnected,
        byte != 10 ==> request_after(input, Some(byte)) == input.push(byte),
        byte != 10 ==> request_action(input, Some(byte)) == if input.len() == 65_535 {
            RequestAction::TooLong
        } else {
            RequestAction::Read
        },
    decreases input.len(),
{
    if input.len() > 0 {
        let front = input.drop_last();
        assert(!front.contains(10)) by {
            if front.contains(10) {
                let i = choose|i: int| 0 <= i < front.len() && front[i] == 10;
                assert(input[i] == 10);
            }
        }
        law_request_is_what_was_sent(front, byte);
        assert(input.contains(input.last()));
        assert(front.push(input.last()) =~= input);
    }
}

/// What has been received of a request after the bytes `input`.
pub open spec fn request_received(input: Seq<u8>) -> Seq<u8>
    decreases input.len(),
{
    if input.len() == 0 {
        Seq::empty()
    } else {
        request_after(request_received(input.drop_last()), Some(input.last()))
    }
}

/// The directory of a run is its prefix and its time, and the file in it has the
/// directory's name and the extension of its format. Another time gives another
/// directory.
pub proof fn law_names_of_a_run(prefix: Seq<char>, stamp: Seq<char>, other: Seq<char>)
    ensures
        run_directory(prefix, stamp).take(prefix.len() as int) == prefix,
        run_directory(prefix, stamp).skip(prefix.len() as int) == stamp,
        run_file(prefix, stamp, OutputFormat::Csv) == run_directory(prefix, stamp) + ".csv"@,
        run_file(prefix, stamp, OutputFormat::Json) == run_directory(prefix, stamp) + ".json"@,
        run_directory(prefix, stamp) == run_directory(prefix, other) ==> stamp == other,
{
    reveal_strlit(".");
    reveal_strlit("csv");
    reveal_strlit("json");
    reveal_strlit(".csv");
    reveal_strlit(".json");
    assert(run_directory(prefix, stamp).take(prefix.len() as int) =~= prefix);
    assert(run_directory(prefix, stamp).skip(prefix.len() as int) =~= stamp);
    assert(run_directory(prefix, other).skip(prefix.len() as int) =~= other);
    assert("."@ + "csv"@ =~= ".csv"@);
    assert("."@ + "json"@ =~= ".json"@);
    assert(run_file(prefix, stamp, OutputFormat::Csv) =~= run_directory(prefix, stamp) + ".csv"@);
    assert(run_file(prefix, stamp, OutputFormat::Json) =~= run_directory(prefix, stamp) + ".json"@);
}

/// A calibration file has its time between its name and its extension. Another
/// time gives another file.
pub proof fn law_names_of_calibrations(stamp: Seq<char>, other: Seq<char>)
    ensures
        text::starts_with(calibration_file(stamp), "calibration_"@),
        text::ends_with(calibration_file(stamp), ".json"@),
        calibration_file(stamp).subrange(12, 12int + stamp.len()) == stamp,
        calibration_file(stamp).len() == stamp.len() + 17,
        calibration_file(stamp) == calibration_file(other) ==> stamp == other,
{
    reveal_strlit("calibration_");
    reveal_strlit(".json");
    let name = calibration_file(stamp);
    assert(name.take(12) =~= "calibration_"@);
    assert(name.skip(name.len() - 5) =~= ".json"@);
    assert(name.subrange(12, 12int + stamp.len()) =~= stamp);
    assert(calibration_file(other).subrange(12, 12int + other.len()) =~= other);
}

/// A socket is named by sixteen hexadecimal digits, those of the hash of its
/// configuration file.
pub proof fn law_names_of_sockets(config_path: Seq<u8>)
    ensures
        socket_text(config_path).len() == 21,
        socket_text(config_path).take(16) == text::hex(fnv(config_path) as nat, 16),
        text::ends_with(socket_text(config_path), ".sock"@),
{
    reveal_strlit(".sock");
    text::law_hex_digits(fnv(config_path) as nat, 16, 0);
    assert(socket_text(config_path).take(16) =~= text::hex(fnv(config_path) as nat, 16));
    assert(socket_text(config_path).skip(16) =~= ".sock"@);
}

/// The sockets are in the runtime directory if one is set, and in a hidden
/// directory beside the configuration if not.
pub proof fn law_place_of_the_sockets(xdg_runtime: Option<Vec<u8>>, config_directory: Seq<u8>)
    requires
        xdg_runtime matches Some(base) ==> base@.len() > 0 ==> base@.last() != 47,
        config_directory.len() > 0,
        config_directory.last() != 47,
    ensures
        socket_directory(xdg_runtime, config_directory) == if xdg_runtime is Some
            && xdg_runtime->0@.len() > 0 {
            xdg_runtime->0@ + paths::bytes_of("/minivna"@)
        } else {
            config_directory + paths::bytes_of("/.minivna-runtime/minivna"@)
        },
{
    reveal_strlit("minivna");
    reveal_strlit("/minivna");
    reveal_strlit(".minivna-runtime");
    reveal_strlit("/.minivna-runtime/minivna");
    vstd::utf8::is_ascii_chars_encode_utf8("minivna"@);
    vstd::utf8::is_ascii_chars_encode_utf8("/minivna"@);
    vstd::utf8::is_ascii_chars_encode_utf8(".minivna-runtime"@);
    vstd::utf8::is_ascii_chars_encode_utf8("/.minivna-runtime/minivna"@);
    let name = paths::bytes_of("minivna"@);
    let hidden = paths::bytes_of(".minivna-runtime"@);
    let slash = seq![47u8];
    assert(name.len() == 7 && hidden.len() == 16);
    assert(name[0] == 'm' as u8);
    assert(hidden[0] == '.' as u8);
    assert(hidden[15] == 'e' as u8);
    let short = paths::bytes_of("/minivna"@);
    assert forall|i: int| 0 <= i < 8 implies (slash + name)[i] == short[i] by {
        if i > 0 {
            assert(name[i - 1] == "minivna"@[i - 1] as u8);
            assert("minivna"@[i - 1] == "/minivna"@[i]);
        }
        assert(short[i] == "/minivna"@[i] as u8);
    }
    assert(slash + name =~= short);
    let long = paths::bytes_of("/.minivna-runtime/minivna"@);
    let parts = slash + hidden + slash + name;
    assert forall|i: int| 0 <= i < 25 implies parts[i] == long[i] by {
        assert(long[i] == "/.minivna-runtime/minivna"@[i] as u8);
        if 1 <= i < 17 {
            assert(parts[i] == hidden[i - 1]);
            assert(hidden[i - 1] == ".minivna-runtime"@[i - 1] as u8);
            assert(".minivna-runtime"@[i - 1] == "/.minivna-runtime/minivna"@[i]);
        } else if i >= 18 {
            assert(parts[i] == name[i - 18]);
            assert(name[i - 18] == "minivna"@[i - 18] as u8);
            assert("minivna"@[i - 18] == "/.minivna-runtime/minivna"@[i]);
        }
    }
    assert(parts =~= long);
    if xdg_runtime is Some && xdg_runtime->0@.len() > 0 {
        assert(socket_directory(xdg_runtime, config_directory) =~= xdg_runtime->0@ + (slash + name));
    } else {
        let base = paths::joined(config_directory, hidden);
        assert(base == config_directory + slash + hidden);
        assert(base.last() == hidden[15]);
        assert(socket_directory(xdg_runtime, config_directory) =~= config_directory + parts);
    }
}

/// While the daemon comes up an interrupt counts most, then a connection, then its
/// end, and patience lasts five seconds.
pub proof fn law_patience_at_startup(
    interrupted: bool,
    connected: bool,
    exited: bool,
    elapsed_ns: u128,
)
    ensures
        ({
            let action = startup_action(interrupted, connected, exited, elapsed_ns);
            let undecided = !interrupted && !connected && !exited;
            &&& action is Interrupted <==> interrupted
            &&& action is Connected <==> connected && !interrupted
            &&& action is Exited <==> exited && !interrupted && !connected
            &&& action is TimedOut <==> undecided && elapsed_ns >= 5_000_000_000
            &&& action is Wait <==> undecided && elapsed_ns < 5_000_000_000
        }),
{
}

/// A name that is in use is never taken, and after two seconds none is looked for.
pub proof fn law_free_names(in_use: bool, elapsed_ns: u128)
    ensures
        allocation_action(in_use, elapsed_ns) is Take <==> !in_use,
        allocation_action(in_use, elapsed_ns) is GiveUp <==> in_use && elapsed_ns >= 2_000_000_000,
        allocation_action(in_use, elapsed_ns) is TryAgain <==> in_use && elapsed_ns < 2_000_000_000,
{
}

/// A run writes an output format only if it was asked for and is a new one, and
/// stops the daemon only to calibrate or reset.
pub proof fn law_plan_of_a_run(
    created: bool,
    current: OutputFormat,
    requested: Option<OutputFormat>,
    task: Task,
)
    ensures
        ({
            let plan = plan_of(created, current, requested, task);
            &&& plan.announce_created == created
            &&& plan.announce_output == requested
            &&& plan.persist_output is Some <==> requested is Some && requested->0 != current
            &&& plan.persist_output is Some ==> plan.persist_output == requested
            &&& plan.stop_daemon <==> task is Calibrate || task is Reset
        }),
{
}

/// A scan that is requested is that of the configuration: its range, points and
/// mode, its calibration, the file itself and its text, its prefix and format. It
/// may be idle for ten seconds, is retried twice, and reports every point.
pub proof fn law_requested_scans(request: ScanRequest, loaded: LoadedConfig, id: Seq<char>)
    requires
        requests(request, loaded, id),
    ensures
        request.id@ == id,
        request.spec.start_hz == loaded.settings.scan.start_hz,
        request.spec.stop_hz == loaded.settings.scan.stop_hz,
        request.spec.mode == loaded.settings.scan.mode,
        2 <= loaded.settings.scan.points <= usize::MAX ==> request.spec.points
            == loaded.settings.scan.points,
        request.calibration_path@ == loaded.settings.scan.calibration@,
        request.config_path@ == loaded.path@,
        request.config_snapshot@ == loaded.text@,
        request.directory_prefix@ == loaded.settings.directory_prefix@,
        request.format == loaded.settings.output,
        request.timeouts.idle_ns == 10_000_000_000,
        request.spec.points <= 30_001 ==> request.timeouts.overall_ns >= 300_000_000_000
            && request.timeouts.overall_ns >= 25_000_000 * request.spec.points + 30_000_000_000,
        request.plan.retries == 2,
        request.plan.reset_after_cancel,
        request.progress_every_points == 1,
{
}

} // verus!
