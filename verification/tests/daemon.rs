use minivna::acquisition::standard_plan;
use minivna::config::{AppConfig, DeviceSettings, LoadedConfig, ScanSettings};
use minivna::daemon::{
    allocation_next, calibration_name, client_next, daemon_continues, device_changed, failure_event,
    is_cancellation, plan_run, request_from_config, run_names, runtime_directory, scan_control,
    socket_name, startup_next, AllocationAction, ClientAction, ClientInput, ControlInput,
    FailureReason, RequestAction, RequestReader, RunPlan, StartupAction, Task,
};
use minivna::model::{OutputFormat, ScanMode};
use minivna::protocol::{ProtocolError, ScanControl};

const SECOND: u128 = 1_000_000_000;

#[test]
fn sockets_are_named_by_a_hash_of_the_configuration() {
    assert_eq!(socket_name(b""), "cbf29ce484222325.sock");
    assert_eq!(socket_name(b"a"), "af63dc4c8601ec8c.sock");
    assert_eq!(socket_name(b"foobar"), "85944171f73967e8.sock");
}

#[test]
fn sockets_live_in_the_runtime_directory() {
    assert_eq!(runtime_directory(&Some(b"/run/user/1".to_vec()), b"/c"), b"/run/user/1/minivna");
    assert_eq!(runtime_directory(&Some(vec![]), b"/c"), b"/c/.minivna-runtime/minivna");
    assert_eq!(runtime_directory(&None, b"/c"), b"/c/.minivna-runtime/minivna");
}

#[test]
fn requests_end_in_a_line_feed() {
    let mut reader = RequestReader::new();
    assert_eq!(reader.take(Some(b'{')), RequestAction::Read);
    assert_eq!(reader.take(Some(b'}')), RequestAction::Read);
    assert_eq!(reader.take(Some(b'\n')), RequestAction::Complete);
    assert_eq!(reader.bytes, b"{}");
    assert_eq!(reader.take(None), RequestAction::Disconnected);
    assert_eq!(
        RequestAction::Disconnected.failure(),
        Some("client disconnected before sending a daemon request")
    );
    assert_eq!(RequestAction::Read.failure(), None);
}

#[test]
fn endless_requests_are_refused() {
    let mut reader = RequestReader::new();
    for _ in 0..65_535 {
        assert_eq!(reader.take(Some(b'x')), RequestAction::Read);
    }
    assert_eq!(reader.take(Some(b'x')), RequestAction::TooLong);
    assert_eq!(RequestAction::TooLong.failure(), Some("daemon request exceeds 65536 bytes"));
}

#[test]
fn the_client_goes_by_what_it_receives() {
    assert_eq!(
        client_next(true, ClientInput::Complete { ok: true, explained: false }),
        ClientAction::Cancel { exit_code: 130 }
    );
    assert_eq!(client_next(false, ClientInput::Event), ClientAction::Relay);
    assert_eq!(
        client_next(false, ClientInput::Complete { ok: true, explained: false }),
        ClientAction::Finish
    );
    assert_eq!(
        client_next(false, ClientInput::Complete { ok: false, explained: true }),
        ClientAction::Fail { reason: FailureReason::Given, exit_code: 1 }
    );
    assert_eq!(
        client_next(false, ClientInput::Complete { ok: false, explained: false }),
        ClientAction::Fail { reason: FailureReason::Unexplained, exit_code: 1 }
    );
    assert_eq!(client_next(false, ClientInput::Invalid), ClientAction::RejectResponse);
    assert_eq!(client_next(false, ClientInput::TimedOut), ClientAction::Wait);
    assert_eq!(client_next(false, ClientInput::Disconnected), ClientAction::LostDaemon);
}

#[test]
fn the_client_waits_five_seconds_for_the_daemon() {
    assert_eq!(startup_next(true, true, true, 9 * SECOND), StartupAction::Interrupted);
    assert_eq!(startup_next(false, true, true, 9 * SECOND), StartupAction::Connected);
    assert_eq!(startup_next(false, false, true, 9 * SECOND), StartupAction::Exited);
    assert_eq!(startup_next(false, false, false, 5 * SECOND), StartupAction::TimedOut);
    assert_eq!(startup_next(false, false, false, 5 * SECOND - 1), StartupAction::Wait);
}

#[test]
fn the_daemon_keeps_the_port_for_an_hour() {
    assert!(daemon_continues(false, 3_600 * SECOND - 1));
    assert!(!daemon_continues(false, 3_600 * SECOND));
    assert!(!daemon_continues(true, 0));
}

#[test]
fn clients_cancel_by_word_or_by_leaving() {
    assert!(is_cancellation(&ControlInput::Line(" Cancel\n".to_owned()), true));
    assert!(!is_cancellation(&ControlInput::Line("go on\n".to_owned()), false));
    assert!(is_cancellation(&ControlInput::Closed, false));
    assert!(!is_cancellation(&ControlInput::Closed, true));
    assert!(is_cancellation(&ControlInput::Failed, false));
    assert!(!is_cancellation(&ControlInput::Failed, true));
}

#[test]
fn a_shutdown_comes_before_a_cancellation() {
    assert_eq!(scan_control(true, true), ScanControl::Shutdown);
    assert_eq!(scan_control(false, true), ScanControl::Cancel);
    assert_eq!(scan_control(false, false), ScanControl::Continue);
}

#[test]
fn failures_are_announced_by_their_kind() {
    let cancelled = failure_event(Some(ProtocolError::Shutdown { received: 0, expected: 1 }));
    assert_eq!((cancelled.event(), cancelled.stage()), ("scan_cancelled", None));
    let failed = failure_event(Some(ProtocolError::Io { received: 0, expected: 1 }));
    assert_eq!((failed.event(), failed.stage()), ("scan_failed", Some("acquisition")));
    let other = failure_event(None);
    assert_eq!((other.event(), other.stage()), ("scan_failed", Some("configuration_or_output")));
}

fn loaded() -> LoadedConfig {
    LoadedConfig {
        settings: AppConfig {
            output: OutputFormat::Json,
            directory_prefix: "VNA_".to_owned(),
            device: DeviceSettings { port: "auto".to_owned() },
            scan: ScanSettings {
                start_hz: 45_000_000,
                stop_hz: 60_000_000,
                points: -1,
                mode: ScanMode::Transmission,
                calibration: "/c.json".to_owned(),
            },
        },
        path: "/etc/minivna.toml".to_owned(),
        directory: "/etc".to_owned(),
        text: "text".to_owned(),
        created: false,
    }
}

#[test]
fn requests_take_everything_from_the_configuration() {
    let request = request_from_config(&loaded(), "scan-1").unwrap();
    assert_eq!(request.id, "scan-1");
    assert_eq!(request.spec.points, 30_001);
    assert_eq!(request.spec.mode, ScanMode::Transmission);
    assert_eq!(request.calibration_path, "/c.json");
    assert_eq!(request.config_path, "/etc/minivna.toml");
    assert_eq!(request.config_snapshot, "text");
    assert_eq!(request.directory_prefix, "VNA_");
    assert_eq!(request.format, OutputFormat::Json);
    assert_eq!(request.plan, standard_plan());
    assert_eq!(request.progress_every_points, 1);
    assert_eq!(request.timeouts.idle_ns, 10 * SECOND);
    assert!(request_from_config(&loaded(), " \t").is_none());
}

#[test]
fn a_new_port_setting_is_noticed() {
    let old = DeviceSettings { port: "auto".to_owned() };
    let new = DeviceSettings { port: "/dev/ttyUSB0".to_owned() };
    assert!(device_changed(&old, &new));
    assert!(!device_changed(&old, &DeviceSettings { port: "auto".to_owned() }));
}

#[test]
fn runs_are_named_by_prefix_and_time() {
    let names = run_names("VNA-D4_", "260725_222204", OutputFormat::Csv);
    assert_eq!(names.directory, "VNA-D4_260725_222204");
    assert_eq!(names.file, "VNA-D4_260725_222204.csv");
    assert_eq!(calibration_name("260725_222204"), "calibration_260725_222204.json");
}

#[test]
fn names_in_use_are_waited_for() {
    assert_eq!(allocation_next(false, 9 * SECOND), AllocationAction::Take);
    assert_eq!(allocation_next(true, 2 * SECOND), AllocationAction::GiveUp);
    assert_eq!(allocation_next(true, 2 * SECOND - 1), AllocationAction::TryAgain);
}

#[test]
fn formats_are_written_only_if_they_are_new() {
    assert_eq!(
        plan_run(true, OutputFormat::Csv, Some(OutputFormat::Json), Task::Help),
        RunPlan {
            announce_created: true,
            persist_output: Some(OutputFormat::Json),
            announce_output: Some(OutputFormat::Json),
            stop_daemon: false,
        }
    );
    assert_eq!(
        plan_run(false, OutputFormat::Csv, Some(OutputFormat::Csv), Task::Calibrate),
        RunPlan {
            announce_created: false,
            persist_output: None,
            announce_output: Some(OutputFormat::Csv),
            stop_daemon: true,
        }
    );
    assert_eq!(
        plan_run(false, OutputFormat::Csv, None, Task::Scan),
        RunPlan {
            announce_created: false,
            persist_output: None,
            announce_output: None,
            stop_daemon: false,
        }
    );
}
