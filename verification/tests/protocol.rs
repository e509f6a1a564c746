use minivna::binary64::Binary64;
use minivna::model::{ScanMode, ScanSpec, SpecError};
use minivna::protocol::{
    decode_sample, encode_scan_command, encode_scan_fields, ProtocolError, ScanControl,
    ScanObservation, ScanProgress, ScanResult, ScanTimeouts,
};
use minivna::scan::{ReadFault, ScanAction, ScanEvent, ScanPhase, ScanSession};

fn spec() -> ScanSpec {
    ScanSpec {
        start_hz: 45_000_000,
        stop_hz: 60_000_000,
        points: 2,
        mode: ScanMode::Reflection,
    }
}

const SECOND: u128 = 1_000_000_000;

fn timeouts() -> ScanTimeouts {
    ScanTimeouts { idle_ns: SECOND, overall_ns: SECOND }
}

/// Runs a scan against an instrument that answers with `response`, at most
/// `piece` bytes at a time.
fn drive(
    response: &[u8],
    piece: usize,
    mut observe: impl FnMut(&ScanObservation) -> ScanControl,
) -> (Vec<u8>, usize, Result<ScanResult, ProtocolError>) {
    let fields = encode_scan_fields(&spec()).unwrap();
    let mut session = ScanSession::new(&spec(), timeouts()).unwrap();
    let mut written = Vec::new();
    let mut position = 0;
    let mut action = ScanAction::Write { field: 0 };
    loop {
        let event = match action {
            ScanAction::Write { field } => {
                written.extend_from_slice(&fields[field]);
                ScanEvent::Written
            }
            ScanAction::Observe(observation) => ScanEvent::Answered(observe(&observation)),
            ScanAction::Read { max } => {
                let count = max.min(piece).min(response.len() - position);
                let bytes = response[position..position + count].to_vec();
                position += count;
                ScanEvent::Arrived(bytes)
            }
            ScanAction::Finish => return (written, position, Ok(session.finish(0))),
            ScanAction::Fail(error) => return (written, position, Err(error)),
        };
        action = session.step(event, 0);
    }
}

fn frames() -> Vec<u8> {
    let mut response = vec![0_u8; 24];
    response[0..3].copy_from_slice(&[0x10, 0x27, 0x00]);
    response[3..6].copy_from_slice(&[0x20, 0x4e, 0x00]);
    response[6..9].copy_from_slice(&[0x28, 0x23, 0x00]);
    response[9..12].copy_from_slice(&[0x38, 0x4a, 0x00]);
    response
}

fn bits(value: f64) -> Binary64 {
    Binary64 { bits: value.to_bits() }
}

#[test]
fn command_matches_tiny_protocol() {
    assert_eq!(encode_scan_command(&spec()).unwrap(), b"7\r4500000\r6000000\r2\r\r");
}

#[test]
fn the_fields_of_the_longest_default_scan() {
    let spec = ScanSpec { points: 30_001, ..spec() };
    assert_eq!(encode_scan_command(&spec).unwrap(), b"7\r4500000\r6000000\r30001\r\r");
    let fields = encode_scan_fields(&ScanSpec { mode: ScanMode::Transmission, ..spec }).unwrap();
    assert_eq!(fields[0], b"6\r");
    assert_eq!(fields[1], b"4500000\r");
    assert_eq!(fields[4], b"\r");
    assert_eq!(
        encode_scan_command(&ScanSpec { points: 1, ..spec }),
        Err(SpecError::TooFewPoints(1))
    );
}

#[test]
fn scan_decodes_two_little_endian_24_bit_samples() {
    let mut observed_samples = Vec::new();
    let (written, _, result) = drive(&frames(), 8192, |observation| {
        if let ScanObservation::RawSample { point_index, total_points, sample } = observation {
            observed_samples.push((*point_index, *total_points, *sample));
        }
        ScanControl::Continue
    });
    let result = result.unwrap();
    assert_eq!(written, b"7\r4500000\r6000000\r2\r\r");
    assert_eq!(observed_samples.len(), 2);
    assert_eq!(observed_samples[0].0, 0);
    assert_eq!(observed_samples[0].1, 2);
    assert_eq!(observed_samples[0].2.p1, 10_000);
    assert_eq!(observed_samples[0].2.p2, 9_000);
    assert_eq!(observed_samples[0].2.p3, 20_000);
    assert_eq!(observed_samples[0].2.p4, 19_000);
    assert_eq!(result.samples[0].real, bits(500.0));
    assert_eq!(result.samples[0].imaginary, bits(500.0));
    assert_eq!(result.samples[0].frequency_hz, 45_000_000);
    assert_eq!(result.samples[1].frequency_hz, 60_000_000);
}

#[test]
fn odd_adc_differences_remain_half_units_like_pinned_vnaj() {
    let frame = [
        0x10, 0x27, 0x00, 0x20, 0x4e, 0x00, 0x29, 0x23, 0x00, 0x39, 0x4a, 0x00,
    ];
    let sample = decode_sample(&frame, 45_000_000);
    assert_eq!(sample.real.bits, 499.5_f64.to_bits());
    assert_eq!(sample.imaginary.bits, 499.5_f64.to_bits());
}

#[test]
fn counts_use_all_three_bytes() {
    let frame = [1, 2, 3, 0xff, 0xff, 0xff, 4, 5, 6, 0, 0, 0];
    let sample = decode_sample(&frame, 7);
    assert_eq!(sample.p1, 0x03_0201);
    assert_eq!(sample.p3, 0xff_ffff);
    assert_eq!(sample.p2, 0x06_0504);
    assert_eq!(sample.p4, 0);
    assert_eq!(sample.real, bits((f64::from(0x03_0201) - f64::from(0x06_0504)) / 2.0));
    assert_eq!(sample.imaginary, bits(f64::from(0xff_ffff) / 2.0));
}

#[test]
fn cancellation_drains_the_full_response_before_returning() {
    let mut first_callback = true;
    let (_, position, result) = drive(&[0_u8; 24], 8192, |_| {
        if first_callback {
            first_callback = false;
            ScanControl::Cancel
        } else {
            ScanControl::Continue
        }
    });
    assert!(matches!(
        result.unwrap_err(),
        ProtocolError::Cancelled { received: 24, expected: 24 }
    ));
    assert_eq!(position, 24);
}

#[test]
fn pieces_of_any_size_give_the_same_samples() {
    let whole = drive(&frames(), 24, |_| ScanControl::Continue).2.unwrap().samples;
    for piece in [1, 5, 11, 12, 13] {
        let samples = drive(&frames(), piece, |_| ScanControl::Continue).2.unwrap().samples;
        assert_eq!(samples, whole, "{piece}");
    }
}

#[test]
fn progress_counts_bytes_and_points() {
    let mut seen = Vec::new();
    let (_, _, result) = drive(&frames(), 13, |observation| {
        if let ScanObservation::Progress(progress) = observation {
            seen.push((progress.received_bytes, progress.complete_points));
            assert_eq!(progress.total_bytes, 24);
            assert_eq!(progress.total_points, 2);
        }
        ScanControl::Continue
    });
    assert_eq!(result.unwrap().received_bytes, 24);
    assert_eq!(seen, vec![(0, 0), (13, 1), (24, 2)]);
}

#[test]
fn a_shutdown_ends_the_scan_at_once() {
    let (_, _, result) = drive(&frames(), 12, |observation| match observation {
        ScanObservation::RawSample { .. } => ScanControl::Shutdown,
        _ => ScanControl::Continue,
    });
    assert_eq!(result.unwrap_err(), ProtocolError::Shutdown { received: 12, expected: 24 });
}

/// A session whose command was written at time zero and whose first report
/// was answered at `now_ns`.
fn reported(now_ns: u128) -> (ScanSession, ScanAction) {
    let mut session =
        ScanSession::new(&spec(), ScanTimeouts { idle_ns: 10, overall_ns: 2_000_000_000 }).unwrap();
    for _ in 0..5 {
        session.step(ScanEvent::Written, 0);
    }
    let action = session.step(ScanEvent::Answered(ScanControl::Continue), now_ns);
    (session, action)
}

#[test]
fn deadlines_are_enforced() {
    assert_eq!(reported(9).1, ScanAction::Read { max: 24 });
    assert_eq!(
        reported(10).1,
        ScanAction::Fail(ProtocolError::IdleTimeout {
            idle_ms: 0,
            received: 0,
            expected: 24,
            elapsed_ms: 0,
        })
    );
    assert_eq!(
        reported(2_000_000_000).1,
        ScanAction::Fail(ProtocolError::OverallTimeout {
            limit_ms: 2_000,
            received: 0,
            expected: 24,
        })
    );
}

#[test]
fn only_data_moves_the_idle_clock() {
    let (mut session, _) = reported(5);
    session.step(ScanEvent::ReadFailed(ReadFault::TimedOut), 8);
    let action = session.step(ScanEvent::Answered(ScanControl::Continue), 10);
    assert!(matches!(action, ScanAction::Fail(ProtocolError::IdleTimeout { .. })));

    let (mut session, _) = reported(5);
    let action = session.step(ScanEvent::Arrived(vec![1]), 8);
    assert_eq!(
        action,
        ScanAction::Observe(ScanObservation::Progress(ScanProgress {
            received_bytes: 1,
            total_bytes: 24,
            complete_points: 0,
            total_points: 2,
            elapsed_ns: 8,
        }))
    );
    let action = session.step(ScanEvent::Answered(ScanControl::Continue), 17);
    assert_eq!(action, ScanAction::Read { max: 23 });
}

#[test]
fn faults_that_pass_are_passed_over_and_others_fail() {
    for fault in [ReadFault::TimedOut, ReadFault::WouldBlock, ReadFault::Interrupted] {
        let (mut session, _) = reported(1);
        let action = session.step(ScanEvent::ReadFailed(fault), 2);
        assert!(matches!(action, ScanAction::Observe(ScanObservation::Progress(_))));
        assert_eq!(session.phase(), ScanPhase::Reporting);
    }
    let (mut session, _) = reported(1);
    let action = session.step(ScanEvent::ReadFailed(ReadFault::Other), 2);
    assert_eq!(action, ScanAction::Fail(ProtocolError::Io { received: 0, expected: 24 }));
    assert_eq!(session.phase(), ScanPhase::Ended);
}

#[test]
fn a_field_that_cannot_be_written_fails_the_scan() {
    let mut session = ScanSession::new(&spec(), timeouts()).unwrap();
    assert_eq!(session.step(ScanEvent::Written, 0), ScanAction::Write { field: 1 });
    assert_eq!(
        session.step(ScanEvent::WriteFailed, 0),
        ScanAction::Fail(ProtocolError::Io { received: 0, expected: 24 })
    );
}

#[test]
fn long_answers_are_read_in_slices() {
    let spec = ScanSpec { points: 1_000, ..spec() };
    let mut session = ScanSession::new(&spec, timeouts()).unwrap();
    for _ in 0..5 {
        session.step(ScanEvent::Written, 0);
    }
    let action = session.step(ScanEvent::Answered(ScanControl::Continue), 0);
    assert_eq!(action, ScanAction::Read { max: 8192 });
}

#[test]
fn a_scan_that_is_no_scan_is_not_started() {
    let error = ScanSession::new(&ScanSpec { points: 0, ..spec() }, timeouts()).unwrap_err();
    assert_eq!(error, ProtocolError::InvalidSpec(SpecError::TooFewPoints(0)));
    assert_eq!(error.message(""), "a scan needs at least two points, got 0");
}

#[test]
fn protocol_errors_in_words() {
    assert_eq!(
        ProtocolError::Io { received: 3, expected: 24 }.message("cable gone"),
        "serial I/O failed after 3/24 bytes: cable gone"
    );
    assert_eq!(
        ProtocolError::IdleTimeout { idle_ms: 10, received: 1, expected: 2, elapsed_ms: 30 }
            .message(""),
        "no scan data arrived for 10 ms (1/2 bytes, 30 ms elapsed)"
    );
    assert_eq!(
        ProtocolError::OverallTimeout { limit_ms: 5, received: 1, expected: 2 }.message(""),
        "scan exceeded its hard 5 ms deadline (1/2 bytes received)"
    );
    assert_eq!(
        ProtocolError::Cancelled { received: 24, expected: 24 }.message(""),
        "scan cancelled after 24/24 bytes"
    );
    assert_eq!(
        ProtocolError::Shutdown { received: 0, expected: 24 }.message(""),
        "service shutdown requested after 0/24 bytes"
    );
}
