//! The wire protocol of the miniVNA Tiny: the scan command, the 12-byte sample
//! frames, and the exchange that performs one scan.
use vstd::prelude::*;

use crate::binary64::Binary64;
use crate::binary64;
use crate::model::{RawSample, ScanMode, ScanSpec, SpecError, BYTES_PER_SAMPLE};
use crate::text;

verus! {

// ---------------------------------------------------------------------------
// What a scan is given and what it reports
// ---------------------------------------------------------------------------
/// How long a scan may take, in nanoseconds.
#[derive(Clone, Copy, Debug, PartialEq, Eq, Structural)]
pub struct ScanTimeouts {
    pub idle_ns: u128,
    pub overall_ns: u128,
}

/// How far a scan has come.
#[derive(Clone, Copy, Debug, PartialEq, Eq, Structural)]
pub struct ScanProgress {
    pub received_bytes: usize,
    pub total_bytes: usize,
    pub complete_points: usize,
    pub total_points: usize,
    pub elapsed_ns: u128,
}

/// What a scan tells its observer.
#[derive(Clone, Copy, Debug, PartialEq, Eq, Structural)]
pub enum ScanObservation {
    Progress(ScanProgress),
    RawSample { point_index: usize, total_points: usize, sample: RawSample },
}

/// What the observer answers.
#[derive(Clone, Copy, Debug, PartialEq, Eq, Structural)]
pub enum ScanControl {
    Continue,
    Cancel,
    Shutdown,
}

/// A finished scan.
#[derive(Debug)]
pub struct ScanResult {
    pub samples: Vec<RawSample>,
    pub elapsed_ns: u128,
    pub received_bytes: usize,
}

/// Why a scan did not finish. The text of a serial I/O failure stays with
/// whoever made the failing call.
#[derive(Clone, Copy, Debug, PartialEq, Eq, Structural)]
pub enum ProtocolError {
    InvalidSpec(SpecError),
    Io { received: usize, expected: usize },
    IdleTimeout { idle_ms: u128, received: usize, expected: usize, elapsed_ms: u128 },
    OverallTimeout { limit_ms: u128, received: usize, expected: usize },
    Cancelled { received: usize, expected: usize },
    Shutdown { received: usize, expected: usize },
}

/// The count of received bytes out of the expected ones.
pub open spec fn share_text(received: usize, expected: usize) -> Seq<char> {
    text::decimal(received as nat) + "/"@ + text::decimal(expected as nat)
}

fn push_share(out: &mut String, received: usize, expected: usize)
    ensures
        final(out)@ == old(out)@ + share_text(received, expected),
{
    text::push_decimal(out, received as u128);
    out.append("/");
    text::push_decimal(out, expected as u128);
    assert(out@ =~= old(out)@ + share_text(received, expected));
}

impl ProtocolError {
    /// The error as the user reads it; `source` is the text of the serial I/O
    /// failure.
    pub open spec fn text(self, source: Seq<char>) -> Seq<char> {
        match self {
            ProtocolError::InvalidSpec(error) => error.text(),
            ProtocolError::Io { received, expected } => "serial I/O failed after "@ + share_text(
                received,
                expected,
            ) + " bytes: "@ + source,
            ProtocolError::IdleTimeout { idle_ms, received, expected, elapsed_ms } =>
                "no scan data arrived for "@ + text::decimal(idle_ms as nat) + " ms ("@
                + share_text(received, expected) + " bytes, "@ + text::decimal(elapsed_ms as nat)
                + " ms elapsed)"@,
            ProtocolError::OverallTimeout { limit_ms, received, expected } =>
                "scan exceeded its hard "@ + text::decimal(limit_ms as nat) + " ms deadline ("@
                + share_text(received, expected) + " bytes received)"@,
            ProtocolError::Cancelled { received, expected } => "scan cancelled after "@
                + share_text(received, expected) + " bytes"@,
            ProtocolError::Shutdown { received, expected } => "service shutdown requested after "@
                + share_text(received, expected) + " bytes"@,
        }
    }

    pub fn message(&self, source: &str) -> (message: String)
        ensures
            message@ == self.text(source@),
    {
        let mut out: String = String::new();
        match *self {
            ProtocolError::InvalidSpec(error) => {
                return error.message();
            },
            ProtocolError::Io { received, expected } => {
                out.append("serial I/O failed after ");
                push_share(&mut out, received, expected);
                out.append(" bytes: ");
                out.append(source);
            },
            ProtocolError::IdleTimeout { idle_ms, received, expected, elapsed_ms } => {
                out.append("no scan data arrived for ");
                text::push_decimal(&mut out, idle_ms);
                out.append(" ms (");
                push_share(&mut out, received, expected);
                out.append(" bytes, ");
                text::push_decimal(&mut out, elapsed_ms);
                out.append(" ms elapsed)");
            },
            ProtocolError::OverallTimeout { limit_ms, received, expected } => {
                out.append("scan exceeded its hard ");
                text::push_decimal(&mut out, limit_ms);
                out.append(" ms deadline (");
                push_share(&mut out, received, expected);
                out.append(" bytes received)");
            },
            ProtocolError::Cancelled { received, expected } => {
                out.append("scan cancelled after ");
                push_share(&mut out, received, expected);
                out.append(" bytes");
            },
            ProtocolError::Shutdown { received, expected } => {
                out.append("service shutdown requested after ");
                push_share(&mut out, received, expected);
                out.append(" bytes");
            },
        }
        assert(out@ =~= self.text(source@));
        out
    }
}

// ---------------------------------------------------------------------------
// The scan command
// ---------------------------------------------------------------------------
/// The five fields of a scan command. Frequencies are divided by ten; each
/// field ends in a carriage return, and the last one is empty.
pub open spec fn command_fields(spec: ScanSpec) -> Seq<Seq<u8>> {
    seq![
        text::ascii(spec.mode.command_text()).push(13),
        text::ascii(text::decimal((spec.start_hz / 10) as nat)).push(13),
        text::ascii(text::decimal((spec.stop_hz / 10) as nat)).push(13),
        text::ascii(text::decimal(spec.points as nat)).push(13),
        seq![13u8],
    ]
}

/// The views of a sequence of byte vectors.
pub open spec fn byte_views(fields: Seq<Vec<u8>>) -> Seq<Seq<u8>> {
    fields.map_values(|field: Vec<u8>| field@)
}

fn decimal_field(n: u64) -> (field: Vec<u8>)
    ensures
        field@ == text::ascii(text::decimal(n as nat)).push(13),
{
    let mut field: Vec<u8> = Vec::new();
    text::push_decimal_bytes(&mut field, n);
    field.push(13);
    field
}

/// The five fields of the command for `spec`, in the order in which they are
/// written.
pub fn encode_scan_fields(spec: &ScanSpec) -> (fields: Result<[Vec<u8>; 5], SpecError>)
    ensures
        match fields {
            Ok(fields) => spec.valid() && byte_views(fields@) == command_fields(*spec),
            Err(error) => spec.verdict() == Err::<(), SpecError>(error),
        },
{
    if let Err(error) = spec.validate() {
        return Err(error);
    }
    let mut mode: Vec<u8> = Vec::new();
    match spec.mode {
        ScanMode::Reflection => mode.push(55),
        ScanMode::Transmission => mode.push(54),
    }
    mode.push(13);
    proof {
        reveal_strlit("7");
        reveal_strlit("6");
        assert(mode@ =~= text::ascii(spec.mode.command_text()).push(13));
    }
    let start: Vec<u8> = decimal_field(spec.start_hz / 10);
    let stop: Vec<u8> = decimal_field(spec.stop_hz / 10);
    let points: Vec<u8> = decimal_field(spec.points as u64);
    let mut end: Vec<u8> = Vec::new();
    end.push(13);
    let fields: [Vec<u8>; 5] = [mode, start, stop, points, end];
    assert(byte_views(fields@) =~= command_fields(*spec));
    Ok(fields)
}

/// The whole command as one byte string.
pub open spec fn command_bytes(spec: ScanSpec) -> Seq<u8> {
    let fields = command_fields(spec);
    fields[0] + fields[1] + fields[2] + fields[3] + fields[4]
}

/// The command for `spec`: its fields, one after the other.
pub fn encode_scan_command(spec: &ScanSpec) -> (command: Result<Vec<u8>, SpecError>)
    ensures
        match command {
            Ok(command) => spec.valid() && command@ == command_bytes(*spec),
            Err(error) => spec.verdict() == Err::<(), SpecError>(error),
        },
{
    let fields: [Vec<u8>; 5] = match encode_scan_fields(spec) {
        Ok(fields) => fields,
        Err(error) => return Err(error),
    };
    let ghost views = byte_views(fields@);
    let mut command: Vec<u8> = Vec::new();
    command.extend_from_slice(fields[0].as_slice());
    command.extend_from_slice(fields[1].as_slice());
    command.extend_from_slice(fields[2].as_slice());
    command.extend_from_slice(fields[3].as_slice());
    command.extend_from_slice(fields[4].as_slice());
    assert(forall|i: int| 0 <= i < 5 ==> #[trigger] views[i] == fields@[i]@);
    assert(command@ =~= command_bytes(*spec));
    Ok(command)
}

// ---------------------------------------------------------------------------
// Frames
// ---------------------------------------------------------------------------
/// The number that three bytes stand for, the lowest first.
pub open spec fn little_endian(bytes: Seq<u8>) -> int {
    bytes[0] + bytes[1] * 0x100 + bytes[2] * 0x1_0000
}

/// The sample that a frame of twelve bytes holds: four counts of three bytes,
/// in the order p1, p3, p2, p4. The complex value is half the difference of
/// two counts each.
pub open spec fn frame_sample(frame: Seq<u8>, frequency_hz: int) -> RawSample {
    let p1 = little_endian(frame.subrange(0, 3));
    let p3 = little_endian(frame.subrange(3, 6));
    let p2 = little_endian(frame.subrange(6, 9));
    let p4 = little_endian(frame.subrange(9, 12));
    RawSample {
        frequency_hz: frequency_hz as u64,
        real: binary64::halves(p1 - p2),
        imaginary: binary64::halves(p3 - p4),
        p1: p1 as u32,
        p2: p2 as u32,
        p3: p3 as u32,
        p4: p4 as u32,
    }
}

/// Three bytes of `value`, the lowest first.
pub open spec fn little_endian_bytes(value: int) -> Seq<u8> {
    seq![(value % 0x100) as u8, (value / 0x100 % 0x100) as u8, (value / 0x1_0000 % 0x100) as u8]
}

/// The frame that holds a sample.
pub open spec fn sample_frame(sample: RawSample) -> Seq<u8> {
    little_endian_bytes(sample.p1 as int) + little_endian_bytes(sample.p3 as int)
        + little_endian_bytes(sample.p2 as int) + little_endian_bytes(sample.p4 as int)
}

fn u24(low: u8, middle: u8, high: u8) -> (value: u32)
    ensures
        value == low + middle * 0x100 + high * 0x1_0000,
        value < 0x100_0000,
{
    low as u32 + middle as u32 * 0x100 + high as u32 * 0x1_0000
}

/// Reads one frame out of a longer answer.
pub fn decode_frame(frame: &[u8], frequency_hz: u64) -> (sample: RawSample)
    requires
        frame@.len() == BYTES_PER_SAMPLE,
    ensures
        sample == frame_sample(frame@, frequency_hz as int),
{
    let p1: u32 = u24(frame[0], frame[1], frame[2]);
    let p3: u32 = u24(frame[3], frame[4], frame[5]);
    let p2: u32 = u24(frame[6], frame[7], frame[8]);
    let p4: u32 = u24(frame[9], frame[10], frame[11]);
    RawSample {
        frequency_hz,
        real: Binary64::from_halves(p1 as i32 - p2 as i32),
        imaginary: Binary64::from_halves(p3 as i32 - p4 as i32),
        p1,
        p2,
        p3,
        p4,
    }
}

/// Reads one frame.
pub fn decode_sample(frame: &[u8; BYTES_PER_SAMPLE], frequency_hz: u64) -> (sample: RawSample)
    ensures
        sample == frame_sample(frame@, frequency_hz as int),
{
    decode_frame(frame.as_slice(), frequency_hz)
}

/// A sample keeps its frame: writing the counts back gives the frame's bytes.
pub proof fn law_sample_keeps_its_frame(frame: Seq<u8>, frequency_hz: u64)
    requires
        frame.len() == BYTES_PER_SAMPLE,
    ensures
        sample_frame(frame_sample(frame, frequency_hz as int)) == frame,
        frame_sample(frame, frequency_hz as int).frequency_hz == frequency_hz,
{
    lemma_little_endian(frame.subrange(0, 3));
    lemma_little_endian(frame.subrange(3, 6));
    lemma_little_endian(frame.subrange(6, 9));
    lemma_little_endian(frame.subrange(9, 12));
    assert(frame =~= frame.subrange(0, 3) + frame.subrange(3, 6) + frame.subrange(6, 9)
        + frame.subrange(9, 12));
}

proof fn lemma_little_endian(bytes: Seq<u8>)
    requires
        bytes.len() == 3,
    ensures
        0 <= little_endian(bytes) < 0x100_0000,
        little_endian_bytes(little_endian(bytes)) == bytes,
{
    let value = little_endian(bytes);
    assert(value % 0x100 == bytes[0]);
    assert(value / 0x100 == bytes[1] + bytes[2] * 0x100);
    assert(value / 0x100 % 0x100 == bytes[1]);
    assert(value / 0x1_0000 == bytes[2]);
    assert(little_endian_bytes(value) =~= bytes);
}

/// The real and the imaginary part of a sample are exactly half the
/// difference of its counts.
pub proof fn law_sample_value_is_exact(frame: Seq<u8>, frequency_hz: u64)
    requires
        frame.len() == BYTES_PER_SAMPLE,
    ensures
        ({
            let sample = frame_sample(frame, frequency_hz as int);
            &&& sample.real.is_halves(sample.p1 - sample.p2)
            &&& sample.imaginary.is_halves(sample.p3 - sample.p4)
        }),
{
    let sample = frame_sample(frame, frequency_hz as int);
    binary64::lemma_halves_exist(sample.p1 - sample.p2);
    binary64::lemma_halves_exist(sample.p3 - sample.p4);
}

/// The command reads back as its scan: cut at its carriage returns it names the
/// mode, the start and the stop in tens of hertz, the number of points, and then
/// nothing. The fields that are written one by one are the same with a carriage
/// return each.
pub proof fn law_command_reads_back(spec: ScanSpec)
    ensures
        ({
            let parts = text::split(command_bytes(spec), 13u8);
            let fields = command_fields(spec);
            &&& parts.len() == 6
            &&& parts[0] == match spec.mode {
                ScanMode::Reflection => seq![55u8],
                ScanMode::Transmission => seq![54u8],
            }
            &&& parts[1] == text::ascii(text::decimal((spec.start_hz as int / 10) as nat))
            &&& parts[2] == text::ascii(text::decimal((spec.stop_hz as int / 10) as nat))
            &&& parts[3] == text::ascii(text::decimal(spec.points as nat))
            &&& parts[4].len() == 0 && parts[5].len() == 0
            &&& fields.len() == 5
            &&& forall|i: int| 0 <= i < 5 ==> #[trigger] fields[i] == parts[i].push(13)
        }),
{
    let a = text::ascii(spec.mode.command_text());
    let b = text::ascii(text::decimal((spec.start_hz / 10) as nat));
    let c = text::ascii(text::decimal((spec.stop_hz / 10) as nat));
    let d = text::ascii(text::decimal(spec.points as nat));
    let e = Seq::<u8>::empty();
    reveal_strlit("7");
    reveal_strlit("6");
    assert(a =~= match spec.mode {
        ScanMode::Reflection => seq![55u8],
        ScanMode::Transmission => seq![54u8],
    });
    lemma_decimal_has_no_return((spec.start_hz / 10) as nat);
    lemma_decimal_has_no_return((spec.stop_hz / 10) as nat);
    lemma_decimal_has_no_return(spec.points as nat);
    let r = seq![13u8];
    text::law_split_cuts_at_the_first(e, 13u8, e);
    text::law_split_cuts_at_the_first(d, 13u8, e + r + e);
    text::law_split_cuts_at_the_first(c, 13u8, d + r + (e + r + e));
    text::law_split_cuts_at_the_first(b, 13u8, c + r + (d + r + (e + r + e)));
    text::law_split_cuts_at_the_first(a, 13u8, b + r + (c + r + (d + r + (e + r + e))));
    let whole = a + r + (b + r + (c + r + (d + r + (e + r + e))));
    assert(command_bytes(spec) =~= whole);
    let parts = text::split(whole, 13u8);
    assert(parts =~= seq![a, b, c, d, e, e]);
    let fields = command_fields(spec);
    assert forall|i: int| 0 <= i < 5 implies #[trigger] fields[i] == parts[i].push(13) by {
        assert(fields[i] =~= parts[i].push(13));
    }
}

proof fn lemma_decimal_has_no_return(n: nat)
    ensures
        !text::ascii(text::decimal(n)).contains(13u8),
{
    text::law_decimal_reads_back(n);
    let digits = text::decimal(n);
    let bytes = text::ascii(digits);
    if bytes.contains(13u8) {
        let i = choose|i: int| 0 <= i < bytes.len() && bytes[i] == 13u8;
        assert(text::is_digit(digits[i]));
    }
}

/// A frame holds four counts of three bytes each, the lowest byte first: p1, p3,
/// p2 and p4. The real part is half of p1 less p2, the imaginary part half of p3
/// less p4.
pub proof fn law_frame_is_read_byte_by_byte(frame: Seq<u8>, frequency_hz: u64)
    requires
        frame.len() == 12,
    ensures
        ({
            let sample = frame_sample(frame, frequency_hz as int);
            &&& sample.p1 == frame[0] + 256 * frame[1] + 65536 * frame[2]
            &&& sample.p3 == frame[3] + 256 * frame[4] + 65536 * frame[5]
            &&& sample.p2 == frame[6] + 256 * frame[7] + 65536 * frame[8]
            &&& sample.p4 == frame[9] + 256 * frame[10] + 65536 * frame[11]
            &&& sample.frequency_hz == frequency_hz
            &&& sample.real.is_halves(sample.p1 - sample.p2)
            &&& sample.imaginary.is_halves(sample.p3 - sample.p4)
        }),
{
    law_sample_value_is_exact(frame, frequency_hz);
}

/// An error names its numbers in this order: a limit, the bytes received, the
/// bytes expected, and the time that has passed.
pub proof fn law_errors_name_their_numbers(error: ProtocolError, source: Seq<char>)
    ensures
        match error {
            ProtocolError::InvalidSpec(_) => true,
            ProtocolError::Io { received, expected } => text::numbers(error.text(source)) == seq![
                received as nat,
                expected as nat,
            ] + text::numbers(source),
            ProtocolError::IdleTimeout { idle_ms, received, expected, elapsed_ms } => text::numbers(
                error.text(source),
            ) == seq![idle_ms as nat, received as nat, expected as nat, elapsed_ms as nat],
            ProtocolError::OverallTimeout { limit_ms, received, expected } => text::numbers(
                error.text(source),
            ) == seq![limit_ms as nat, received as nat, expected as nat],
            ProtocolError::Cancelled { received, expected } => text::numbers(error.text(source))
                == seq![received as nat, expected as nat],
            ProtocolError::Shutdown { received, expected } => text::numbers(error.text(source))
                == seq![received as nat, expected as nat],
        },
{
    reveal_strlit("/");
    match error {
        ProtocolError::InvalidSpec(_) => {},
        ProtocolError::Io { received, expected } => {
            reveal_strlit("serial I/O failed after ");
            reveal_strlit(" bytes: ");
            let c = " bytes: "@ + source;
            text::lemma_two_numbers(
                "serial I/O failed after "@,
                received as nat,
                "/"@,
                expected as nat,
                c,
            );
            text::lemma_words_hold_no_number(" bytes: "@, source);
            assert(error.text(source) =~= "serial I/O failed after "@ + text::decimal(
                received as nat,
            ) + "/"@ + text::decimal(expected as nat) + c);
        },
        ProtocolError::IdleTimeout { idle_ms, received, expected, elapsed_ms } => {
            reveal_strlit("no scan data arrived for ");
            reveal_strlit(" ms (");
            reveal_strlit(" bytes, ");
            reveal_strlit(" ms elapsed)");
            text::lemma_four_numbers(
                "no scan data arrived for "@,
                idle_ms as nat,
                " ms ("@,
                received as nat,
                "/"@,
                expected as nat,
                " bytes, "@,
                elapsed_ms as nat,
                " ms elapsed)"@,
            );
            text::lemma_words_hold_no_number(" ms elapsed)"@, Seq::empty());
            assert(error.text(source) =~= "no scan data arrived for "@ + text::decimal(
                idle_ms as nat,
            ) + " ms ("@ + text::decimal(received as nat) + "/"@ + text::decimal(expected as nat)
                + " bytes, "@ + text::decimal(elapsed_ms as nat) + " ms elapsed)"@);
        },
        ProtocolError::OverallTimeout { limit_ms, received, expected } => {
            reveal_strlit("scan exceeded its hard ");
            reveal_strlit(" ms deadline (");
            reveal_strlit(" bytes received)");
            text::lemma_three_numbers(
                "scan exceeded its hard "@,
                limit_ms as nat,
                " ms deadline ("@,
                received as nat,
                "/"@,
                expected as nat,
                " bytes received)"@,
            );
            text::lemma_words_hold_no_number(" bytes received)"@, Seq::empty());
            assert(error.text(source) =~= "scan exceeded its hard "@ + text::decimal(
                limit_ms as nat,
            ) + " ms deadline ("@ + text::decimal(received as nat) + "/"@ + text::decimal(
                expected as nat,
            ) + " bytes received)"@);
        },
        ProtocolError::Cancelled { received, expected } => {
            reveal_strlit("scan cancelled after ");
            reveal_strlit(" bytes");
            text::lemma_two_numbers(
                "scan cancelled after "@,
                received as nat,
                "/"@,
                expected as nat,
                " bytes"@,
            );
            text::lemma_words_hold_no_number(" bytes"@, Seq::empty());
            assert(error.text(source) =~= "scan cancelled after "@ + text::decimal(received as nat)
                + "/"@ + text::decimal(expected as nat) + " bytes"@);
        },
        ProtocolError::Shutdown { received, expected } => {
            reveal_strlit("service shutdown requested after ");
            reveal_strlit(" bytes");
            text::lemma_two_numbers(
                "service shutdown requested after "@,
                received as nat,
                "/"@,
                expected as nat,
                " bytes"@,
            );
            text::lemma_words_hold_no_number(" bytes"@, Seq::empty());
            assert(error.text(source) =~= "service shutdown requested after "@ + text::decimal(
                received as nat,
            ) + "/"@ + text::decimal(expected as nat) + " bytes"@);
        },
    }
}

} // verus!
