//! Calibrations: building one from captured standards, accepting one from a
//! file, and finding the calibration points that a measured sample needs.
//!
//! Error terms are complex numbers. They pass through here by their bits; the
//! arithmetic on them is done by whoever calls.
use vstd::prelude::*;

use crate::binary64::Binary64;
use crate::model::{RawSample, ScanMode, ScanSpec, SpecError};
use crate::model;
use crate::text;

verus! {

/// The format that a calibration file must name.
pub const CALIBRATION_FORMAT: &'static str = "minivna-rs-calibration-v1";

/// The analyser type of the instrument.
pub const ANALYSER_TYPE: &'static str = "20";

/// The frequencies at which the instrument switches its signal path.
pub const FIRST_SWITCH_HZ: u64 = 1_045_000_000;

pub const SECOND_SWITCH_HZ: u64 = 1_525_000_000;

/// What is connected while a calibration sweep is captured.
#[derive(Clone, Copy, Debug, PartialEq, Eq, Structural)]
pub enum CalibrationStandard {
    Open,
    Short,
    Load,
    Loopback,
}

impl CalibrationStandard {
    pub open spec fn text(self) -> Seq<char> {
        match self {
            CalibrationStandard::Open => "open"@,
            CalibrationStandard::Short => "short"@,
            CalibrationStandard::Load => "load"@,
            CalibrationStandard::Loopback => "loopback"@,
        }
    }

    pub fn name(self) -> (name: &'static str)
        ensures
            name@ == self.text(),
    {
        match self {
            CalibrationStandard::Open => "open",
            CalibrationStandard::Short => "short",
            CalibrationStandard::Load => "load",
            CalibrationStandard::Loopback => "loopback",
        }
    }
}

/// One captured sweep.
#[derive(Clone, Debug)]
pub struct CalibrationCapture {
    pub standard: CalibrationStandard,
    pub device_temperature_c: Binary64,
    pub samples: Vec<RawSample>,
}

#[derive(Clone, Copy, Debug, PartialEq, Eq, Structural)]
pub struct CalibrationSample {
    pub frequency_hz: u64,
    pub real: Binary64,
    pub imaginary: Binary64,
}

/// The sweep of one standard as a calibration file holds it.
#[derive(Clone, Debug)]
pub struct CalibrationBlock {
    pub device_temperature_c: Option<Binary64>,
    pub start_hz: u64,
    pub stop_hz: u64,
    pub points: usize,
    pub samples: Vec<CalibrationSample>,
}

/// A calibration file.
#[derive(Clone, Debug)]
pub struct CalibrationFile {
    pub format: String,
    pub analyser_type: String,
    pub comment: Option<String>,
    pub start_hz: u64,
    pub stop_hz: u64,
    pub points: usize,
    pub overscans: usize,
    pub mode: ScanMode,
    pub load: Option<CalibrationBlock>,
    pub open: Option<CalibrationBlock>,
    pub short: Option<CalibrationBlock>,
    pub loopback: Option<CalibrationBlock>,
}

/// Why a calibration is not built, not accepted or not usable for a scan.
#[derive(Clone, Copy, Debug, PartialEq, Eq, Structural)]
pub enum CalibrationError {
    Spec(SpecError),
    TemperatureNotFinite(CalibrationStandard),
    WrongPointCount { standard: CalibrationStandard, captured: usize, expected: usize },
    WrongFrequency {
        standard: CalibrationStandard,
        point: usize,
        found_hz: u64,
        expected_hz: u64,
    },
    DuplicateCapture(CalibrationStandard),
    MissingReflectionCapture,
    UnusedLoopbackCapture,
    MissingTransmissionCapture,
    UnusedReflectionCapture,
    UnsupportedFormat,
    InvalidRange,
    BlockCount { claimed: usize, found: usize },
    BlockTooShort,
    NoTemperature,
    MissingBlock(CalibrationStandard),
    DifferentCounts,
    DifferentGrids,
    HeaderCount { claimed: usize, found: usize },
    NotIncreasing,
    ModeMismatch { scan: ScanMode, calibration: ScanMode },
    OutsideRange { start_hz: u64, stop_hz: u64, first_hz: u64, last_hz: u64 },
    MeasurementTemperature,
    RawCount { found: usize, expected: usize },
    IndexOutside { index: usize, points: usize },
    BelowFirstPoint { frequency_hz: u64, first_hz: u64 },
}

impl CalibrationError {
    /// The error as the user reads it; `format` is the format that the file
    /// names, in quotes.
    pub open spec fn text(self, format: Seq<char>) -> Seq<char> {
        match self {
            CalibrationError::Spec(error) => error.text(),
            CalibrationError::TemperatureNotFinite(standard) => standard.text()
                + " calibration temperature must be finite"@,
            CalibrationError::WrongPointCount { standard, captured, expected } => standard.text()
                + " calibration captured "@ + text::decimal(captured as nat)
                + " points, expected "@ + text::decimal(expected as nat),
            CalibrationError::WrongFrequency { standard, point, found_hz, expected_hz } =>
                standard.text() + " calibration point "@ + text::decimal(point as nat)
                + " has frequency "@ + text::decimal(found_hz as nat) + ", expected "@
                + text::decimal(expected_hz as nat),
            CalibrationError::DuplicateCapture(standard) => "calibration contains duplicate "@
                + standard.text() + " captures"@,
            CalibrationError::MissingReflectionCapture =>
                "reflection calibration requires open, short, and load captures"@,
            CalibrationError::UnusedLoopbackCapture =>
                "reflection calibration does not use a loopback capture"@,
            CalibrationError::MissingTransmissionCapture =>
                "transmission calibration requires open and loopback captures"@,
            CalibrationError::UnusedReflectionCapture =>
                "transmission calibration does not use short or load captures"@,
            CalibrationError::UnsupportedFormat => "unsupported calibration format "@ + format
                + "; expected \"minivna-rs-calibration-v1\""@,
            CalibrationError::InvalidRange => "calibration has an invalid frequency range"@,
            CalibrationError::BlockCount { claimed, found } => "calibration block says "@
                + text::decimal(claimed as nat) + " points but contains "@ + text::decimal(
                found as nat,
            ),
            CalibrationError::BlockTooShort => "calibration block needs at least two samples"@,
            CalibrationError::NoTemperature => "calibration contains no device temperature"@,
            CalibrationError::MissingBlock(standard) => "calibration is missing its "@
                + standard.text() + " block"@,
            CalibrationError::DifferentCounts =>
                "calibration standard blocks have different point counts"@,
            CalibrationError::DifferentGrids =>
                "calibration standard blocks have different frequency grids"@,
            CalibrationError::HeaderCount { claimed, found } => "calibration header says "@
                + text::decimal(claimed as nat) + " points but contains "@ + text::decimal(
                found as nat,
            ),
            CalibrationError::NotIncreasing =>
                "calibration frequencies are not strictly increasing"@,
            CalibrationError::ModeMismatch { scan, calibration } => "scan mode "@ + scan.text()
                + " does not match "@ + calibration.text() + " calibration"@,
            CalibrationError::OutsideRange { start_hz, stop_hz, first_hz, last_hz } => "scan "@
                + text::decimal(start_hz as nat) + ".."@ + text::decimal(stop_hz as nat)
                + " Hz is outside calibration range "@ + text::decimal(first_hz as nat) + ".."@
                + text::decimal(last_hz as nat) + " Hz"@,
            CalibrationError::MeasurementTemperature =>
                "measurement temperature must be finite"@,
            CalibrationError::RawCount { found, expected } => "raw result has "@ + text::decimal(
                found as nat,
            ) + " samples, expected "@ + text::decimal(expected as nat),
            CalibrationError::IndexOutside { index, points } => "raw point index "@
                + text::decimal(index as nat) + " is outside the configured "@ + text::decimal(
                points as nat,
            ) + " points"@,
            CalibrationError::BelowFirstPoint { frequency_hz, first_hz } => "frequency "@
                + text::decimal(frequency_hz as nat)
                + " Hz is below first calibration point "@ + text::decimal(first_hz as nat)
                + " Hz"@,
        }
    }

    pub fn message(&self, format: &str) -> (message: String)
        ensures
            message@ == self.text(format@),
    {
        let mut out: String = String::new();
        match *self {
            CalibrationError::Spec(error) => {
                return error.message();
            },
            CalibrationError::TemperatureNotFinite(standard) => {
                out.append(standard.name());
                out.append(" calibration temperature must be finite");
            },
            CalibrationError::WrongPointCount { standard, captured, expected } => {
                out.append(standard.name());
                out.append(" calibration captured ");
                text::push_decimal(&mut out, captured as u128);
                out.append(" points, expected ");
                text::push_decimal(&mut out, expected as u128);
            },
            CalibrationError::WrongFrequency { standard, point, found_hz, expected_hz } => {
                out.append(standard.name());
                out.append(" calibration point ");
                text::push_decimal(&mut out, point as u128);
                out.append(" has frequency ");
                text::push_decimal(&mut out, found_hz as u128);
                out.append(", expected ");
                text::push_decimal(&mut out, expected_hz as u128);
            },
            CalibrationError::DuplicateCapture(standard) => {
                out.append("calibration contains duplicate ");
                out.append(standard.name());
                out.append(" captures");
            },
            CalibrationError::MissingReflectionCapture => out.append(
                "reflection calibration requires open, short, and load captures",
            ),
            CalibrationError::UnusedLoopbackCapture => out.append(
                "reflection calibration does not use a loopback capture",
            ),
            CalibrationError::MissingTransmissionCapture => out.append(
                "transmission calibration requires open and loopback captures",
            ),
            CalibrationError::UnusedReflectionCapture => out.append(
                "transmission calibration does not use short or load captures",
            ),
            CalibrationError::UnsupportedFormat => {
                out.append("unsupported calibration format ");
                out.append(format);
                out.append("; expected \"minivna-rs-calibration-v1\"");
            },
            CalibrationError::InvalidRange => out.append(
                "calibration has an invalid frequency range",
            ),
            CalibrationError::BlockCount { claimed, found } => {
                out.append("calibration block says ");
                text::push_decimal(&mut out, claimed as u128);
                out.append(" points but contains ");
                text::push_decimal(&mut out, found as u128);
            },
            CalibrationError::BlockTooShort => out.append(
                "calibration block needs at least two samples",
            ),
            CalibrationError::NoTemperature => out.append(
                "calibration contains no device temperature",
            ),
            CalibrationError::MissingBlock(standard) => {
                out.append("calibration is missing its ");
                out.append(standard.name());
                out.append(" block");
            },
            CalibrationError::DifferentCounts => out.append(
                "calibration standard blocks have different point counts",
            ),
            CalibrationError::DifferentGrids => out.append(
                "calibration standard blocks have different frequency grids",
            ),
            CalibrationError::HeaderCount { claimed, found } => {
                out.append("calibration header says ");
                text::push_decimal(&mut out, claimed as u128);
                out.append(" points but contains ");
                text::push_decimal(&mut out, found as u128);
            },
            CalibrationError::NotIncreasing => out.append(
                "calibration frequencies are not strictly increasing",
            ),
            CalibrationError::ModeMismatch { scan, calibration } => {
                out.append("scan mode ");
                out.append(scan.name());
                out.append(" does not match ");
                out.append(calibration.name());
                out.append(" calibration");
            },
            CalibrationError::OutsideRange { start_hz, stop_hz, first_hz, last_hz } => {
                out.append("scan ");
                text::push_decimal(&mut out, start_hz as u128);
                out.append("..");
                text::push_decimal(&mut out, stop_hz as u128);
                out.append(" Hz is outside calibration range ");
                text::push_decimal(&mut out, first_hz as u128);
                out.append("..");
                text::push_decimal(&mut out, last_hz as u128);
                out.append(" Hz");
            },
            CalibrationError::MeasurementTemperature => out.append(
                "measurement temperature must be finite",
            ),
            CalibrationError::RawCount { found, expected } => {
                out.append("raw result has ");
                text::push_decimal(&mut out, found as u128);
                out.append(" samples, expected ");
                text::push_decimal(&mut out, expected as u128);
            },
            CalibrationError::IndexOutside { index, points } => {
                out.append("raw point index ");
                text::push_decimal(&mut out, index as u128);
                out.append(" is outside the configured ");
                text::push_decimal(&mut out, points as u128);
                out.append(" points");
            },
            CalibrationError::BelowFirstPoint { frequency_hz, first_hz } => {
                out.append("frequency ");
                text::push_decimal(&mut out, frequency_hz as u128);
                out.append(" Hz is below first calibration point ");
                text::push_decimal(&mut out, first_hz as u128);
                out.append(" Hz");
            },
        }
        assert(out@ =~= self.text(format@));
        out
    }
}

// ---------------------------------------------------------------------------
// Building a calibration
// ---------------------------------------------------------------------------
/// The first sample whose frequency is not the label of its place, from
/// `from` on.
pub open spec fn misplaced(spec: ScanSpec, samples: Seq<RawSample>, from: int) -> Option<int>
    decreases samples.len() - from,
{
    if from >= samples.len() {
        None
    } else if samples[from].frequency_hz != spec.label(from) {
        Some(from)
    } else {
        misplaced(spec, samples, from + 1)
    }
}

/// What is wrong with one capture.
pub open spec fn capture_verdict(spec: ScanSpec, capture: CalibrationCapture) -> Result<
    (),
    CalibrationError,
> {
    if !capture.device_temperature_c.finite() {
        Err(CalibrationError::TemperatureNotFinite(capture.standard))
    } else if capture.samples@.len() != spec.points {
        Err(
            CalibrationError::WrongPointCount {
                standard: capture.standard,
                captured: capture.samples@.len() as usize,
                expected: spec.points,
            },
        )
    } else {
        match misplaced(spec, capture.samples@, 0) {
            Some(index) => Err(
                CalibrationError::WrongFrequency {
                    standard: capture.standard,
                    point: (index + 1) as usize,
                    found_hz: capture.samples@[index].frequency_hz,
                    expected_hz: spec.label(index) as u64,
                },
            ),
            None => Ok(()),
        }
    }
}

/// Which of the first `n` captures is of `standard`, if any is.
pub open spec fn captured(
    captures: Seq<CalibrationCapture>,
    n: int,
    standard: CalibrationStandard,
) -> Option<int>
    decreases n,
{
    if n <= 0 {
        None
    } else if captures[n - 1].standard == standard {
        Some(n - 1)
    } else {
        captured(captures, n - 1, standard)
    }
}

/// The first thing that is wrong with the first `n` captures.
pub open spec fn captures_verdict(
    spec: ScanSpec,
    captures: Seq<CalibrationCapture>,
    n: int,
) -> Result<(), CalibrationError>
    decreases n,
{
    if n <= 0 {
        Ok(())
    } else if captures_verdict(spec, captures, n - 1) is Err {
        captures_verdict(spec, captures, n - 1)
    } else if capture_verdict(spec, captures[n - 1]) is Err {
        capture_verdict(spec, captures[n - 1])
    } else if captured(captures, n - 1, captures[n - 1].standard) is Some {
        Err(CalibrationError::DuplicateCapture(captures[n - 1].standard))
    } else {
        Ok(())
    }
}

/// Whether the standards are those that the mode needs, and no others.
pub open spec fn standards_verdict(
    mode: ScanMode,
    open: bool,
    short: bool,
    load: bool,
    loopback: bool,
) -> Result<(), CalibrationError> {
    match mode {
        ScanMode::Reflection => if !open || !short || !load {
            Err(CalibrationError::MissingReflectionCapture)
        } else if loopback {
            Err(CalibrationError::UnusedLoopbackCapture)
        } else {
            Ok(())
        },
        ScanMode::Transmission => if !open || !loopback {
            Err(CalibrationError::MissingTransmissionCapture)
        } else if short || load {
            Err(CalibrationError::UnusedReflectionCapture)
        } else {
            Ok(())
        },
    }
}

/// The first thing that keeps a calibration from being built.
pub open spec fn build_verdict(spec: ScanSpec, captures: Seq<CalibrationCapture>) -> Result<
    (),
    CalibrationError,
> {
    let n = captures.len() as int;
    if spec.verdict() is Err {
        Err(CalibrationError::Spec(spec.verdict()->Err_0))
    } else if captures_verdict(spec, captures, n) is Err {
        captures_verdict(spec, captures, n)
    } else {
        standards_verdict(
            spec.mode,
            captured(captures, n, CalibrationStandard::Open) is Some,
            captured(captures, n, CalibrationStandard::Short) is Some,
            captured(captures, n, CalibrationStandard::Load) is Some,
            captured(captures, n, CalibrationStandard::Loopback) is Some,
        )
    }
}

/// The samples of a capture as a calibration file holds them.
pub open spec fn stored_samples(samples: Seq<RawSample>) -> Seq<CalibrationSample> {
    samples.map_values(
        |sample: RawSample|
            CalibrationSample {
                frequency_hz: sample.frequency_hz,
                real: sample.real,
                imaginary: sample.imaginary,
            },
    )
}

/// `block` holds the capture of `standard`, or nothing if there is none among
/// the first `n`.
pub open spec fn stores(
    block: Option<CalibrationBlock>,
    spec: ScanSpec,
    captures: Seq<CalibrationCapture>,
    n: int,
    standard: CalibrationStandard,
) -> bool {
    match (captured(captures, n, standard), block) {
        (None, None) => true,
        (Some(i), Some(block)) => {
            &&& block.device_temperature_c == Some(captures[i].device_temperature_c)
            &&& block.start_hz == spec.start_hz
            &&& block.stop_hz == spec.stop_hz
            &&& block.points == spec.points
            &&& block.samples@ == stored_samples(captures[i].samples@)
        },
        _ => false,
    }
}

/// `file` is the calibration that was built from `captures`.
pub open spec fn built(
    file: CalibrationFile,
    spec: ScanSpec,
    captures: Seq<CalibrationCapture>,
    comment: Option<String>,
) -> bool {
    let n = captures.len() as int;
    &&& file.format@ == CALIBRATION_FORMAT@
    &&& file.analyser_type@ == ANALYSER_TYPE@
    &&& file.comment == comment
    &&& file.start_hz == spec.start_hz
    &&& file.stop_hz == spec.stop_hz
    &&& file.points == spec.points
    &&& file.overscans == 0
    &&& file.mode == spec.mode
    &&& stores(file.open, spec, captures, n, CalibrationStandard::Open)
    &&& stores(file.short, spec, captures, n, CalibrationStandard::Short)
    &&& stores(file.load, spec, captures, n, CalibrationStandard::Load)
    &&& stores(file.loopback, spec, captures, n, CalibrationStandard::Loopback)
}

fn check_capture(spec: &ScanSpec, capture: &CalibrationCapture) -> (verdict: Result<
    (),
    CalibrationError,
>)
    requires
        spec.valid(),
    ensures
        verdict == capture_verdict(*spec, *capture),
{
    if !capture.device_temperature_c.is_finite() {
        return Err(CalibrationError::TemperatureNotFinite(capture.standard));
    }
    if capture.samples.len() != spec.points {
        return Err(
            CalibrationError::WrongPointCount {
                standard: capture.standard,
                captured: capture.samples.len(),
                expected: spec.points,
            },
        );
    }
    let mut index: usize = 0;
    while index < capture.samples.len()
        invariant
            index <= capture.samples.len(),
            capture.samples.len() == spec.points,
            capture.device_temperature_c.finite(),
            spec.valid(),
            misplaced(*spec, capture.samples@, 0) == misplaced(
                *spec,
                capture.samples@,
                index as int,
            ),
        decreases capture.samples.len() - index,
    {
        proof {
            model::lemma_label_range(*spec, index as int);
        }
        let expected_hz: u64 = spec.frequency_at(index);
        let found_hz: u64 = capture.samples[index].frequency_hz;
        if found_hz != expected_hz {
            assert(misplaced(*spec, capture.samples@, 0) == Some(index as int));
            return Err(
                CalibrationError::WrongFrequency {
                    standard: capture.standard,
                    point: index + 1,
                    found_hz,
                    expected_hz,
                },
            );
        }
        index = index + 1;
    }
    Ok(())
}

fn store(spec: &ScanSpec, capture: &CalibrationCapture) -> (block: CalibrationBlock)
    ensures
        block.device_temperature_c == Some(capture.device_temperature_c),
        block.start_hz == spec.start_hz,
        block.stop_hz == spec.stop_hz,
        block.points == spec.points,
        block.samples@ == stored_samples(capture.samples@),
{
    let mut samples: Vec<CalibrationSample> = Vec::new();
    let mut index: usize = 0;
    while index < capture.samples.len()
        invariant
            index <= capture.samples.len(),
            samples@ == stored_samples(capture.samples@).take(index as int),
        decreases capture.samples.len() - index,
    {
        let sample: RawSample = capture.samples[index];
        samples.push(
            CalibrationSample {
                frequency_hz: sample.frequency_hz,
                real: sample.real,
                imaginary: sample.imaginary,
            },
        );
        index = index + 1;
        assert(samples@ =~= stored_samples(capture.samples@).take(index as int));
    }
    assert(samples@ =~= stored_samples(capture.samples@));
    CalibrationBlock {
        device_temperature_c: Some(capture.device_temperature_c),
        start_hz: spec.start_hz,
        stop_hz: spec.stop_hz,
        points: spec.points,
        samples,
    }
}

/// Builds the calibration file of captured standards.
pub fn build_native_calibration(
    spec: &ScanSpec,
    captures: &[CalibrationCapture],
    comment: Option<String>,
) -> (file: Result<CalibrationFile, CalibrationError>)
    ensures
        match file {
            Ok(file) => build_verdict(*spec, captures@) is Ok && built(
                file,
                *spec,
                captures@,
                comment,
            ),
            Err(error) => build_verdict(*spec, captures@) == Err::<(), CalibrationError>(error),
        },
{
    if let Err(error) = spec.validate() {
        return Err(CalibrationError::Spec(error));
    }
    let mut load: Option<CalibrationBlock> = None;
    let mut open: Option<CalibrationBlock> = None;
    let mut short: Option<CalibrationBlock> = None;
    let mut loopback: Option<CalibrationBlock> = None;
    let mut n: usize = 0;
    while n < captures.len()
        invariant
            n <= captures.len(),
            spec.valid(),
            captures_verdict(*spec, captures@, n as int) is Ok,
            stores(load, *spec, captures@, n as int, CalibrationStandard::Load),
            stores(open, *spec, captures@, n as int, CalibrationStandard::Open),
            stores(short, *spec, captures@, n as int, CalibrationStandard::Short),
            stores(loopback, *spec, captures@, n as int, CalibrationStandard::Loopback),
        decreases captures.len() - n,
    {
        let capture: &CalibrationCapture = &captures[n];
        proof {
            lemma_later_captures(*spec, captures@, n + 1);
        }
        if let Err(error) = check_capture(spec, capture) {
            return Err(error);
        }
        let block: CalibrationBlock = store(spec, capture);
        match capture.standard {
            CalibrationStandard::Open => {
                if open.is_some() {
                    return Err(CalibrationError::DuplicateCapture(capture.standard));
                }
                open = Some(block);
            },
            CalibrationStandard::Short => {
                if short.is_some() {
                    return Err(CalibrationError::DuplicateCapture(capture.standard));
                }
                short = Some(block);
            },
            CalibrationStandard::Load => {
                if load.is_some() {
                    return Err(CalibrationError::DuplicateCapture(capture.standard));
                }
                load = Some(block);
            },
            CalibrationStandard::Loopback => {
                if loopback.is_some() {
                    return Err(CalibrationError::DuplicateCapture(capture.standard));
                }
                loopback = Some(block);
            },
        }
        n = n + 1;
    }
    match spec.mode {
        ScanMode::Reflection => {
            if open.is_none() || short.is_none() || load.is_none() {
                return Err(CalibrationError::MissingReflectionCapture);
            }
            if loopback.is_some() {
                return Err(CalibrationError::UnusedLoopbackCapture);
            }
        },
        ScanMode::Transmission => {
            if open.is_none() || loopback.is_none() {
                return Err(CalibrationError::MissingTransmissionCapture);
            }
            if short.is_some() || load.is_some() {
                return Err(CalibrationError::UnusedReflectionCapture);
            }
        },
    }
    let mut format: String = String::new();
    format.append(CALIBRATION_FORMAT);
    let mut analyser_type: String = String::new();
    analyser_type.append(ANALYSER_TYPE);
    assert(format@ =~= CALIBRATION_FORMAT@);
    assert(analyser_type@ =~= ANALYSER_TYPE@);
    Ok(
        CalibrationFile {
            format,
            analyser_type,
            comment,
            start_hz: spec.start_hz,
            stop_hz: spec.stop_hz,
            points: spec.points,
            overscans: 0,
            mode: spec.mode,
            load,
            open,
            short,
            loopback,
        },
    )
}

/// What is wrong with the first captures is wrong with all of them.
proof fn lemma_later_captures(spec: ScanSpec, captures: Seq<CalibrationCapture>, n: int)
    requires
        0 <= n <= captures.len(),
    ensures
        captures_verdict(spec, captures, n) is Err ==> captures_verdict(
            spec,
            captures,
            captures.len() as int,
        ) == captures_verdict(spec, captures, n),
    decreases captures.len() - n,
{
    if n < captures.len() {
        lemma_later_captures(spec, captures, n + 1);
    }
}

// ---------------------------------------------------------------------------
// Accepting a calibration
// ---------------------------------------------------------------------------
/// The first place, from `from` on, at which the frequency passes `switch`.
/// The first two samples and the last one are not looked at.
pub open spec fn crossing(samples: Seq<CalibrationSample>, switch: u64, from: int) -> Option<int>
    decreases samples.len() - from,
{
    if from >= samples.len() - 1 {
        None
    } else if samples[from - 1].frequency_hz <= switch && samples[from].frequency_hz > switch {
        Some(from)
    } else {
        crossing(samples, switch, from + 1)
    }
}

/// The samples with the one behind `switch` taking the value of the one
/// before it.
pub open spec fn smoothed(samples: Seq<CalibrationSample>, switch: u64) -> Seq<
    CalibrationSample,
> {
    match crossing(samples, switch, 2) {
        Some(i) => samples.update(
            i,
            CalibrationSample {
                frequency_hz: samples[i].frequency_hz,
                real: samples[i - 1].real,
                imaginary: samples[i - 1].imaginary,
            },
        ),
        None => samples,
    }
}

/// The samples without what the two switches do to them.
pub open spec fn suppressed(samples: Seq<CalibrationSample>) -> Seq<CalibrationSample> {
    smoothed(smoothed(samples, FIRST_SWITCH_HZ), SECOND_SWITCH_HZ)
}

/// What is wrong with one block.
pub open spec fn block_verdict(block: Option<CalibrationBlock>) -> Result<(), CalibrationError> {
    match block {
        None => Ok(()),
        Some(block) => if block.samples@.len() != block.points {
            Err(
                CalibrationError::BlockCount {
                    claimed: block.points,
                    found: block.samples@.len() as usize,
                },
            )
        } else if block.samples@.len() < 2 {
            Err(CalibrationError::BlockTooShort)
        } else {
            Ok(())
        },
    }
}

/// The temperature of a block, if it has one.
pub open spec fn block_temperature(block: Option<CalibrationBlock>) -> Seq<Binary64> {
    match block {
        Some(block) => match block.device_temperature_c {
            Some(temperature) => seq![temperature],
            None => Seq::empty(),
        },
        None => Seq::empty(),
    }
}

/// The temperatures of a calibration file.
pub open spec fn temperatures(file: CalibrationFile) -> Seq<Binary64> {
    block_temperature(file.load) + block_temperature(file.open) + block_temperature(file.short)
        + block_temperature(file.loopback)
}

/// Two blocks measure at the same frequencies, up to place `n`.
pub open spec fn same_grid(
    left: Seq<CalibrationSample>,
    right: Seq<CalibrationSample>,
    n: int,
) -> bool {
    forall|i: int|
        0 <= i < n ==> (#[trigger] left[i]).frequency_hz == (#[trigger] right[i]).frequency_hz
}

/// What keeps two blocks from being used together.
pub open spec fn matching_verdict(
    left: Seq<CalibrationSample>,
    right: Seq<CalibrationSample>,
) -> Result<(), CalibrationError> {
    if left.len() != right.len() {
        Err(CalibrationError::DifferentCounts)
    } else if !same_grid(left, right, left.len() as int) {
        Err(CalibrationError::DifferentGrids)
    } else {
        Ok(())
    }
}

/// Of two verdicts the first that is an error.
pub open spec fn first_of(
    left: Result<(), CalibrationError>,
    right: Result<(), CalibrationError>,
) -> Result<(), CalibrationError> {
    if left is Err {
        left
    } else {
        right
    }
}

/// Whether the blocks that the mode needs are there and go together.
pub open spec fn blocks_verdict(file: CalibrationFile) -> Result<(), CalibrationError> {
    match file.mode {
        ScanMode::Reflection => if file.open is None {
            Err(CalibrationError::MissingBlock(CalibrationStandard::Open))
        } else if file.short is None {
            Err(CalibrationError::MissingBlock(CalibrationStandard::Short))
        } else if file.load is None {
            Err(CalibrationError::MissingBlock(CalibrationStandard::Load))
        } else {
            first_of(
                matching_verdict(file.open->0.samples@, file.short->0.samples@),
                matching_verdict(file.open->0.samples@, file.load->0.samples@),
            )
        },
        ScanMode::Transmission => if file.open is None {
            Err(CalibrationError::MissingBlock(CalibrationStandard::Open))
        } else if file.loopback is None {
            Err(CalibrationError::MissingBlock(CalibrationStandard::Loopback))
        } else {
            matching_verdict(file.open->0.samples@, file.loopback->0.samples@)
        },
    }
}

/// The first thing that keeps a file from being used, its error terms apart.
pub open spec fn file_verdict(file: CalibrationFile) -> Result<(), CalibrationError> {
    if file.format@ != CALIBRATION_FORMAT@ {
        Err(CalibrationError::UnsupportedFormat)
    } else if file.start_hz >= file.stop_hz {
        Err(CalibrationError::InvalidRange)
    } else if block_verdict(file.load) is Err {
        block_verdict(file.load)
    } else if block_verdict(file.open) is Err {
        block_verdict(file.open)
    } else if block_verdict(file.short) is Err {
        block_verdict(file.short)
    } else if block_verdict(file.loopback) is Err {
        block_verdict(file.loopback)
    } else if temperatures(file).len() == 0 {
        Err(CalibrationError::NoTemperature)
    } else {
        blocks_verdict(file)
    }
}

/// `after` is `before` with its switch points suppressed.
pub open spec fn block_suppressed(
    before: Option<CalibrationBlock>,
    after: Option<CalibrationBlock>,
) -> bool {
    match (before, after) {
        (None, None) => true,
        (Some(before), Some(after)) => {
            &&& after.device_temperature_c == before.device_temperature_c
            &&& after.start_hz == before.start_hz
            &&& after.stop_hz == before.stop_hz
            &&& after.points == before.points
            &&& after.samples@ == suppressed(before.samples@)
        },
        _ => false,
    }
}

/// A calibration file whose blocks are ready for their error terms, and the
/// device temperatures that it names.
#[derive(Debug)]
pub struct PreparedCalibration {
    pub file: CalibrationFile,
    pub temperatures: Vec<Binary64>,
}

/// `after` is `before` with the switch points of all its blocks suppressed.
pub open spec fn file_suppressed(before: CalibrationFile, after: CalibrationFile) -> bool {
    &&& after.format == before.format
    &&& after.analyser_type == before.analyser_type
    &&& after.comment == before.comment
    &&& after.start_hz == before.start_hz
    &&& after.stop_hz == before.stop_hz
    &&& after.points == before.points
    &&& after.overscans == before.overscans
    &&& after.mode == before.mode
    &&& block_suppressed(before.load, after.load)
    &&& block_suppressed(before.open, after.open)
    &&& block_suppressed(before.short, after.short)
    &&& block_suppressed(before.loopback, after.loopback)
}

fn smooth(samples: &mut Vec<CalibrationSample>, switch: u64)
    requires
        old(samples)@.len() >= 2,
    ensures
        final(samples)@ == smoothed(old(samples)@, switch),
{
    let ghost before = samples@;
    let last: usize = samples.len() - 1;
    let mut i: usize = 2;
    while i < last
        invariant
            samples@ == before,
            before == old(samples)@,
            before.len() >= 2,
            last == before.len() - 1,
            2 <= i,
            crossing(before, switch, 2) == crossing(before, switch, i as int),
        decreases last - i,
    {
        if samples[i - 1].frequency_hz <= switch && samples[i].frequency_hz > switch {
            let previous: CalibrationSample = samples[i - 1];
            let sample: CalibrationSample = CalibrationSample {
                frequency_hz: samples[i].frequency_hz,
                real: previous.real,
                imaginary: previous.imaginary,
            };
            samples.set(i, sample);
            return;
        }
        i = i + 1;
    }
}

/// The frequencies do not change where switch points are suppressed.
proof fn lemma_suppressed_grid(samples: Seq<CalibrationSample>)
    requires
        samples.len() >= 2,
    ensures
        suppressed(samples).len() == samples.len(),
        forall|i: int|
            0 <= i < samples.len() ==> (#[trigger] suppressed(samples)[i]).frequency_hz
                == samples[i].frequency_hz,
{
    lemma_crossing(samples, FIRST_SWITCH_HZ, 2);
    lemma_crossing(smoothed(samples, FIRST_SWITCH_HZ), SECOND_SWITCH_HZ, 2);
}

proof fn lemma_crossing(samples: Seq<CalibrationSample>, switch: u64, from: int)
    requires
        from >= 2,
    ensures
        crossing(samples, switch, from) matches Some(i) ==> from <= i < samples.len() - 1
            && samples[i - 1].frequency_hz <= switch < samples[i].frequency_hz,
    decreases samples.len() - from,
{
    if from < samples.len() - 1 {
        lemma_crossing(samples, switch, from + 1);
    }
}

fn prepare_block(block: Option<CalibrationBlock>) -> (prepared: Result<
    Option<CalibrationBlock>,
    CalibrationError,
>)
    ensures
        match prepared {
            Ok(prepared) => block_verdict(block) is Ok && block_suppressed(block, prepared),
            Err(error) => block_verdict(block) == Err::<(), CalibrationError>(error),
        },
{
    match block {
        None => Ok(None),
        Some(block) => {
            let mut block: CalibrationBlock = block;
            if block.samples.len() != block.points {
                return Err(
                    CalibrationError::BlockCount {
                        claimed: block.points,
                        found: block.samples.len(),
                    },
                );
            }
            if block.samples.len() < 2 {
                return Err(CalibrationError::BlockTooShort);
            }
            proof {
                lemma_crossing(block.samples@, FIRST_SWITCH_HZ, 2);
            }
            smooth(&mut block.samples, FIRST_SWITCH_HZ);
            smooth(&mut block.samples, SECOND_SWITCH_HZ);
            Ok(Some(block))
        },
    }
}

fn push_temperature(temperatures: &mut Vec<Binary64>, block: &Option<CalibrationBlock>)
    ensures
        final(temperatures)@ == old(temperatures)@ + block_temperature(*block),
{
    if let Some(block) = block {
        if let Some(temperature) = block.device_temperature_c {
            temperatures.push(temperature);
        }
    }
    assert(temperatures@ =~= old(temperatures)@ + block_temperature(*block));
}

fn check_matching(left: &Vec<CalibrationSample>, right: &Vec<CalibrationSample>) -> (verdict:
    Result<(), CalibrationError>)
    ensures
        verdict == matching_verdict(left@, right@),
{
    if right.len() != left.len() {
        return Err(CalibrationError::DifferentCounts);
    }
    let mut i: usize = 0;
    while i < left.len()
        invariant
            i <= left.len(),
            left.len() == right.len(),
            same_grid(left@, right@, i as int),
        decreases left.len() - i,
    {
        if left[i].frequency_hz != right[i].frequency_hz {
            assert(left@[i as int].frequency_hz != right@[i as int].frequency_hz);
            return Err(CalibrationError::DifferentGrids);
        }
        i = i + 1;
    }
    Ok(())
}

fn check_blocks(file: &CalibrationFile) -> (verdict: Result<(), CalibrationError>)
    ensures
        verdict == blocks_verdict(*file),
{
    let open: &Vec<CalibrationSample> = match &file.open {
        Some(block) => &block.samples,
        None => return Err(CalibrationError::MissingBlock(CalibrationStandard::Open)),
    };
    match file.mode {
        ScanMode::Reflection => {
            let short: &Vec<CalibrationSample> = match &file.short {
                Some(block) => &block.samples,
                None => return Err(CalibrationError::MissingBlock(CalibrationStandard::Short)),
            };
            let load: &Vec<CalibrationSample> = match &file.load {
                Some(block) => &block.samples,
                None => return Err(CalibrationError::MissingBlock(CalibrationStandard::Load)),
            };
            if let Err(error) = check_matching(open, short) {
                return Err(error);
            }
            check_matching(open, load)
        },
        ScanMode::Transmission => {
            let loopback: &Vec<CalibrationSample> = match &file.loopback {
                Some(block) => &block.samples,
                None => return Err(
                    CalibrationError::MissingBlock(CalibrationStandard::Loopback),
                ),
            };
            check_matching(open, loopback)
        },
    }
}

/// Suppressing switch points does not change whether blocks go together.
proof fn lemma_blocks_still_match(before: CalibrationFile, after: CalibrationFile)
    requires
        file_suppressed(before, after),
        block_verdict(before.load) is Ok,
        block_verdict(before.open) is Ok,
        block_verdict(before.short) is Ok,
        block_verdict(before.loopback) is Ok,
    ensures
        blocks_verdict(after) == blocks_verdict(before),
        temperatures(after) == temperatures(before),
{
    if before.open is Some {
        let open = before.open->0.samples@;
        lemma_suppressed_grid(open);
        if before.short is Some {
            let short = before.short->0.samples@;
            lemma_suppressed_grid(short);
            lemma_grid_kept(open, short);
        }
        if before.load is Some {
            let load = before.load->0.samples@;
            lemma_suppressed_grid(load);
            lemma_grid_kept(open, load);
        }
        if before.loopback is Some {
            let loopback = before.loopback->0.samples@;
            lemma_suppressed_grid(loopback);
            lemma_grid_kept(open, loopback);
        }
    }
}

proof fn lemma_grid_kept(left: Seq<CalibrationSample>, right: Seq<CalibrationSample>)
    requires
        left.len() >= 2,
        right.len() >= 2,
    ensures
        matching_verdict(suppressed(left), suppressed(right)) == matching_verdict(left, right),
{
    lemma_suppressed_grid(left);
    lemma_suppressed_grid(right);
    if left.len() == right.len() {
        let n = left.len() as int;
        let l = suppressed(left);
        let r = suppressed(right);
        if same_grid(left, right, n) {
            assert forall|i: int| 0 <= i < n implies (#[trigger] l[i]).frequency_hz == (
            #[trigger] r[i]).frequency_hz by {
                assert(left[i].frequency_hz == right[i].frequency_hz);
            }
        }
        if same_grid(l, r, n) {
            assert forall|i: int| 0 <= i < n implies (#[trigger] left[i]).frequency_hz == (
            #[trigger] right[i]).frequency_hz by {
                assert(l[i].frequency_hz == r[i].frequency_hz);
            }
        }
    }
}

/// Checks a calibration file and prepares it for its error terms.
pub fn prepare(file: CalibrationFile) -> (prepared: Result<PreparedCalibration, CalibrationError>)
    ensures
        match prepared {
            Ok(prepared) => {
                &&& file_verdict(file) is Ok
                &&& file_suppressed(file, prepared.file)
                &&& prepared.temperatures@ == temperatures(file)
            },
            Err(error) => file_verdict(file) == Err::<(), CalibrationError>(error),
        },
{
    if !text::equal(file.format.as_str(), CALIBRATION_FORMAT) {
        return Err(CalibrationError::UnsupportedFormat);
    }
    if file.start_hz >= file.stop_hz {
        return Err(CalibrationError::InvalidRange);
    }
    let load: Option<CalibrationBlock> = match prepare_block(file.load) {
        Ok(block) => block,
        Err(error) => return Err(error),
    };
    let open: Option<CalibrationBlock> = match prepare_block(file.open) {
        Ok(block) => block,
        Err(error) => return Err(error),
    };
    let short: Option<CalibrationBlock> = match prepare_block(file.short) {
        Ok(block) => block,
        Err(error) => return Err(error),
    };
    let loopback: Option<CalibrationBlock> = match prepare_block(file.loopback) {
        Ok(block) => block,
        Err(error) => return Err(error),
    };
    let after: CalibrationFile = CalibrationFile {
        format: file.format,
        analyser_type: file.analyser_type,
        comment: file.comment,
        start_hz: file.start_hz,
        stop_hz: file.stop_hz,
        points: file.points,
        overscans: file.overscans,
        mode: file.mode,
        load,
        open,
        short,
        loopback,
    };
    proof {
        lemma_blocks_still_match(file, after);
    }
    let mut found: Vec<Binary64> = Vec::new();
    push_temperature(&mut found, &after.load);
    push_temperature(&mut found, &after.open);
    push_temperature(&mut found, &after.short);
    push_temperature(&mut found, &after.loopback);
    assert(found@ =~= temperatures(after));
    if found.len() == 0 {
        return Err(CalibrationError::NoTemperature);
    }
    if let Err(error) = check_blocks(&after) {
        return Err(error);
    }
    Ok(PreparedCalibration { file: after, temperatures: found })
}

// ---------------------------------------------------------------------------
// Calibrations in use
// ---------------------------------------------------------------------------
/// A complex number.
#[derive(Clone, Copy, Debug, PartialEq, Eq, Structural)]
pub struct Complex {
    pub re: Binary64,
    pub im: Binary64,
}

/// The error terms of one calibration point.
#[derive(Clone, Copy, Debug, PartialEq, Eq, Structural)]
pub struct ErrorTerms {
    pub e00: Complex,
    pub e11: Complex,
    pub delta_e: Complex,
}

#[derive(Clone, Copy, Debug, PartialEq, Eq, Structural)]
pub struct CalibrationPoint {
    pub frequency_hz: u64,
    pub terms: ErrorTerms,
}

/// A calibration that can be applied.
#[derive(Clone, Debug)]
pub struct Calibration {
    source: String,
    analyser_type: String,
    mode: ScanMode,
    start_hz: u64,
    stop_hz: u64,
    temperature_c: Binary64,
    points: Vec<CalibrationPoint>,
}

/// What a calibration is.
#[verifier::ext_equal]
pub struct CalibrationModel {
    pub source: Seq<char>,
    pub analyser_type: Seq<char>,
    pub mode: ScanMode,
    pub start_hz: u64,
    pub stop_hz: u64,
    pub temperature_c: Binary64,
    pub points: Seq<CalibrationPoint>,
}

impl View for Calibration {
    type V = CalibrationModel;

    closed spec fn view(&self) -> CalibrationModel {
        CalibrationModel {
            source: self.source@,
            analyser_type: self.analyser_type@,
            mode: self.mode,
            start_hz: self.start_hz,
            stop_hz: self.stop_hz,
            temperature_c: self.temperature_c,
            points: self.points@,
        }
    }
}

/// The frequencies grow strictly.
pub open spec fn increasing(points: Seq<CalibrationPoint>) -> bool {
    forall|i: int, j: int|
        0 <= i < j < points.len() ==> (#[trigger] points[i]).frequency_hz < (
        #[trigger] points[j]).frequency_hz
}

/// The calibration points: the frequencies of `samples` with their terms.
pub open spec fn points_of(samples: Seq<CalibrationSample>, terms: Seq<ErrorTerms>) -> Seq<
    CalibrationPoint,
> {
    Seq::new(
        terms.len(),
        |i: int| CalibrationPoint { frequency_hz: samples[i].frequency_hz, terms: terms[i] },
    )
}

/// What keeps a file from being used once its error terms are known.
pub open spec fn points_verdict(claimed: usize, points: Seq<CalibrationPoint>) -> Result<
    (),
    CalibrationError,
> {
    if points.len() != claimed {
        Err(CalibrationError::HeaderCount { claimed, found: points.len() as usize })
    } else if !increasing(points) {
        Err(CalibrationError::NotIncreasing)
    } else {
        Ok(())
    }
}

/// Two neighbouring calibration points, or one that is hit exactly.
#[derive(Clone, Copy, Debug, PartialEq, Eq, Structural)]
pub enum Bracket {
    Exact(usize),
    Between { lower: usize, upper: usize },
}

/// The first place, from `from` on, whose frequency is not below
/// `frequency_hz`.
pub open spec fn place_of(points: Seq<CalibrationPoint>, frequency_hz: u64, from: int) -> int
    decreases points.len() - from,
{
    if from >= points.len() || points[from].frequency_hz >= frequency_hz {
        from
    } else {
        place_of(points, frequency_hz, from + 1)
    }
}

/// The points that a frequency lies between. Above the last point the last two
/// are used; below the first there are none.
pub open spec fn bracket_of(points: Seq<CalibrationPoint>, frequency_hz: u64) -> Result<
    Bracket,
    CalibrationError,
> {
    let place = place_of(points, frequency_hz, 0);
    if place < points.len() && points[place].frequency_hz == frequency_hz {
        Ok(Bracket::Exact(place as usize))
    } else if place == 0 {
        Err(
            CalibrationError::BelowFirstPoint { frequency_hz, first_hz: points[0].frequency_hz },
        )
    } else if place >= points.len() {
        Ok(
            Bracket::Between {
                lower: (points.len() - 2) as usize,
                upper: (points.len() - 1) as usize,
            },
        )
    } else {
        Ok(Bracket::Between { lower: (place - 1) as usize, upper: place as usize })
    }
}

/// The frequency at which the sample at `index` is calibrated. It differs from
/// the sample's label: the range is divided by the number of points here, and
/// by one less there.
pub open spec fn calibration_frequency(spec: ScanSpec, index: int) -> int {
    spec.start_hz + (spec.stop_hz - spec.start_hz) / spec.points as int * index
}

/// The frequency at which the sample at `index` of a scan is calibrated.
pub fn grid_frequency(spec: &ScanSpec, index: usize) -> (frequency_hz: u64)
    requires
        spec.start_hz <= spec.stop_hz,
        index < spec.points,
    ensures
        frequency_hz == calibration_frequency(*spec, index as int),
{
    proof {
        lemma_calibration_frequency(*spec, index as int);
    }
    let step: u64 = (spec.stop_hz - spec.start_hz) / spec.points as u64;
    spec.start_hz + step * index as u64
}

impl CalibrationModel {
    pub open spec fn valid(self) -> bool {
        self.points.len() >= 2 && self.points.len() <= usize::MAX && increasing(self.points)
    }

    /// What keeps the calibration from being applied to a scan.
    pub open spec fn scan_verdict(self, spec: ScanSpec, temperature_c: Binary64) -> Result<
        (),
        CalibrationError,
    > {
        if spec.mode != self.mode {
            Err(CalibrationError::ModeMismatch { scan: spec.mode, calibration: self.mode })
        } else if spec.start_hz < self.start_hz || spec.stop_hz > self.stop_hz {
            Err(
                CalibrationError::OutsideRange {
                    start_hz: spec.start_hz,
                    stop_hz: spec.stop_hz,
                    first_hz: self.start_hz,
                    last_hz: self.stop_hz,
                },
            )
        } else if !temperature_c.finite() {
            Err(CalibrationError::MeasurementTemperature)
        } else {
            Ok(())
        }
    }

    /// The points for the sample at `index` of a scan.
    pub open spec fn sample_bracket(
        self,
        spec: ScanSpec,
        index: int,
        temperature_c: Binary64,
    ) -> Result<Bracket, CalibrationError> {
        if self.scan_verdict(spec, temperature_c) is Err {
            Err(self.scan_verdict(spec, temperature_c)->Err_0)
        } else if index >= spec.points {
            Err(CalibrationError::IndexOutside { index: index as usize, points: spec.points })
        } else {
            bracket_of(self.points, calibration_frequency(spec, index) as u64)
        }
    }

    /// The first of the samples from `from` on that has no points.
    pub open spec fn first_gap(self, spec: ScanSpec, from: int) -> Option<int>
        decreases spec.points - from,
    {
        if from >= spec.points {
            None
        } else if bracket_of(self.points, calibration_frequency(spec, from) as u64) is Err {
            Some(from)
        } else {
            self.first_gap(spec, from + 1)
        }
    }

    /// What keeps a whole scan of `count` samples from being calibrated.
    pub open spec fn batch_verdict(
        self,
        spec: ScanSpec,
        count: usize,
        temperature_c: Binary64,
    ) -> Result<(), CalibrationError> {
        if self.scan_verdict(spec, temperature_c) is Err {
            self.scan_verdict(spec, temperature_c)
        } else if count != spec.points {
            Err(CalibrationError::RawCount { found: count, expected: spec.points })
        } else {
            match self.first_gap(spec, 0) {
                Some(index) => Err(
                    bracket_of(self.points, calibration_frequency(spec, index) as u64)->Err_0,
                ),
                None => Ok(()),
            }
        }
    }
}

fn check_increasing(points: &Vec<CalibrationPoint>) -> (answer: bool)
    ensures
        answer == increasing(points@),
{
    let mut i: usize = 1;
    while i < points.len()
        invariant
            1 <= i,
            i <= points.len() || points.len() == 0,
            forall|a: int, b: int|
                0 <= a < b < i && b < points.len() ==> (#[trigger] points@[a]).frequency_hz < (
                #[trigger] points@[b]).frequency_hz,
        decreases points.len() - i,
    {
        if points[i - 1].frequency_hz >= points[i].frequency_hz {
            assert(points@[i - 1].frequency_hz >= points@[i as int].frequency_hz);
            return false;
        }
        i = i + 1;
    }
    true
}

/// The calibration of a prepared file with its error terms.
pub open spec fn calibration_of(
    file: CalibrationFile,
    source: Seq<char>,
    temperature_c: Binary64,
    terms: Seq<ErrorTerms>,
) -> CalibrationModel {
    CalibrationModel {
        source,
        analyser_type: file.analyser_type@,
        mode: file.mode,
        start_hz: file.start_hz,
        stop_hz: file.stop_hz,
        temperature_c,
        points: points_of(file.open->0.samples@, terms),
    }
}

/// Puts the error terms of a prepared calibration in place. There is one set of
/// terms for each sample of the open block.
pub fn assemble(
    prepared: PreparedCalibration,
    source: String,
    temperature_c: Binary64,
    terms: &Vec<ErrorTerms>,
) -> (calibration: Result<Calibration, CalibrationError>)
    requires
        prepared.file.open is Some,
        terms@.len() == prepared.file.open->0.samples@.len(),
        terms@.len() >= 2,
    ensures
        ({
            let points = points_of(prepared.file.open->0.samples@, terms@);
            match calibration {
                Ok(calibration) => {
                    &&& points_verdict(prepared.file.points, points) is Ok
                    &&& calibration@.valid()
                    &&& calibration@ == calibration_of(
                        prepared.file,
                        source@,
                        temperature_c,
                        terms@,
                    )
                },
                Err(error) => points_verdict(prepared.file.points, points) == Err::<
                    (),
                    CalibrationError,
                >(error),
            }
        }),
{
    let file: CalibrationFile = prepared.file;
    let mut points: Vec<CalibrationPoint> = Vec::new();
    if let Some(open) = &file.open {
        let mut i: usize = 0;
        while i < terms.len()
            invariant
                i <= terms.len(),
                terms@.len() == open.samples@.len(),
                points@ == points_of(open.samples@, terms@).take(i as int),
            decreases terms.len() - i,
        {
            points.push(
                CalibrationPoint { frequency_hz: open.samples[i].frequency_hz, terms: terms[i] },
            );
            i = i + 1;
            assert(points@ =~= points_of(open.samples@, terms@).take(i as int));
        }
        assert(points@ =~= points_of(open.samples@, terms@));
    }
    if points.len() != file.points {
        return Err(
            CalibrationError::HeaderCount { claimed: file.points, found: points.len() },
        );
    }
    if !check_increasing(&points) {
        return Err(CalibrationError::NotIncreasing);
    }
    Ok(
        Calibration {
            source,
            analyser_type: file.analyser_type,
            mode: file.mode,
            start_hz: file.start_hz,
            stop_hz: file.stop_hz,
            temperature_c,
            points,
        },
    )
}

/// Where the search for a place ends: everything before it is below the
/// frequency, and it is not.
proof fn lemma_place(points: Seq<CalibrationPoint>, frequency_hz: u64, from: int, place: int)
    requires
        0 <= from <= place <= points.len(),
        forall|i: int| from <= i < place ==> (#[trigger] points[i]).frequency_hz < frequency_hz,
        place < points.len() ==> points[place].frequency_hz >= frequency_hz,
    ensures
        place_of(points, frequency_hz, from) == place,
    decreases place - from,
{
    if from < place {
        assert(points[from].frequency_hz < frequency_hz);
        lemma_place(points, frequency_hz, from + 1, place);
    }
}

impl Calibration {
    pub fn source(&self) -> (source: &str)
        ensures
            source@ == self@.source,
    {
        self.source.as_str()
    }

    pub fn analyser_type(&self) -> (analyser_type: &str)
        ensures
            analyser_type@ == self@.analyser_type,
    {
        self.analyser_type.as_str()
    }

    pub fn mode(&self) -> (mode: ScanMode)
        ensures
            mode == self@.mode,
    {
        self.mode
    }

    pub fn start_hz(&self) -> (start_hz: u64)
        ensures
            start_hz == self@.start_hz,
    {
        self.start_hz
    }

    pub fn stop_hz(&self) -> (stop_hz: u64)
        ensures
            stop_hz == self@.stop_hz,
    {
        self.stop_hz
    }

    pub fn temperature_c(&self) -> (temperature_c: Binary64)
        ensures
            temperature_c == self@.temperature_c,
    {
        self.temperature_c
    }

    pub fn point_count(&self) -> (count: usize)
        ensures
            count == self@.points.len(),
    {
        self.points.len()
    }

    pub fn point(&self, index: usize) -> (point: CalibrationPoint)
        requires
            index < self@.points.len(),
        ensures
            point == self@.points[index as int],
    {
        self.points[index]
    }

    /// The points that a frequency lies between.
    pub fn bracket(&self, frequency_hz: u64) -> (bracket: Result<Bracket, CalibrationError>)
        requires
            self@.valid(),
        ensures
            bracket == bracket_of(self@.points, frequency_hz),
    {
        let mut low: usize = 0;
        let mut high: usize = self.points.len();
        while low < high
            invariant
                low <= high <= self.points.len(),
                increasing(self.points@),
                forall|i: int|
                    0 <= i < low ==> (#[trigger] self.points@[i]).frequency_hz < frequency_hz,
                forall|i: int|
                    high <= i < self.points@.len() ==> (#[trigger] self.points@[i]).frequency_hz
                        >= frequency_hz,
            decreases high - low,
        {
            let middle: usize = low + (high - low) / 2;
            if self.points[middle].frequency_hz < frequency_hz {
                low = middle + 1;
            } else {
                high = middle;
            }
        }
        proof {
            lemma_place(self.points@, frequency_hz, 0, low as int);
        }
        if low < self.points.len() && self.points[low].frequency_hz == frequency_hz {
            return Ok(Bracket::Exact(low));
        }
        if low == 0 {
            return Err(
                CalibrationError::BelowFirstPoint {
                    frequency_hz,
                    first_hz: self.points[0].frequency_hz,
                },
            );
        }
        if low >= self.points.len() {
            return Ok(
                Bracket::Between {
                    lower: self.points.len() - 2,
                    upper: self.points.len() - 1,
                },
            );
        }
        Ok(Bracket::Between { lower: low - 1, upper: low })
    }

    /// Whether the calibration can be applied to a scan.
    pub fn validate_scan(&self, spec: &ScanSpec, temperature_c: Binary64) -> (verdict: Result<
        (),
        CalibrationError,
    >)
        ensures
            verdict == self@.scan_verdict(*spec, temperature_c),
    {
        if spec.mode != self.mode {
            return Err(
                CalibrationError::ModeMismatch { scan: spec.mode, calibration: self.mode },
            );
        }
        if spec.start_hz < self.start_hz || spec.stop_hz > self.stop_hz {
            return Err(
                CalibrationError::OutsideRange {
                    start_hz: spec.start_hz,
                    stop_hz: spec.stop_hz,
                    first_hz: self.start_hz,
                    last_hz: self.stop_hz,
                },
            );
        }
        if !temperature_c.is_finite() {
            return Err(CalibrationError::MeasurementTemperature);
        }
        Ok(())
    }

    fn indexed_bracket(&self, spec: &ScanSpec, index: usize) -> (bracket: Result<
        Bracket,
        CalibrationError,
    >)
        requires
            self@.valid(),
            spec.start_hz <= spec.stop_hz,
            index < spec.points,
        ensures
            bracket == bracket_of(self@.points, calibration_frequency(*spec, index as int) as u64),
    {
        self.bracket(grid_frequency(spec, index))
    }

    /// The points for the sample at `index` of a scan.
    pub fn sample_bracket(&self, spec: &ScanSpec, index: usize, temperature_c: Binary64) -> (bracket:
        Result<Bracket, CalibrationError>)
        requires
            self@.valid(),
            self@.scan_verdict(*spec, temperature_c) is Ok && index < spec.points ==> spec.start_hz
                <= spec.stop_hz,
        ensures
            bracket == self@.sample_bracket(*spec, index as int, temperature_c),
    {
        if let Err(error) = self.validate_scan(spec, temperature_c) {
            return Err(error);
        }
        if index >= spec.points {
            return Err(CalibrationError::IndexOutside { index, points: spec.points });
        }
        self.indexed_bracket(spec, index)
    }

    /// The points for each sample of a whole scan.
    pub fn scan_brackets(&self, spec: &ScanSpec, count: usize, temperature_c: Binary64) -> (brackets:
        Result<Vec<Bracket>, CalibrationError>)
        requires
            self@.valid(),
            self@.scan_verdict(*spec, temperature_c) is Ok && count == spec.points && spec.points
                > 0 ==> spec.start_hz <= spec.stop_hz,
        ensures
            match brackets {
                Ok(brackets) => {
                    &&& self@.batch_verdict(*spec, count, temperature_c) is Ok
                    &&& brackets@.len() == spec.points
                    &&& forall|i: int|
                        0 <= i < brackets@.len() ==> self@.sample_bracket(*spec, i, temperature_c)
                            == Ok::<Bracket, CalibrationError>(#[trigger] brackets@[i])
                },
                Err(error) => self@.batch_verdict(*spec, count, temperature_c) == Err::<
                    (),
                    CalibrationError,
                >(error),
            },
    {
        if let Err(error) = self.validate_scan(spec, temperature_c) {
            return Err(error);
        }
        if count != spec.points {
            return Err(CalibrationError::RawCount { found: count, expected: spec.points });
        }
        let mut brackets: Vec<Bracket> = Vec::new();
        let mut index: usize = 0;
        while index < spec.points
            invariant
                self@.valid(),
                spec.points > 0 ==> spec.start_hz <= spec.stop_hz,
                index <= spec.points,
                count == spec.points,
                brackets@.len() == index,
                self@.scan_verdict(*spec, temperature_c) is Ok,
                self@.first_gap(*spec, 0) == self@.first_gap(*spec, index as int),
                forall|i: int|
                    0 <= i < brackets@.len() ==> self@.sample_bracket(*spec, i, temperature_c)
                        == Ok::<Bracket, CalibrationError>(#[trigger] brackets@[i]),
            decreases spec.points - index,
        {
            match self.indexed_bracket(spec, index) {
                Ok(bracket) => brackets.push(bracket),
                Err(error) => return Err(error),
            }
            index = index + 1;
        }
        Ok(brackets)
    }
}

/// The calibration frequencies stay within the range.
proof fn lemma_calibration_frequency(spec: ScanSpec, index: int)
    requires
        spec.start_hz <= spec.stop_hz,
        0 <= index < spec.points,
    ensures
        spec.start_hz <= calibration_frequency(spec, index) <= spec.stop_hz,
        0 <= (spec.stop_hz - spec.start_hz) / spec.points as int * index <= u64::MAX,
{
    let span = spec.stop_hz - spec.start_hz;
    let points = spec.points as int;
    let step = span / points;
    assert(0 <= step * index <= step * points && step * points <= span) by (nonlinear_arith)
        requires
            step == span / points,
            0 <= index < points,
            span >= 0,
    ;
}

// ---------------------------------------------------------------------------
// Laws
// ---------------------------------------------------------------------------
proof fn lemma_placed(spec: ScanSpec, samples: Seq<RawSample>, from: int)
    requires
        0 <= from,
        misplaced(spec, samples, from) is None,
    ensures
        forall|i: int|
            from <= i < samples.len() ==> (#[trigger] samples[i]).frequency_hz == spec.label(i),
    decreases samples.len() - from,
{
    if from < samples.len() {
        lemma_placed(spec, samples, from + 1);
    }
}

/// Captures that were accepted one by one are each of the right length and at
/// the right frequencies.
proof fn lemma_accepted_capture(
    spec: ScanSpec,
    captures: Seq<CalibrationCapture>,
    n: int,
    standard: CalibrationStandard,
)
    requires
        0 <= n <= captures.len(),
        captures_verdict(spec, captures, n) is Ok,
    ensures
        captured(captures, n, standard) matches Some(i) ==> {
            &&& 0 <= i < n
            &&& captures[i].standard == standard
            &&& captures[i].device_temperature_c.finite()
            &&& captures[i].samples@.len() == spec.points
            &&& forall|k: int|
                0 <= k < spec.points ==> (#[trigger] captures[i].samples@[k]).frequency_hz
                    == spec.label(k)
        },
    decreases n,
{
    if n > 0 {
        if captures[n - 1].standard == standard {
            lemma_placed(spec, captures[n - 1].samples@, 0);
        } else {
            lemma_accepted_capture(spec, captures, n - 1, standard);
        }
    }
}

/// The device temperature at which a standard was captured.
pub open spec fn captured_temperature(
    captures: Seq<CalibrationCapture>,
    standard: CalibrationStandard,
) -> Binary64 {
    captures[captured(captures, captures.len() as int, standard)->0].device_temperature_c
}

/// A calibration that was built is accepted again when its file is read: it is
/// of the mode and range of its scan, has one point for each point of the scan,
/// growing strictly from the start of the range, whatever its error terms are,
/// and holds the temperatures of its captures.
pub proof fn law_built_calibration_is_accepted(
    file: CalibrationFile,
    spec: ScanSpec,
    captures: Seq<CalibrationCapture>,
    comment: Option<String>,
    terms: Seq<ErrorTerms>,
)
    requires
        build_verdict(spec, captures) is Ok,
        built(file, spec, captures, comment),
        terms.len() == spec.points,
    ensures
        file_verdict(file) is Ok,
        file.open is Some,
        file.open->0.samples@.len() == spec.points,
        points_verdict(file.points, points_of(suppressed(file.open->0.samples@), terms)) is Ok,
        points_of(suppressed(file.open->0.samples@), terms)[0].frequency_hz == file.start_hz,
        points_of(suppressed(file.open->0.samples@), terms).len() == spec.points,
        file.mode == spec.mode,
        file.start_hz == spec.start_hz,
        file.stop_hz == spec.stop_hz,
        temperatures(file) == match spec.mode {
            ScanMode::Reflection => seq![
                captured_temperature(captures, CalibrationStandard::Load),
                captured_temperature(captures, CalibrationStandard::Open),
                captured_temperature(captures, CalibrationStandard::Short),
            ],
            ScanMode::Transmission => seq![
                captured_temperature(captures, CalibrationStandard::Open),
                captured_temperature(captures, CalibrationStandard::Loopback),
            ],
        },
{
    let n = captures.len() as int;
    lemma_accepted_capture(spec, captures, n, CalibrationStandard::Open);
    lemma_accepted_capture(spec, captures, n, CalibrationStandard::Short);
    lemma_accepted_capture(spec, captures, n, CalibrationStandard::Load);
    lemma_accepted_capture(spec, captures, n, CalibrationStandard::Loopback);
    model::law_labels_cover_the_range(spec);
    let open = file.open->0.samples@;
    lemma_stored_grid(file.open, spec, captures, CalibrationStandard::Open);
    lemma_stored_grid(file.short, spec, captures, CalibrationStandard::Short);
    lemma_stored_grid(file.load, spec, captures, CalibrationStandard::Load);
    lemma_stored_grid(file.loopback, spec, captures, CalibrationStandard::Loopback);
    assert(block_temperature(file.open).len() == 1);
    lemma_suppressed_grid(open);
    let points = points_of(suppressed(open), terms);
    assert forall|i: int, j: int| 0 <= i < j < points.len() implies (
    #[trigger] points[i]).frequency_hz < (#[trigger] points[j]).frequency_hz by {
        assert(spec.label(i) < spec.label(j));
    }
    assert(points[0].frequency_hz == spec.label(0));
}

/// Two blocks hold the same.
pub open spec fn same_block(left: Option<CalibrationBlock>, right: Option<CalibrationBlock>) -> bool {
    match (left, right) {
        (None, None) => true,
        (Some(left), Some(right)) => {
            &&& left.device_temperature_c == right.device_temperature_c
            &&& left.start_hz == right.start_hz
            &&& left.stop_hz == right.stop_hz
            &&& left.points == right.points
            &&& left.samples@ == right.samples@
        },
        _ => false,
    }
}

/// Two calibration files hold the same.
pub open spec fn same_file(left: CalibrationFile, right: CalibrationFile) -> bool {
    &&& left.format@ == right.format@
    &&& left.analyser_type@ == right.analyser_type@
    &&& left.comment == right.comment
    &&& left.start_hz == right.start_hz
    &&& left.stop_hz == right.stop_hz
    &&& left.points == right.points
    &&& left.overscans == right.overscans
    &&& left.mode == right.mode
    &&& same_block(left.load, right.load)
    &&& same_block(left.open, right.open)
    &&& same_block(left.short, right.short)
    &&& same_block(left.loopback, right.loopback)
}

/// The order in which the standards were captured does not matter: another
/// order of the same captures gives a calibration too, and the same one.
pub proof fn law_order_of_captures_does_not_matter(
    spec: ScanSpec,
    left: Seq<CalibrationCapture>,
    right: Seq<CalibrationCapture>,
    first: CalibrationFile,
    second: CalibrationFile,
    comment: Option<String>,
)
    requires
        build_verdict(spec, left) is Ok,
        left.to_multiset() == right.to_multiset(),
    ensures
        build_verdict(spec, right) is Ok,
        built(first, spec, left, comment) && built(second, spec, right, comment) ==> same_file(
            first,
            second,
        ),
{
    lemma_captures_accepted(spec, left, left.len() as int);
    lemma_reordered(left, right);
    assert forall|i: int| 0 <= i < right.len() implies capture_verdict(
        spec,
        #[trigger] right[i],
    ) is Ok by {
        let k = choose|k: int| 0 <= k < left.len() && left[k] == right[i];
        assert(capture_verdict(spec, left[k]) is Ok);
    }
    lemma_captures_accepted(spec, right, right.len() as int);
    lemma_same_capture(left, right, CalibrationStandard::Open);
    lemma_same_capture(left, right, CalibrationStandard::Short);
    lemma_same_capture(left, right, CalibrationStandard::Load);
    lemma_same_capture(left, right, CalibrationStandard::Loopback);
}

/// No two of the first `n` captures are of one standard.
spec fn distinct(captures: Seq<CalibrationCapture>, n: int) -> bool {
    forall|i: int, j: int|
        0 <= i < j < n ==> (#[trigger] captures[i]).standard != (#[trigger] captures[j]).standard
}

/// Captures are accepted if each one is and no standard comes twice.
proof fn lemma_captures_accepted(spec: ScanSpec, captures: Seq<CalibrationCapture>, n: int)
    requires
        0 <= n <= captures.len(),
    ensures
        captures_verdict(spec, captures, n) is Ok <==> distinct(captures, n) && forall|i: int|
            0 <= i < n ==> capture_verdict(spec, #[trigger] captures[i]) is Ok,
    decreases n,
{
    if n > 0 {
        lemma_captures_accepted(spec, captures, n - 1);
        lemma_captured(captures, n - 1, captures[n - 1].standard);
        if captured(captures, n - 1, captures[n - 1].standard) is None && distinct(
            captures,
            n - 1,
        ) {
            assert(distinct(captures, n));
        }
    }
}

proof fn lemma_captured(
    captures: Seq<CalibrationCapture>,
    n: int,
    standard: CalibrationStandard,
)
    requires
        0 <= n <= captures.len(),
    ensures
        match captured(captures, n, standard) {
            Some(i) => 0 <= i < n && captures[i].standard == standard,
            None => forall|i: int| 0 <= i < n ==> (#[trigger] captures[i]).standard != standard,
        },
    decreases n,
{
    if n > 0 && captures[n - 1].standard != standard {
        lemma_captured(captures, n - 1, standard);
    }
}

/// Another order of distinct captures has the same captures, still distinct.
proof fn lemma_reordered(left: Seq<CalibrationCapture>, right: Seq<CalibrationCapture>)
    requires
        distinct(left, left.len() as int),
        left.to_multiset() == right.to_multiset(),
    ensures
        distinct(right, right.len() as int),
        forall|i: int| 0 <= i < right.len() ==> left.contains(#[trigger] right[i]),
        forall|i: int| 0 <= i < left.len() ==> right.contains(#[trigger] left[i]),
{
    left.to_multiset_ensures();
    right.to_multiset_ensures();
    assert forall|i: int| 0 <= i < right.len() implies left.contains(#[trigger] right[i]) by {
        assert(right.contains(right[i]));
        assert(right.to_multiset().count(right[i]) > 0);
    }
    assert forall|i: int| 0 <= i < left.len() implies right.contains(#[trigger] left[i]) by {
        assert(left.contains(left[i]));
        assert(left.to_multiset().count(left[i]) > 0);
    }
    assert(left.no_duplicates());
    left.lemma_multiset_has_no_duplicates();
    right.lemma_multiset_has_no_duplicates_conv();
    assert forall|i: int, j: int| 0 <= i < j < right.len() implies (
    #[trigger] right[i]).standard != (#[trigger] right[j]).standard by {
        assert(left.contains(right[i]) && left.contains(right[j]));
        let k = choose|k: int| 0 <= k < left.len() && left[k] == right[i];
        let l = choose|l: int| 0 <= l < left.len() && left[l] == right[j];
        assert(k != l);
    }
}

proof fn lemma_same_capture(
    left: Seq<CalibrationCapture>,
    right: Seq<CalibrationCapture>,
    standard: CalibrationStandard,
)
    requires
        distinct(left, left.len() as int),
        forall|i: int| 0 <= i < right.len() ==> left.contains(#[trigger] right[i]),
        forall|i: int| 0 <= i < left.len() ==> right.contains(#[trigger] left[i]),
    ensures
        match (
            captured(left, left.len() as int, standard),
            captured(right, right.len() as int, standard),
        ) {
            (Some(i), Some(j)) => left[i] == right[j],
            (None, None) => true,
            _ => false,
        },
{
    lemma_captured(left, left.len() as int, standard);
    lemma_captured(right, right.len() as int, standard);
    if let Some(i) = captured(left, left.len() as int, standard) {
        assert(right.contains(left[i]));
    }
    if let Some(j) = captured(right, right.len() as int, standard) {
        assert(left.contains(right[j]));
    }
}

/// A stored block has one sample at each label of the scan.
proof fn lemma_stored_grid(
    block: Option<CalibrationBlock>,
    spec: ScanSpec,
    captures: Seq<CalibrationCapture>,
    standard: CalibrationStandard,
)
    requires
        captures_verdict(spec, captures, captures.len() as int) is Ok,
        stores(block, spec, captures, captures.len() as int, standard),
        spec.valid(),
    ensures
        block_verdict(block) is Ok,
        block matches Some(block) ==> {
            &&& block.samples@.len() == spec.points
            &&& forall|k: int|
                0 <= k < spec.points ==> (#[trigger] block.samples@[k]).frequency_hz
                    == spec.label(k)
        },
{
    lemma_accepted_capture(spec, captures, captures.len() as int, standard);
    if let Some(block) = block {
        let i = captured(captures, captures.len() as int, standard)->0;
        assert forall|k: int| 0 <= k < spec.points implies (
        #[trigger] block.samples@[k]).frequency_hz == spec.label(k) by {
            assert(captures[i].samples@[k].frequency_hz == spec.label(k));
        }
    }
}

/// Suppressing the switch points keeps every frequency and changes two samples
/// at most, each one the first behind a switch.
pub proof fn law_suppression_is_local(samples: Seq<CalibrationSample>, i: int)
    requires
        samples.len() >= 2,
        0 <= i < samples.len(),
    ensures
        suppressed(samples).len() == samples.len(),
        suppressed(samples)[i].frequency_hz == samples[i].frequency_hz,
        suppressed(samples)[i] == samples[i] || (2 <= i < samples.len() - 1 && ((samples[i
            - 1].frequency_hz <= FIRST_SWITCH_HZ < samples[i].frequency_hz) || (samples[i
            - 1].frequency_hz <= SECOND_SWITCH_HZ < samples[i].frequency_hz))),
{
    lemma_suppressed_grid(samples);
    let once = smoothed(samples, FIRST_SWITCH_HZ);
    lemma_crossing(samples, FIRST_SWITCH_HZ, 2);
    lemma_crossing(once, SECOND_SWITCH_HZ, 2);
}

/// A bracket holds two neighbouring points with the frequency between them, or
/// the last two if the frequency is above all points, or the one point at the
/// frequency.
pub proof fn law_bracket_surrounds(points: Seq<CalibrationPoint>, frequency_hz: u64)
    requires
        2 <= points.len() <= usize::MAX,
        increasing(points),
    ensures
        match bracket_of(points, frequency_hz) {
            Ok(Bracket::Exact(i)) => i < points.len() && points[i as int].frequency_hz
                == frequency_hz,
            Ok(Bracket::Between { lower, upper }) => {
                &&& upper == lower + 1
                &&& upper < points.len()
                &&& points[lower as int].frequency_hz < frequency_hz
                &&& frequency_hz < points[upper as int].frequency_hz || (upper == points.len() - 1
                    && points[upper as int].frequency_hz < frequency_hz)
            },
            Err(error) => frequency_hz < points[0].frequency_hz && error
                == (CalibrationError::BelowFirstPoint {
                frequency_hz,
                first_hz: points[0].frequency_hz,
            }),
        },
{
    lemma_place_found(points, frequency_hz, 0);
}

proof fn lemma_place_found(points: Seq<CalibrationPoint>, frequency_hz: u64, from: int)
    requires
        0 <= from <= points.len(),
    ensures
        from <= place_of(points, frequency_hz, from) <= points.len(),
        forall|i: int|
            from <= i < place_of(points, frequency_hz, from) ==> (
            #[trigger] points[i]).frequency_hz < frequency_hz,
        place_of(points, frequency_hz, from) < points.len() ==> points[place_of(
            points,
            frequency_hz,
            from,
        )].frequency_hz >= frequency_hz,
    decreases points.len() - from,
{
    if from < points.len() && points[from].frequency_hz < frequency_hz {
        lemma_place_found(points, frequency_hz, from + 1);
    }
}

/// A calibration whose points start where its range does can calibrate every
/// sample of any scan within that range.
pub proof fn law_calibration_covers_its_range(
    calibration: CalibrationModel,
    spec: ScanSpec,
    temperature_c: Binary64,
)
    requires
        calibration.valid(),
        calibration.points[0].frequency_hz == calibration.start_hz,
        calibration.scan_verdict(spec, temperature_c) is Ok,
        spec.start_hz <= spec.stop_hz,
    ensures
        forall|i: int|
            0 <= i < spec.points ==> (#[trigger] calibration.sample_bracket(
                spec,
                i,
                temperature_c,
            )) is Ok,
        calibration.batch_verdict(spec, spec.points, temperature_c) is Ok,
{
    assert forall|i: int| 0 <= i < spec.points implies (#[trigger] calibration.sample_bracket(
        spec,
        i,
        temperature_c,
    )) is Ok by {
        lemma_calibration_frequency(spec, i);
        law_bracket_surrounds(calibration.points, calibration_frequency(spec, i) as u64);
    }
    law_batch_is_every_sample(calibration, spec, spec.points, temperature_c);
}

/// A whole scan can be calibrated exactly if it is of the calibration's mode and
/// within its range, its temperature is a number, all its samples are there and
/// each of them can be calibrated by itself: one that cannot fails them all.
pub proof fn law_batch_is_every_sample(
    calibration: CalibrationModel,
    spec: ScanSpec,
    count: usize,
    temperature_c: Binary64,
)
    ensures
        calibration.batch_verdict(spec, count, temperature_c) is Ok <==> {
            &&& spec.mode == calibration.mode
            &&& calibration.start_hz <= spec.start_hz
            &&& spec.stop_hz <= calibration.stop_hz
            &&& temperature_c.finite()
            &&& count == spec.points
            &&& forall|i: int|
                0 <= i < spec.points ==> (#[trigger] calibration.sample_bracket(
                    spec,
                    i,
                    temperature_c,
                )) is Ok
        },
{
    if calibration.scan_verdict(spec, temperature_c) is Ok {
        lemma_gap(calibration, spec, temperature_c, 0);
    }
}

proof fn lemma_gap(
    calibration: CalibrationModel,
    spec: ScanSpec,
    temperature_c: Binary64,
    from: int,
)
    requires
        0 <= from,
        calibration.scan_verdict(spec, temperature_c) is Ok,
    ensures
        match calibration.first_gap(spec, from) {
            Some(i) => from <= i < spec.points && calibration.sample_bracket(
                spec,
                i,
                temperature_c,
            ) is Err,
            None => forall|i: int|
                from <= i < spec.points ==> (#[trigger] calibration.sample_bracket(
                    spec,
                    i,
                    temperature_c,
                )) is Ok,
        },
    decreases spec.points - from,
{
    if from < spec.points {
        lemma_gap(calibration, spec, temperature_c, from + 1);
        assert(calibration.sample_bracket(spec, from, temperature_c) == bracket_of(
            calibration.points,
            calibration_frequency(spec, from) as u64,
        ));
    }
}

/// `block` is the sweep of `capture`, sample by sample.
pub open spec fn sweep_of(
    block: CalibrationBlock,
    capture: CalibrationCapture,
    spec: ScanSpec,
) -> bool {
    &&& block.device_temperature_c == Some(capture.device_temperature_c)
    &&& block.start_hz == spec.start_hz
    &&& block.stop_hz == spec.stop_hz
    &&& block.points == spec.points
    &&& block.samples@.len() == capture.samples@.len()
    &&& forall|i: int|
        #![trigger block.samples@[i]]
        #![trigger capture.samples@[i]]
        0 <= i < block.samples@.len() ==> {
            &&& block.samples@[i].frequency_hz == capture.samples@[i].frequency_hz
            &&& block.samples@[i].real == capture.samples@[i].real
            &&& block.samples@[i].imaginary == capture.samples@[i].imaginary
        }
}

/// The block of one standard.
pub open spec fn block_of(file: CalibrationFile, standard: CalibrationStandard) -> Option<
    CalibrationBlock,
> {
    match standard {
        CalibrationStandard::Open => file.open,
        CalibrationStandard::Short => file.short,
        CalibrationStandard::Load => file.load,
        CalibrationStandard::Loopback => file.loopback,
    }
}

/// A calibration that was built holds each sweep that was captured under its
/// standard, every point with the values that were measured at it, and no other
/// sweep.
pub proof fn law_every_point_is_stored(
    file: CalibrationFile,
    spec: ScanSpec,
    captures: Seq<CalibrationCapture>,
    comment: Option<String>,
    k: int,
)
    requires
        build_verdict(spec, captures) is Ok,
        built(file, spec, captures, comment),
        0 <= k < captures.len(),
    ensures
        block_of(file, captures[k].standard) is Some,
        sweep_of(block_of(file, captures[k].standard)->0, captures[k], spec),
        forall|standard: CalibrationStandard|
            (#[trigger] block_of(file, standard)) is Some <==> exists|j: int|
                0 <= j < captures.len() && (#[trigger] captures[j]).standard == standard,
        file.comment == comment,
        file.format@ == "minivna-rs-calibration-v1"@,
        file.analyser_type@ == "20"@,
        file.overscans == 0,
        file.start_hz == spec.start_hz && file.stop_hz == spec.stop_hz && file.points
            == spec.points && file.mode == spec.mode,
{
    let n = captures.len() as int;
    lemma_captures_accepted(spec, captures, n);
    let standard = captures[k].standard;
    lemma_captured(captures, n, standard);
    assert forall|standard: CalibrationStandard|
        (#[trigger] block_of(file, standard)) is Some <==> exists|j: int|
            0 <= j < captures.len() && (#[trigger] captures[j]).standard == standard by {
        lemma_captured(captures, n, standard);
        assert(stores(block_of(file, standard), spec, captures, n, standard));
    }
    assert(stores(block_of(file, standard), spec, captures, n, standard));
    let j = captured(captures, n, standard)->0;
    assert(j == k) by {
        if j < k {
            assert(captures[j].standard != captures[k].standard);
        } else if k < j {
            assert(captures[k].standard != captures[j].standard);
        }
    }
}

/// A calibration can be built exactly if its scan can be requested, every
/// capture is of that scan's points and frequencies at a temperature that is a
/// number, no standard was captured twice, and the standards are those that the
/// mode needs: open, short and load for reflection, open and loopback for
/// transmission.
pub proof fn law_what_can_be_built(spec: ScanSpec, captures: Seq<CalibrationCapture>)
    ensures
        build_verdict(spec, captures) is Ok <==> {
            &&& spec.valid()
            &&& forall|i: int|
                0 <= i < captures.len() ==> capture_fits(spec, #[trigger] captures[i])
            &&& forall|i: int, j: int|
                0 <= i < j < captures.len() ==> (#[trigger] captures[i]).standard != (
                #[trigger] captures[j]).standard
            &&& is_captured(captures, CalibrationStandard::Open)
            &&& is_captured(captures, CalibrationStandard::Short) == (spec.mode
                == ScanMode::Reflection)
            &&& is_captured(captures, CalibrationStandard::Load) == (spec.mode
                == ScanMode::Reflection)
            &&& is_captured(captures, CalibrationStandard::Loopback) == (spec.mode
                == ScanMode::Transmission)
        },
{
    let n = captures.len() as int;
    lemma_captures_accepted(spec, captures, n);
    lemma_captured(captures, n, CalibrationStandard::Open);
    lemma_captured(captures, n, CalibrationStandard::Short);
    lemma_captured(captures, n, CalibrationStandard::Load);
    lemma_captured(captures, n, CalibrationStandard::Loopback);
    assert forall|i: int| 0 <= i < captures.len() implies (capture_verdict(
        spec,
        #[trigger] captures[i],
    ) is Ok <==> capture_fits(spec, captures[i])) by {
        lemma_capture_fits(spec, captures[i]);
    }
    if build_verdict(spec, captures) is Ok {
        assert(distinct(captures, n));
    }
}

/// One of the captures is of `standard`.
pub open spec fn is_captured(
    captures: Seq<CalibrationCapture>,
    standard: CalibrationStandard,
) -> bool {
    exists|i: int| 0 <= i < captures.len() && (#[trigger] captures[i]).standard == standard
}

/// The capture is one sample at each label of the scan, at a temperature that is
/// a number.
pub open spec fn capture_fits(spec: ScanSpec, capture: CalibrationCapture) -> bool {
    &&& capture.device_temperature_c.finite()
    &&& capture.samples@.len() == spec.points
    &&& forall|i: int|
        0 <= i < capture.samples@.len() ==> (#[trigger] capture.samples@[i]).frequency_hz
            == spec.label(i)
}

proof fn lemma_capture_fits(spec: ScanSpec, capture: CalibrationCapture)
    ensures
        capture_verdict(spec, capture) is Ok <==> capture_fits(spec, capture),
{
    lemma_misplaced(spec, capture.samples@, 0);
}

proof fn lemma_misplaced(spec: ScanSpec, samples: Seq<RawSample>, from: int)
    requires
        0 <= from,
    ensures
        misplaced(spec, samples, from) is None <==> forall|i: int|
            from <= i < samples.len() ==> (#[trigger] samples[i]).frequency_hz == spec.label(i),
        misplaced(spec, samples, from) matches Some(k) ==> from <= k < samples.len()
            && samples[k].frequency_hz != spec.label(k) && forall|i: int|
            from <= i < k ==> (#[trigger] samples[i]).frequency_hz == spec.label(i),
    decreases samples.len() - from,
{
    if from < samples.len() && samples[from].frequency_hz == spec.label(from) {
        lemma_misplaced(spec, samples, from + 1);
    }
}

/// A capture that does not fit is refused for its temperature, its number of
/// points, or the first of its samples that is at another frequency, in this
/// order.
pub proof fn law_capture_errors(spec: ScanSpec, capture: CalibrationCapture)
    ensures
        match capture_verdict(spec, capture) {
            Ok(_) => capture_fits(spec, capture),
            Err(CalibrationError::TemperatureNotFinite(standard)) => standard == capture.standard
                && !capture.device_temperature_c.finite(),
            Err(CalibrationError::WrongPointCount { standard, captured, expected }) => {
                &&& standard == capture.standard
                &&& capture.device_temperature_c.finite()
                &&& captured == capture.samples@.len() as usize && expected == spec.points
                &&& capture.samples@.len() != spec.points
            },
            Err(CalibrationError::WrongFrequency { standard, point, found_hz, expected_hz }) => {
                let k = point - 1;
                &&& standard == capture.standard
                &&& capture.device_temperature_c.finite() && capture.samples@.len() == spec.points
                &&& 0 <= k < capture.samples@.len()
                &&& found_hz == capture.samples@[k].frequency_hz
                &&& expected_hz == spec.label(k) as u64
                &&& capture.samples@[k].frequency_hz != spec.label(k)
                &&& forall|i: int|
                    0 <= i < k ==> (#[trigger] capture.samples@[i]).frequency_hz == spec.label(i)
            },
            Err(_) => false,
        },
{
    lemma_misplaced(spec, capture.samples@, 0);
}

/// At the first sample behind each switch of the signal path, leaving out the
/// first two samples and the last, the value is that of the sample before it.
/// All other values and every frequency stay what they were.
pub proof fn law_switch_points_repeat_the_value_before(
    samples: Seq<CalibrationSample>,
    i: int,
)
    requires
        samples.len() >= 2,
        0 <= i < samples.len(),
    ensures
        ({
            let after = suppressed(samples);
            let first = first_behind(samples, i, 1_045_000_000);
            let second = first_behind(samples, i, 1_525_000_000);
            &&& after.len() == samples.len()
            &&& after[i].frequency_hz == samples[i].frequency_hz
            &&& !first && !second ==> after[i] == samples[i]
            &&& second ==> after[i].real == after[i - 1].real && after[i].imaginary == after[i
                - 1].imaginary
            &&& first && !second ==> after[i].real == samples[i - 1].real && after[i].imaginary
                == samples[i - 1].imaginary
        }),
{
    let once = smoothed(samples, FIRST_SWITCH_HZ);
    assert forall|j: int| 0 <= j < samples.len() implies (#[trigger] once[j]).frequency_hz
        == samples[j].frequency_hz by {
        lemma_smoothed(samples, FIRST_SWITCH_HZ, j);
    }
    lemma_smoothed(samples, FIRST_SWITCH_HZ, i);
    lemma_smoothed(once, SECOND_SWITCH_HZ, i);
    lemma_first_behind_by_frequency(samples, once, i, SECOND_SWITCH_HZ);
    if i > 0 {
        lemma_smoothed(once, SECOND_SWITCH_HZ, i - 1);
    }
}

/// What one switch does to the sample at `i`.
proof fn lemma_smoothed(samples: Seq<CalibrationSample>, switch: u64, i: int)
    requires
        0 <= i < samples.len(),
    ensures
        smoothed(samples, switch).len() == samples.len(),
        smoothed(samples, switch)[i].frequency_hz == samples[i].frequency_hz,
        first_behind(samples, i, switch) ==> smoothed(samples, switch)[i].real == samples[i
            - 1].real && smoothed(samples, switch)[i].imaginary == samples[i - 1].imaginary,
        !first_behind(samples, i, switch) ==> smoothed(samples, switch)[i] == samples[i],
{
    lemma_first_behind(samples, i, switch);
    lemma_crossing_is_first(samples, switch, 2);
}

/// Where a switch is depends on the frequencies alone.
proof fn lemma_first_behind_by_frequency(
    left: Seq<CalibrationSample>,
    right: Seq<CalibrationSample>,
    i: int,
    switch: u64,
)
    requires
        left.len() == right.len(),
        forall|j: int|
            0 <= j < left.len() ==> (#[trigger] right[j]).frequency_hz == left[j].frequency_hz,
    ensures
        first_behind(left, i, switch) == first_behind(right, i, switch),
{
    if 2 <= i < left.len() - 1 {
        assert(right[i].frequency_hz == left[i].frequency_hz);
        assert(right[i - 1].frequency_hz == left[i - 1].frequency_hz);
        if first_behind(left, i, switch) {
            assert forall|j: int| 2 <= j < i implies !((#[trigger] right[j]).frequency_hz > switch
                && right[j - 1].frequency_hz <= switch) by {
                assert(right[j].frequency_hz == left[j].frequency_hz);
                assert(right[j - 1].frequency_hz == left[j - 1].frequency_hz);
                assert(!(left[j].frequency_hz > switch && left[j - 1].frequency_hz <= switch));
            }
        }
        if first_behind(right, i, switch) {
            assert forall|j: int| 2 <= j < i implies !((#[trigger] left[j]).frequency_hz > switch
                && left[j - 1].frequency_hz <= switch) by {
                assert(right[j].frequency_hz == left[j].frequency_hz);
                assert(right[j - 1].frequency_hz == left[j - 1].frequency_hz);
                assert(!(right[j].frequency_hz > switch && right[j - 1].frequency_hz <= switch));
            }
        }
    }
}

/// The sample at `i` is the first behind `switch`, and neither one of the first
/// two samples nor the last.
pub open spec fn first_behind(samples: Seq<CalibrationSample>, i: int, switch: u64) -> bool {
    &&& 2 <= i < samples.len() - 1
    &&& samples[i].frequency_hz > switch
    &&& samples[i - 1].frequency_hz <= switch
    &&& forall|j: int|
        2 <= j < i ==> !((#[trigger] samples[j]).frequency_hz > switch && samples[j
            - 1].frequency_hz <= switch)
}

proof fn lemma_crossing_is_first(samples: Seq<CalibrationSample>, switch: u64, from: int)
    requires
        from >= 2,
    ensures
        match crossing(samples, switch, from) {
            Some(i) => from <= i < samples.len() - 1 && samples[i - 1].frequency_hz <= switch
                && samples[i].frequency_hz > switch && forall|j: int|
                from <= j < i ==> !((#[trigger] samples[j]).frequency_hz > switch && samples[j
                    - 1].frequency_hz <= switch),
            None => forall|j: int|
                from <= j < samples.len() - 1 ==> !((#[trigger] samples[j]).frequency_hz > switch
                    && samples[j - 1].frequency_hz <= switch),
        },
    decreases samples.len() - from,
{
    if from < samples.len() - 1 {
        lemma_crossing_is_first(samples, switch, from + 1);
    }
}

proof fn lemma_first_behind(samples: Seq<CalibrationSample>, i: int, switch: u64)
    ensures
        first_behind(samples, i, switch) <==> crossing(samples, switch, 2) == Some(i),
{
    lemma_crossing_is_first(samples, switch, 2);
}

/// A calibration file can be used exactly if it is of the known format, its range
/// is one, every block in it has as many samples as it says and two at least, a
/// temperature is named, and the blocks that its mode needs are there and measure
/// at the same frequencies.
pub proof fn law_what_can_be_used(file: CalibrationFile)
    ensures
        file_verdict(file) is Ok <==> {
            &&& file.format@ == "minivna-rs-calibration-v1"@
            &&& file.start_hz < file.stop_hz
            &&& forall|standard: CalibrationStandard|
                (#[trigger] block_of(file, standard)) matches Some(block) ==> block.samples@.len()
                    == block.points && block.points >= 2
            &&& exists|standard: CalibrationStandard|
                (#[trigger] block_of(file, standard)) matches Some(block)
                    && block.device_temperature_c is Some
            &&& file.open is Some
            &&& file.mode == ScanMode::Reflection ==> file.short is Some && file.load is Some
                && same_frequencies(file.open->0, file.short->0) && same_frequencies(
                file.open->0,
                file.load->0,
            )
            &&& file.mode == ScanMode::Transmission ==> file.loopback is Some && same_frequencies(
                file.open->0,
                file.loopback->0,
            )
        },
{
    assert(block_of(file, CalibrationStandard::Open) == file.open);
    assert(block_of(file, CalibrationStandard::Short) == file.short);
    assert(block_of(file, CalibrationStandard::Load) == file.load);
    assert(block_of(file, CalibrationStandard::Loopback) == file.loopback);
    if file.open is Some && file.short is Some {
        lemma_same_frequencies(file.open->0, file.short->0);
    }
    if file.open is Some && file.load is Some {
        lemma_same_frequencies(file.open->0, file.load->0);
    }
    if file.open is Some && file.loopback is Some {
        lemma_same_frequencies(file.open->0, file.loopback->0);
    }
}

/// Two sweeps measure at the same frequencies.
pub open spec fn same_frequencies(left: CalibrationBlock, right: CalibrationBlock) -> bool {
    &&& left.samples@.len() == right.samples@.len()
    &&& forall|i: int|
        #![trigger left.samples@[i]]
        0 <= i < left.samples@.len() ==> left.samples@[i].frequency_hz
            == right.samples@[i].frequency_hz
}

proof fn lemma_same_frequencies(left: CalibrationBlock, right: CalibrationBlock)
    ensures
        matching_verdict(left.samples@, right.samples@) is Ok <==> same_frequencies(left, right),
{
    if same_frequencies(left, right) {
        assert(same_grid(left.samples@, right.samples@, left.samples@.len() as int));
    }
    if matching_verdict(left.samples@, right.samples@) is Ok {
        assert forall|i: int| 0 <= i < left.samples@.len() implies (
        #[trigger] left.samples@[i]).frequency_hz == right.samples@[i].frequency_hz by {
            assert(left.samples@[i].frequency_hz == right.samples@[i].frequency_hz);
        }
    }
}

/// Each calibration point is at the frequency of the sample at its place and has
/// the error terms of that place.
pub proof fn law_points_keep_their_place(
    samples: Seq<CalibrationSample>,
    terms: Seq<ErrorTerms>,
    i: int,
)
    requires
        samples.len() == terms.len(),
        0 <= i < samples.len(),
    ensures
        points_of(samples, terms).len() == samples.len(),
        points_of(samples, terms)[i].frequency_hz == samples[i].frequency_hz,
        points_of(samples, terms)[i].terms == terms[i],
{
}

/// The samples of a scan are calibrated at frequencies that start at its start,
/// lie at one distance from each other, and that distance is the largest whole
/// number of hertz of which the range holds as many as the scan has points.
pub proof fn law_calibration_grid(spec: ScanSpec, i: int)
    requires
        spec.points > 0,
        spec.start_hz <= spec.stop_hz,
        0 <= i,
    ensures
        calibration_frequency(spec, 0) == spec.start_hz,
        ({
            let step = calibration_frequency(spec, 1) - calibration_frequency(spec, 0);
            &&& calibration_frequency(spec, i + 1) - calibration_frequency(spec, i) == step
            &&& step * spec.points <= spec.stop_hz - spec.start_hz
            &&& (step + 1) * spec.points > spec.stop_hz - spec.start_hz
        }),
{
    let span = spec.stop_hz - spec.start_hz;
    let points = spec.points as int;
    let step = span / points;
    assert(step * 0 == 0 && step * 1 == step && step * (i + 1) == step * i + step)
        by (nonlinear_arith);
    assert(step * points <= span && (step + 1) * points > span) by (nonlinear_arith)
        requires
            step == span / points,
            points > 0,
            span >= 0,
    ;
}

/// A sample is calibrated with the two points that its calibration frequency lies
/// between, the last two if it lies above all of them, or the one that it hits.
/// The points do not depend on the temperature, as long as that is a number.
pub proof fn law_sample_uses_the_points_around_it(
    calibration: CalibrationModel,
    spec: ScanSpec,
    index: int,
    temperature_c: Binary64,
)
    requires
        calibration.valid(),
        spec.mode == calibration.mode,
        calibration.start_hz <= spec.start_hz <= spec.stop_hz <= calibration.stop_hz,
        temperature_c.finite(),
        0 <= index < spec.points,
    ensures
        ({
            let frequency = spec.start_hz + (spec.stop_hz - spec.start_hz) / spec.points as int
                * index;
            let points = calibration.points;
            match calibration.sample_bracket(spec, index, temperature_c) {
                Ok(Bracket::Exact(i)) => i < points.len() && points[i as int].frequency_hz
                    == frequency,
                Ok(Bracket::Between { lower, upper }) => {
                    &&& upper == lower + 1 && upper < points.len()
                    &&& points[lower as int].frequency_hz < frequency
                    &&& frequency < points[upper as int].frequency_hz || (upper == points.len() - 1
                        && points[upper as int].frequency_hz < frequency)
                },
                Err(error) => frequency < points[0].frequency_hz && error
                    == (CalibrationError::BelowFirstPoint {
                    frequency_hz: frequency as u64,
                    first_hz: points[0].frequency_hz,
                }),
            }
        }),
{
    lemma_calibration_frequency(spec, index);
    law_bracket_surrounds(calibration.points, calibration_frequency(spec, index) as u64);
}

/// A calibration is refused for a scan of another mode, one outside its range, or
/// a temperature that is no number, in this order.
pub proof fn law_scan_refusals(
    calibration: CalibrationModel,
    spec: ScanSpec,
    temperature_c: Binary64,
)
    ensures
        ({
            let inside = calibration.start_hz <= spec.start_hz && spec.stop_hz
                <= calibration.stop_hz;
            match calibration.scan_verdict(spec, temperature_c) {
                Ok(_) => spec.mode == calibration.mode && inside && temperature_c.finite(),
                Err(CalibrationError::ModeMismatch { scan, calibration: own }) => scan == spec.mode
                    && own == calibration.mode && scan != own,
                Err(CalibrationError::OutsideRange { start_hz, stop_hz, first_hz, last_hz }) => {
                    &&& spec.mode == calibration.mode && !inside
                    &&& start_hz == spec.start_hz && stop_hz == spec.stop_hz
                    &&& first_hz == calibration.start_hz && last_hz == calibration.stop_hz
                },
                Err(CalibrationError::MeasurementTemperature) => spec.mode == calibration.mode
                    && inside && !temperature_c.finite(),
                Err(_) => false,
            }
        }),
{
}

/// The captures before place `k` all fit and are of different standards.
pub open spec fn fine_before(spec: ScanSpec, captures: Seq<CalibrationCapture>, k: int) -> bool {
    &&& forall|i: int| 0 <= i < k ==> capture_fits(spec, #[trigger] captures[i])
    &&& forall|i: int, j: int|
        0 <= i < j < k ==> (#[trigger] captures[i]).standard != (#[trigger] captures[j]).standard
}

/// An earlier capture is of the standard of the capture at `k`.
pub open spec fn repeated(captures: Seq<CalibrationCapture>, k: int) -> bool {
    exists|i: int| 0 <= i < k && (#[trigger] captures[i]).standard == captures[k].standard
}

proof fn lemma_first_bad_capture(spec: ScanSpec, captures: Seq<CalibrationCapture>, n: int)
    requires
        0 <= n <= captures.len(),
    ensures
        captures_verdict(spec, captures, n) is Ok <==> fine_before(spec, captures, n),
        captures_verdict(spec, captures, n) matches Err(error) ==> exists|k: int| #![trigger captures[k]]
            0 <= k < n && fine_before(spec, captures, k) && ((!capture_fits(spec, captures[k])
                && capture_verdict(spec, captures[k]) == Err::<(), CalibrationError>(error)) || (
            capture_fits(spec, captures[k]) && repeated(captures, k) && error
                == CalibrationError::DuplicateCapture(captures[k].standard))),
    decreases n,
{
    if n > 0 {
        lemma_first_bad_capture(spec, captures, n - 1);
        let k = n - 1;
        lemma_capture_fits(spec, captures[k]);
        lemma_captured(captures, k, captures[k].standard);
        if captures_verdict(spec, captures, k) is Ok {
            if capture_fits(spec, captures[k]) && captured(
                captures,
                k,
                captures[k].standard,
            ) is Some {
                assert(repeated(captures, k));
                let i = choose|i: int|
                    0 <= i < k && (#[trigger] captures[i]).standard == captures[k].standard;
                assert(captures[i].standard == captures[k].standard);
                assert(!fine_before(spec, captures, n));
            } else if capture_fits(spec, captures[k]) {
                assert(fine_before(spec, captures, n));
            }
        } else {
            assert(!fine_before(spec, captures, k));
            if fine_before(spec, captures, n) {
                assert(fine_before(spec, captures, k));
            }
        }
    }
}

/// Building fails with the first thing that is wrong: the scan, the first capture
/// that does not fit or repeats a standard, a standard that the mode needs and
/// that is missing, or one that it does not use.
pub proof fn law_build_refusals(spec: ScanSpec, captures: Seq<CalibrationCapture>)
    requires
        build_verdict(spec, captures) is Err,
    ensures
        ({
            let error = build_verdict(spec, captures)->Err_0;
            let all = fine_before(spec, captures, captures.len() as int);
            let open = is_captured(captures, CalibrationStandard::Open);
            let short = is_captured(captures, CalibrationStandard::Short);
            let load = is_captured(captures, CalibrationStandard::Load);
            let loopback = is_captured(captures, CalibrationStandard::Loopback);
            if !spec.valid() {
                error is Spec && spec.verdict() == Err::<(), SpecError>(error->Spec_0)
            } else if !all {
                exists|k: int| #![trigger captures[k]]
                    0 <= k < captures.len() && fine_before(spec, captures, k) && ((!capture_fits(
                        spec,
                        captures[k],
                    ) && capture_verdict(spec, captures[k]) == Err::<(), CalibrationError>(error))
                        || (capture_fits(spec, captures[k]) && repeated(captures, k) && error
                        == CalibrationError::DuplicateCapture(captures[k].standard)))
            } else if spec.mode == ScanMode::Reflection {
                if open && short && load {
                    loopback && error == CalibrationError::UnusedLoopbackCapture
                } else {
                    error == CalibrationError::MissingReflectionCapture
                }
            } else {
                if open && loopback {
                    (short || load) && error == CalibrationError::UnusedReflectionCapture
                } else {
                    error == CalibrationError::MissingTransmissionCapture
                }
            }
        }),
{
    let n = captures.len() as int;
    lemma_first_bad_capture(spec, captures, n);
    lemma_captured(captures, n, CalibrationStandard::Open);
    lemma_captured(captures, n, CalibrationStandard::Short);
    lemma_captured(captures, n, CalibrationStandard::Load);
    lemma_captured(captures, n, CalibrationStandard::Loopback);
}

/// A calibration file that cannot be used is refused for what is wrong with it.
pub proof fn law_file_refusals(file: CalibrationFile)
    requires
        file_verdict(file) is Err,
    ensures
        match file_verdict(file)->Err_0 {
            CalibrationError::UnsupportedFormat => file.format@ != "minivna-rs-calibration-v1"@,
            CalibrationError::InvalidRange => file.format@ == "minivna-rs-calibration-v1"@
                && file.start_hz >= file.stop_hz,
            CalibrationError::BlockCount { claimed, found } => exists|standard: CalibrationStandard|
                (#[trigger] block_of(file, standard)) matches Some(block) && block.points == claimed
                    && block.samples@.len() as usize == found && block.samples@.len() != claimed,
            CalibrationError::BlockTooShort => exists|standard: CalibrationStandard|
                (#[trigger] block_of(file, standard)) matches Some(block) && block.samples@.len()
                    < 2,
            CalibrationError::NoTemperature => forall|standard: CalibrationStandard|
                (#[trigger] block_of(file, standard)) matches Some(block)
                    ==> block.device_temperature_c is None,
            CalibrationError::MissingBlock(standard) => block_of(file, standard) is None && (
            standard == CalibrationStandard::Open || (standard == CalibrationStandard::Loopback)
                == (file.mode == ScanMode::Transmission)),
            CalibrationError::DifferentCounts => exists|standard: CalibrationStandard|
                standard != CalibrationStandard::Open && (#[trigger] block_of(
                    file,
                    standard,
                )) is Some && file.open is Some && block_of(file, standard)->0.samples@.len()
                    != file.open->0.samples@.len(),
            CalibrationError::DifferentGrids => exists|standard: CalibrationStandard|
                standard != CalibrationStandard::Open && (#[trigger] block_of(
                    file,
                    standard,
                )) is Some && file.open is Some && block_of(file, standard)->0.samples@.len()
                    == file.open->0.samples@.len() && !same_frequencies(
                    file.open->0,
                    block_of(file, standard)->0,
                ),
            _ => false,
        },
{
    assert(block_of(file, CalibrationStandard::Open) == file.open);
    assert(block_of(file, CalibrationStandard::Short) == file.short);
    assert(block_of(file, CalibrationStandard::Load) == file.load);
    assert(block_of(file, CalibrationStandard::Loopback) == file.loopback);
    if file.open is Some && file.short is Some {
        lemma_same_frequencies(file.open->0, file.short->0);
    }
    if file.open is Some && file.load is Some {
        lemma_same_frequencies(file.open->0, file.load->0);
    }
    if file.open is Some && file.loopback is Some {
        lemma_same_frequencies(file.open->0, file.loopback->0);
    }
}

/// The block has a temperature.
pub open spec fn has_temperature(block: Option<CalibrationBlock>) -> bool {
    block matches Some(block) && block.device_temperature_c is Some
}

/// A file names the temperatures of its blocks, those that have one, in this
/// order: load, open, short, loopback.
pub proof fn law_temperatures_of_a_file(file: CalibrationFile)
    ensures
        ({
            let load = if has_temperature(file.load) { 1int } else { 0 };
            let open = if has_temperature(file.open) { 1int } else { 0 };
            let short = if has_temperature(file.short) { 1int } else { 0 };
            let loopback = if has_temperature(file.loopback) { 1int } else { 0 };
            let all = temperatures(file);
            &&& all.len() == load + open + short + loopback
            &&& load == 1 ==> file.load->0.device_temperature_c == Some(all[0])
            &&& open == 1 ==> file.open->0.device_temperature_c == Some(all[load])
            &&& short == 1 ==> file.short->0.device_temperature_c == Some(all[load + open])
            &&& loopback == 1 ==> file.loopback->0.device_temperature_c == Some(
                all[load + open + short],
            )
        }),
{
}

/// A file that was prepared has the blocks that it had, each with its frequencies
/// and values, but for the values at the switches of the signal path.
pub proof fn law_prepared_blocks(
    before: CalibrationFile,
    after: CalibrationFile,
    standard: CalibrationStandard,
    i: int,
)
    requires
        file_suppressed(before, after),
        block_of(before, standard) matches Some(block) ==> block.samples@.len() >= 2,
    ensures
        after.mode == before.mode,
        after.start_hz == before.start_hz && after.stop_hz == before.stop_hz,
        after.points == before.points,
        after.analyser_type == before.analyser_type,
        block_of(before, standard) is Some <==> block_of(after, standard) is Some,
        block_of(before, standard) matches Some(block) ==> {
            let samples = block.samples@;
            let new = block_of(after, standard)->0.samples@;
            &&& block_of(after, standard)->0.device_temperature_c == block.device_temperature_c
            &&& block_of(after, standard)->0.start_hz == block.start_hz
            &&& block_of(after, standard)->0.stop_hz == block.stop_hz
            &&& block_of(after, standard)->0.points == block.points
            &&& new.len() == samples.len()
            &&& 0 <= i < samples.len() ==> {
                let first = first_behind(samples, i, 1_045_000_000);
                let second = first_behind(samples, i, 1_525_000_000);
                &&& new[i].frequency_hz == samples[i].frequency_hz
                &&& !first && !second ==> new[i] == samples[i]
                &&& second ==> new[i].real == new[i - 1].real && new[i].imaginary == new[i
                    - 1].imaginary
                &&& first && !second ==> new[i].real == samples[i - 1].real && new[i].imaginary
                    == samples[i - 1].imaginary
            }
        },
{
    if let Some(block) = block_of(before, standard) {
        assert(block_suppressed(block_of(before, standard), block_of(after, standard)));
        lemma_suppressed_grid(block.samples@);
        if 0 <= i < block.samples@.len() {
            law_switch_points_repeat_the_value_before(block.samples@, i);
        }
    }
}

/// A calibration has as many points as its file says, each at a higher frequency
/// than the one before.
pub proof fn law_points_in_order(claimed: usize, points: Seq<CalibrationPoint>)
    ensures
        points_verdict(claimed, points) is Ok <==> points.len() == claimed && forall|i: int|
            #![trigger points[i]]
            0 <= i < points.len() - 1 ==> points[i].frequency_hz < points[i + 1].frequency_hz,
        points.len() != claimed ==> (points_verdict(claimed, points) matches Err(
            CalibrationError::HeaderCount { claimed: said, found },
        ) && said == claimed && found == points.len() as usize),
        points.len() == claimed && points_verdict(claimed, points) is Err ==> points_verdict(
            claimed,
            points,
        ) == Err::<(), CalibrationError>(CalibrationError::NotIncreasing),
{
    if forall|i: int| #![trigger points[i]]
        0 <= i < points.len() - 1 ==> points[i].frequency_hz < points[i + 1].frequency_hz {
        assert forall|i: int, j: int| 0 <= i < j < points.len() implies (
        #[trigger] points[i]).frequency_hz < (#[trigger] points[j]).frequency_hz by {
            lemma_rising(points, i, j);
        }
    }
}

proof fn lemma_rising(points: Seq<CalibrationPoint>, i: int, j: int)
    requires
        forall|i: int| #![trigger points[i]]
            0 <= i < points.len() - 1 ==> points[i].frequency_hz < points[i + 1].frequency_hz,
        0 <= i < j < points.len(),
    ensures
        points[i].frequency_hz < points[j].frequency_hz,
    decreases j - i,
{
    assert(points[j - 1].frequency_hz < points[j].frequency_hz) by {
        let k = j - 1;
        assert(points[k].frequency_hz < points[k + 1].frequency_hz);
    }
    if i < j - 1 {
        lemma_rising(points, i, j - 1);
    }
}

/// A scan that cannot be calibrated as a whole is refused as the scan itself is,
/// or for the number of its samples, or else as the first of its samples that
/// cannot be calibrated.
pub proof fn law_batch_refusals(
    calibration: CalibrationModel,
    spec: ScanSpec,
    count: usize,
    temperature_c: Binary64,
)
    ensures
        calibration.batch_verdict(spec, count, temperature_c) matches Err(error) ==> {
            ||| calibration.scan_verdict(spec, temperature_c) == Err::<(), CalibrationError>(error)
            ||| count != spec.points && error == (CalibrationError::RawCount {
                found: count,
                expected: spec.points,
            })
            ||| exists|k: int|
                0 <= k < spec.points && (#[trigger] calibration.sample_bracket(
                    spec,
                    k,
                    temperature_c,
                )) == Err::<Bracket, CalibrationError>(error) && forall|i: int|
                    0 <= i < k ==> (#[trigger] calibration.sample_bracket(
                        spec,
                        i,
                        temperature_c,
                    )) is Ok
        },
{
    if calibration.scan_verdict(spec, temperature_c) is Ok && count == spec.points {
        lemma_gap(calibration, spec, temperature_c, 0);
        lemma_first_gap(calibration, spec, temperature_c, 0);
        if let Some(k) = calibration.first_gap(spec, 0) {
            assert(calibration.sample_bracket(spec, k, temperature_c) is Err);
        }
    }
}

proof fn lemma_first_gap(
    calibration: CalibrationModel,
    spec: ScanSpec,
    temperature_c: Binary64,
    from: int,
)
    requires
        0 <= from,
        calibration.scan_verdict(spec, temperature_c) is Ok,
    ensures
        calibration.first_gap(spec, from) matches Some(k) ==> from <= k < spec.points && forall|
            i: int,
        |
            from <= i < k ==> (#[trigger] calibration.sample_bracket(spec, i, temperature_c)) is Ok,
    decreases spec.points - from,
{
    if from < spec.points {
        lemma_first_gap(calibration, spec, temperature_c, from + 1);
        assert(calibration.sample_bracket(spec, from, temperature_c) == bracket_of(
            calibration.points,
            calibration_frequency(spec, from) as u64,
        ));
    }
}

/// An error names its numbers in this order: a place, what was found or asked
/// for, and what was expected. A file's own claim comes before what it holds.
pub proof fn law_errors_name_their_numbers(error: CalibrationError, format: Seq<char>)
    ensures
        ({
            let found_numbers = text::numbers(error.text(format));
            match error {
                CalibrationError::WrongPointCount { standard, captured, expected } => found_numbers
                    == seq![captured as nat, expected as nat],
                CalibrationError::WrongFrequency { standard, point, found_hz, expected_hz } =>
                    found_numbers == seq![point as nat, found_hz as nat, expected_hz as nat],
                CalibrationError::BlockCount { claimed, found } => found_numbers == seq![
                    claimed as nat,
                    found as nat,
                ],
                CalibrationError::HeaderCount { claimed, found } => found_numbers == seq![
                    claimed as nat,
                    found as nat,
                ],
                CalibrationError::OutsideRange { start_hz, stop_hz, first_hz, last_hz } =>
                    found_numbers == seq![
                    start_hz as nat,
                    stop_hz as nat,
                    first_hz as nat,
                    last_hz as nat,
                ],
                CalibrationError::RawCount { found, expected } => found_numbers == seq![
                    found as nat,
                    expected as nat,
                ],
                CalibrationError::IndexOutside { index, points } => found_numbers == seq![
                    index as nat,
                    points as nat,
                ],
                CalibrationError::BelowFirstPoint { frequency_hz, first_hz } => found_numbers
                    == seq![frequency_hz as nat, first_hz as nat],
                _ => true,
            }
        }),
{
    let none = Seq::<char>::empty();
    text::lemma_words_hold_no_number(none, none);
    match error {
        CalibrationError::WrongPointCount { standard, captured, expected } => {
            reveal_strlit(" calibration captured ");
            reveal_strlit(" points, expected ");
            lemma_standard_is_wordy(standard);
            let a = standard.text() + " calibration captured "@;
            text::lemma_two_numbers(
                a,
                captured as nat,
                " points, expected "@,
                expected as nat,
                none,
            );
            assert(error.text(format) =~= a + text::decimal(captured as nat) + " points, expected "@
                + text::decimal(expected as nat) + none);
        },
        CalibrationError::WrongFrequency { standard, point, found_hz, expected_hz } => {
            reveal_strlit(" calibration point ");
            reveal_strlit(" has frequency ");
            reveal_strlit(", expected ");
            lemma_standard_is_wordy(standard);
            let a = standard.text() + " calibration point "@;
            text::lemma_three_numbers(
                a,
                point as nat,
                " has frequency "@,
                found_hz as nat,
                ", expected "@,
                expected_hz as nat,
                none,
            );
            assert(error.text(format) =~= a + text::decimal(point as nat) + " has frequency "@
                + text::decimal(found_hz as nat) + ", expected "@ + text::decimal(
                expected_hz as nat,
            ) + none);
        },
        CalibrationError::BlockCount { claimed, found } => {
            reveal_strlit("calibration block says ");
            reveal_strlit(" points but contains ");
            text::lemma_two_numbers(
                "calibration block says "@,
                claimed as nat,
                " points but contains "@,
                found as nat,
                none,
            );
            assert(error.text(format) =~= "calibration block says "@ + text::decimal(claimed as nat)
                + " points but contains "@ + text::decimal(found as nat) + none);
        },
        CalibrationError::HeaderCount { claimed, found } => {
            reveal_strlit("calibration header says ");
            reveal_strlit(" points but contains ");
            text::lemma_two_numbers(
                "calibration header says "@,
                claimed as nat,
                " points but contains "@,
                found as nat,
                none,
            );
            assert(error.text(format) =~= "calibration header says "@ + text::decimal(
                claimed as nat,
            ) + " points but contains "@ + text::decimal(found as nat) + none);
        },
        CalibrationError::OutsideRange { start_hz, stop_hz, first_hz, last_hz } => {
            reveal_strlit("scan ");
            reveal_strlit("..");
            reveal_strlit(" Hz is outside calibration range ");
            reveal_strlit(" Hz");
            text::lemma_four_numbers(
                "scan "@,
                start_hz as nat,
                ".."@,
                stop_hz as nat,
                " Hz is outside calibration range "@,
                first_hz as nat,
                ".."@,
                last_hz as nat,
                " Hz"@,
            );
            text::lemma_words_hold_no_number(" Hz"@, none);
        },
        CalibrationError::RawCount { found, expected } => {
            reveal_strlit("raw result has ");
            reveal_strlit(" samples, expected ");
            text::lemma_two_numbers(
                "raw result has "@,
                found as nat,
                " samples, expected "@,
                expected as nat,
                none,
            );
            assert(error.text(format) =~= "raw result has "@ + text::decimal(found as nat)
                + " samples, expected "@ + text::decimal(expected as nat) + none);
        },
        CalibrationError::IndexOutside { index, points } => {
            reveal_strlit("raw point index ");
            reveal_strlit(" is outside the configured ");
            reveal_strlit(" points");
            text::lemma_two_numbers(
                "raw point index "@,
                index as nat,
                " is outside the configured "@,
                points as nat,
                " points"@,
            );
            text::lemma_words_hold_no_number(" points"@, none);
        },
        CalibrationError::BelowFirstPoint { frequency_hz, first_hz } => {
            reveal_strlit("frequency ");
            reveal_strlit(" Hz is below first calibration point ");
            reveal_strlit(" Hz");
            text::lemma_two_numbers(
                "frequency "@,
                frequency_hz as nat,
                " Hz is below first calibration point "@,
                first_hz as nat,
                " Hz"@,
            );
            text::lemma_words_hold_no_number(" Hz"@, none);
        },
        _ => {},
    }
}

proof fn lemma_standard_is_wordy(standard: CalibrationStandard)
    ensures
        text::is_wordy(standard.text()),
{
    reveal_strlit("open");
    reveal_strlit("short");
    reveal_strlit("load");
    reveal_strlit("loopback");
}

/// A calibration has the mode and range of its file, the temperature that it was
/// given, and at the frequency of each sample of the open block the error terms of
/// that place.
pub proof fn law_calibration_of_a_file(
    file: CalibrationFile,
    source: Seq<char>,
    temperature_c: Binary64,
    terms: Seq<ErrorTerms>,
    i: int,
)
    requires
        file.open is Some,
        terms.len() == file.open->0.samples@.len(),
        0 <= i < terms.len(),
    ensures
        ({
            let calibration = calibration_of(file, source, temperature_c, terms);
            &&& calibration.source == source
            &&& calibration.analyser_type == file.analyser_type@
            &&& calibration.mode == file.mode
            &&& calibration.start_hz == file.start_hz
            &&& calibration.stop_hz == file.stop_hz
            &&& calibration.temperature_c == temperature_c
            &&& calibration.points.len() == terms.len()
            &&& calibration.points[i].terms == terms[i]
            &&& calibration.points[i].frequency_hz == file.open->0.samples@[i].frequency_hz
        }),
{
}

/// An error names the standard or the modes that it is about: that of the scan
/// before that of the calibration.
pub proof fn law_errors_name_what_they_are_about(
    standard: CalibrationStandard,
    scan: ScanMode,
    calibration: ScanMode,
    format: Seq<char>,
)
    ensures
        text::starts_with(
            CalibrationError::TemperatureNotFinite(standard).text(format),
            standard.text() + seq![' '],
        ),
        CalibrationError::DuplicateCapture(standard).text(format) == "calibration contains duplicate "@
            + standard.text() + " captures"@,
        CalibrationError::MissingBlock(standard).text(format) == "calibration is missing its "@
            + standard.text() + " block"@,
        (CalibrationError::ModeMismatch { scan, calibration }).text(format) == "scan mode "@
            + scan.text() + " does not match "@ + calibration.text() + " calibration"@,
        text::starts_with(
            CalibrationError::UnsupportedFormat.text(format),
            "unsupported calibration format "@ + format,
        ),
{
    reveal_strlit(" calibration temperature must be finite");
    let a = CalibrationError::TemperatureNotFinite(standard).text(format);
    let start = standard.text() + seq![' '];
    assert(a.take(start.len() as int) =~= start);
    let b = CalibrationError::UnsupportedFormat.text(format);
    let head = "unsupported calibration format "@ + format;
    assert(b.take(head.len() as int) =~= head);
}

} // verus!
