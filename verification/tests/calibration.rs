use minivna::binary64::Binary64;
use minivna::calibration::{
    assemble, build_native_calibration, grid_frequency, prepare, Bracket, Calibration, CalibrationBlock,
    CalibrationCapture, CalibrationError, CalibrationFile, CalibrationSample, CalibrationStandard,
    Complex, ErrorTerms,
};
use minivna::model::{RawSample, ScanMode, ScanSpec, SpecError};

fn bits(value: f64) -> Binary64 {
    Binary64 { bits: value.to_bits() }
}

fn spec(mode: ScanMode) -> ScanSpec {
    ScanSpec { start_hz: 45_000_000, stop_hz: 60_000_000, points: 4, mode }
}

fn capture(spec: &ScanSpec, standard: CalibrationStandard, value: f64) -> CalibrationCapture {
    CalibrationCapture {
        standard,
        device_temperature_c: bits(41.5),
        samples: (0..spec.points)
            .map(|index| RawSample {
                frequency_hz: spec.frequency_at(index),
                real: bits(value + index as f64),
                imaginary: bits(-value),
                p1: 0,
                p2: 0,
                p3: 0,
                p4: 0,
            })
            .collect(),
    }
}

fn reflection_captures(spec: &ScanSpec) -> Vec<CalibrationCapture> {
    vec![
        capture(spec, CalibrationStandard::Open, 1000.0),
        capture(spec, CalibrationStandard::Short, 2000.0),
        capture(spec, CalibrationStandard::Load, 3000.0),
    ]
}

fn terms(count: usize) -> Vec<ErrorTerms> {
    let number = Complex { re: bits(1.0), im: bits(2.0) };
    vec![ErrorTerms { e00: number, e11: number, delta_e: number }; count]
}

fn built() -> CalibrationFile {
    let spec = spec(ScanMode::Reflection);
    build_native_calibration(&spec, &reflection_captures(&spec), Some("test calibration".to_owned()))
        .unwrap()
}

fn calibration() -> Calibration {
    let prepared = prepare(built()).unwrap();
    assemble(prepared, "here.json".to_owned(), bits(41.5), &terms(4)).unwrap()
}

#[test]
fn captured_standards_build_a_loadable_native_calibration() {
    let file = built();
    assert_eq!(file.format, "minivna-rs-calibration-v1");
    assert_eq!(file.analyser_type, "20");
    assert_eq!(file.comment.as_deref(), Some("test calibration"));
    assert_eq!((file.start_hz, file.stop_hz, file.points), (45_000_000, 60_000_000, 4));
    assert_eq!(file.overscans, 0);
    assert_eq!(file.mode, ScanMode::Reflection);
    assert!(file.loopback.is_none());
    let open = file.open.as_ref().unwrap();
    assert_eq!(open.device_temperature_c, Some(bits(41.5)));
    assert_eq!(
        open.samples[3],
        CalibrationSample {
            frequency_hz: 60_000_000,
            real: bits(1003.0),
            imaginary: bits(-1000.0),
        }
    );
    let prepared = prepare(file).unwrap();
    assert_eq!(prepared.temperatures, vec![bits(41.5); 3]);
    let calibration = assemble(prepared, "here.json".to_owned(), bits(41.5), &terms(4)).unwrap();
    assert_eq!(calibration.source(), "here.json");
    assert_eq!(calibration.analyser_type(), "20");
    assert_eq!(calibration.mode(), ScanMode::Reflection);
    assert_eq!(calibration.start_hz(), 45_000_000);
    assert_eq!(calibration.stop_hz(), 60_000_000);
    assert_eq!(calibration.temperature_c(), bits(41.5));
    assert_eq!(calibration.point_count(), 4);
    assert_eq!(calibration.point(1).frequency_hz, 50_000_000);
    assert_eq!(calibration.point(1).terms, terms(1)[0]);
}

#[test]
fn the_order_of_the_captures_does_not_matter() {
    let spec = spec(ScanMode::Reflection);
    let comment = || Some("test calibration".to_owned());
    let mut captures = reflection_captures(&spec);
    let expected = format!("{:?}", built());
    for _ in 0..captures.len() {
        captures.rotate_left(1);
        let file = build_native_calibration(&spec, &captures, comment()).unwrap();
        assert_eq!(format!("{file:?}"), expected);
    }
    captures.swap(0, 2);
    let file = build_native_calibration(&spec, &captures, comment()).unwrap();
    assert_eq!(format!("{file:?}"), expected);
}

#[test]
fn a_reversed_range_is_refused_for_what_is_wrong_first() {
    let calibration = calibration();
    let reversed = ScanSpec {
        start_hz: 58_000_000,
        stop_hz: 50_000_000,
        points: 4,
        mode: ScanMode::Reflection,
    };
    let other = ScanSpec { mode: ScanMode::Transmission, ..reversed };
    let mismatch = CalibrationError::ModeMismatch {
        scan: ScanMode::Transmission,
        calibration: ScanMode::Reflection,
    };
    assert_eq!(calibration.sample_bracket(&other, 0, bits(54.0)), Err(mismatch));
    assert_eq!(calibration.scan_brackets(&other, 4, bits(54.0)), Err(mismatch));
    assert_eq!(
        calibration.sample_bracket(&reversed, 4, bits(54.0)),
        Err(CalibrationError::IndexOutside { index: 4, points: 4 })
    );
    assert_eq!(
        calibration.scan_brackets(&reversed, 3, bits(54.0)),
        Err(CalibrationError::RawCount { found: 3, expected: 4 })
    );
}

#[test]
fn transmission_needs_open_and_loopback_alone() {
    let spec = spec(ScanMode::Transmission);
    let open = || capture(&spec, CalibrationStandard::Open, 1.0);
    let loopback = || capture(&spec, CalibrationStandard::Loopback, 2.0);
    let file = build_native_calibration(&spec, &[loopback(), open()], None).unwrap();
    assert!(file.short.is_none() && file.load.is_none());
    assert!(prepare(file).is_ok());
    assert_eq!(
        build_native_calibration(&spec, &[open()], None).unwrap_err(),
        CalibrationError::MissingTransmissionCapture
    );
    let load = capture(&spec, CalibrationStandard::Load, 3.0);
    assert_eq!(
        build_native_calibration(&spec, &[open(), loopback(), load], None).unwrap_err(),
        CalibrationError::UnusedReflectionCapture
    );
}

#[test]
fn every_capture_error_has_its_input() {
    let spec = spec(ScanMode::Reflection);
    let error = |captures: &[CalibrationCapture]| {
        build_native_calibration(&spec, captures, None).unwrap_err()
    };
    let mut captures = reflection_captures(&spec);
    captures[1].device_temperature_c = bits(f64::NAN);
    assert_eq!(
        error(&captures),
        CalibrationError::TemperatureNotFinite(CalibrationStandard::Short)
    );
    let mut captures = reflection_captures(&spec);
    captures[2].samples.pop();
    assert_eq!(
        error(&captures),
        CalibrationError::WrongPointCount {
            standard: CalibrationStandard::Load,
            captured: 3,
            expected: 4,
        }
    );
    let mut captures = reflection_captures(&spec);
    captures[0].samples[1].frequency_hz += 1;
    assert_eq!(
        error(&captures),
        CalibrationError::WrongFrequency {
            standard: CalibrationStandard::Open,
            point: 2,
            found_hz: 50_000_001,
            expected_hz: 50_000_000,
        }
    );
    let mut captures = reflection_captures(&spec);
    captures.push(capture(&spec, CalibrationStandard::Open, 5.0));
    assert_eq!(error(&captures), CalibrationError::DuplicateCapture(CalibrationStandard::Open));
    assert_eq!(
        error(&reflection_captures(&spec)[..2]),
        CalibrationError::MissingReflectionCapture
    );
    let mut captures = reflection_captures(&spec);
    captures.push(capture(&spec, CalibrationStandard::Loopback, 5.0));
    assert_eq!(error(&captures), CalibrationError::UnusedLoopbackCapture);
    let invalid = ScanSpec { points: 1, ..spec };
    assert_eq!(
        build_native_calibration(&invalid, &[], None).unwrap_err(),
        CalibrationError::Spec(SpecError::TooFewPoints(1))
    );
}

#[test]
fn every_file_error_has_its_input() {
    let error = |change: &dyn Fn(&mut CalibrationFile)| {
        let mut file = built();
        change(&mut file);
        prepare(file).unwrap_err()
    };
    assert_eq!(
        error(&|file| file.format = "v2".to_owned()),
        CalibrationError::UnsupportedFormat
    );
    assert_eq!(error(&|file| file.stop_hz = file.start_hz), CalibrationError::InvalidRange);
    assert_eq!(
        error(&|file| file.load.as_mut().unwrap().points = 9),
        CalibrationError::BlockCount { claimed: 9, found: 4 }
    );
    assert_eq!(
        error(&|file| {
            let open = file.open.as_mut().unwrap();
            open.samples.truncate(1);
            open.points = 1;
        }),
        CalibrationError::BlockTooShort
    );
    assert_eq!(
        error(&|file| {
            for block in [&mut file.open, &mut file.short, &mut file.load] {
                block.as_mut().unwrap().device_temperature_c = None;
            }
        }),
        CalibrationError::NoTemperature
    );
    assert_eq!(
        error(&|file| file.short = None),
        CalibrationError::MissingBlock(CalibrationStandard::Short)
    );
    assert_eq!(
        error(&|file| file.open = None),
        CalibrationError::MissingBlock(CalibrationStandard::Open)
    );
    assert_eq!(
        error(&|file| {
            let load = file.load.as_mut().unwrap();
            load.samples.pop();
            load.points = 3;
        }),
        CalibrationError::DifferentCounts
    );
    assert_eq!(
        error(&|file| file.load.as_mut().unwrap().samples[2].frequency_hz += 1),
        CalibrationError::DifferentGrids
    );
    assert_eq!(
        error(&|file| file.mode = ScanMode::Transmission),
        CalibrationError::MissingBlock(CalibrationStandard::Loopback)
    );
}

#[test]
fn points_must_be_as_many_as_claimed_and_grow() {
    let mut file = built();
    file.points = 5;
    let prepared = prepare(file).unwrap();
    assert_eq!(
        assemble(prepared, String::new(), bits(0.0), &terms(4)).unwrap_err(),
        CalibrationError::HeaderCount { claimed: 5, found: 4 }
    );
    let mut file = built();
    for block in [&mut file.open, &mut file.short, &mut file.load] {
        block.as_mut().unwrap().samples[2].frequency_hz = 50_000_000;
    }
    let prepared = prepare(file).unwrap();
    assert_eq!(
        assemble(prepared, String::new(), bits(0.0), &terms(4)).unwrap_err(),
        CalibrationError::NotIncreasing
    );
}

fn block(frequencies: &[u64]) -> CalibrationBlock {
    CalibrationBlock {
        device_temperature_c: Some(bits(40.0)),
        start_hz: frequencies[0],
        stop_hz: *frequencies.last().unwrap(),
        points: frequencies.len(),
        samples: frequencies
            .iter()
            .enumerate()
            .map(|(index, frequency_hz)| CalibrationSample {
                frequency_hz: *frequency_hz,
                real: bits(index as f64),
                imaginary: bits(-(index as f64)),
            })
            .collect(),
    }
}

fn suppressed_reals(frequencies: &[u64]) -> Vec<f64> {
    let mut file = built();
    file.points = frequencies.len();
    file.open = Some(block(frequencies));
    file.short = Some(block(frequencies));
    file.load = Some(block(frequencies));
    let prepared = prepare(file).unwrap();
    let open = prepared.file.open.unwrap();
    open.samples.iter().map(|sample| f64::from_bits(sample.real.bits)).collect()
}

#[test]
fn the_sample_behind_a_switch_takes_the_value_before_it() {
    assert_eq!(
        suppressed_reals(&[
            1_000_000_000,
            1_040_000_000,
            1_045_000_000,
            1_045_000_001,
            1_500_000_000,
            1_600_000_000,
            1_700_000_000,
        ]),
        [0.0, 1.0, 2.0, 2.0, 4.0, 4.0, 6.0]
    );
    // Neither the first two samples nor the last one are replaced.
    assert_eq!(
        suppressed_reals(&[1_000_000_000, 1_100_000_000, 1_200_000_000, 1_600_000_000]),
        [0.0, 1.0, 2.0, 3.0]
    );
}

#[test]
fn frequencies_find_their_points() {
    let calibration = calibration();
    assert_eq!(calibration.bracket(45_000_000), Ok(Bracket::Exact(0)));
    assert_eq!(calibration.bracket(55_000_000), Ok(Bracket::Exact(2)));
    assert_eq!(calibration.bracket(52_500_000), Ok(Bracket::Between { lower: 1, upper: 2 }));
    assert_eq!(calibration.bracket(60_000_001), Ok(Bracket::Between { lower: 2, upper: 3 }));
    assert_eq!(
        calibration.bracket(44_999_999),
        Err(CalibrationError::BelowFirstPoint {
            frequency_hz: 44_999_999,
            first_hz: 45_000_000,
        })
    );
}

#[test]
fn the_calibration_grid_divides_the_range_by_the_points() {
    let calibration = calibration();
    let spec = ScanSpec {
        start_hz: 45_000_000,
        stop_hz: 60_000_000,
        points: 2,
        mode: ScanMode::Reflection,
    };
    assert_eq!(calibration.sample_bracket(&spec, 0, bits(54.0)), Ok(Bracket::Exact(0)));
    // 52.5 MHz, though the sample itself is labelled 60 MHz.
    assert_eq!(grid_frequency(&spec, 1), 52_500_000);
    assert_eq!(
        calibration.sample_bracket(&spec, 1, bits(54.0)),
        Ok(Bracket::Between { lower: 1, upper: 2 })
    );
    assert_eq!(spec.frequency_at(1), 60_000_000);
}

#[test]
fn a_whole_scan_uses_the_points_of_its_samples() {
    let calibration = calibration();
    let spec = ScanSpec {
        start_hz: 46_000_000,
        stop_hz: 59_999_999,
        points: 11,
        mode: ScanMode::Reflection,
    };
    let batch = calibration.scan_brackets(&spec, 11, bits(54.0)).unwrap();
    for (index, bracket) in batch.iter().enumerate() {
        assert_eq!(calibration.sample_bracket(&spec, index, bits(54.0)), Ok(*bracket));
    }
}

#[test]
fn every_scan_that_does_not_fit_is_refused() {
    let calibration = calibration();
    let fitting = spec(ScanMode::Reflection);
    let warm = bits(54.0);
    assert_eq!(
        calibration.validate_scan(&spec(ScanMode::Transmission), warm),
        Err(CalibrationError::ModeMismatch {
            scan: ScanMode::Transmission,
            calibration: ScanMode::Reflection,
        })
    );
    assert_eq!(
        calibration.validate_scan(&ScanSpec { stop_hz: 60_000_001, ..fitting }, warm),
        Err(CalibrationError::OutsideRange {
            start_hz: 45_000_000,
            stop_hz: 60_000_001,
            first_hz: 45_000_000,
            last_hz: 60_000_000,
        })
    );
    assert_eq!(
        calibration.validate_scan(&fitting, bits(f64::INFINITY)),
        Err(CalibrationError::MeasurementTemperature)
    );
    assert_eq!(
        calibration.scan_brackets(&fitting, 3, warm),
        Err(CalibrationError::RawCount { found: 3, expected: 4 })
    );
    assert_eq!(
        calibration.sample_bracket(&fitting, 4, warm),
        Err(CalibrationError::IndexOutside { index: 4, points: 4 })
    );
}

#[test]
fn a_gap_below_the_first_point_is_found() {
    let frequencies = [50_000_000, 55_000_000, 60_000_000];
    let mut file = built();
    file.points = 3;
    file.open = Some(block(&frequencies));
    file.short = Some(block(&frequencies));
    file.load = Some(block(&frequencies));
    let prepared = prepare(file).unwrap();
    let calibration = assemble(prepared, String::new(), bits(40.0), &terms(3)).unwrap();
    let spec = spec(ScanMode::Reflection);
    let expected =
        CalibrationError::BelowFirstPoint { frequency_hz: 45_000_000, first_hz: 50_000_000 };
    assert_eq!(calibration.scan_brackets(&spec, 4, bits(54.0)), Err(expected));
    assert_eq!(calibration.sample_bracket(&spec, 0, bits(54.0)), Err(expected));
}

#[test]
fn calibration_errors_in_words() {
    for (error, expected) in [
        (
            CalibrationError::TemperatureNotFinite(CalibrationStandard::Loopback),
            "loopback calibration temperature must be finite",
        ),
        (
            CalibrationError::WrongPointCount {
                standard: CalibrationStandard::Load,
                captured: 3,
                expected: 4,
            },
            "load calibration captured 3 points, expected 4",
        ),
        (
            CalibrationError::WrongFrequency {
                standard: CalibrationStandard::Open,
                point: 2,
                found_hz: 5,
                expected_hz: 6,
            },
            "open calibration point 2 has frequency 5, expected 6",
        ),
        (
            CalibrationError::DuplicateCapture(CalibrationStandard::Short),
            "calibration contains duplicate short captures",
        ),
        (
            CalibrationError::UnsupportedFormat,
            "unsupported calibration format \"x\"; expected \"minivna-rs-calibration-v1\"",
        ),
        (
            CalibrationError::MissingBlock(CalibrationStandard::Load),
            "calibration is missing its load block",
        ),
        (
            CalibrationError::ModeMismatch {
                scan: ScanMode::Transmission,
                calibration: ScanMode::Reflection,
            },
            "scan mode transmission does not match reflection calibration",
        ),
        (
            CalibrationError::OutsideRange { start_hz: 1, stop_hz: 2, first_hz: 3, last_hz: 4 },
            "scan 1..2 Hz is outside calibration range 3..4 Hz",
        ),
        (
            CalibrationError::BelowFirstPoint { frequency_hz: 1, first_hz: 2 },
            "frequency 1 Hz is below first calibration point 2 Hz",
        ),
        (
            CalibrationError::IndexOutside { index: 7, points: 4 },
            "raw point index 7 is outside the configured 4 points",
        ),
    ] {
        assert_eq!(error.message("\"x\""), expected);
    }
}
