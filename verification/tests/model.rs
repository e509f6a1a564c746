use minivna::binary64::Binary64;
use minivna::model::{max_supported_points, OutputFormat, ScanMode, ScanSpec, SpecError};

fn spec(start_hz: u64, stop_hz: u64, points: usize) -> ScanSpec {
    ScanSpec { start_hz, stop_hz, points, mode: ScanMode::Reflection }
}

#[test]
fn frequency_mapping_matches_vnaj_integer_step_accumulation() {
    let spec = ScanSpec {
        start_hz: 45_000_000,
        stop_hz: 60_000_001,
        points: 10_001,
        mode: ScanMode::Reflection,
    };
    assert_eq!(spec.frequency_at(0), 45_000_000);
    assert_eq!(spec.frequency_at(1), 45_001_500);
    assert_eq!(spec.frequency_at(10_000), 60_000_000);
    assert!(spec.frequency_at(9_999) < spec.frequency_at(10_000));
}

#[test]
fn two_point_raw_grid_uses_both_endpoints_like_vnaj() {
    let spec = ScanSpec {
        start_hz: 1_000_000,
        stop_hz: 4_000_000,
        points: 2,
        mode: ScanMode::Reflection,
    };
    assert_eq!(spec.frequency_at(0), 1_000_000);
    assert_eq!(spec.frequency_at(1), 4_000_000);
}

#[test]
fn automatic_point_limit_uses_completed_hardware_limit_evidence() {
    assert_eq!(max_supported_points(45_000_000, 60_000_000), 30_001);
    assert_eq!(max_supported_points(45_000_000, 45_000_090), 10);
}

#[test]
fn a_reversed_range_has_room_for_one_point() {
    assert_eq!(max_supported_points(60_000_000, 45_000_000), 1);
    assert_eq!(max_supported_points(0, u64::MAX), 30_001);
}

#[test]
fn every_scan_error_has_its_input() {
    assert_eq!(
        spec(2_000_000, 2_000_000, 2).validate(),
        Err(SpecError::InvalidRange { start: 2_000_000, stop: 2_000_000 })
    );
    assert_eq!(
        spec(2_000_000, 2_000_999, 2).validate(),
        Err(SpecError::RangeTooNarrow { start: 2_000_000, stop: 2_000_999 })
    );
    assert_eq!(spec(999_999, 2_000_000, 2).validate(), Err(SpecError::FrequencyTooLow(999_999)));
    assert_eq!(
        spec(1_000_000, 3_000_000_001, 2).validate(),
        Err(SpecError::FrequencyTooHigh(3_000_000_001))
    );
    assert_eq!(spec(1_000_000, 2_000_000, 1).validate(), Err(SpecError::TooFewPoints(1)));
    assert_eq!(
        spec(45_000_000, 45_001_000, 102).validate(),
        Err(SpecError::TooManyPointsForRange { requested: 102, available: 101 })
    );
    assert_eq!(spec(45_000_000, 45_001_000, 101).validate(), Ok(()));
    assert_eq!(
        spec(1_000_000, 2_000_000, usize::MAX).expected_bytes(),
        Err(SpecError::TooManyPoints(usize::MAX))
    );
    assert_eq!(spec(1_000_000, 2_000_000, 3).expected_bytes(), Ok(36));
}

#[test]
fn scan_errors_in_words() {
    assert_eq!(
        SpecError::FrequencyTooLow(5).message(),
        "start frequency 5 Hz is outside the valid start range 1000000..=2999999000 Hz"
    );
    assert_eq!(
        SpecError::FrequencyTooHigh(4_000_000_000).message(),
        "stop frequency 4000000000 Hz is outside the valid stop range 1001000..=3000000000 Hz"
    );
    assert_eq!(
        SpecError::InvalidRange { start: 7, stop: 6 }.message(),
        "stop frequency (6 Hz) must be at least 1000 Hz above start frequency (7 Hz); valid device frequencies are 1000000..=3000000000 Hz"
    );
    assert_eq!(
        SpecError::RangeTooNarrow { start: 1, stop: 2 }.message(),
        "scan range 1..2 Hz is narrower than the minimum span of 1000 Hz; valid device frequencies are 1000000..=3000000000 Hz"
    );
    assert_eq!(
        SpecError::TooFewPoints(1).message(),
        "a scan needs at least two points, got 1"
    );
    assert_eq!(SpecError::TooManyPoints(12).message(), "point count 12 is too large");
    assert_eq!(
        SpecError::TooManyPointsForRange { requested: 40_000, available: 30_001 }.message(),
        "requested 40000 points, but valid points for this range are \"max\" or an integer from 2 through 30001"
    );
}

#[test]
fn labels_grow_and_stay_in_the_range() {
    let spec = spec(45_000_000, 45_001_003, 101);
    let labels: Vec<u64> = (0..spec.points).map(|index| spec.frequency_at(index)).collect();
    assert_eq!(labels[0], 45_000_000);
    assert_eq!(labels[100], 45_001_000);
    assert!(labels.windows(2).all(|pair| pair[0] < pair[1]));
}

#[test]
fn the_automatic_number_of_points_is_accepted_and_one_more_is_not() {
    let most = max_supported_points(45_000_000, 45_001_005);
    assert_eq!(spec(45_000_000, 45_001_005, most).validate(), Ok(()));
    assert!(spec(45_000_000, 45_001_005, most + 1).validate().is_err());
}

#[test]
fn names_and_defaults() {
    assert_eq!(OutputFormat::default(), OutputFormat::Csv);
    assert_eq!(ScanMode::default(), ScanMode::Reflection);
    assert_eq!(OutputFormat::Csv.name(), "csv");
    assert_eq!(OutputFormat::Json.name(), "json");
    assert_eq!(ScanMode::Reflection.name(), "reflection");
    assert_eq!(ScanMode::Transmission.name(), "transmission");
    assert_eq!(ScanMode::Reflection.command(), "7");
    assert_eq!(ScanMode::Transmission.command(), "6");
}

#[test]
fn halves_have_the_bits_of_the_division() {
    for n in [0, 1, -1, 2, 999, -1000, 0xff_ffff, -0xff_ffff, 0x80_0000] {
        let number = Binary64::from_halves(n);
        assert_eq!(number.bits, (f64::from(n) / 2.0).to_bits(), "{n}");
    }
}

#[test]
fn numbers_are_classified_by_their_bits() {
    let number = |value: f64| Binary64 { bits: value.to_bits() };
    for value in [0.0, -0.0, 1.5, -1.5, f64::MAX, f64::MIN_POSITIVE, f64::INFINITY, f64::NEG_INFINITY, f64::NAN] {
        let n = number(value);
        assert_eq!(n.is_finite(), value.is_finite(), "{value}");
        assert_eq!(n.is_infinite(), value.is_infinite(), "{value}");
        assert_eq!(n.is_nan(), value.is_nan(), "{value}");
        assert_eq!(n.is_sign_negative(), value.is_sign_negative(), "{value}");
        assert_eq!(n.is_at_least_zero(), value >= 0.0, "{value}");
        assert_eq!(n.fits_single(), (value as f32).is_finite(), "{value}");
    }
    let largest = f64::from(f32::MAX);
    let half_step = 2.0_f64.powi(103);
    assert!(number(largest).fits_single());
    assert!(!number(largest + half_step).fits_single());
    assert!((largest + half_step) as f32 == f32::INFINITY);
    let below = f64::from_bits((largest + half_step).to_bits() - 1);
    assert!(number(below).fits_single());
    assert!((below as f32).is_finite());
}
