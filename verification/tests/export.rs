use minivna::binary64::Binary64;
use minivna::export::{
    check_csv, check_new, csv_document, format_java_integer, format_java_number, quality_warning,
    scan_samples, temporary_name, CsvColumn, CsvTexts, ExportError,
};
use minivna::model::{CalibratedSample, RawSample, ScanMode, ScanSpec};

fn bits(value: f64) -> Binary64 {
    Binary64 { bits: value.to_bits() }
}

fn number(value: f64, places: usize, digits: usize) -> String {
    format_java_number(bits(value), &format!("{value:.places$}"), digits)
}

fn sample(values: [f64; 7]) -> (CalibratedSample, CsvTexts) {
    let columns = [
        CsvColumn::Loss,
        CsvColumn::Phase,
        CsvColumn::Resistance,
        CsvColumn::Swr,
        CsvColumn::Reactance,
        CsvColumn::Impedance,
        CsvColumn::Theta,
    ];
    let text = |index: usize| {
        let places = columns[index].decimal_places();
        format!("{:.places$}", values[index])
    };
    let sample = CalibratedSample {
        frequency_hz: 45_000_000,
        loss_db: bits(values[0]),
        phase_deg: bits(values[1]),
        resistance_ohm: bits(values[2]),
        swr: bits(values[3]),
        reactance_ohm: bits(values[4]),
        impedance_ohm: bits(values[5]),
        theta_deg: bits(values[6]),
    };
    let texts = CsvTexts {
        loss: text(0),
        phase: text(1),
        resistance: text(2),
        swr: text(3),
        reactance: text(4),
        impedance: text(5),
        theta: text(6),
    };
    (sample, texts)
}

#[test]
fn writes_legacy_compatible_header_and_precision() {
    let (sample, texts) = sample([-0.567, 13.019, 118.24, 30.381, 404.06, 420.99, 73.67]);
    assert_eq!(
        csv_document(ScanMode::Reflection, &vec![sample], &vec![texts]),
        "Frequency(Hz),Return Loss(dB),Phase(deg),Rs,SWR,Xs,|Z|,Theta\n\
         45000000,-0.57,13.02,118.2,30.38,404.1,421.0,73.7\n"
    );
}

#[test]
fn csv_number_format_matches_vnaj_edge_conventions() {
    assert_eq!(number(f64::INFINITY, 2, 3), "?");
    assert_eq!(number(f64::NEG_INFINITY, 2, 3), "-?");
    assert_eq!(number(f64::NAN, 2, 3), "NaN");
    assert_eq!(number(123_456.74, 1, 5), "23456.7");
    assert_eq!(format_java_integer(12_345_678_901, 10), "2345678901");
}

#[test]
fn numbers_keep_their_sign_and_their_decimal_places() {
    assert_eq!(number(-1234.5, 2, 3), "-234.50");
    assert_eq!(number(-0.0, 1, 5), "-0.0");
    assert_eq!(number(999.0, 0, 3), "999");
    assert_eq!(number(1999.0, 0, 3), "999");
    assert_eq!(format_java_integer(10_000_000_005, 10), "0000000005");
    assert_eq!(format_java_integer(5, 10), "5");
}

#[test]
fn transmission_has_its_own_header_and_every_sample_a_line() {
    let (first, first_texts) = sample([-120.0, 0.0, -50.0, 0.0, 0.0, 50.0, 0.0]);
    let (second, second_texts) =
        sample([0.0, 1.0, f64::NAN, f64::INFINITY, f64::NEG_INFINITY, 123_456.0, 0.0]);
    let document = csv_document(
        ScanMode::Transmission,
        &vec![first, second],
        &vec![first_texts, second_texts],
    );
    let lines: Vec<&str> = document.lines().collect();
    assert_eq!(lines.len(), 3);
    assert!(lines[0].starts_with("Frequency(Hz),Transmission Loss(dB),Phase"));
    assert_eq!(lines[1], "45000000,-120.00,0.00,-50.0,0.00,0.0,50.0,0.0");
    assert_eq!(lines[2], "45000000,0.00,1.00,NaN,?,-?,23456.0,0.0");
}

fn raw(frequency_hz: u64, p1: u32) -> RawSample {
    RawSample {
        frequency_hz,
        real: bits(500.0),
        imaginary: bits(500.0),
        p1,
        p2: 9_000,
        p3: 20_000,
        p4: 19_000,
    }
}

#[test]
fn json_samples_pair_what_was_received_with_what_it_means() {
    let spec = ScanSpec {
        start_hz: 45_000_000,
        stop_hz: 45_000_010,
        points: 2,
        mode: ScanMode::Reflection,
    };
    let raw_samples = vec![raw(45_000_000, 10_000), raw(45_000_010, 10_001)];
    let (calibrated, _) = sample([-20.0, 10.0, 50.0, 1.2, 2.0, 50.04, 2.29]);
    let calibrated_samples = vec![calibrated; 2];
    let samples = scan_samples(&spec, &raw_samples, &calibrated_samples, false).unwrap();
    assert_eq!(samples.len(), 2);
    assert_eq!(samples[0].raw.p1, 10_000);
    assert_eq!(samples[0].calibrated.loss_db, bits(-20.0));
    assert_eq!(samples[1].raw.frequency_hz, 45_000_010);
    assert_eq!(
        scan_samples(&spec, &raw_samples, &calibrated_samples, true),
        Err(ExportError::Exists)
    );
    let counts = ExportError::Counts { raw: 2, calibrated: 1, expected: 2 };
    assert_eq!(scan_samples(&spec, &raw_samples, &vec![calibrated], false), Err(counts));
    assert_eq!(
        counts.message("x"),
        "JSON output has 2 raw and 1 calibrated samples; expected 2"
    );
}

#[test]
fn nothing_is_overwritten_and_nothing_empty_is_written() {
    assert_eq!(check_csv(0, true), Err(ExportError::EmptyScan));
    assert_eq!(check_csv(1, true), Err(ExportError::Exists));
    assert_eq!(check_csv(1, false), Ok(()));
    assert_eq!(check_new(true), Err(ExportError::Exists));
    assert_eq!(check_new(false), Ok(()));
    assert_eq!(ExportError::EmptyScan.message("a.csv"), "refusing to write an empty scan");
    assert_eq!(
        ExportError::Exists.message("a.csv"),
        "refusing to overwrite existing output a.csv"
    );
}

#[test]
fn temporary_files_are_hidden_and_told_apart() {
    assert_eq!(temporary_name("scan.csv", 42, 1_700), ".scan.csv.42.1700.tmp");
}

#[test]
fn samples_outside_the_circle_are_counted() {
    let of = |loss: f64, swr: f64| sample([loss, 0.0, 0.0, swr, 0.0, 0.0, 0.0]).0;
    let samples = vec![
        of(-1.0, 2.0),
        of(0.0, 2.0),
        of(-0.0, 2.0),
        of(-1.0, f64::INFINITY),
        of(f64::NAN, 2.0),
        of(-1.0, f64::NAN),
    ];
    assert_eq!(quality_warning(ScanMode::Reflection, &samples), Some(4));
    assert_eq!(quality_warning(ScanMode::Transmission, &samples), None);
    assert_eq!(quality_warning(ScanMode::Reflection, &vec![of(-1.0, 2.0)]), None);
}
