use minivna::frequency::{parse_frequency_hz, read_frequency, FrequencyError};

#[test]
fn frequency_suffixes_are_exact_integer_hertz() {
    for (text, expected) in [
        ("1000000H", 1_000_000),
        ("1000K", 1_000_000),
        ("45M", 45_000_000),
        ("45.001 MHz", 45_001_000),
        ("3G", 3_000_000_000),
    ] {
        assert_eq!(parse_frequency_hz(text).unwrap(), expected, "{text}");
    }
    assert!(parse_frequency_hz("1.0000001M").is_err());
    assert!(parse_frequency_hz("45 bananas").is_err());
}

#[test]
fn case_and_surrounding_space_do_not_matter() {
    for text in ["45m", "45 mHZ", " 45MHZ ", "45.0M", "45\tM h z", "45000 khz"] {
        assert_eq!(read_frequency(text), Ok(45_000_000), "{text}");
    }
}

#[test]
fn hertz_without_a_unit() {
    assert_eq!(read_frequency("45000000"), Ok(45_000_000));
    assert_eq!(read_frequency("0"), Ok(0));
    assert_eq!(read_frequency("18446744073709551615"), Ok(u64::MAX));
}

#[test]
fn every_frequency_error_has_its_input() {
    assert_eq!(read_frequency(" \u{3000} "), Err(FrequencyError::Empty));
    assert_eq!(read_frequency("45 bananas"), Err(FrequencyError::UnknownSuffix));
    for text in ["M", "1.", ".5", "1.2.3", "-1", "+1", "1 000", "0x10H"] {
        let error = read_frequency(text).unwrap_err();
        let expected = if text.starts_with("0x") {
            FrequencyError::UnknownSuffix
        } else {
            FrequencyError::NotDecimal
        };
        assert_eq!(error, expected, "{text}");
    }
    assert_eq!(read_frequency("18446744073709551616"), Err(FrequencyError::TooLarge));
    assert_eq!(
        read_frequency("340282366920938463463374607431768211456"),
        Err(FrequencyError::TooLarge)
    );
    assert_eq!(read_frequency("340282366920938463463374607431768211455G"), Err(FrequencyError::TooLarge));
    assert_eq!(
        read_frequency("1.000000000000000000000000000000000000000"),
        Err(FrequencyError::TooManyDecimalPlaces)
    );
    assert_eq!(read_frequency("1.0000001M"), Err(FrequencyError::NotWholeHertz));
}

#[test]
fn errors_quote_the_trimmed_frequency() {
    assert_eq!(
        parse_frequency_hz(" 45 \"b\" ").unwrap_err(),
        "frequency \"45 \\\"b\\\"\" has an unknown suffix; use H, K, M, G, Hz, kHz, MHz, or GHz"
    );
    assert_eq!(parse_frequency_hz("").unwrap_err(), "frequency cannot be empty");
    assert_eq!(
        parse_frequency_hz("1..2").unwrap_err(),
        "frequency \"1..2\" is not a valid decimal number"
    );
    assert_eq!(
        FrequencyError::TooLarge.message("\"9G\""),
        "frequency \"9G\" is too large"
    );
    assert_eq!(
        FrequencyError::TooManyDecimalPlaces.message("x"),
        "frequency x has too many decimal places"
    );
    assert_eq!(
        FrequencyError::NotWholeHertz.message("x"),
        "frequency x does not resolve to a whole number of hertz"
    );
}
