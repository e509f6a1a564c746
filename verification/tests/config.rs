use minivna::config::{
    calibration_update, config_error, confirm_calibration, confirm_output, frequency_setting, join,
    migrate_calibration_path, points_setting, render_default_config, replace_root_output,
    replace_scan_calibration, review, valid_configuration_help, AppConfig, ConfigError,
    DeviceSettings, FrequencyInput, PointsInput, Review, ScanSettings,
};
use minivna::edit::{EditError, Setting};
use minivna::json::quote;
use minivna::model::{OutputFormat, ScanMode, SpecError};

fn default_text() -> String {
    render_default_config("/tmp/minivna-test/NATES-miniVNA_Tiny.json")
}

fn frequency(table: &toml::Table, names: [&str; 2]) -> Result<u64, String> {
    let value = names
        .iter()
        .find_map(|name| table.get(*name))
        .ok_or_else(|| "missing frequency".to_owned())?;
    match value {
        toml::Value::Integer(hertz) => frequency_setting(&FrequencyInput::Hertz(*hertz as u64)),
        toml::Value::String(text) => frequency_setting(&FrequencyInput::Suffixed(text.clone())),
        _ => Err("no frequency".to_owned()),
    }
}

fn parse(text: &str) -> Result<AppConfig, String> {
    let root: toml::Table = toml::from_str(text).map_err(|error| error.to_string())?;
    let device = root["device"].as_table().ok_or("no device")?;
    let scan = root["scan"].as_table().ok_or("no scan")?;
    let text_of = |value: &toml::Value| value.as_str().unwrap().to_owned();
    let points = match &scan["points"] {
        toml::Value::Integer(count) => points_setting(&PointsInput::Count(*count))?,
        value => points_setting(&PointsInput::Name(text_of(value)))?,
    };
    Ok(AppConfig {
        output: match root["output"].as_str() {
            Some("csv") => OutputFormat::Csv,
            Some("json") => OutputFormat::Json,
            other => return Err(format!("unknown output {other:?}")),
        },
        directory_prefix: text_of(&root["directory_prefix"]),
        device: DeviceSettings { port: text_of(&device["port"]) },
        scan: ScanSettings {
            start_hz: frequency(scan, ["start", "start_hz"])?,
            stop_hz: frequency(scan, ["stop", "stop_hz"])?,
            points,
            mode: match scan["mode"].as_str() {
                Some("transmission") => ScanMode::Transmission,
                _ => ScanMode::Reflection,
            },
            calibration: text_of(&scan["calibration"]),
        },
    })
}

#[test]
fn bundled_config_is_valid() {
    let config = parse(&default_text()).unwrap();
    config.validate().unwrap();
    assert_eq!(config.output, OutputFormat::Csv);
    assert_eq!(config.scan.start_hz, 45_000_000);
    assert_eq!(config.scan.stop_hz, 60_000_000);
    assert_eq!(config.scan.points, -1);
    assert_eq!(config.scan_spec().points, 30_001);
}

#[test]
fn points_accepts_max_or_an_explicit_integer() {
    let text = default_text();
    let maximum = parse(&text).unwrap();
    assert_eq!(maximum.scan.points, -1);
    assert_eq!(maximum.scan_spec().points, 30_001);

    let fixed_text = text.replace("points = \"max\"", "points = 1000");
    let fixed = parse(&fixed_text).unwrap();
    assert_eq!(fixed.scan.points, 1000);
    assert_eq!(fixed.scan_spec().points, 1000);

    let invalid_text = text.replace("points = \"max\"", "points = \"lots\"");
    assert!(parse(&invalid_text).is_err());
}

#[test]
fn legacy_frequency_keys_and_integer_values_remain_compatible() {
    let text = default_text()
        .replace("start = \"45M\"", "start_hz = 45000000")
        .replace("stop = \"60M\"", "stop_hz = 60000000")
        .replace("points = \"max\"", "points = -1");
    let config = parse(&text).unwrap();
    assert_eq!(config.scan.start_hz, 45_000_000);
    assert_eq!(config.scan.stop_hz, 60_000_000);
    assert_eq!(config.scan.points, -1);
}

#[test]
fn prefix_cannot_escape_working_directory() {
    let mut config = parse(&default_text()).unwrap();
    config.directory_prefix = "../escape".to_owned();
    assert!(config.validate().is_err());
}

#[test]
fn calibration_path_update_preserves_the_rest_of_the_file() {
    let updated = replace_scan_calibration(
        &default_text(),
        "/tmp/minivna-test/calibration_260723_220000.json",
    )
    .unwrap();
    let config = parse(&updated).unwrap();
    assert_eq!(config.scan.calibration, "/tmp/minivna-test/calibration_260723_220000.json");
    assert!(updated.contains("# Every run creates"));
}

#[test]
fn output_format_update_changes_only_the_root_setting() {
    let updated = replace_root_output(&default_text(), OutputFormat::Json).unwrap();
    let config = parse(&updated).unwrap();
    assert_eq!(config.output, OutputFormat::Json);
    assert!(updated.contains("calibration = \"/tmp/minivna-test/NATES-miniVNA_Tiny.json\""));
}

#[test]
fn calibration_selectors_are_rejected() {
    let error =
        migrate_calibration_path(&default_text(), "builtin:anything", "/tmp/minivna-test")
            .unwrap_err()
            .describe("builtin:anything");
    assert!(error.contains("must be an absolute JSON file path"));
    assert!(error.starts_with("unsupported calibration selector \"builtin:anything\";"));
}

#[test]
fn invalid_toml_error_lists_every_public_value_domain() {
    let error = config_error(
        "/tmp/minivna-test/minivna.toml",
        "/tmp/minivna-test",
        &parse(&default_text().replace("output = \"csv\"", "output = \"xml\"")).unwrap_err(),
    );
    for expected in [
        "output = \"csv\" or \"json\"",
        "scan.start = 1000000..=2999999000 Hz",
        "scan.stop = start + at least 1000 Hz, up to 3000000000 Hz",
        "scan.points = \"max\" or an integer",
        "scan.mode = \"reflection\" or \"transmission\"",
        "scan.calibration = an absolute JSON file path",
    ] {
        assert!(error.contains(expected), "missing {expected:?} from {error}");
    }
    assert!(error.starts_with("invalid configuration /tmp/minivna-test/minivna.toml\nunknown output"));
}

#[test]
fn help_ends_in_an_example_path() {
    let help = valid_configuration_help("/home/x");
    assert!(help.starts_with("Valid values:\n  output = "));
    assert!(help.contains("(at most 30001)\n"));
    assert!(help.ends_with("for example /home/x/NATES-miniVNA_Tiny.json"));
}

#[test]
fn a_relative_calibration_is_written_out_and_left_alone_afterwards() {
    let relative = default_text()
        .replace("/tmp/minivna-test/NATES-miniVNA_Tiny.json", "custom-calibration.json");
    let settings = parse(&relative).unwrap();
    let rewritten = match review(&relative, &settings, "/etc/minivna").unwrap() {
        Review::Rewrite(text) => text,
        Review::Ready => panic!("a relative path was accepted"),
    };
    let settings = parse(&rewritten).unwrap();
    assert_eq!(settings.scan.calibration, "/etc/minivna/custom-calibration.json");
    assert!(matches!(review(&rewritten, &settings, "/etc/minivna"), Ok(Review::Ready)));
}

#[test]
fn paths_join_like_unix_paths() {
    assert_eq!(join("/a", "b"), "/a/b");
    assert_eq!(join("/a/", "b"), "/a/b");
    assert_eq!(join("", "b"), "b");
    assert_eq!(join("/a", "/b"), "/b");
    assert_eq!(join("/a", ""), "/a/");
}

#[test]
fn every_configuration_error_has_its_input() {
    let valid = || parse(&default_text()).unwrap();
    let mut config = valid();
    config.device.port = " ".to_owned();
    assert_eq!(config.validate(), Err(ConfigError::EmptyPort));
    let mut config = valid();
    config.scan.points = 1;
    assert_eq!(config.validate(), Err(ConfigError::InvalidPoints));
    let mut config = valid();
    config.scan.points = 40_000;
    assert_eq!(
        config.validate(),
        Err(ConfigError::Spec(SpecError::TooManyPointsForRange {
            requested: 40_000,
            available: 30_001,
        }))
    );
    let mut config = valid();
    config.scan.calibration = "\t".to_owned();
    assert_eq!(config.validate(), Err(ConfigError::EmptyCalibration));
    let mut config = valid();
    config.scan.calibration = "builtin:tiny".to_owned();
    assert_eq!(config.validate(), Err(ConfigError::BuiltinCalibration));
    let mut config = valid();
    config.scan.calibration = "tiny.json".to_owned();
    assert_eq!(config.validate(), Err(ConfigError::RelativeCalibration));
    assert_eq!(
        ConfigError::RelativeCalibration.describe("tiny.json"),
        "scan.calibration must be an absolute JSON file path, got \"tiny.json\""
    );
    for prefix in ["a/b", "a\\b", "a\0b"] {
        let mut config = valid();
        config.directory_prefix = prefix.to_owned();
        assert_eq!(config.validate(), Err(ConfigError::PathInPrefix));
    }
    assert_eq!(
        calibration_update(&default_text(), "tiny.json"),
        Err(ConfigError::NotAbsolute)
    );
    assert_eq!(
        calibration_update("", "/tiny.json"),
        Err(ConfigError::Edit(EditError::Missing(Setting::ScanCalibration)))
    );
    assert_eq!(
        confirm_calibration(&valid(), "/other.json"),
        Err(ConfigError::CalibrationNotRetained)
    );
    assert_eq!(
        confirm_calibration(&valid(), "/tmp/minivna-test/NATES-miniVNA_Tiny.json"),
        Ok(())
    );
    assert_eq!(
        confirm_output(&valid(), OutputFormat::Json),
        Err(ConfigError::OutputNotRetained(OutputFormat::Json))
    );
    assert_eq!(confirm_output(&valid(), OutputFormat::Csv), Ok(()));
}

#[test]
fn configuration_errors_in_words() {
    assert_eq!(ConfigError::EmptyPort.message(""), "device.port cannot be empty");
    assert_eq!(
        ConfigError::InvalidPoints.message(""),
        "scan.points must be \"max\" or an integer of at least 2"
    );
    assert_eq!(
        ConfigError::NotAbsolute.message("x.json"),
        "calibration path must be absolute, got x.json"
    );
    assert_eq!(
        ConfigError::OutputNotRetained(OutputFormat::Json).message(""),
        "updated configuration did not retain output = Json"
    );
    assert_eq!(
        ConfigError::Edit(EditError::Duplicate(Setting::RootOutput)).message(""),
        "configuration contains duplicate output keys"
    );
    assert_eq!(
        points_setting(&PointsInput::Name("lots".to_owned())).unwrap_err(),
        "scan.points string must be \"max\", got \"lots\""
    );
    assert_eq!(points_setting(&PointsInput::Name(" MAX\n".to_owned())), Ok(-1));
}

#[test]
fn only_the_calibration_of_the_scan_table_is_changed() {
    let text = "calibration = 1\n[other]\n calibration = 2\r\n [scan]\r\n\t calibration=\"x\" # old\r\nend";
    assert_eq!(
        replace_scan_calibration(text, "/c.json").unwrap(),
        "calibration = 1\n[other]\n calibration = 2\r\n [scan]\r\n\t calibration = \"/c.json\"\r\nend"
    );
    assert_eq!(
        replace_scan_calibration("[scan]\ncalibration=1\n[x]\n[scan]\ncalibration=2", "/c"),
        Err(EditError::Duplicate(Setting::ScanCalibration))
    );
    assert_eq!(
        replace_scan_calibration("[scan]\nmode = 1", "/c"),
        Err(EditError::Missing(Setting::ScanCalibration))
    );
}

#[test]
fn only_the_output_before_any_table_is_changed() {
    assert_eq!(
        replace_root_output("  output = 3\n[scan]\noutput = 4", OutputFormat::Json).unwrap(),
        "output = \"json\"\n[scan]\noutput = 4"
    );
    assert_eq!(
        replace_root_output("[scan]\noutput = 4", OutputFormat::Csv),
        Err(EditError::Missing(Setting::RootOutput))
    );
    assert_eq!(
        replace_root_output("output = 1\noutput = 2", OutputFormat::Csv),
        Err(EditError::Duplicate(Setting::RootOutput))
    );
}

#[test]
fn updates_commute_and_the_last_one_wins() {
    let text = default_text();
    let both = replace_root_output(
        &replace_scan_calibration(&text, "/c.json").unwrap(),
        OutputFormat::Json,
    )
    .unwrap();
    let swapped = replace_scan_calibration(
        &replace_root_output(&text, OutputFormat::Json).unwrap(),
        "/c.json",
    )
    .unwrap();
    assert_eq!(both, swapped);
    let twice =
        replace_scan_calibration(&replace_scan_calibration(&text, "/a").unwrap(), "/b").unwrap();
    assert_eq!(twice, replace_scan_calibration(&text, "/b").unwrap());
}

#[test]
fn string_literals_escape_what_they_must() {
    assert_eq!(
        quote("a\"b\\c\u{8}\t\n\u{c}\r\u{1}\u{1f}/é"),
        "\"a\\\"b\\\\c\\b\\t\\n\\f\\r\\u0001\\u001f/é\""
    );
    let back: String = serde_json::from_str(&quote("a\"b\\c\u{1}\n")).unwrap();
    assert_eq!(back, "a\"b\\c\u{1}\n");
}
