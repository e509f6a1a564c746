use minivna::binary64::Binary64;
use minivna::terminal::{
    aligned_path_line, bold_label, fields_for_human, human_event, json_float, live_measurement_line,
    output_mode, plain_value, progress_line, scan_summary, EventField, EventSink, OutputMode,
    SinkAction,
};

fn field(key: &str, plain: &str, json: &str) -> EventField {
    EventField { key: key.to_owned(), plain: plain.to_owned(), json: json.to_owned() }
}

#[test]
fn json_output_requires_explicit_flag() {
    assert_eq!(output_mode(false), OutputMode::Human);
    assert_eq!(output_mode(true), OutputMode::Jsonl);
}

#[test]
fn normal_scan_summary_contains_no_internal_id() {
    assert_eq!(
        scan_summary(&1000.to_string(), &45_000_000.to_string(), &60_000_000.to_string()),
        "Scanning:\n\t1000 points\n\t45000000 to 60000000 Hz"
    );
}

fn live(styled: bool) -> String {
    live_measurement_line(
        &format!("{:.2}", 18.846),
        &format!("{:.2}", -6.743_195),
        &format!("{:.2}", -37.244),
        styled,
    )
}

#[test]
fn live_measurement_display_is_compact_and_uses_two_decimals() {
    assert_eq!(live(false), " 18.85% RL:   -6.74 dB Phase:  -37.24°");
}

#[test]
fn live_measurement_colors_use_the_requested_truecolor_values() {
    assert_eq!(
        live(true),
        " 18.85% \x1b[38;2;0;174;107mRL\x1b[0m:   -6.74 dB \
         \x1b[38;2;242;40;60mPhase\x1b[0m:  -37.24°"
    );
    assert_eq!(bold_label("Calibration:", true), "\x1b[1mCalibration:\x1b[0m");
}

#[test]
fn path_labels_share_one_visible_path_column() {
    assert_eq!(
        aligned_path_line("config path:", "/config", false),
        "config path:      /config"
    );
    assert_eq!(
        aligned_path_line("Output directory:", "/output", false),
        "Output directory: /output"
    );
    assert_eq!(
        aligned_path_line("Calibration:", "/calibration", false),
        "Calibration:      /calibration"
    );
    assert_eq!(
        aligned_path_line("Calibration:", "/calibration", true),
        "\x1b[1mCalibration:\x1b[0m      /calibration"
    );
}

#[test]
fn long_labels_keep_one_space() {
    assert_eq!(aligned_path_line("A label that is longer:", "/x", false), "A label that is longer: /x");
}

#[test]
fn debug_line_retains_internal_id_timestamp_and_point_fields() {
    let number = |value: f64| Binary64 { bits: value.to_bits() };
    let mut sink = EventSink::new(false, true, true);
    assert_eq!(sink.route("scan_sample", false), SinkAction::Debug);
    assert_eq!(json_float(number(f64::INFINITY)), Some("Infinity"));
    assert_eq!(json_float(number(f64::NEG_INFINITY)), Some("-Infinity"));
    assert_eq!(json_float(number(f64::NAN)), Some("NaN"));
}

#[test]
fn numbers_that_json_has_are_no_strings() {
    let number = |value: f64| Binary64 { bits: value.to_bits() };
    assert_eq!(json_float(number(-1.5)), None);
    assert_eq!(json_float(number(f64::MAX)), None);
}

#[test]
fn progress_without_live_values() {
    assert_eq!(progress_line("3", "10", "30.00"), "Scanning 3/10 points (30.00%)");
}

#[test]
fn events_in_words() {
    let fields = vec![
        field("path", "/p", "\"/p\""),
        field("output", "json", "\"json\""),
        field("config", "/c", "\"/c\""),
        field("points", "11", "11"),
        field("start_hz", "1", "1"),
        field("stop_hz", "2", "2"),
        field("error", "broken", "\"broken\""),
        field("temperature_c", "41.5", "41.5"),
        field("supply_v", "4.5", "4.5"),
        field("step", "1", "1"),
        field("total_steps", "3", "3"),
        field("standard", "OPEN", "\"OPEN\""),
        field("instruction", "do it", "\"do it\""),
    ];
    let words = |event: &str| human_event(event, &fields, "/dev/ttyUSB0", false);
    assert_eq!(words("config_created"), "Created config /p");
    assert_eq!(words("config_loaded"), "Using config /p");
    assert_eq!(words("output_format_updated"), "Output format: json (saved in /c)");
    assert_eq!(words("scan_accepted"), "Output directory: null");
    assert_eq!(words("calibration_loaded"), "Calibration:      null");
    assert_eq!(words("device_readings"), "Device temperature: 41.5 C; supply: 4.5 V");
    assert_eq!(words("port_opened"), "Opened /dev/ttyUSB0");
    assert_eq!(words("scan_started"), "Scanning:\n\t11 points\n\t1 to 2 Hz");
    assert_eq!(
        words("calibration_recipe_started"),
        "Calibration recipe: null mode, 1 to 2 Hz, 11 points per standard"
    );
    assert_eq!(
        words("calibration_standard_prompt"),
        "\nStep 1/3 — OPEN: do it\nPress Enter when ready, or type q then Enter to abort"
    );
    assert_eq!(
        words("calibration_standard_completed"),
        "Captured OPEN: 11 points in null ms"
    );
    assert_eq!(words("calibration_completed"), "Calibration saved and activated: /p");
    assert_eq!(
        words("scan_quality_warning"),
        "Warning: null of null points are outside the calibrated reflection circle"
    );
    assert_eq!(words("raw_output_written"), "Raw samples: /p");
    assert_eq!(words("scan_completed"), "Scan complete: 11 points written to null");
    assert_eq!(
        words("cancellation_requested"),
        "Cancellation requested; background hardware recovery continues"
    );
    assert_eq!(words("scan_cancelled"), "Scan cancelled: broken");
    assert_eq!(words("scan_failed"), "Scan failed: broken");
}

#[test]
fn other_events_list_their_values_without_internal_ones() {
    let fields = vec![
        field("attempt", "1", "1"),
        field("event", "scan_retrying", "\"scan_retrying\""),
        field("id", "scan-1", "\"scan-1\""),
        field("stage", "open", "\"open\""),
        field("timestamp", "now", "\"now\""),
    ];
    assert_eq!(fields_for_human(&fields), "attempt=1 stage=\"open\"");
    assert_eq!(
        human_event("scan_retrying", &fields, "", true),
        "[scan_retrying] attempt=1 stage=\"open\""
    );
    assert_eq!(plain_value(&fields, "stage"), "open");
    assert_eq!(plain_value(&fields, "missing"), "null");
}

#[test]
fn readings_are_bold_on_a_terminal() {
    let fields = vec![field("temperature_c", "1", "1"), field("supply_v", "2", "2")];
    assert_eq!(
        human_event("device_readings", &fields, "", true),
        "\x1b[1mDevice temperature:\x1b[0m 1 C; \x1b[1msupply:\x1b[0m 2 V"
    );
}

#[test]
fn live_lines_are_ended_before_words() {
    let mut sink = EventSink::new(false, false, true);
    assert!(sink.styled);
    assert_eq!(sink.route("scan_started", true), SinkAction::Words { fresh_line: false });
    assert_eq!(sink.route("scan_sample", false), SinkAction::LiveSample);
    assert_eq!(sink.route("scan_progress", false), SinkAction::Nothing);
    assert_eq!(sink.route("scan_completed", false), SinkAction::Words { fresh_line: true });
    assert_eq!(sink.route("scan_started", false), SinkAction::Words { fresh_line: false });
    assert_eq!(sink.route("scan_progress", false), SinkAction::Progress);
    assert_eq!(sink.route("scan_failed", false), SinkAction::Words { fresh_line: true });
}

#[test]
fn modes_decide_where_events_go() {
    let mut json = EventSink::new(true, true, true);
    assert!(!json.styled && !json.debug);
    assert_eq!(json.route("scan_sample", false), SinkAction::Json);
    let mut debug = EventSink::new(false, true, false);
    assert_eq!(debug.route("scan_progress", false), SinkAction::Debug);
    let mut client = EventSink::for_client();
    assert_eq!(client.route("scan_started", true), SinkAction::Forward);
    assert!(!client.live_metrics_expected);
}
