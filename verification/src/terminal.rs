//! What the terminal shows of a run: labels, live lines and events in words.
//!
//! An event is a set of named values. Each value is known here in two texts:
//! in JSON, and plainly, which is the same but for strings without their
//! quotes. Numbers with decimal places arrive as texts too.
use vstd::prelude::*;

use crate::binary64::Binary64;
use crate::text;

verus! {

pub const ANSI_RESET: &'static str = "\x1b[0m";

pub const ANSI_BOLD: &'static str = "\x1b[1m";

pub const ANSI_RL_GREEN: &'static str = "\x1b[38;2;0;174;107m";

pub const ANSI_PHASE_RED: &'static str = "\x1b[38;2;242;40;60m";

/// The width of the longest label before a path.
pub const PATH_LABEL_WIDTH: usize = 17;

/// How events are shown.
#[derive(Clone, Copy, Debug, PartialEq, Eq, Structural)]
pub enum OutputMode {
    Jsonl,
    Human,
}

/// Events are shown in JSON only if that was asked for.
pub fn output_mode(json_requested: bool) -> (mode: OutputMode)
    ensures
        mode == if json_requested {
            OutputMode::Jsonl
        } else {
            OutputMode::Human
        },
{
    if json_requested {
        OutputMode::Jsonl
    } else {
        OutputMode::Human
    }
}

// ---------------------------------------------------------------------------
// Labels and live lines
// ---------------------------------------------------------------------------
/// A text between a style and the end of all styles.
pub open spec fn styled_text(shown: Seq<char>, style: Seq<char>, styled: bool) -> Seq<char> {
    if styled {
        style + shown + ANSI_RESET@
    } else {
        shown
    }
}

pub fn colored_word(word: &str, color: &str, styled: bool) -> (shown: String)
    ensures
        shown@ == styled_text(word@, color@, styled),
{
    let mut out: String = String::new();
    if styled {
        out.append(color);
        out.append(word);
        out.append(ANSI_RESET);
    } else {
        out.append(word);
    }
    assert(out@ =~= styled_text(word@, color@, styled));
    out
}

pub fn bold_label(label: &str, styled: bool) -> (shown: String)
    ensures
        shown@ == styled_text(label@, ANSI_BOLD@, styled),
{
    colored_word(label, ANSI_BOLD, styled)
}

/// How many spaces bring a label to the column where paths start. The label
/// counts by its bytes.
pub open spec fn label_padding(label: Seq<char>) -> nat {
    let length = vstd::utf8::encode_utf8(label).len() as usize;
    if length < PATH_LABEL_WIDTH {
        (PATH_LABEL_WIDTH - length + 1) as nat
    } else {
        1
    }
}

/// A label and a path in the common column.
pub open spec fn path_line(label: Seq<char>, path: Seq<char>, styled: bool) -> Seq<char> {
    styled_text(label, ANSI_BOLD@, styled) + text::spaces(label_padding(label)) + path
}

pub fn aligned_path_line(label: &str, path: &str, styled: bool) -> (line: String)
    ensures
        line@ == path_line(label@, path@, styled),
{
    let length: usize = label.len();
    let padding: usize = if length < PATH_LABEL_WIDTH {
        PATH_LABEL_WIDTH - length + 1
    } else {
        1
    };
    let mut out: String = bold_label(label, styled);
    text::push_spaces(&mut out, padding);
    out.append(path);
    assert(out@ =~= path_line(label@, path@, styled));
    out
}

/// What is about to be scanned.
pub open spec fn summary_text(
    points: Seq<char>,
    start_hz: Seq<char>,
    stop_hz: Seq<char>,
) -> Seq<char> {
    "Scanning:\n\t"@ + points + " points\n\t"@ + start_hz + " to "@ + stop_hz + " Hz"@
}

pub fn scan_summary(points: &str, start_hz: &str, stop_hz: &str) -> (summary: String)
    ensures
        summary@ == summary_text(points@, start_hz@, stop_hz@),
{
    let mut out: String = String::new();
    out.append("Scanning:\n\t");
    out.append(points);
    out.append(" points\n\t");
    out.append(start_hz);
    out.append(" to ");
    out.append(stop_hz);
    out.append(" Hz");
    assert(out@ =~= summary_text(points@, start_hz@, stop_hz@));
    out
}

/// The line that follows a scan as it runs: completion, return loss and phase,
/// each in columns of fixed width.
pub open spec fn measurement_text(
    percent: Seq<char>,
    loss_db: Seq<char>,
    phase_deg: Seq<char>,
    styled: bool,
) -> Seq<char> {
    text::pad_start(percent, 6) + "% "@ + styled_text("RL"@, ANSI_RL_GREEN@, styled) + ": "@
        + text::pad_start(loss_db, 7) + " dB "@ + styled_text("Phase"@, ANSI_PHASE_RED@, styled)
        + ": "@ + text::pad_start(phase_deg, 7) + "°"@
}

/// The live line of numbers that are written with two decimal places.
pub fn live_measurement_line(percent: &str, loss_db: &str, phase_deg: &str, styled: bool) -> (line:
    String)
    ensures
        line@ == measurement_text(percent@, loss_db@, phase_deg@, styled),
{
    let mut out: String = text::padded_start(percent, 6);
    out.append("% ");
    out.append(colored_word("RL", ANSI_RL_GREEN, styled).as_str());
    out.append(": ");
    out.append(text::padded_start(loss_db, 7).as_str());
    out.append(" dB ");
    out.append(colored_word("Phase", ANSI_PHASE_RED, styled).as_str());
    out.append(": ");
    out.append(text::padded_start(phase_deg, 7).as_str());
    out.append("°");
    assert(out@ =~= measurement_text(percent@, loss_db@, phase_deg@, styled));
    out
}

/// The line that follows a scan of which only the progress is known.
pub open spec fn progress_text(
    points: Seq<char>,
    total: Seq<char>,
    percent: Seq<char>,
) -> Seq<char> {
    "Scanning "@ + points + "/"@ + total + " points ("@ + percent + "%)"@
}

pub fn progress_line(points: &str, total: &str, percent: &str) -> (line: String)
    ensures
        line@ == progress_text(points@, total@, percent@),
{
    let mut out: String = String::new();
    out.append("Scanning ");
    out.append(points);
    out.append("/");
    out.append(total);
    out.append(" points (");
    out.append(percent);
    out.append("%)");
    assert(out@ =~= "Scanning "@ + points@ + "/"@ + total@ + " points ("@ + percent@ + "%)"@);
    out
}

/// How JSON shows a number that is none of its own.
pub open spec fn special_number(value: Binary64) -> Option<Seq<char>> {
    if value.finite() {
        None
    } else if value.nan() {
        Some("NaN"@)
    } else if value.negative() {
        Some("-Infinity"@)
    } else {
        Some("Infinity"@)
    }
}

/// The string that stands for a number in JSON, if the number cannot.
pub fn json_float(value: Binary64) -> (shown: Option<&'static str>)
    ensures
        match (shown, special_number(value)) {
            (Some(shown), Some(expected)) => shown@ == expected,
            (None, None) => true,
            _ => false,
        },
{
    if value.is_finite() {
        None
    } else if value.is_nan() {
        Some("NaN")
    } else if value.is_sign_negative() {
        Some("-Infinity")
    } else {
        Some("Infinity")
    }
}

// ---------------------------------------------------------------------------
// Events in words
// ---------------------------------------------------------------------------
/// One value of an event.
#[derive(Debug)]
pub struct EventField {
    pub key: String,
    pub plain: String,
    pub json: String,
}

/// The plain text of the value `key`; a value that is missing is null.
pub open spec fn plain_of(fields: Seq<EventField>, key: Seq<char>) -> Seq<char>
    decreases fields.len(),
{
    if fields.len() == 0 {
        "null"@
    } else if fields[0].key@ == key {
        fields[0].plain@
    } else {
        plain_of(fields.drop_first(), key)
    }
}

fn push_plain(out: &mut String, fields: &Vec<EventField>, key: &str)
    ensures
        final(out)@ == old(out)@ + plain_of(fields@, key@),
{
    let mut i: usize = 0;
    assert(fields@.skip(0) =~= fields@);
    while i < fields.len()
        invariant
            i <= fields.len(),
            *out == *old(out),
            plain_of(fields@, key@) == plain_of(fields@.skip(i as int), key@),
        decreases fields.len() - i,
    {
        if text::equal(fields[i].key.as_str(), key) {
            out.append(fields[i].plain.as_str());
            assert(out@ =~= old(out)@ + plain_of(fields@, key@));
            return;
        }
        assert(fields@.skip(i as int).drop_first() =~= fields@.skip(i + 1));
        i = i + 1;
    }
    out.append("null");
    assert(out@ =~= old(out)@ + plain_of(fields@, key@));
}

/// The plain text of the value `key`.
pub fn plain_value(fields: &Vec<EventField>, key: &str) -> (plain: String)
    ensures
        plain@ == plain_of(fields@, key@),
{
    let mut out: String = String::new();
    push_plain(&mut out, fields, key);
    assert(out@ =~= plain_of(fields@, key@));
    out
}

/// A value that every event has and that nobody reads.
pub open spec fn is_internal(key: Seq<char>) -> bool {
    key == "event"@ || key == "timestamp"@ || key == "id"@
}

/// The values of an event as pairs of key and JSON text.
pub open spec fn field_texts(fields: Seq<EventField>) -> Seq<Seq<char>>
    decreases fields.len(),
{
    if fields.len() == 0 {
        Seq::empty()
    } else if is_internal(fields.last().key@) {
        field_texts(fields.drop_last())
    } else {
        field_texts(fields.drop_last()).push(fields.last().key@ + "="@ + fields.last().json@)
    }
}

/// All values of an event that somebody may want to read.
pub fn fields_for_human(fields: &Vec<EventField>) -> (shown: String)
    ensures
        shown@ == text::join(field_texts(fields@), " "@),
{
    let mut parts: Vec<String> = Vec::new();
    let mut i: usize = 0;
    proof {
        assert(fields@.take(0) =~= Seq::empty());
        assert(text::views(parts@) =~= field_texts(fields@.take(0)));
    }
    while i < fields.len()
        invariant
            i <= fields.len(),
            text::views(parts@) == field_texts(fields@.take(i as int)),
        decreases fields.len() - i,
    {
        proof {
            assert(fields@.take(i + 1).drop_last() =~= fields@.take(i as int));
        }
        let field: &EventField = &fields[i];
        let internal: bool = text::equal(field.key.as_str(), "event") || text::equal(
            field.key.as_str(),
            "timestamp",
        ) || text::equal(field.key.as_str(), "id");
        if !internal {
            let mut part: String = String::new();
            part.append(field.key.as_str());
            part.append("=");
            part.append(field.json.as_str());
            assert(part@ =~= field.key@ + "="@ + field.json@);
            let ghost before = text::views(parts@);
            let ghost shown = part@;
            parts.push(part);
            assert(text::views(parts@) =~= before.push(shown));
        }
        i = i + 1;
    }
    proof {
        assert(fields@.take(i as int) =~= fields@);
    }
    let mut out: String = String::new();
    text::push_joined(&mut out, &parts, " ");
    assert(out@ =~= text::join(field_texts(fields@), " "@));
    out
}

/// The words for an event. `port` is the path of the serial port with its
/// links followed.
pub open spec fn event_text(
    event: Seq<char>,
    fields: Seq<EventField>,
    port: Seq<char>,
    styled: bool,
) -> Seq<char> {
    if event == "config_created"@ {
        "Created config "@ + plain_of(fields, "path"@)
    } else if event == "config_loaded"@ {
        "Using config "@ + plain_of(fields, "path"@)
    } else if event == "output_format_updated"@ {
        "Output format: "@ + plain_of(fields, "output"@) + " (saved in "@ + plain_of(
            fields,
            "config"@,
        ) + ")"@
    } else if event == "scan_accepted"@ {
        path_line("Output directory:"@, plain_of(fields, "output_directory"@), styled)
    } else if event == "calibration_loaded"@ {
        path_line("Calibration:"@, plain_of(fields, "source"@), styled)
    } else if event == "device_readings"@ {
        styled_text("Device temperature:"@, ANSI_BOLD@, styled) + " "@ + plain_of(
            fields,
            "temperature_c"@,
        ) + " C; "@ + styled_text("supply:"@, ANSI_BOLD@, styled) + " "@ + plain_of(
            fields,
            "supply_v"@,
        ) + " V"@
    } else if event == "port_opened"@ {
        "Opened "@ + port
    } else if event == "scan_started"@ {
        summary_text(
            plain_of(fields, "points"@),
            plain_of(fields, "start_hz"@),
            plain_of(fields, "stop_hz"@),
        )
    } else if event == "calibration_recipe_started"@ {
        "Calibration recipe: "@ + plain_of(fields, "mode"@) + " mode, "@ + plain_of(
            fields,
            "start_hz"@,
        ) + " to "@ + plain_of(fields, "stop_hz"@) + " Hz, "@ + plain_of(fields, "points"@)
            + " points per standard"@
    } else if event == "calibration_standard_prompt"@ {
        "\nStep "@ + plain_of(fields, "step"@) + "/"@ + plain_of(fields, "total_steps"@) + " — "@
            + plain_of(fields, "standard"@) + ": "@ + plain_of(fields, "instruction"@)
            + "\nPress Enter when ready, or type q then Enter to abort"@
    } else if event == "calibration_standard_completed"@ {
        "Captured "@ + plain_of(fields, "standard"@) + ": "@ + plain_of(fields, "points"@)
            + " points in "@ + plain_of(fields, "elapsed_ms"@) + " ms"@
    } else if event == "calibration_completed"@ {
        "Calibration saved and activated: "@ + plain_of(fields, "path"@)
    } else if event == "scan_quality_warning"@ {
        "Warning: "@ + plain_of(fields, "affected_points"@) + " of "@ + plain_of(
            fields,
            "total_points"@,
        ) + " points are outside the calibrated reflection circle"@
    } else if event == "raw_output_written"@ {
        "Raw samples: "@ + plain_of(fields, "path"@)
    } else if event == "scan_completed"@ {
        "Scan complete: "@ + plain_of(fields, "points"@) + " points written to "@ + plain_of(
            fields,
            "output_directory"@,
        )
    } else if event == "cancellation_requested"@ {
        "Cancellation requested; background hardware recovery continues"@
    } else if event == "scan_cancelled"@ {
        "Scan cancelled: "@ + plain_of(fields, "error"@)
    } else if event == "scan_failed"@ {
        "Scan failed: "@ + plain_of(fields, "error"@)
    } else {
        "["@ + event + "] "@ + text::join(field_texts(fields), " "@)
    }
}

/// The words for an event.
#[verifier::rlimit(40)]
pub fn human_event(event: &str, fields: &Vec<EventField>, port: &str, styled: bool) -> (words:
    String)
    ensures
        words@ == event_text(event@, fields@, port@, styled),
{
    let mut out: String = String::new();
    if text::equal(event, "config_created") {
        out.append("Created config ");
        push_plain(&mut out, fields, "path");
    } else if text::equal(event, "config_loaded") {
        out.append("Using config ");
        push_plain(&mut out, fields, "path");
    } else if text::equal(event, "output_format_updated") {
        out.append("Output format: ");
        push_plain(&mut out, fields, "output");
        out.append(" (saved in ");
        push_plain(&mut out, fields, "config");
        out.append(")");
    } else if text::equal(event, "scan_accepted") {
        let path: String = plain_value(fields, "output_directory");
        return aligned_path_line("Output directory:", path.as_str(), styled);
    } else if text::equal(event, "calibration_loaded") {
        let path: String = plain_value(fields, "source");
        return aligned_path_line("Calibration:", path.as_str(), styled);
    } else if text::equal(event, "device_readings") {
        out.append(bold_label("Device temperature:", styled).as_str());
        out.append(" ");
        push_plain(&mut out, fields, "temperature_c");
        out.append(" C; ");
        out.append(bold_label("supply:", styled).as_str());
        out.append(" ");
        push_plain(&mut out, fields, "supply_v");
        out.append(" V");
    } else if text::equal(event, "port_opened") {
        out.append("Opened ");
        out.append(port);
    } else if text::equal(event, "scan_started") {
        let points: String = plain_value(fields, "points");
        let start: String = plain_value(fields, "start_hz");
        let stop: String = plain_value(fields, "stop_hz");
        return scan_summary(points.as_str(), start.as_str(), stop.as_str());
    } else if text::equal(event, "calibration_recipe_started") {
        out.append("Calibration recipe: ");
        push_plain(&mut out, fields, "mode");
        out.append(" mode, ");
        push_plain(&mut out, fields, "start_hz");
        out.append(" to ");
        push_plain(&mut out, fields, "stop_hz");
        out.append(" Hz, ");
        push_plain(&mut out, fields, "points");
        out.append(" points per standard");
    } else if text::equal(event, "calibration_standard_prompt") {
        out.append("\nStep ");
        push_plain(&mut out, fields, "step");
        out.append("/");
        push_plain(&mut out, fields, "total_steps");
        out.append(" — ");
        push_plain(&mut out, fields, "standard");
        out.append(": ");
        push_plain(&mut out, fields, "instruction");
        out.append("\nPress Enter when ready, or type q then Enter to abort");
    } else if text::equal(event, "calibration_standard_completed") {
        out.append("Captured ");
        push_plain(&mut out, fields, "standard");
        out.append(": ");
        push_plain(&mut out, fields, "points");
        out.append(" points in ");
        push_plain(&mut out, fields, "elapsed_ms");
        out.append(" ms");
    } else if text::equal(event, "calibration_completed") {
        out.append("Calibration saved and activated: ");
        push_plain(&mut out, fields, "path");
    } else if text::equal(event, "scan_quality_warning") {
        out.append("Warning: ");
        push_plain(&mut out, fields, "affected_points");
        out.append(" of ");
        push_plain(&mut out, fields, "total_points");
        out.append(" points are outside the calibrated reflection circle");
    } else if text::equal(event, "raw_output_written") {
        out.append("Raw samples: ");
        push_plain(&mut out, fields, "path");
    } else if text::equal(event, "scan_completed") {
        out.append("Scan complete: ");
        push_plain(&mut out, fields, "points");
        out.append(" points written to ");
        push_plain(&mut out, fields, "output_directory");
    } else if text::equal(event, "cancellation_requested") {
        out.append("Cancellation requested; background hardware recovery continues");
    } else if text::equal(event, "scan_cancelled") {
        out.append("Scan cancelled: ");
        push_plain(&mut out, fields, "error");
    } else if text::equal(event, "scan_failed") {
        out.append("Scan failed: ");
        push_plain(&mut out, fields, "error");
    } else {
        out.append("[");
        out.append(event);
        out.append("] ");
        out.append(fields_for_human(fields).as_str());
    }
    assert(out@ =~= event_text(event@, fields@, port@, styled));
    out
}

// ---------------------------------------------------------------------------
// Where events go
// ---------------------------------------------------------------------------
/// How a sink treats the events of a run.
#[derive(Clone, Copy, Debug, PartialEq, Eq, Structural)]
pub struct EventSink {
    pub mode: OutputMode,
    pub progress_line_active: bool,
    pub live_metrics_expected: bool,
    pub styled: bool,
    pub debug: bool,
    /// Events are passed on to another process.
    pub forwarding: bool,
}

/// What to do with one event.
#[derive(Clone, Copy, Debug, PartialEq, Eq, Structural)]
pub enum SinkAction {
    Forward,
    /// Print the event in JSON as machine-readable output.
    Json,
    /// Print the event in JSON for a person.
    Debug,
    /// Rewrite the live line with the measured values.
    LiveSample,
    /// Rewrite the live line with the progress.
    Progress,
    /// Print the event in words; `fresh_line` ends the live line first.
    Words { fresh_line: bool },
    Nothing,
}

impl EventSink {
    /// What becomes of an event. `live_metrics` is what the start of a scan
    /// says of live values.
    pub open spec fn next(self, event: Seq<char>, live_metrics: bool) -> (EventSink, SinkAction) {
        let known = EventSink {
            live_metrics_expected: if event == "scan_started"@ {
                live_metrics
            } else {
                self.live_metrics_expected
            },
            ..self
        };
        if self.forwarding {
            (self, SinkAction::Forward)
        } else if self.mode == OutputMode::Jsonl {
            (known, SinkAction::Json)
        } else if self.debug {
            (known, SinkAction::Debug)
        } else if event == "scan_sample"@ {
            (EventSink { progress_line_active: true, ..known }, SinkAction::LiveSample)
        } else if event == "scan_progress"@ {
            if known.live_metrics_expected {
                (known, SinkAction::Nothing)
            } else {
                (EventSink { progress_line_active: true, ..known }, SinkAction::Progress)
            }
        } else {
            (
                EventSink { progress_line_active: false, ..known },
                SinkAction::Words { fresh_line: self.progress_line_active },
            )
        }
    }

    /// The sink of a run in a terminal.
    pub fn new(json_requested: bool, debug_requested: bool, terminal: bool) -> (sink: EventSink)
        ensures
            sink == (EventSink {
                mode: if json_requested {
                    OutputMode::Jsonl
                } else {
                    OutputMode::Human
                },
                progress_line_active: false,
                live_metrics_expected: false,
                styled: !json_requested && terminal,
                debug: !json_requested && debug_requested,
                forwarding: false,
            }),
    {
        EventSink {
            mode: output_mode(json_requested),
            progress_line_active: false,
            live_metrics_expected: false,
            styled: !json_requested && terminal,
            debug: !json_requested && debug_requested,
            forwarding: false,
        }
    }

    /// The sink of a scan that runs for another process.
    pub fn for_client() -> (sink: EventSink)
        ensures
            sink == (EventSink {
                mode: OutputMode::Jsonl,
                progress_line_active: false,
                live_metrics_expected: false,
                styled: false,
                debug: false,
                forwarding: true,
            }),
    {
        EventSink {
            mode: OutputMode::Jsonl,
            progress_line_active: false,
            live_metrics_expected: false,
            styled: false,
            debug: false,
            forwarding: true,
        }
    }

    /// Takes in an event and says what to do with it.
    pub fn route(&mut self, event: &str, live_metrics: bool) -> (action: SinkAction)
        ensures
            (*final(self), action) == old(self).next(event@, live_metrics),
    {
        if self.forwarding {
            return SinkAction::Forward;
        }
        if text::equal(event, "scan_started") {
            self.live_metrics_expected = live_metrics;
        }
        if self.mode == OutputMode::Jsonl {
            return SinkAction::Json;
        }
        if self.debug {
            return SinkAction::Debug;
        }
        if text::equal(event, "scan_sample") {
            self.progress_line_active = true;
            return SinkAction::LiveSample;
        }
        if text::equal(event, "scan_progress") {
            if self.live_metrics_expected {
                return SinkAction::Nothing;
            }
            self.progress_line_active = true;
            return SinkAction::Progress;
        }
        let fresh_line: bool = self.progress_line_active;
        self.progress_line_active = false;
        SinkAction::Words { fresh_line }
    }
}

// ---------------------------------------------------------------------------
// Laws
// ---------------------------------------------------------------------------
/// Paths behind ASCII labels that are not too long start in one column.
pub proof fn law_paths_share_a_column(label: Seq<char>, path: Seq<char>)
    requires
        vstd::utf8::is_ascii_chars(label),
        label.len() <= PATH_LABEL_WIDTH,
    ensures
        path_line(label, path, false).skip(PATH_LABEL_WIDTH + 1) == path,
        path_line(label, path, false).take(label.len() as int) == label,
{
    vstd::utf8::is_ascii_chars_encode_utf8(label);
    let line = path_line(label, path, false);
    assert(line.skip(PATH_LABEL_WIDTH + 1) =~= path);
    assert(line.take(label.len() as int) =~= label);
}

/// Words are never printed behind a live line: a live line is ended first.
pub proof fn law_words_start_on_a_fresh_line(
    sink: EventSink,
    event: Seq<char>,
    live_metrics: bool,
)
    ensures
        sink.next(event, live_metrics).1 matches SinkAction::Words { fresh_line } ==> fresh_line
            == sink.progress_line_active && !sink.next(event, live_metrics).0.progress_line_active,
        sink.next(event, live_metrics).0.progress_line_active && !sink.progress_line_active ==> (
        sink.next(event, live_metrics).1 is LiveSample || sink.next(event, live_metrics).1 is Progress),
{
}

/// In JSON mode every event is printed, whole and in JSON, and nothing else is.
pub proof fn law_json_mode_shows_every_event(
    sink: EventSink,
    event: Seq<char>,
    live_metrics: bool,
)
    requires
        sink.mode == OutputMode::Jsonl,
        !sink.forwarding,
    ensures
        sink.next(event, live_metrics).1 == SinkAction::Json,
        sink.next(event, live_metrics).0.mode == OutputMode::Jsonl,
{
}

/// The first field `key` has the text `plain`.
pub open spec fn field_is(fields: Seq<EventField>, key: Seq<char>, plain: Seq<char>) -> bool {
    exists|i: int|
        0 <= i < fields.len() && (#[trigger] fields[i]).key@ == key && fields[i].plain@ == plain
            && forall|j: int| 0 <= j < i ==> (#[trigger] fields[j]).key@ != key
}

/// A value is shown as the first field with its key has it, and as null if there
/// is no such field.
pub proof fn law_value_of_a_field(fields: Seq<EventField>, key: Seq<char>, plain: Seq<char>)
    ensures
        field_is(fields, key, plain) ==> plain_of(fields, key) == plain,
        (forall|i: int| 0 <= i < fields.len() ==> (#[trigger] fields[i]).key@ != key) ==> plain_of(
            fields,
            key,
        ) == "null"@,
    decreases fields.len(),
{
    if fields.len() > 0 {
        let rest = fields.drop_first();
        law_value_of_a_field(rest, key, plain);
        assert(forall|i: int| 0 <= i < rest.len() ==> rest[i] == fields[i + 1]);
        if field_is(fields, key, plain) && fields[0].key@ != key {
            let i = choose|i: int|
                0 <= i < fields.len() && (#[trigger] fields[i]).key@ == key && fields[i].plain@
                    == plain && forall|j: int| 0 <= j < i ==> (#[trigger] fields[j]).key@ != key;
            assert(rest[i - 1] == fields[i]);
            assert forall|j: int| 0 <= j < i - 1 implies (#[trigger] rest[j]).key@ != key by {
                assert(rest[j] == fields[j + 1]);
            }
            assert(field_is(rest, key, plain));
        }
        if forall|i: int| 0 <= i < fields.len() ==> (#[trigger] fields[i]).key@ != key {
            assert(fields[0].key@ != key);
            assert forall|i: int| 0 <= i < rest.len() implies (#[trigger] rest[i]).key@ != key by {
                assert(rest[i] == fields[i + 1]);
            }
        }
    }
}

/// What tells the names of events apart.
proof fn lemma_event_names()
    ensures
        "config_created"@.len() == 14 && "config_created"@[0] == 'c',
        "config_loaded"@.len() == 13 && "config_loaded"@[0] == 'c',
        "output_format_updated"@.len() == 21 && "output_format_updated"@[0] == 'o',
        "scan_accepted"@.len() == 13 && "scan_accepted"@[0] == 's',
        "calibration_loaded"@.len() == 18 && "calibration_loaded"@[0] == 'c',
        "device_readings"@.len() == 15,
        "port_opened"@.len() == 11 && "port_opened"@[0] == 'p',
        "scan_started"@.len() == 12,
        "calibration_recipe_started"@.len() == 26,
        "calibration_standard_prompt"@.len() == 27,
        "calibration_standard_completed"@.len() == 30,
        "calibration_completed"@.len() == 21 && "calibration_completed"@[0] == 'c',
        "scan_quality_warning"@.len() == 20,
        "raw_output_written"@.len() == 18 && "raw_output_written"@[0] == 'r',
        "scan_completed"@.len() == 14 && "scan_completed"@[0] == 's' && "scan_completed"@[6] == 'o',
        "cancellation_requested"@.len() == 22,
        "scan_cancelled"@.len() == 14 && "scan_cancelled"@[0] == 's' && "scan_cancelled"@[6] == 'a',
        "scan_failed"@.len() == 11 && "scan_failed"@[0] == 's',
{
    reveal_strlit("config_created");
    reveal_strlit("config_loaded");
    reveal_strlit("output_format_updated");
    reveal_strlit("scan_accepted");
    reveal_strlit("calibration_loaded");
    reveal_strlit("device_readings");
    reveal_strlit("port_opened");
    reveal_strlit("scan_started");
    reveal_strlit("calibration_recipe_started");
    reveal_strlit("calibration_standard_prompt");
    reveal_strlit("calibration_standard_completed");
    reveal_strlit("calibration_completed");
    reveal_strlit("scan_quality_warning");
    reveal_strlit("raw_output_written");
    reveal_strlit("scan_completed");
    reveal_strlit("cancellation_requested");
    reveal_strlit("scan_cancelled");
    reveal_strlit("scan_failed");
}

/// The start of a scan shows its points and its range, from the start to the
/// stop.
pub proof fn law_words_for_the_start_of_a_scan(
    fields: Seq<EventField>,
    points: Seq<char>,
    start: Seq<char>,
    stop: Seq<char>,
    mode: Seq<char>,
    port: Seq<char>,
    styled: bool,
)
    requires
        field_is(fields, "points"@, points),
        field_is(fields, "start_hz"@, start),
        field_is(fields, "stop_hz"@, stop),
    ensures
        event_text("scan_started"@, fields, port, styled) == "Scanning:\n\t"@ + points
            + " points\n\t"@ + start + " to "@ + stop + " Hz"@,
        field_is(fields, "mode"@, mode) ==> event_text(
            "calibration_recipe_started"@,
            fields,
            port,
            styled,
        ) == "Calibration recipe: "@ + mode + " mode, "@ + start + " to "@ + stop + " Hz, "@ + points
            + " points per standard"@,
{
    lemma_event_names();
    law_value_of_a_field(fields, "points"@, points);
    law_value_of_a_field(fields, "start_hz"@, start);
    law_value_of_a_field(fields, "stop_hz"@, stop);
    law_value_of_a_field(fields, "mode"@, mode);
}

/// A prompt names its step out of all steps, its standard and what to do; a
/// captured standard its points and the time that it took.
pub proof fn law_words_for_a_standard(
    fields: Seq<EventField>,
    standard: Seq<char>,
    first: Seq<char>,
    second: Seq<char>,
    instruction: Seq<char>,
    port: Seq<char>,
    styled: bool,
)
    requires
        field_is(fields, "standard"@, standard),
    ensures
        field_is(fields, "step"@, first) && field_is(fields, "total_steps"@, second) && field_is(
            fields,
            "instruction"@,
            instruction,
        ) ==> event_text("calibration_standard_prompt"@, fields, port, styled) == "\nStep "@ + first
            + "/"@ + second + " — "@ + standard + ": "@ + instruction
            + "\nPress Enter when ready, or type q then Enter to abort"@,
        field_is(fields, "points"@, first) && field_is(fields, "elapsed_ms"@, second)
            ==> event_text("calibration_standard_completed"@, fields, port, styled) == "Captured "@
            + standard + ": "@ + first + " points in "@ + second + " ms"@,
{
    lemma_event_names();
    law_value_of_a_field(fields, "standard"@, standard);
    law_value_of_a_field(fields, "step"@, first);
    law_value_of_a_field(fields, "total_steps"@, second);
    law_value_of_a_field(fields, "instruction"@, instruction);
    law_value_of_a_field(fields, "points"@, first);
    law_value_of_a_field(fields, "elapsed_ms"@, second);
}

/// What was counted or measured is shown by its own name: the points outside the
/// circle out of all points, the points that were written, the temperature and
/// the supply, the output format and its file.
pub proof fn law_words_for_results(
    fields: Seq<EventField>,
    first: Seq<char>,
    second: Seq<char>,
    port: Seq<char>,
)
    ensures
        field_is(fields, "affected_points"@, first) && field_is(fields, "total_points"@, second)
            ==> event_text("scan_quality_warning"@, fields, port, false) == "Warning: "@ + first
            + " of "@ + second + " points are outside the calibrated reflection circle"@,
        field_is(fields, "points"@, first) && field_is(fields, "output_directory"@, second)
            ==> event_text("scan_completed"@, fields, port, false) == "Scan complete: "@ + first
            + " points written to "@ + second,
        field_is(fields, "temperature_c"@, first) && field_is(fields, "supply_v"@, second)
            ==> event_text("device_readings"@, fields, port, false) == "Device temperature:"@ + " "@
            + first + " C; "@ + "supply:"@ + " "@ + second + " V"@,
        field_is(fields, "output"@, first) && field_is(fields, "config"@, second) ==> event_text(
            "output_format_updated"@,
            fields,
            port,
            false,
        ) == "Output format: "@ + first + " (saved in "@ + second + ")"@,
{
    lemma_event_names();
    law_value_of_a_field(fields, "affected_points"@, first);
    law_value_of_a_field(fields, "total_points"@, second);
    law_value_of_a_field(fields, "points"@, first);
    law_value_of_a_field(fields, "output_directory"@, second);
    law_value_of_a_field(fields, "temperature_c"@, first);
    law_value_of_a_field(fields, "supply_v"@, second);
    law_value_of_a_field(fields, "output"@, first);
    law_value_of_a_field(fields, "config"@, second);
}

/// Paths and errors are shown whole, behind what they are.
pub proof fn law_words_for_paths_and_errors(
    fields: Seq<EventField>,
    value: Seq<char>,
    port: Seq<char>,
    styled: bool,
)
    ensures
        field_is(fields, "path"@, value) ==> {
            &&& event_text("config_created"@, fields, port, styled) == "Created config "@ + value
            &&& event_text("config_loaded"@, fields, port, styled) == "Using config "@ + value
            &&& event_text("raw_output_written"@, fields, port, styled) == "Raw samples: "@ + value
            &&& event_text("calibration_completed"@, fields, port, styled)
                == "Calibration saved and activated: "@ + value
        },
        field_is(fields, "error"@, value) ==> {
            &&& event_text("scan_cancelled"@, fields, port, styled) == "Scan cancelled: "@ + value
            &&& event_text("scan_failed"@, fields, port, styled) == "Scan failed: "@ + value
        },
        field_is(fields, "output_directory"@, value) ==> event_text(
            "scan_accepted"@,
            fields,
            port,
            styled,
        ) == path_line("Output directory:"@, value, styled),
        field_is(fields, "source"@, value) ==> event_text(
            "calibration_loaded"@,
            fields,
            port,
            styled,
        ) == path_line("Calibration:"@, value, styled),
        event_text("port_opened"@, fields, port, styled) == "Opened "@ + port,
{
    lemma_event_names();
    law_value_of_a_field(fields, "path"@, value);
    law_value_of_a_field(fields, "error"@, value);
    law_value_of_a_field(fields, "output_directory"@, value);
    law_value_of_a_field(fields, "source"@, value);
}

/// The values of an event are listed in their order, each with its key. The kind,
/// the time and the identifier of the event are left out.
pub proof fn law_listed_fields(left: Seq<EventField>, field: EventField, right: Seq<EventField>)
    ensures
        field_texts(left + seq![field] + right) == field_texts(left) + (if field.key@ == "event"@
            || field.key@ == "timestamp"@ || field.key@ == "id"@ {
            Seq::<Seq<char>>::empty()
        } else {
            seq![field.key@ + "="@ + field.json@]
        }) + field_texts(right),
        field_texts(Seq::empty()) == Seq::<Seq<char>>::empty(),
    decreases right.len(),
{
    let all = left + seq![field] + right;
    let middle = if field.key@ == "event"@ || field.key@ == "timestamp"@ || field.key@ == "id"@ {
        Seq::<Seq<char>>::empty()
    } else {
        seq![field.key@ + "="@ + field.json@]
    };
    if right.len() == 0 {
        assert(all.drop_last() =~= left);
        assert(all.last() == field);
        assert(field_texts(all) =~= field_texts(left) + middle + field_texts(right));
    } else {
        law_listed_fields(left, field, right.drop_last());
        assert(all.drop_last() =~= left + seq![field] + right.drop_last());
        assert(all.last() == right.last());
        assert(field_texts(all) =~= field_texts(left) + middle + field_texts(right));
    }
}

/// The live line has its numbers in fixed columns: the completion in the first
/// six, the return loss in the seven from column 12 on, the phase in the seven
/// from column 30 on.
pub proof fn law_columns_of_the_live_line(
    percent: Seq<char>,
    loss_db: Seq<char>,
    phase_deg: Seq<char>,
)
    requires
        percent.len() <= 6,
        loss_db.len() <= 7,
        phase_deg.len() <= 7,
    ensures
        ({
            let line = measurement_text(percent, loss_db, phase_deg, false);
            &&& line.len() == 38
            &&& line.subrange(6 - percent.len(), 6) == percent
            &&& line.subrange(19 - loss_db.len(), 19) == loss_db
            &&& line.subrange(37 - phase_deg.len(), 37) == phase_deg
            &&& line.subrange(6, 12) == "% RL: "@
            &&& line.subrange(19, 30) == " dB Phase: "@
        }),
{
    reveal_strlit("% ");
    reveal_strlit("RL");
    reveal_strlit(": ");
    reveal_strlit(" dB ");
    reveal_strlit("Phase");
    reveal_strlit("°");
    reveal_strlit("% RL: ");
    reveal_strlit(" dB Phase: ");
    text::law_padding(percent, 6);
    text::law_padding(loss_db, 7);
    text::law_padding(phase_deg, 7);
    let line = measurement_text(percent, loss_db, phase_deg, false);
    let p = text::pad_start(percent, 6);
    let l = text::pad_start(loss_db, 7);
    let f = text::pad_start(phase_deg, 7);
    assert(line =~= p + "% RL: "@ + l + " dB Phase: "@ + f + "°"@);
    assert(line.subrange(6, 12) =~= "% RL: "@);
    assert(line.subrange(19, 30) =~= " dB Phase: "@);
    assert(line.subrange(6 - percent.len(), 6) =~= p.skip(p.len() - percent.len()));
    assert(line.subrange(19 - loss_db.len(), 19) =~= l.skip(l.len() - loss_db.len()));
    assert(line.subrange(37 - phase_deg.len(), 37) =~= f.skip(f.len() - phase_deg.len()));
}

/// A style stands before a text and is ended behind it; without styles the text
/// is left as it is.
pub proof fn law_styles_end(shown: Seq<char>, style: Seq<char>)
    ensures
        styled_text(shown, style, false) == shown,
        styled_text(shown, style, true) == style + shown + seq!['\u{1b}', '[', '0', 'm'],
{
    reveal_strlit("\x1b[0m");
    assert(ANSI_RESET@ =~= seq!['\u{1b}', '[', '0', 'm']);
}

/// JSON shows infinities and what is no number in words, and all else as a number.
pub proof fn law_special_numbers(value: Binary64)
    ensures
        special_number(value) == if value.bits == 0x7ff0_0000_0000_0000 {
            Some("Infinity"@)
        } else if value.bits == 0xfff0_0000_0000_0000 {
            Some("-Infinity"@)
        } else if value.nan() {
            Some("NaN"@)
        } else {
            None
        },
{
    crate::binary64::law_classes(value);
}

/// For a person, samples and progress rewrite the live line, progress only if no
/// samples are to be expected, and everything else is put into words. An event
/// that is passed on changes nothing here.
pub proof fn law_events_for_a_person(sink: EventSink, event: Seq<char>, live_metrics: bool)
    ensures
        ({
            let (after, action) = sink.next(event, live_metrics);
            let person = !sink.forwarding && sink.mode == OutputMode::Human && !sink.debug;
            &&& sink.forwarding ==> action == SinkAction::Forward && after == sink
            &&& !sink.forwarding && sink.mode == OutputMode::Human && sink.debug ==> action
                == SinkAction::Debug
            &&& person && event == "scan_sample"@ ==> action == SinkAction::LiveSample
                && after.progress_line_active
            &&& person && event == "scan_progress"@ && sink.live_metrics_expected ==> action
                == SinkAction::Nothing && after == sink
            &&& person && event == "scan_progress"@ && !sink.live_metrics_expected ==> action
                == SinkAction::Progress && after.progress_line_active
            &&& person && event != "scan_sample"@ && event != "scan_progress"@ ==> action
                == (SinkAction::Words { fresh_line: sink.progress_line_active })
            &&& !sink.forwarding ==> after.live_metrics_expected == if event == "scan_started"@ {
                live_metrics
            } else {
                sink.live_metrics_expected
            }
            &&& after.mode == sink.mode && after.styled == sink.styled && after.debug == sink.debug
        }),
{
    reveal_strlit("scan_sample");
    reveal_strlit("scan_progress");
    reveal_strlit("scan_started");
    assert("scan_sample"@.len() != "scan_progress"@.len());
    assert("scan_sample"@.len() != "scan_started"@.len());
    assert("scan_progress"@.len() != "scan_started"@.len());
}

/// The progress of a scan shows its complete points before all of them, and the
/// share behind them.
pub proof fn law_progress_in_numbers(points: nat, total: nat, percent: nat)
    ensures
        text::numbers(
            progress_text(text::decimal(points), text::decimal(total), text::decimal(percent)),
        ) == seq![points, total, percent],
{
    reveal_strlit("Scanning ");
    reveal_strlit("/");
    reveal_strlit(" points (");
    reveal_strlit("%)");
    text::lemma_three_numbers("Scanning "@, points, "/"@, total, " points ("@, percent, "%)"@);
    text::lemma_words_hold_no_number("%)"@, Seq::empty());
}

/// `s` without its styles: each starts with an escape character and ends with the
/// next `m`.
pub open spec fn unstyled(s: Seq<char>) -> Seq<char>
    decreases s.len(),
{
    if s.len() == 0 {
        Seq::empty()
    } else if s[0] == '\u{1b}' {
        let end = text::position(s, 'm') + 1;
        if 0 < end <= s.len() {
            unstyled(s.skip(end))
        } else {
            Seq::empty()
        }
    } else {
        seq![s[0]] + unstyled(s.drop_first())
    }
}

/// `style` is an escape character with all up to the next `m`.
pub open spec fn is_style(style: Seq<char>) -> bool {
    &&& style.len() > 1
    &&& style[0] == '\u{1b}'
    &&& style.last() == 'm'
    &&& forall|i: int| 0 <= i < style.len() - 1 ==> #[trigger] style[i] != 'm'
}

proof fn lemma_unstyled_text(shown: Seq<char>, rest: Seq<char>)
    requires
        !shown.contains('\u{1b}'),
    ensures
        unstyled(shown + rest) == shown + unstyled(rest),
        unstyled(shown) == shown,
    decreases shown.len(),
{
    if shown.len() == 0 {
        assert(shown + rest =~= rest);
        assert(shown + unstyled(rest) =~= unstyled(rest));
    } else {
        let tail = shown.drop_first();
        assert(!tail.contains('\u{1b}')) by {
            if tail.contains('\u{1b}') {
                let i = choose|i: int| 0 <= i < tail.len() && tail[i] == '\u{1b}';
                assert(shown[i + 1] == '\u{1b}');
            }
        }
        lemma_unstyled_text(tail, rest);
        assert(shown.contains(shown[0]));
        assert((shown + rest).drop_first() =~= tail + rest);
        assert(seq![shown[0]] + (tail + unstyled(rest)) =~= shown + unstyled(rest));
        assert(seq![shown[0]] + tail =~= shown);
    }
}

proof fn lemma_unstyled_style(style: Seq<char>, rest: Seq<char>)
    requires
        is_style(style),
    ensures
        unstyled(style + rest) == unstyled(rest),
{
    let all = style + rest;
    let end = style.len() - 1;
    assert forall|j: int| 0 <= j < end implies all[j] != 'm' by {
        assert(all[j] == style[j]);
    }
    assert(all[end] == style.last());
    text::lemma_position(all, 'm', end);
    assert(all.skip(end + 1) =~= rest);
}

proof fn lemma_unstyled_part(shown: Seq<char>, style: Seq<char>, styled: bool, rest: Seq<char>)
    requires
        is_style(style),
        !shown.contains('\u{1b}'),
    ensures
        unstyled(styled_text(shown, style, styled) + rest) == shown + unstyled(rest),
{
    lemma_styles();
    if styled {
        let tail = ANSI_RESET@ + rest;
        assert(styled_text(shown, style, styled) + rest =~= style + (shown + tail));
        lemma_unstyled_style(style, shown + tail);
        lemma_unstyled_text(shown, tail);
        lemma_unstyled_style(ANSI_RESET@, rest);
    } else {
        lemma_unstyled_text(shown, rest);
    }
}

proof fn lemma_styles()
    ensures
        is_style(ANSI_RESET@),
        is_style(ANSI_BOLD@),
        is_style(ANSI_RL_GREEN@),
        is_style(ANSI_PHASE_RED@),
{
    reveal_strlit("\x1b[0m");
    reveal_strlit("\x1b[1m");
    reveal_strlit("\x1b[38;2;0;174;107m");
    reveal_strlit("\x1b[38;2;242;40;60m");
}

/// Styles change nothing but the style: without them the live line, a path behind
/// its label and the readings of the device are what they are when there are none.
pub proof fn law_styles_change_nothing_else(
    first: Seq<char>,
    second: Seq<char>,
    third: Seq<char>,
    label: Seq<char>,
    fields: Seq<EventField>,
    port: Seq<char>,
)
    requires
        !first.contains('\u{1b}'),
        !second.contains('\u{1b}'),
        !third.contains('\u{1b}'),
        !label.contains('\u{1b}'),
    ensures
        unstyled(measurement_text(first, second, third, true)) == measurement_text(
            first,
            second,
            third,
            false,
        ),
        unstyled(path_line(label, first, true)) == path_line(label, first, false),
        field_is(fields, "temperature_c"@, first) && field_is(fields, "supply_v"@, second)
            ==> unstyled(event_text("device_readings"@, fields, port, true)) == event_text(
            "device_readings"@,
            fields,
            port,
            false,
        ),
{
    lemma_styles();
    lemma_unstyled_line(first, second, third);
    let space = text::spaces(label_padding(label)) + first;
    assert(!space.contains('\u{1b}')) by {
        if space.contains('\u{1b}') {
            let i = choose|i: int| 0 <= i < space.len() && space[i] == '\u{1b}';
            if i >= text::spaces(label_padding(label)).len() {
                assert(first.contains(space[i]));
            }
        }
    }
    lemma_unstyled_part(label, ANSI_BOLD@, true, space);
    lemma_unstyled_text(space, Seq::empty());
    assert(path_line(label, first, true) =~= styled_text(label, ANSI_BOLD@, true) + space);
    assert(path_line(label, first, false) =~= label + space);
    lemma_event_names();
    law_value_of_a_field(fields, "temperature_c"@, first);
    law_value_of_a_field(fields, "supply_v"@, second);
    lemma_unstyled_readings(first, second);
}

proof fn lemma_plain_concat(left: Seq<char>, right: Seq<char>)
    requires
        !left.contains('\u{1b}'),
        !right.contains('\u{1b}'),
    ensures
        !(left + right).contains('\u{1b}'),
{
    let all = left + right;
    if all.contains('\u{1b}') {
        let i = choose|i: int| 0 <= i < all.len() && all[i] == '\u{1b}';
        if i < left.len() {
            assert(left.contains(all[i]));
        } else {
            assert(right.contains(all[i]));
        }
    }
}

proof fn lemma_padded_is_plain(s: Seq<char>, width: nat)
    requires
        !s.contains('\u{1b}'),
    ensures
        !text::pad_start(s, width).contains('\u{1b}'),
{
    if s.len() < width {
        let space = text::spaces((width - s.len()) as nat);
        assert(!space.contains('\u{1b}'));
        lemma_plain_concat(space, s);
    }
}

proof fn lemma_unstyled_line(percent: Seq<char>, loss_db: Seq<char>, phase_deg: Seq<char>)
    requires
        !percent.contains('\u{1b}'),
        !loss_db.contains('\u{1b}'),
        !phase_deg.contains('\u{1b}'),
    ensures
        unstyled(measurement_text(percent, loss_db, phase_deg, true)) == measurement_text(
            percent,
            loss_db,
            phase_deg,
            false,
        ),
{
    reveal_strlit("% ");
    reveal_strlit("RL");
    reveal_strlit(": ");
    reveal_strlit(" dB ");
    reveal_strlit("Phase");
    reveal_strlit("°");
    lemma_styles();
    lemma_padded_is_plain(percent, 6);
    lemma_padded_is_plain(loss_db, 7);
    lemma_padded_is_plain(phase_deg, 7);
    let a = text::pad_start(percent, 6) + "% "@;
    let l = text::pad_start(loss_db, 7);
    let f = text::pad_start(phase_deg, 7);
    lemma_plain_concat(text::pad_start(percent, 6), "% "@);
    lemma_plain_concat(": "@, l);
    let b = ": "@ + l + " dB "@;
    lemma_plain_concat(": "@ + l, " dB "@);
    lemma_plain_concat(": "@, f);
    let c = ": "@ + f + "°"@;
    lemma_plain_concat(": "@ + f, "°"@);
    let phase = styled_text("Phase"@, ANSI_PHASE_RED@, true) + c;
    let loss = styled_text("RL"@, ANSI_RL_GREEN@, true) + (b + phase);
    assert(measurement_text(percent, loss_db, phase_deg, true) =~= a + loss);
    lemma_unstyled_text(a, loss);
    lemma_unstyled_part("RL"@, ANSI_RL_GREEN@, true, b + phase);
    lemma_unstyled_text(b, phase);
    lemma_unstyled_part("Phase"@, ANSI_PHASE_RED@, true, c);
    lemma_unstyled_text(c, Seq::empty());
    assert(measurement_text(percent, loss_db, phase_deg, false) =~= a + ("RL"@ + (b + ("Phase"@
        + c))));
}

proof fn lemma_unstyled_readings(temperature: Seq<char>, supply: Seq<char>)
    requires
        !temperature.contains('\u{1b}'),
        !supply.contains('\u{1b}'),
    ensures
        unstyled(
            styled_text("Device temperature:"@, ANSI_BOLD@, true) + " "@ + temperature + " C; "@
                + styled_text("supply:"@, ANSI_BOLD@, true) + " "@ + supply + " V"@,
        ) == "Device temperature:"@ + " "@ + temperature + " C; "@ + "supply:"@ + " "@ + supply
            + " V"@,
{
    reveal_strlit("Device temperature:");
    reveal_strlit("supply:");
    reveal_strlit(" ");
    reveal_strlit(" C; ");
    reveal_strlit(" V");
    lemma_styles();
    lemma_plain_concat(" "@, temperature);
    lemma_plain_concat(" "@ + temperature, " C; "@);
    lemma_plain_concat(" "@, supply);
    lemma_plain_concat(" "@ + supply, " V"@);
    let a = " "@ + temperature + " C; "@;
    let b = " "@ + supply + " V"@;
    let tail = styled_text("supply:"@, ANSI_BOLD@, true) + b;
    assert(styled_text("Device temperature:"@, ANSI_BOLD@, true) + " "@ + temperature + " C; "@
        + styled_text("supply:"@, ANSI_BOLD@, true) + " "@ + supply + " V"@ =~= styled_text(
        "Device temperature:"@,
        ANSI_BOLD@,
        true,
    ) + (a + tail));
    lemma_unstyled_part("Device temperature:"@, ANSI_BOLD@, true, a + tail);
    lemma_unstyled_text(a, tail);
    lemma_unstyled_part("supply:"@, ANSI_BOLD@, true, b);
    lemma_unstyled_text(b, Seq::empty());
    assert("Device temperature:"@ + " "@ + temperature + " C; "@ + "supply:"@ + " "@ + supply
        + " V"@ =~= "Device temperature:"@ + (a + ("supply:"@ + b)));
}

/// An event that has no words of its own is shown by its name in brackets and all
/// its values.
pub proof fn law_words_for_other_events(
    event: Seq<char>,
    fields: Seq<EventField>,
    port: Seq<char>,
    styled: bool,
)
    requires
        event.len() < 11 || event.len() > 30 || event.len() == 17,
    ensures
        event_text(event, fields, port, styled) == "["@ + event + "] "@ + text::join(
            field_texts(fields),
            " "@,
        ),
{
    lemma_event_names();
}

} // verus!
