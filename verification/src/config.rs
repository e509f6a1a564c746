//! The configuration: what its values mean, which of them are accepted, and
//! how the program changes its own file.
//!
//! Paths are texts in the Unix notation.
use vstd::prelude::*;

use crate::edit::{set_value, EditError, Setting};
use crate::edit;
use crate::frequency::{debug_quoted, parse_frequency_hz, FrequencyError};
use crate::frequency;
use crate::json::quote;
use crate::json;
use crate::model::{
    max_supported_points, OutputFormat, ScanMode, ScanSpec, SpecError, MAX_FREQUENCY_HZ,
    MAX_VERIFIED_SCAN_POINTS, MIN_FREQUENCY_HZ, MIN_SCAN_SPAN_HZ,
};
use crate::model;
use crate::text;

verus! {

/// The name under which the supplied calibration is installed.
pub const DEFAULT_CALIBRATION_FILENAME: &'static str = "NATES-miniVNA_Tiny.json";

/// The default configuration up to the path of its calibration.
pub const DEFAULT_CONFIG_HEAD: &'static str = "# miniVNA Tiny acquisition.\n#\n# Every run creates a directory that is named by the prefix and the time and\n# holds the scan together with a copy of this file.\noutput = \"csv\"\ndirectory_prefix = \"VNA-D4_\"\n\n[device]\nport = \"auto\"\n\n[scan]\nstart = \"45M\"\nstop = \"60M\"\npoints = \"max\"\nmode = \"reflection\"\ncalibration = ";

/// The default configuration behind the path of its calibration.
pub const DEFAULT_CONFIG_TAIL: &'static str = "\n";

/// All settings.
#[derive(Clone, Debug)]
pub struct AppConfig {
    pub output: OutputFormat,
    pub directory_prefix: String,
    pub device: DeviceSettings,
    pub scan: ScanSettings,
}

#[derive(Clone, Debug)]
pub struct DeviceSettings {
    pub port: String,
}

/// The scan that a run performs. A point count of -1 asks for as many points
/// as the range has room for.
#[derive(Clone, Debug)]
pub struct ScanSettings {
    pub start_hz: u64,
    pub stop_hz: u64,
    pub points: i64,
    pub mode: ScanMode,
    pub calibration: String,
}

/// A configuration with the file that it came from.
#[derive(Clone, Debug)]
pub struct LoadedConfig {
    pub settings: AppConfig,
    pub path: String,
    pub directory: String,
    pub text: String,
    pub created: bool,
}

/// What a configuration file can hold for a frequency.
#[derive(Debug)]
pub enum FrequencyInput {
    Hertz(u64),
    Suffixed(String),
}

/// What a configuration file can hold for a number of points.
#[derive(Debug)]
pub enum PointsInput {
    Count(i64),
    Name(String),
}

/// Why a configuration is not accepted, or not changed.
#[derive(Clone, Copy, Debug, PartialEq, Eq, Structural)]
pub enum ConfigError {
    EmptyPort,
    InvalidPoints,
    Spec(SpecError),
    EmptyCalibration,
    BuiltinCalibration,
    RelativeCalibration,
    PathInPrefix,
    UnsupportedSelector,
    NotAbsolute,
    Edit(EditError),
    CalibrationNotRetained,
    OutputNotRetained(OutputFormat),
}

impl ConfigError {
    /// The error as the user reads it. `shown` is the path that it is about:
    /// in quotes where the configuration holds it, and as it is where it was
    /// given to be written.
    pub open spec fn text(self, shown: Seq<char>) -> Seq<char> {
        match self {
            ConfigError::EmptyPort => "device.port cannot be empty"@,
            ConfigError::InvalidPoints =>
                "scan.points must be \"max\" or an integer of at least 2"@,
            ConfigError::Spec(error) => error.text(),
            ConfigError::EmptyCalibration =>
                "scan.calibration must be an absolute JSON file path; it cannot be empty"@,
            ConfigError::BuiltinCalibration =>
                "scan.calibration no longer accepts builtin selectors; use the full path to the installed JSON calibration file"@,
            ConfigError::RelativeCalibration =>
                "scan.calibration must be an absolute JSON file path, got "@ + shown,
            ConfigError::PathInPrefix =>
                "directory_prefix must be a filename prefix, not a path"@,
            ConfigError::UnsupportedSelector => "unsupported calibration selector "@ + shown
                + "; scan.calibration must be an absolute JSON file path"@,
            ConfigError::NotAbsolute => "calibration path must be absolute, got "@ + shown,
            ConfigError::Edit(error) => error.text(),
            ConfigError::CalibrationNotRetained =>
                "updated configuration did not retain the new calibration path"@,
            ConfigError::OutputNotRetained(OutputFormat::Csv) =>
                "updated configuration did not retain output = Csv"@,
            ConfigError::OutputNotRetained(OutputFormat::Json) =>
                "updated configuration did not retain output = Json"@,
        }
    }

    pub fn message(&self, shown: &str) -> (message: String)
        ensures
            message@ == self.text(shown@),
    {
        let mut out: String = String::new();
        match *self {
            ConfigError::EmptyPort => out.append("device.port cannot be empty"),
            ConfigError::InvalidPoints => out.append(
                "scan.points must be \"max\" or an integer of at least 2",
            ),
            ConfigError::Spec(error) => {
                return error.message();
            },
            ConfigError::EmptyCalibration => out.append(
                "scan.calibration must be an absolute JSON file path; it cannot be empty",
            ),
            ConfigError::BuiltinCalibration => out.append(
                "scan.calibration no longer accepts builtin selectors; use the full path to the installed JSON calibration file",
            ),
            ConfigError::RelativeCalibration => {
                out.append("scan.calibration must be an absolute JSON file path, got ");
                out.append(shown);
            },
            ConfigError::PathInPrefix => out.append(
                "directory_prefix must be a filename prefix, not a path",
            ),
            ConfigError::UnsupportedSelector => {
                out.append("unsupported calibration selector ");
                out.append(shown);
                out.append("; scan.calibration must be an absolute JSON file path");
            },
            ConfigError::NotAbsolute => {
                out.append("calibration path must be absolute, got ");
                out.append(shown);
            },
            ConfigError::Edit(error) => out.append(error.message()),
            ConfigError::CalibrationNotRetained => out.append(
                "updated configuration did not retain the new calibration path",
            ),
            ConfigError::OutputNotRetained(OutputFormat::Csv) => out.append(
                "updated configuration did not retain output = Csv",
            ),
            ConfigError::OutputNotRetained(OutputFormat::Json) => out.append(
                "updated configuration did not retain output = Json",
            ),
        }
        assert(out@ =~= self.text(shown@));
        out
    }

    /// The error about a calibration path that the configuration holds.
    pub fn describe(&self, calibration: &str) -> (message: String)
        ensures
            message@ == self.text(frequency::debug_text(calibration@)),
    {
        let quoted: String = debug_quoted(calibration);
        self.message(quoted.as_str())
    }
}

// ---------------------------------------------------------------------------
// Paths
// ---------------------------------------------------------------------------
pub open spec fn absolute(path: Seq<char>) -> bool {
    path.len() > 0 && path[0] == '/'
}

/// `path` as seen from `directory`.
pub open spec fn joined(directory: Seq<char>, path: Seq<char>) -> Seq<char> {
    if absolute(path) {
        path
    } else if directory.len() == 0 || directory.last() == '/' {
        directory + path
    } else {
        directory + seq!['/'] + path
    }
}

pub fn is_absolute(path: &str) -> (answer: bool)
    ensures
        answer == absolute(path@),
{
    let chars: Vec<char> = text::chars_of(path);
    chars.len() > 0 && chars[0] == '/'
}

pub fn join(directory: &str, path: &str) -> (whole: String)
    ensures
        whole@ == joined(directory@, path@),
{
    let mut whole: String = String::new();
    if !is_absolute(path) {
        whole.append(directory);
        let chars: Vec<char> = text::chars_of(directory);
        if chars.len() > 0 && chars[chars.len() - 1] != '/' {
            whole.push('/');
        }
    }
    whole.append(path);
    assert(whole@ =~= joined(directory@, path@));
    whole
}

// ---------------------------------------------------------------------------
// Values
// ---------------------------------------------------------------------------
/// The number of points that a name stands for: `max` alone, in any case and
/// with white space around it, stands for -1.
pub open spec fn named_points(name: Seq<char>) -> Option<i64> {
    if text::lower(text::trim(name)) == "max"@ {
        Some(-1i64)
    } else {
        None
    }
}

pub fn points_from_name(name: &str) -> (points: Option<i64>)
    ensures
        points == named_points(name@),
{
    let chars: Vec<char> = text::chars_of(name);
    let lowered: Vec<char> = text::lowered(text::trimmed(chars.as_slice()));
    if text::same(lowered.as_slice(), "max") {
        Some(-1)
    } else {
        None
    }
}

/// The number of points that an input stands for.
pub open spec fn points_of(input: PointsInput) -> Option<i64> {
    match input {
        PointsInput::Count(count) => Some(count),
        PointsInput::Name(name) => named_points(name@),
    }
}

/// The number of points that a configuration file asks for.
pub fn points_setting(input: &PointsInput) -> (points: Result<i64, String>)
    ensures
        match (*input, points) {
            (_, Ok(points)) => points_of(*input) == Some(points),
            (PointsInput::Count(_), Err(_)) => false,
            (PointsInput::Name(name), Err(message)) => points_of(*input) is None && message@
                == "scan.points string must be \"max\", got "@ + frequency::debug_text(name@),
        },
{
    match input {
        PointsInput::Count(count) => Ok(*count),
        PointsInput::Name(name) => match points_from_name(name.as_str()) {
            Some(points) => Ok(points),
            None => {
                let quoted: String = debug_quoted(name.as_str());
                let mut message: String = String::new();
                message.append("scan.points string must be \"max\", got ");
                message.append(quoted.as_str());
                assert(message@ =~= "scan.points string must be \"max\", got "@ + quoted@);
                Err(message)
            },
        },
    }
}

/// The frequency that an input stands for.
pub open spec fn hertz_of(input: FrequencyInput) -> Result<u64, FrequencyError> {
    match input {
        FrequencyInput::Hertz(value) => Ok(value),
        FrequencyInput::Suffixed(value) => frequency::frequency_of(value@),
    }
}

/// The frequency that a configuration file asks for.
pub fn frequency_setting(input: &FrequencyInput) -> (hertz: Result<u64, String>)
    ensures
        match (*input, hertz) {
            (_, Ok(hertz)) => hertz_of(*input) == Ok::<u64, FrequencyError>(hertz),
            (FrequencyInput::Hertz(_), Err(_)) => false,
            (FrequencyInput::Suffixed(value), Err(message)) => hertz_of(*input) is Err && message@
                == hertz_of(*input)->Err_0.text(frequency::debug_text(text::trim(value@))),
        },
{
    match input {
        FrequencyInput::Hertz(value) => Ok(*value),
        FrequencyInput::Suffixed(value) => parse_frequency_hz(value.as_str()),
    }
}

/// Whether `s` holds the character `c`.
pub open spec fn holds(s: Seq<char>, c: char) -> bool {
    text::position(s, c) < s.len()
}

impl AppConfig {
    /// The number of points of the scan.
    pub open spec fn scan_points(self) -> usize {
        if self.scan.points == -1 {
            model::supported_points(self.scan.start_hz, self.scan.stop_hz) as usize
        } else if 0 <= self.scan.points <= usize::MAX {
            self.scan.points as usize
        } else {
            0
        }
    }

    /// The scan that the configuration asks for.
    pub open spec fn spec(self) -> ScanSpec {
        ScanSpec {
            start_hz: self.scan.start_hz,
            stop_hz: self.scan.stop_hz,
            points: self.scan_points(),
            mode: self.scan.mode,
        }
    }

    /// The first thing that is wrong with the configuration, if anything is.
    pub open spec fn verdict(self) -> Result<(), ConfigError> {
        if text::trim(self.device.port@).len() == 0 {
            Err(ConfigError::EmptyPort)
        } else if self.scan.points != -1 && self.scan.points < 2 {
            Err(ConfigError::InvalidPoints)
        } else if self.spec().verdict() is Err {
            Err(ConfigError::Spec(self.spec().verdict()->Err_0))
        } else if text::trim(self.scan.calibration@).len() == 0 {
            Err(ConfigError::EmptyCalibration)
        } else if text::starts_with(self.scan.calibration@, "builtin:"@) {
            Err(ConfigError::BuiltinCalibration)
        } else if !absolute(self.scan.calibration@) {
            Err(ConfigError::RelativeCalibration)
        } else if holds(self.directory_prefix@, '/') || holds(self.directory_prefix@, '\\')
            || holds(self.directory_prefix@, '\0') {
            Err(ConfigError::PathInPrefix)
        } else {
            Ok(())
        }
    }

    pub fn validate(&self) -> (verdict: Result<(), ConfigError>)
        ensures
            verdict == self.verdict(),
    {
        if text::blank(self.device.port.as_str()) {
            return Err(ConfigError::EmptyPort);
        }
        if self.scan.points != -1 && self.scan.points < 2 {
            return Err(ConfigError::InvalidPoints);
        }
        if let Err(error) = self.scan_spec().validate() {
            return Err(ConfigError::Spec(error));
        }
        if text::blank(self.scan.calibration.as_str()) {
            return Err(ConfigError::EmptyCalibration);
        }
        let calibration: Vec<char> = text::chars_of(self.scan.calibration.as_str());
        if text::begins(calibration.as_slice(), "builtin:") {
            return Err(ConfigError::BuiltinCalibration);
        }
        if !is_absolute(self.scan.calibration.as_str()) {
            return Err(ConfigError::RelativeCalibration);
        }
        let prefix: Vec<char> = text::chars_of(self.directory_prefix.as_str());
        if text::find(prefix.as_slice(), '/') < prefix.len() || text::find(prefix.as_slice(), '\\')
            < prefix.len() || text::find(prefix.as_slice(), '\0') < prefix.len() {
            return Err(ConfigError::PathInPrefix);
        }
        Ok(())
    }

    pub fn scan_spec(&self) -> (spec: ScanSpec)
        ensures
            spec == self.spec(),
    {
        let points: usize = if self.scan.points == -1 {
            max_supported_points(self.scan.start_hz, self.scan.stop_hz)
        } else if 0 <= self.scan.points && self.scan.points as u64 <= usize::MAX as u64 {
            self.scan.points as usize
        } else {
            0
        };
        ScanSpec {
            start_hz: self.scan.start_hz,
            stop_hz: self.scan.stop_hz,
            points,
            mode: self.scan.mode,
        }
    }
}

// ---------------------------------------------------------------------------
// The file
// ---------------------------------------------------------------------------
/// The file `content` with its calibration set to `path`.
pub open spec fn with_calibration(content: Seq<char>, path: Seq<char>) -> Result<
    Seq<char>,
    EditError,
> {
    edit::edit(Setting::ScanCalibration, content, json::quoted(path))
}

/// The file `content` with its output set to `format`.
pub open spec fn with_output(content: Seq<char>, format: OutputFormat) -> Result<
    Seq<char>,
    EditError,
> {
    edit::edit(Setting::RootOutput, content, seq!['"'] + format.text() + seq!['"'])
}

pub fn replace_scan_calibration(content: &str, calibration_path: &str) -> (updated: Result<
    String,
    EditError,
>)
    ensures
        match updated {
            Ok(updated) => with_calibration(content@, calibration_path@) == Ok::<
                Seq<char>,
                EditError,
            >(updated@),
            Err(error) => with_calibration(content@, calibration_path@) == Err::<
                Seq<char>,
                EditError,
            >(error),
        },
{
    let quoted: String = quote(calibration_path);
    set_value(content, Setting::ScanCalibration, quoted.as_str())
}

pub fn replace_root_output(content: &str, format: OutputFormat) -> (updated: Result<
    String,
    EditError,
>)
    ensures
        match updated {
            Ok(updated) => with_output(content@, format) == Ok::<Seq<char>, EditError>(updated@),
            Err(error) => with_output(content@, format) == Err::<Seq<char>, EditError>(error),
        },
{
    let mut value: String = String::new();
    value.push('"');
    value.append(format.name());
    value.push('"');
    assert(value@ =~= seq!['"'] + format.text() + seq!['"']);
    set_value(content, Setting::RootOutput, value.as_str())
}

/// How a file whose calibration is `configured` is brought up to date: an
/// absolute path is left alone, a relative one is written out as seen from
/// `directory`, and a selector is refused.
pub open spec fn migration(
    content: Seq<char>,
    configured: Seq<char>,
    directory: Seq<char>,
) -> Result<Option<Seq<char>>, ConfigError> {
    if absolute(configured) {
        Ok(None)
    } else if text::starts_with(configured, "builtin:"@) {
        Err(ConfigError::UnsupportedSelector)
    } else {
        match with_calibration(content, joined(directory, configured)) {
            Ok(updated) => Ok(Some(updated)),
            Err(error) => Err(ConfigError::Edit(error)),
        }
    }
}

pub fn migrate_calibration_path(
    content: &str,
    configured: &str,
    directory: &str,
) -> (updated: Result<Option<String>, ConfigError>)
    ensures
        match updated {
            Ok(Some(updated)) => migration(content@, configured@, directory@) == Ok::<
                Option<Seq<char>>,
                ConfigError,
            >(Some(updated@)),
            Ok(None) => migration(content@, configured@, directory@) == Ok::<
                Option<Seq<char>>,
                ConfigError,
            >(None),
            Err(error) => migration(content@, configured@, directory@) == Err::<
                Option<Seq<char>>,
                ConfigError,
            >(error),
        },
{
    if is_absolute(configured) {
        return Ok(None);
    }
    let chars: Vec<char> = text::chars_of(configured);
    if text::begins(chars.as_slice(), "builtin:") {
        return Err(ConfigError::UnsupportedSelector);
    }
    let path: String = join(directory, configured);
    match replace_scan_calibration(content, path.as_str()) {
        Ok(updated) => Ok(Some(updated)),
        Err(error) => Err(ConfigError::Edit(error)),
    }
}

/// What becomes of a configuration file that was read.
#[derive(Debug)]
pub enum Review {
    /// Its settings hold.
    Ready,
    /// It is to be replaced by this text and read again.
    Rewrite(String),
}

/// Decides what becomes of a configuration file with its settings.
pub fn review(content: &str, settings: &AppConfig, directory: &str) -> (review: Result<
    Review,
    ConfigError,
>)
    ensures
        match (migration(content@, settings.scan.calibration@, directory@), review) {
            (Err(error), Err(found)) => found == error,
            (Ok(Some(updated)), Ok(Review::Rewrite(found))) => found@ == updated,
            (Ok(None), Ok(Review::Ready)) => settings.verdict() is Ok,
            (Ok(None), Err(found)) => settings.verdict() == Err::<(), ConfigError>(found),
            _ => false,
        },
{
    match migrate_calibration_path(content, settings.scan.calibration.as_str(), directory) {
        Err(error) => Err(error),
        Ok(Some(updated)) => Ok(Review::Rewrite(updated)),
        Ok(None) => match settings.validate() {
            Ok(()) => Ok(Review::Ready),
            Err(error) => Err(error),
        },
    }
}

/// The file with a new calibration, which must be an absolute path.
pub open spec fn calibration_change(content: Seq<char>, path: Seq<char>) -> Result<
    Seq<char>,
    ConfigError,
> {
    if !absolute(path) {
        Err(ConfigError::NotAbsolute)
    } else {
        match with_calibration(content, path) {
            Ok(updated) => Ok(updated),
            Err(error) => Err(ConfigError::Edit(error)),
        }
    }
}

pub fn calibration_update(content: &str, calibration_path: &str) -> (updated: Result<
    String,
    ConfigError,
>)
    ensures
        match updated {
            Ok(updated) => calibration_change(content@, calibration_path@) == Ok::<
                Seq<char>,
                ConfigError,
            >(updated@),
            Err(error) => calibration_change(content@, calibration_path@) == Err::<
                Seq<char>,
                ConfigError,
            >(error),
        },
{
    if !is_absolute(calibration_path) {
        return Err(ConfigError::NotAbsolute);
    }
    match replace_scan_calibration(content, calibration_path) {
        Ok(updated) => Ok(updated),
        Err(error) => Err(ConfigError::Edit(error)),
    }
}

/// What is wrong with the settings of a file that was given a new calibration.
pub open spec fn calibration_verdict(settings: AppConfig, path: Seq<char>) -> Result<
    (),
    ConfigError,
> {
    if settings.verdict() is Err {
        settings.verdict()
    } else if settings.scan.calibration@ != path {
        Err(ConfigError::CalibrationNotRetained)
    } else {
        Ok(())
    }
}

/// Accepts the settings that were read from a file with a new calibration.
pub fn confirm_calibration(settings: &AppConfig, calibration_path: &str) -> (verdict: Result<
    (),
    ConfigError,
>)
    ensures
        verdict == calibration_verdict(*settings, calibration_path@),
{
    if let Err(error) = settings.validate() {
        return Err(error);
    }
    if !text::equal(settings.scan.calibration.as_str(), calibration_path) {
        return Err(ConfigError::CalibrationNotRetained);
    }
    Ok(())
}

/// What is wrong with the settings of a file that was given a new output format.
pub open spec fn output_verdict(settings: AppConfig, format: OutputFormat) -> Result<
    (),
    ConfigError,
> {
    if settings.verdict() is Err {
        settings.verdict()
    } else if settings.output != format {
        Err(ConfigError::OutputNotRetained(format))
    } else {
        Ok(())
    }
}

/// Accepts the settings that were read from a file with a new output format.
pub fn confirm_output(settings: &AppConfig, format: OutputFormat) -> (verdict: Result<
    (),
    ConfigError,
>)
    ensures
        verdict == output_verdict(*settings, format),
{
    if let Err(error) = settings.validate() {
        return Err(error);
    }
    if settings.output != format {
        return Err(ConfigError::OutputNotRetained(format));
    }
    Ok(())
}

/// The default configuration with the path of its calibration.
pub open spec fn default_config(calibration_path: Seq<char>) -> Seq<char> {
    DEFAULT_CONFIG_HEAD@ + json::quoted(calibration_path) + DEFAULT_CONFIG_TAIL@
}

pub fn render_default_config(calibration_path: &str) -> (content: String)
    ensures
        content@ == default_config(calibration_path@),
{
    let mut content: String = String::new();
    content.append(DEFAULT_CONFIG_HEAD);
    content.append(quote(calibration_path).as_str());
    content.append(DEFAULT_CONFIG_TAIL);
    assert(content@ =~= default_config(calibration_path@));
    content
}

// ---------------------------------------------------------------------------
// Errors in words
// ---------------------------------------------------------------------------
/// The values that every setting accepts.
pub open spec fn help_text(directory: Seq<char>) -> Seq<char> {
    "Valid values:\n  output = \"csv\" or \"json\"\n  directory_prefix = a filename-safe prefix\n  device.port = \"auto\" or a serial-device path\n  scan.start = "@
        + text::decimal(MIN_FREQUENCY_HZ as nat) + "..="@ + text::decimal(
        (MAX_FREQUENCY_HZ - MIN_SCAN_SPAN_HZ) as nat,
    ) + " Hz\n  scan.stop = start + at least "@ + text::decimal(MIN_SCAN_SPAN_HZ as nat)
        + " Hz, up to "@ + text::decimal(MAX_FREQUENCY_HZ as nat)
        + " Hz\n  scan.points = \"max\" or an integer from 2 through the range-specific limit (at most "@
        + text::decimal(MAX_VERIFIED_SCAN_POINTS as nat)
        + ")\n  scan.mode = \"reflection\" or \"transmission\"\n  scan.calibration = an absolute JSON file path, for example "@
        + joined(directory, DEFAULT_CALIBRATION_FILENAME@)
}

pub fn valid_configuration_help(directory: &str) -> (help: String)
    ensures
        help@ == help_text(directory@),
{
    let mut out: String = String::new();
    out.append(
        "Valid values:\n  output = \"csv\" or \"json\"\n  directory_prefix = a filename-safe prefix\n  device.port = \"auto\" or a serial-device path\n  scan.start = ",
    );
    text::push_decimal(&mut out, MIN_FREQUENCY_HZ as u128);
    out.append("..=");
    text::push_decimal(&mut out, (MAX_FREQUENCY_HZ - MIN_SCAN_SPAN_HZ) as u128);
    out.append(" Hz\n  scan.stop = start + at least ");
    text::push_decimal(&mut out, MIN_SCAN_SPAN_HZ as u128);
    out.append(" Hz, up to ");
    text::push_decimal(&mut out, MAX_FREQUENCY_HZ as u128);
    out.append(
        " Hz\n  scan.points = \"max\" or an integer from 2 through the range-specific limit (at most ",
    );
    text::push_decimal(&mut out, MAX_VERIFIED_SCAN_POINTS as u128);
    out.append(
        ")\n  scan.mode = \"reflection\" or \"transmission\"\n  scan.calibration = an absolute JSON file path, for example ",
    );
    out.append(join(directory, DEFAULT_CALIBRATION_FILENAME).as_str());
    assert(out@ =~= help_text(directory@));
    out
}

/// The report of an error in the configuration file at `path`.
pub open spec fn error_report(
    path: Seq<char>,
    directory: Seq<char>,
    error: Seq<char>,
) -> Seq<char> {
    "invalid configuration "@ + path + "\n"@ + error + "\n\n"@ + help_text(directory)
}

pub fn config_error(path: &str, directory: &str, error: &str) -> (report: String)
    ensures
        report@ == error_report(path@, directory@, error@),
{
    let mut out: String = String::new();
    out.append("invalid configuration ");
    out.append(path);
    out.append("\n");
    out.append(error);
    out.append("\n\n");
    out.append(valid_configuration_help(directory).as_str());
    assert(out@ =~= "invalid configuration "@ + path@ + "\n"@ + error@ + "\n\n"@ + help_text(
        directory@,
    ));
    out
}

// ---------------------------------------------------------------------------
// Laws
// ---------------------------------------------------------------------------
/// A new calibration path stands in the file as its string literal, and every
/// other line stays as it was.
pub proof fn law_calibration_update_keeps_the_rest(content: Seq<char>, path: Seq<char>)
    requires
        with_calibration(content, path) is Ok,
    ensures
        ({
            let before = text::lines(content);
            let after = text::lines(with_calibration(content, path)->Ok_0);
            &&& after.len() == before.len()
            &&& forall|i: int|
                0 <= i < before.len() ==> #[trigger] after[i] == before[i] || (edit::sets(
                    Setting::ScanCalibration,
                    before,
                    i,
                ) && edit::sets(Setting::ScanCalibration, after, i) && edit::value_of(after[i])
                    == json::quoted(path))
        }),
{
    lemma_literal_is_value(path);
    edit::law_edit_changes_one_line(Setting::ScanCalibration, content, json::quoted(path));
}

proof fn lemma_literal_is_value(path: Seq<char>)
    ensures
        edit::is_value(json::quoted(path)),
{
    json::law_literal_is_one_line(path);
}

proof fn lemma_format_is_value(format: OutputFormat)
    ensures
        edit::is_value(seq!['"'] + format.text() + seq!['"']),
{
    reveal_strlit("csv");
    reveal_strlit("json");
    let value = seq!['"'] + format.text() + seq!['"'];
    assert forall|i: int| 0 <= i < value.len() implies #[trigger] value[i] != '\n' by {
        if 0 < i < value.len() - 1 {
            assert(value[i] == format.text()[i - 1]);
        }
    }
}

/// A new output format stands in the file, and every other line stays as it
/// was.
pub proof fn law_output_update_keeps_the_rest(content: Seq<char>, format: OutputFormat)
    requires
        with_output(content, format) is Ok,
    ensures
        ({
            let before = text::lines(content);
            let after = text::lines(with_output(content, format)->Ok_0);
            &&& after.len() == before.len()
            &&& forall|i: int|
                0 <= i < before.len() ==> #[trigger] after[i] == before[i] || (edit::sets(
                    Setting::RootOutput,
                    before,
                    i,
                ) && edit::sets(Setting::RootOutput, after, i) && edit::value_of(after[i])
                    == seq!['"'] + format.text() + seq!['"'])
        }),
{
    lemma_format_is_value(format);
    edit::law_edit_changes_one_line(
        Setting::RootOutput,
        content,
        seq!['"'] + format.text() + seq!['"'],
    );
}

/// Choosing an output format and activating a calibration do not disturb each
/// other: either order gives the same file.
pub proof fn law_updates_commute(content: Seq<char>, path: Seq<char>, format: OutputFormat)
    requires
        with_calibration(content, path) is Ok,
        with_output(content, format) is Ok,
    ensures
        with_output(with_calibration(content, path)->Ok_0, format) is Ok,
        with_output(with_calibration(content, path)->Ok_0, format) == with_calibration(
            with_output(content, format)->Ok_0,
            path,
        ),
{
    lemma_literal_is_value(path);
    lemma_format_is_value(format);
    edit::law_edits_commute(
        content,
        json::quoted(path),
        seq!['"'] + format.text() + seq!['"'],
    );
}

/// Activating one calibration after another leaves the file as activating the
/// last one does.
pub proof fn law_last_calibration_wins(content: Seq<char>, first: Seq<char>, second: Seq<char>)
    requires
        with_calibration(content, first) is Ok,
    ensures
        with_calibration(with_calibration(content, first)->Ok_0, second) == with_calibration(
            content,
            second,
        ),
{
    lemma_literal_is_value(first);
    lemma_literal_is_value(second);
    edit::law_second_edit_wins(
        Setting::ScanCalibration,
        content,
        json::quoted(first),
        json::quoted(second),
    );
}

/// A relative calibration path is written out once: read again, the path is
/// absolute and the file is left alone.
pub proof fn law_migration_settles(
    content: Seq<char>,
    configured: Seq<char>,
    directory: Seq<char>,
)
    requires
        absolute(directory),
        migration(content, configured, directory) is Ok,
    ensures
        match migration(content, configured, directory)->Ok_0 {
            Some(updated) => absolute(joined(directory, configured)) && migration(
                updated,
                joined(directory, configured),
                directory,
            ) == Ok::<Option<Seq<char>>, ConfigError>(None),
            None => absolute(configured),
        },
{
}

/// A configuration that is accepted names a scan that can be requested, a port,
/// an absolute calibration path, and a prefix that stays in its directory.
pub proof fn law_accepted_configuration(config: AppConfig)
    requires
        config.verdict() is Ok,
    ensures
        config.spec().valid(),
        text::trim(config.device.port@).len() > 0,
        absolute(config.scan.calibration@),
        forall|i: int|
            0 <= i < config.directory_prefix@.len() ==> #[trigger] config.directory_prefix@[i]
                != '/',
{
    text::lemma_position_found(config.directory_prefix@, '/');
}

/// `s` holds something other than white space.
pub open spec fn has_ink(s: Seq<char>) -> bool {
    exists|i: int| 0 <= i < s.len() && !text::is_space(#[trigger] s[i])
}

proof fn lemma_ink(s: Seq<char>)
    ensures
        text::trim(s).len() > 0 <==> has_ink(s),
{
    text::law_blank_text(s);
}

proof fn lemma_holds(s: Seq<char>, c: char)
    ensures
        holds(s, c) <==> s.contains(c),
{
    text::lemma_position_found(s, c);
    if s.contains(c) && !holds(s, c) {
        let i = choose|i: int| 0 <= i < s.len() && s[i] == c;
        assert(s[i] != c);
    }
    if holds(s, c) {
        assert(s[text::position(s, c)] == c);
    }
}

/// A configuration is refused for the first of these that is wrong with it: its
/// port, its number of points, its scan, a missing calibration, a selector in
/// place of a calibration, a relative path, and a prefix that is a path. It is
/// accepted if nothing is.
pub proof fn law_configuration_refusals(config: AppConfig)
    ensures
        ({
            let port = has_ink(config.device.port@);
            let points = config.scan.points == -1 || config.scan.points >= 2;
            let scan = config.spec().valid();
            let path = config.scan.calibration@;
            let selector = path.len() >= 8 && path.take(8) == "builtin:"@;
            let rooted = path.len() > 0 && path[0] == '/';
            let prefix = config.directory_prefix@;
            let plain = !prefix.contains('/') && !prefix.contains('\\') && !prefix.contains('\0');
            match config.verdict() {
                Ok(_) => port && points && scan && rooted && plain,
                Err(ConfigError::EmptyPort) => !port,
                Err(ConfigError::InvalidPoints) => port && !points,
                Err(ConfigError::Spec(error)) => port && points && !scan && config.spec().verdict()
                    == Err::<(), SpecError>(error),
                Err(ConfigError::EmptyCalibration) => port && points && scan && !has_ink(path),
                Err(ConfigError::BuiltinCalibration) => port && points && scan && selector,
                Err(ConfigError::RelativeCalibration) => port && points && scan && has_ink(path)
                    && !selector && !rooted,
                Err(ConfigError::PathInPrefix) => port && points && scan && rooted && !plain,
                Err(_) => false,
            }
        }),
{
    lemma_ink(config.device.port@);
    lemma_ink(config.scan.calibration@);
    lemma_holds(config.directory_prefix@, '/');
    lemma_holds(config.directory_prefix@, '\\');
    lemma_holds(config.directory_prefix@, '\0');
    reveal_strlit("builtin:");
}

/// The scan of a configuration has its range and mode, and the points that it
/// names. With -1 it has as many as the range has room for: it can be requested
/// if any number can, and with no point more.
pub proof fn law_requested_scan(config: AppConfig, n: usize)
    ensures
        config.spec().start_hz == config.scan.start_hz,
        config.spec().stop_hz == config.scan.stop_hz,
        config.spec().mode == config.scan.mode,
        2 <= config.scan.points <= usize::MAX ==> config.spec().points == config.scan.points,
        config.scan.points == -1 && (ScanSpec { points: n, ..config.spec() }).valid()
            ==> config.spec().valid() && n <= config.spec().points,
{
    model::law_supported_points(config.scan.start_hz, config.scan.stop_hz);
}

/// A text stands for as many points as the range has room for exactly if it is
/// `max`, in any case and with white space around it.
pub proof fn law_named_points(name: Seq<char>)
    ensures
        named_points(name) == if text::spells(text::trim(name), "max"@) {
            Some(-1i64)
        } else {
            None
        },
{
    reveal_strlit("max");
    text::law_spelling(text::trim(name), "max"@);
}

/// An absolute path is the same from everywhere. A relative one stands behind
/// the directory and a slash, which is not doubled.
pub proof fn law_joined_paths(directory: Seq<char>, path: Seq<char>)
    requires
        directory.len() > 0,
        directory.last() != '/',
    ensures
        joined(directory, seq!['/'] + path) == seq!['/'] + path,
        path.len() > 0 && path[0] != '/' ==> joined(directory, path) == directory + seq!['/'] + path
            && joined(directory.push('/'), path) == directory + seq!['/'] + path,
        directory[0] == '/' ==> absolute(joined(directory, path)),
{
    assert(directory.push('/') =~= directory + seq!['/']);
    assert((seq!['/'] + path)[0] == '/');
    if path.len() > 0 && path[0] == '/' {
        assert(joined(directory, path) == path);
    } else {
        assert(joined(directory, path)[0] == directory[0]);
    }
}

/// A file is brought up to date as if the path that its calibration stands for
/// had been activated. A file with an absolute path is left alone, and one with a
/// selector refused.
pub proof fn law_migration_activates_the_same_file(
    content: Seq<char>,
    configured: Seq<char>,
    directory: Seq<char>,
)
    requires
        directory.len() > 0,
        directory[0] == '/',
    ensures
        ({
            let selector = configured.len() >= 8 && configured.take(8) == "builtin:"@;
            match migration(content, configured, directory) {
                Ok(None) => configured.len() > 0 && configured[0] == '/',
                Ok(Some(after)) => !selector && !(configured.len() > 0 && configured[0] == '/')
                    && calibration_change(content, joined(directory, configured)) == Ok::<
                    Seq<char>,
                    ConfigError,
                >(after),
                Err(ConfigError::UnsupportedSelector) => selector,
                Err(error) => !selector && calibration_change(content, joined(directory, configured))
                    == Err::<Seq<char>, ConfigError>(error),
            }
        }),
{
    reveal_strlit("builtin:");
    if !absolute(configured) {
        assert(joined(directory, configured)[0] == '/');
    }
}

/// A changed file is accepted exactly if its settings are and what was changed
/// is among them.
pub proof fn law_changes_are_retained(
    settings: AppConfig,
    path: Seq<char>,
    format: OutputFormat,
)
    ensures
        calibration_verdict(settings, path) is Ok <==> settings.verdict() is Ok
            && settings.scan.calibration@ == path,
        output_verdict(settings, format) is Ok <==> settings.verdict() is Ok && settings.output
            == format,
        settings.verdict() is Err ==> calibration_verdict(settings, path) == settings.verdict()
            && output_verdict(settings, format) == settings.verdict(),
        calibration_change(Seq::empty(), path) == Err::<Seq<char>, ConfigError>(
            ConfigError::NotAbsolute,
        ) <==> !(path.len() > 0 && path[0] == '/'),
{
}

/// An error about a calibration shows the path as it was given.
pub proof fn law_errors_show_the_path(shown: Seq<char>)
    ensures
        text::ends_with(ConfigError::RelativeCalibration.text(shown), seq![' '] + shown),
        text::ends_with(ConfigError::NotAbsolute.text(shown), seq![' '] + shown),
        text::starts_with(
            ConfigError::UnsupportedSelector.text(shown),
            "unsupported calibration selector "@ + shown,
        ),
{
    reveal_strlit("scan.calibration must be an absolute JSON file path, got ");
    reveal_strlit("calibration path must be absolute, got ");
    reveal_strlit("unsupported calibration selector ");
    let ending = seq![' '] + shown;
    let relative = ConfigError::RelativeCalibration.text(shown);
    let refused = ConfigError::NotAbsolute.text(shown);
    let selector = ConfigError::UnsupportedSelector.text(shown);
    let start = "unsupported calibration selector "@ + shown;
    assert(relative.skip(relative.len() - ending.len()) =~= ending);
    assert(refused.skip(refused.len() - ending.len()) =~= ending);
    assert(selector.take(start.len() as int) =~= start);
}

/// A plain number of hertz or of points stands for itself, and -1 points for as
/// many as the range has room for, like `max`.
pub proof fn law_plain_numbers(hertz: u64, count: i64, value: String)
    ensures
        hertz_of(FrequencyInput::Hertz(hertz)) == Ok::<u64, FrequencyError>(hertz),
        value@ == text::decimal(hertz as nat) ==> hertz_of(FrequencyInput::Suffixed(value)) == Ok::<
            u64,
            FrequencyError,
        >(hertz),
        points_of(PointsInput::Count(count)) == Some(count),
        value@ == "max"@ ==> points_of(PointsInput::Name(value)) == points_of(
            PointsInput::Count(-1i64),
        ),
{
    if value@ == text::decimal(hertz as nat) {
        reveal_strlit("");
        frequency::law_documented_units(hertz as nat, ""@, 1);
        assert(text::decimal(hertz as nat) + ""@ =~= value@);
        assert(hertz as nat * 1 == hertz) by (nonlinear_arith);
    }
    if value@ == "max"@ {
        reveal_strlit("max");
        text::law_trim_leaves_clean_text(value@);
        law_named_points(value@);
    }
}

/// The default configuration ends with its calibration, as a string literal, and
/// is the same for every calibration before that.
pub proof fn law_default_configuration(path: Seq<char>, other: Seq<char>)
    ensures
        ({
            let ending = "calibration = "@ + json::quoted(path) + seq!['\n'];
            let content = default_config(path);
            let length = content.len() - json::quoted(path).len() - 1;
            &&& text::ends_with(content, ending)
            &&& content.take(length) == default_config(other).take(length)
        }),
{
    reveal_strlit(
        "# miniVNA Tiny acquisition.\n#\n# Every run creates a directory that is named by the prefix and the time and\n# holds the scan together with a copy of this file.\noutput = \"csv\"\ndirectory_prefix = \"VNA-D4_\"\n\n[device]\nport = \"auto\"\n\n[scan]\nstart = \"45M\"\nstop = \"60M\"\npoints = \"max\"\nmode = \"reflection\"\ncalibration = ",
    );
    reveal_strlit("calibration = ");
    reveal_strlit("\n");
    let head = DEFAULT_CONFIG_HEAD@;
    let key = "calibration = "@;
    assert(head.skip(head.len() - 14) =~= key);
    let ending = key + json::quoted(path) + seq!['\n'];
    let content = default_config(path);
    assert(content.skip(content.len() - ending.len()) =~= ending);
    assert(content.take(head.len() as int) =~= head);
    assert(default_config(other).take(head.len() as int) =~= head);
}

/// The report of an error names the file, then the error, and ends with the help,
/// whose last word is where the supplied calibration would be.
pub proof fn law_error_reports(path: Seq<char>, directory: Seq<char>, error: Seq<char>)
    ensures
        text::starts_with(
            error_report(path, directory, error),
            "invalid configuration "@ + path + seq!['\n'] + error + seq!['\n', '\n'],
        ),
        text::ends_with(error_report(path, directory, error), help_text(directory)),
        text::ends_with(
            help_text(directory),
            seq![' '] + joined(directory, "NATES-miniVNA_Tiny.json"@),
        ),
{
    reveal_strlit("\n");
    reveal_strlit("\n\n");
    reveal_strlit(
        ")\n  scan.mode = \"reflection\" or \"transmission\"\n  scan.calibration = an absolute JSON file path, for example ",
    );
    assert("\n"@ =~= seq!['\n']);
    assert("\n\n"@ =~= seq!['\n', '\n']);
    let report = error_report(path, directory, error);
    let start = "invalid configuration "@ + path + seq!['\n'] + error + seq!['\n', '\n'];
    let help = help_text(directory);
    assert(report =~= start + help);
    assert(report.take(start.len() as int) =~= start);
    assert(report.skip(report.len() - help.len()) =~= help);
    let example = joined(directory, DEFAULT_CALIBRATION_FILENAME@);
    let ending = seq![' '] + example;
    assert(help.skip(help.len() - ending.len()) =~= ending);
}

} // verus!
