//! What a scan is: its range, its mode, its points and its samples.
use vstd::prelude::*;

use crate::binary64::Binary64;
use crate::text;

verus! {

pub const BYTES_PER_SAMPLE: usize = 12;

pub const MIN_FREQUENCY_HZ: u64 = 1_000_000;

pub const MAX_FREQUENCY_HZ: u64 = 3_000_000_000;

pub const FREQUENCY_COMMAND_DIVISOR: u64 = 10;

pub const MIN_SCAN_SPAN_HZ: u64 = 1_000;

pub const MAX_VERIFIED_SCAN_POINTS: usize = 30_001;

/// The file format of a finished scan.
#[derive(Clone, Copy, Debug, PartialEq, Eq, Structural)]
pub enum OutputFormat {
    Csv,
    Json,
}

impl Default for OutputFormat {
    fn default() -> (format: Self)
        ensures
            format == OutputFormat::Csv,
    {
        OutputFormat::Csv
    }
}

impl OutputFormat {
    pub open spec fn text(self) -> Seq<char> {
        match self {
            OutputFormat::Csv => "csv"@,
            OutputFormat::Json => "json"@,
        }
    }

    /// The format's name, which is also the file extension.
    pub fn name(self) -> (name: &'static str)
        ensures
            name@ == self.text(),
    {
        match self {
            OutputFormat::Csv => "csv",
            OutputFormat::Json => "json",
        }
    }
}

/// What the instrument measures.
#[derive(Clone, Copy, Debug, PartialEq, Eq, Structural)]
pub enum ScanMode {
    Reflection,
    Transmission,
}

impl Default for ScanMode {
    fn default() -> (mode: Self)
        ensures
            mode == ScanMode::Reflection,
    {
        ScanMode::Reflection
    }
}

impl ScanMode {
    pub open spec fn command_text(self) -> Seq<char> {
        match self {
            ScanMode::Reflection => "7"@,
            ScanMode::Transmission => "6"@,
        }
    }

    pub open spec fn text(self) -> Seq<char> {
        match self {
            ScanMode::Reflection => "reflection"@,
            ScanMode::Transmission => "transmission"@,
        }
    }

    /// The mode field of a scan command.
    pub fn command(self) -> (command: &'static str)
        ensures
            command@ == self.command_text(),
    {
        match self {
            ScanMode::Reflection => "7",
            ScanMode::Transmission => "6",
        }
    }

    pub fn name(self) -> (name: &'static str)
        ensures
            name@ == self.text(),
    {
        match self {
            ScanMode::Reflection => "reflection",
            ScanMode::Transmission => "transmission",
        }
    }
}

/// Why a scan cannot be requested.
#[derive(Clone, Copy, Debug, PartialEq, Eq, Structural)]
pub enum SpecError {
    FrequencyTooLow(u64),
    FrequencyTooHigh(u64),
    InvalidRange { start: u64, stop: u64 },
    RangeTooNarrow { start: u64, stop: u64 },
    TooFewPoints(usize),
    TooManyPoints(usize),
    TooManyPointsForRange { requested: usize, available: usize },
}

impl SpecError {
    pub open spec fn text(self) -> Seq<char> {
        match self {
            SpecError::FrequencyTooLow(start) => "start frequency "@ + text::decimal(start as nat)
                + " Hz is outside the valid start range 1000000..=2999999000 Hz"@,
            SpecError::FrequencyTooHigh(stop) => "stop frequency "@ + text::decimal(stop as nat)
                + " Hz is outside the valid stop range 1001000..=3000000000 Hz"@,
            SpecError::InvalidRange { start, stop } => "stop frequency ("@ + text::decimal(
                stop as nat,
            ) + " Hz) must be at least 1000 Hz above start frequency ("@ + text::decimal(
                start as nat,
            ) + " Hz); valid device frequencies are 1000000..=3000000000 Hz"@,
            SpecError::RangeTooNarrow { start, stop } => "scan range "@ + text::decimal(
                start as nat,
            ) + ".."@ + text::decimal(stop as nat)
                + " Hz is narrower than the minimum span of 1000 Hz; valid device frequencies are 1000000..=3000000000 Hz"@,
            SpecError::TooFewPoints(points) => "a scan needs at least two points, got "@
                + text::decimal(points as nat),
            SpecError::TooManyPoints(points) => "point count "@ + text::decimal(points as nat)
                + " is too large"@,
            SpecError::TooManyPointsForRange { requested, available } => "requested "@
                + text::decimal(requested as nat)
                + " points, but valid points for this range are \"max\" or an integer from 2 through "@
                + text::decimal(available as nat),
        }
    }

    /// The error as the user reads it.
    pub fn message(&self) -> (message: String)
        ensures
            message@ == self.text(),
    {
        let mut out: String = String::new();
        match *self {
            SpecError::FrequencyTooLow(start) => {
                out.append("start frequency ");
                text::push_decimal(&mut out, start as u128);
                out.append(" Hz is outside the valid start range 1000000..=2999999000 Hz");
            },
            SpecError::FrequencyTooHigh(stop) => {
                out.append("stop frequency ");
                text::push_decimal(&mut out, stop as u128);
                out.append(" Hz is outside the valid stop range 1001000..=3000000000 Hz");
            },
            SpecError::InvalidRange { start, stop } => {
                out.append("stop frequency (");
                text::push_decimal(&mut out, stop as u128);
                out.append(" Hz) must be at least 1000 Hz above start frequency (");
                text::push_decimal(&mut out, start as u128);
                out.append(" Hz); valid device frequencies are 1000000..=3000000000 Hz");
            },
            SpecError::RangeTooNarrow { start, stop } => {
                out.append("scan range ");
                text::push_decimal(&mut out, start as u128);
                out.append("..");
                text::push_decimal(&mut out, stop as u128);
                out.append(
                    " Hz is narrower than the minimum span of 1000 Hz; valid device frequencies are 1000000..=3000000000 Hz",
                );
            },
            SpecError::TooFewPoints(points) => {
                out.append("a scan needs at least two points, got ");
                text::push_decimal(&mut out, points as u128);
            },
            SpecError::TooManyPoints(points) => {
                out.append("point count ");
                text::push_decimal(&mut out, points as u128);
                out.append(" is too large");
            },
            SpecError::TooManyPointsForRange { requested, available } => {
                out.append("requested ");
                text::push_decimal(&mut out, requested as u128);
                out.append(
                    " points, but valid points for this range are \"max\" or an integer from 2 through ",
                );
                text::push_decimal(&mut out, available as u128);
            },
        }
        assert(out@ =~= self.text());
        out
    }
}

/// One scan: `points` samples between two frequencies.
#[derive(Clone, Copy, Debug, PartialEq, Eq, Structural)]
pub struct ScanSpec {
    pub start_hz: u64,
    pub stop_hz: u64,
    pub points: usize,
    pub mode: ScanMode,
}

/// How many points a range has room for: one for each command tick of 10 Hz,
/// up to the highest count that the instrument has completed.
pub open spec fn supported_points(start_hz: u64, stop_hz: u64) -> int {
    let ticks = stop_hz as int / 10 - start_hz as int / 10;
    let distinct = if ticks < 0 {
        1
    } else {
        ticks + 1
    };
    if distinct < MAX_VERIFIED_SCAN_POINTS {
        distinct
    } else {
        MAX_VERIFIED_SCAN_POINTS as int
    }
}

pub fn max_supported_points(start_hz: u64, stop_hz: u64) -> (points: usize)
    ensures
        points == supported_points(start_hz, stop_hz),
{
    let start_tick: u64 = start_hz / FREQUENCY_COMMAND_DIVISOR;
    let stop_tick: u64 = stop_hz / FREQUENCY_COMMAND_DIVISOR;
    let distinct: u64 = stop_tick.saturating_sub(start_tick).saturating_add(1);
    if distinct < MAX_VERIFIED_SCAN_POINTS as u64 {
        distinct as usize
    } else {
        MAX_VERIFIED_SCAN_POINTS
    }
}

impl ScanSpec {
    /// The first thing that is wrong with the scan, if anything is.
    pub open spec fn verdict(self) -> Result<(), SpecError> {
        if self.stop_hz <= self.start_hz {
            Err(SpecError::InvalidRange { start: self.start_hz, stop: self.stop_hz })
        } else if self.stop_hz - self.start_hz < MIN_SCAN_SPAN_HZ {
            Err(SpecError::RangeTooNarrow { start: self.start_hz, stop: self.stop_hz })
        } else if self.start_hz < MIN_FREQUENCY_HZ {
            Err(SpecError::FrequencyTooLow(self.start_hz))
        } else if self.stop_hz > MAX_FREQUENCY_HZ {
            Err(SpecError::FrequencyTooHigh(self.stop_hz))
        } else if self.points < 2 {
            Err(SpecError::TooFewPoints(self.points))
        } else if self.points > supported_points(self.start_hz, self.stop_hz) {
            Err(
                SpecError::TooManyPointsForRange {
                    requested: self.points,
                    available: supported_points(self.start_hz, self.stop_hz) as usize,
                },
            )
        } else {
            Ok(())
        }
    }

    /// The scan can be requested.
    pub open spec fn valid(self) -> bool {
        self.verdict() is Ok
    }

    /// The distance between two neighbouring frequency labels.
    pub open spec fn label_step(self) -> int {
        (self.stop_hz - self.start_hz) / (self.points - 1)
    }

    /// The frequency label of the sample at `index`.
    pub open spec fn label(self, index: int) -> int {
        self.start_hz + self.label_step() * index
    }

    pub fn validate(&self) -> (verdict: Result<(), SpecError>)
        ensures
            verdict == self.verdict(),
    {
        if self.stop_hz <= self.start_hz {
            return Err(SpecError::InvalidRange { start: self.start_hz, stop: self.stop_hz });
        }
        let span: u64 = self.stop_hz - self.start_hz;
        if span < MIN_SCAN_SPAN_HZ {
            return Err(SpecError::RangeTooNarrow { start: self.start_hz, stop: self.stop_hz });
        }
        if self.start_hz < MIN_FREQUENCY_HZ {
            return Err(SpecError::FrequencyTooLow(self.start_hz));
        }
        if self.stop_hz > MAX_FREQUENCY_HZ {
            return Err(SpecError::FrequencyTooHigh(self.stop_hz));
        }
        if self.points < 2 {
            return Err(SpecError::TooFewPoints(self.points));
        }
        let available: usize = max_supported_points(self.start_hz, self.stop_hz);
        if self.points > available {
            return Err(
                SpecError::TooManyPointsForRange { requested: self.points, available },
            );
        }
        match self.expected_bytes() {
            Ok(_) => Ok(()),
            Err(error) => Err(error),
        }
    }

    /// The length of the instrument's answer.
    pub open spec fn answer_length(self) -> Result<usize, SpecError> {
        if self.points * BYTES_PER_SAMPLE <= usize::MAX {
            Ok((self.points * BYTES_PER_SAMPLE) as usize)
        } else {
            Err(SpecError::TooManyPoints(self.points))
        }
    }

    pub fn expected_bytes(&self) -> (bytes: Result<usize, SpecError>)
        ensures
            bytes == self.answer_length(),
    {
        match self.points.checked_mul(BYTES_PER_SAMPLE) {
            Some(bytes) => Ok(bytes),
            None => Err(SpecError::TooManyPoints(self.points)),
        }
    }

    /// The frequency label of the sample at `index`. The instrument sends no
    /// frequencies: one whole step is calculated and accumulated.
    pub fn frequency_at(&self, index: usize) -> (frequency_hz: u64)
        requires
            self.points >= 2,
            self.start_hz <= self.stop_hz,
            self.label(index as int) <= u64::MAX,
        ensures
            frequency_hz == self.label(index as int),
    {
        let step: u64 = (self.stop_hz - self.start_hz) / ((self.points - 1) as u64);
        proof {
            assert(step * index >= 0) by (nonlinear_arith)
                requires
                    step >= 0,
                    index >= 0,
            ;
        }
        self.start_hz + step * (index as u64)
    }

    /// Whether two scans are the same.
    pub fn same_as(&self, other: &ScanSpec) -> (answer: bool)
        ensures
            answer == (*self == *other),
    {
        self.start_hz == other.start_hz && self.stop_hz == other.stop_hz && self.points
            == other.points && self.mode == other.mode
    }
}

/// One raw measurement: the four converter counts of a frame and the complex
/// value that they stand for.
#[derive(Clone, Copy, Debug, PartialEq, Eq, Structural)]
pub struct RawSample {
    pub frequency_hz: u64,
    pub real: Binary64,
    pub imaginary: Binary64,
    pub p1: u32,
    pub p2: u32,
    pub p3: u32,
    pub p4: u32,
}

/// One calibrated measurement.
#[derive(Clone, Copy, Debug, PartialEq, Eq, Structural)]
pub struct CalibratedSample {
    pub frequency_hz: u64,
    pub loss_db: Binary64,
    pub phase_deg: Binary64,
    pub resistance_ohm: Binary64,
    pub swr: Binary64,
    pub reactance_ohm: Binary64,
    pub impedance_ohm: Binary64,
    pub theta_deg: Binary64,
}

// ---------------------------------------------------------------------------
// Laws
// ---------------------------------------------------------------------------
/// The step between two labels covers the range as far as whole hertz allow.
pub proof fn lemma_label_range(spec: ScanSpec, index: int)
    requires
        spec.points >= 2,
        spec.start_hz <= spec.stop_hz,
        0 <= index < spec.points,
    ensures
        spec.start_hz <= spec.label(index) <= spec.stop_hz,
        spec.label_step() >= 0,
{
    let span = spec.stop_hz - spec.start_hz;
    let gaps = spec.points - 1;
    let step = spec.label_step();
    assert(step >= 0 && step * gaps <= span) by (nonlinear_arith)
        requires
            step == span / gaps,
            gaps > 0,
            span >= 0,
    ;
    assert(0 <= step * index <= step * gaps) by (nonlinear_arith)
        requires
            0 <= index <= gaps,
            step >= 0,
    ;
}

/// The labels of a scan that can be requested start at its start frequency,
/// grow strictly, never pass its stop frequency and miss it by less than one
/// hertz for each step.
pub proof fn law_labels_cover_the_range(spec: ScanSpec)
    requires
        spec.valid(),
    ensures
        spec.label(0) == spec.start_hz,
        forall|i: int, j: int|
            0 <= i < j < spec.points ==> #[trigger] spec.label(i) < #[trigger] spec.label(j),
        forall|i: int|
            0 <= i < spec.points ==> spec.start_hz <= #[trigger] spec.label(i) <= spec.stop_hz,
        spec.stop_hz - spec.label(spec.points - 1) < spec.points - 1,
{
    let span = spec.stop_hz - spec.start_hz;
    let gaps = spec.points - 1;
    let step = spec.label_step();
    assert(step * 0 == 0) by (nonlinear_arith);
    assert(step >= 1 && span - step * gaps < gaps) by (nonlinear_arith)
        requires
            step == span / gaps,
            0 < gaps <= span,
    ;
    assert forall|i: int, j: int| 0 <= i < j < spec.points implies #[trigger] spec.label(i)
        < #[trigger] spec.label(j) by {
        assert(step * i < step * j) by (nonlinear_arith)
            requires
                i < j,
                step >= 1,
        ;
    }
    assert forall|i: int| 0 <= i < spec.points implies spec.start_hz <= #[trigger] spec.label(i)
        <= spec.stop_hz by {
        lemma_label_range(spec, i);
    }
}

/// A scan of two points measures at both ends of its range.
pub proof fn law_two_points_use_both_ends(spec: ScanSpec)
    requires
        spec.points == 2,
        spec.start_hz <= spec.stop_hz,
    ensures
        spec.label(0) == spec.start_hz,
        spec.label(1) == spec.stop_hz,
{
    assert(spec.label_step() == spec.stop_hz - spec.start_hz);
    assert(spec.label_step() * 0 == 0 && spec.label_step() * 1 == spec.label_step())
        by (nonlinear_arith);
}

/// Any range that can be scanned at all can be scanned with the automatic
/// number of points, and with no more than that.
pub proof fn law_automatic_points_are_the_limit(spec: ScanSpec, automatic: ScanSpec)
    requires
        spec.valid(),
        automatic == (ScanSpec {
            points: supported_points(spec.start_hz, spec.stop_hz) as usize,
            ..spec
        }),
    ensures
        automatic.valid(),
        spec.points <= automatic.points,
{
}

/// A scan can be requested exactly if it lies between 1 MHz and 3 GHz, spans at
/// least a kilohertz, and has from two points up to one for each multiple of ten
/// hertz that it can be given, 30001 at most.
pub proof fn law_scan_limits(spec: ScanSpec)
    ensures
        spec.valid() <==> {
            &&& spec.start_hz as int >= 1_000_000
            &&& spec.stop_hz as int <= 3_000_000_000
            &&& spec.stop_hz - spec.start_hz >= 1_000
            &&& 2 <= spec.points <= 30_001
            &&& spec.points - 1 <= spec.stop_hz as int / 10 - spec.start_hz as int / 10
        },
{
}

/// A scan that cannot be requested is refused for the first of these that is
/// wrong with it: the order of its ends, its span, its start, its stop, too few
/// points, too many.
pub proof fn law_scan_errors(spec: ScanSpec)
    ensures
        ({
            let ordered = spec.start_hz < spec.stop_hz;
            let wide = spec.stop_hz - spec.start_hz >= 1_000;
            let high_enough = spec.start_hz as int >= 1_000_000;
            let low_enough = spec.stop_hz as int <= 3_000_000_000;
            match spec.verdict() {
                Ok(_) => ordered && wide && high_enough && low_enough && spec.points >= 2,
                Err(SpecError::InvalidRange { start, stop }) => !ordered && start == spec.start_hz
                    && stop == spec.stop_hz,
                Err(SpecError::RangeTooNarrow { start, stop }) => ordered && !wide && start
                    == spec.start_hz && stop == spec.stop_hz,
                Err(SpecError::FrequencyTooLow(start)) => ordered && wide && !high_enough && start
                    == spec.start_hz,
                Err(SpecError::FrequencyTooHigh(stop)) => ordered && wide && high_enough
                    && !low_enough && stop == spec.stop_hz,
                Err(SpecError::TooFewPoints(points)) => ordered && wide && high_enough
                    && low_enough && points < 2 && points == spec.points,
                Err(SpecError::TooManyPointsForRange { requested, available }) => {
                    &&& ordered && wide && high_enough && low_enough && requested >= 2
                    &&& requested == spec.points && requested > available
                    &&& (ScanSpec { points: available, ..spec }).valid()
                },
                Err(SpecError::TooManyPoints(_)) => false,
            }
        }),
{
}

/// A range has room for one point at each multiple of ten hertz from its start
/// to its stop, both rounded down, and for 30001 at most. It has room for one at
/// least.
pub proof fn law_supported_points(start_hz: u64, stop_hz: u64)
    ensures
        1 <= supported_points(start_hz, stop_hz) <= 30_001,
        ({
            let ticks = stop_hz as int / 10 - start_hz as int / 10;
            &&& ticks >= 30_000 <==> supported_points(start_hz, stop_hz) == 30_001
            &&& 0 <= ticks <= 30_000 ==> supported_points(start_hz, stop_hz) == ticks + 1
            &&& ticks < 0 ==> supported_points(start_hz, stop_hz) == 1
        }),
{
}

/// The labels of a scan lie at one distance from each other, and that distance
/// is the largest with which they stay within the range.
pub proof fn law_labels_are_evenly_spaced(spec: ScanSpec, i: int)
    requires
        spec.points >= 2,
        spec.start_hz <= spec.stop_hz,
        0 <= i,
    ensures
        spec.label(0) == spec.start_hz,
        spec.label(i + 1) - spec.label(i) == spec.label(1) - spec.label(0),
        spec.label(spec.points - 1) <= spec.stop_hz,
        spec.start_hz + (spec.label(1) - spec.label(0) + 1) * (spec.points - 1) > spec.stop_hz,
{
    let step = spec.label_step();
    let span = spec.stop_hz - spec.start_hz;
    let gaps = spec.points - 1;
    assert(step * 0 == 0 && step * 1 == step && step * (i + 1) == step * i + step)
        by (nonlinear_arith);
    assert(step * gaps <= span && (step + 1) * gaps > span) by (nonlinear_arith)
        requires
            step == span / gaps,
            gaps > 0,
            span >= 0,
    ;
}

/// An error names the numbers that are wrong with a scan. That of a range that
/// runs backwards names its stop first; that of too many points names them before
/// what there is room for.
pub proof fn law_errors_name_their_numbers(error: SpecError)
    ensures
        ({
            let found = text::numbers(error.text());
            match error {
                SpecError::FrequencyTooLow(start) => found.len() > 0 && found[0] == start,
                SpecError::FrequencyTooHigh(stop) => found.len() > 0 && found[0] == stop,
                SpecError::InvalidRange { start, stop } => found.len() > 2 && found[0] == stop
                    && found[1] == 1_000 && found[2] == start,
                SpecError::RangeTooNarrow { start, stop } => found.len() > 1 && found[0] == start
                    && found[1] == stop,
                SpecError::TooFewPoints(points) => found == seq![points as nat],
                SpecError::TooManyPoints(points) => found == seq![points as nat],
                SpecError::TooManyPointsForRange { requested, available } => found == seq![
                    requested as nat,
                    2,
                    available as nat,
                ],
            }
        }),
{
    match error {
        SpecError::FrequencyTooLow(start) => {
            reveal_strlit("start frequency ");
            reveal_strlit(" Hz is outside the valid start range 1000000..=2999999000 Hz");
            text::lemma_number_is_read(
                "start frequency "@,
                start as nat,
                " Hz is outside the valid start range 1000000..=2999999000 Hz"@,
            );
        },
        SpecError::FrequencyTooHigh(stop) => {
            reveal_strlit("stop frequency ");
            reveal_strlit(" Hz is outside the valid stop range 1001000..=3000000000 Hz");
            text::lemma_number_is_read(
                "stop frequency "@,
                stop as nat,
                " Hz is outside the valid stop range 1001000..=3000000000 Hz"@,
            );
        },
        SpecError::InvalidRange { start, stop } => {
            reveal_strlit("stop frequency (");
            reveal_strlit(" Hz) must be at least 1000 Hz above start frequency (");
            reveal_strlit(" Hz) must be at least ");
            reveal_strlit(" Hz above start frequency (");
            reveal_strlit(" Hz); valid device frequencies are 1000000..=3000000000 Hz");
            reveal_with_fuel(text::decimal, 5);
            assert(text::decimal(1_000) =~= seq!['1', '0', '0', '0']);
            let b = " Hz) must be at least "@;
            let c = " Hz above start frequency ("@;
            let d = " Hz); valid device frequencies are 1000000..=3000000000 Hz"@;
            assert(" Hz) must be at least 1000 Hz above start frequency ("@ =~= b + text::decimal(
                1_000,
            ) + c);
            text::lemma_three_numbers("stop frequency ("@, stop as nat, b, 1_000, c, start as nat, d);
            assert(error.text() =~= "stop frequency ("@ + text::decimal(stop as nat) + b
                + text::decimal(1_000) + c + text::decimal(start as nat) + d);
        },
        SpecError::RangeTooNarrow { start, stop } => {
            reveal_strlit("scan range ");
            reveal_strlit("..");
            reveal_strlit(
                " Hz is narrower than the minimum span of 1000 Hz; valid device frequencies are 1000000..=3000000000 Hz",
            );
            text::lemma_two_numbers(
                "scan range "@,
                start as nat,
                ".."@,
                stop as nat,
                " Hz is narrower than the minimum span of 1000 Hz; valid device frequencies are 1000000..=3000000000 Hz"@,
            );
        },
        SpecError::TooFewPoints(points) => {
            reveal_strlit("a scan needs at least two points, got ");
            let words = "a scan needs at least two points, got "@;
            text::lemma_number_is_read(words, points as nat, Seq::empty());
            text::lemma_words_hold_no_number(Seq::empty(), Seq::empty());
            assert(error.text() =~= words + text::decimal(points as nat) + Seq::empty());
        },
        SpecError::TooManyPoints(points) => {
            reveal_strlit("point count ");
            reveal_strlit(" is too large");
            text::lemma_number_is_read("point count "@, points as nat, " is too large"@);
            text::lemma_words_hold_no_number(" is too large"@, Seq::empty());
        },
        SpecError::TooManyPointsForRange { requested, available } => {
            reveal_strlit("requested ");
            reveal_strlit(
                " points, but valid points for this range are \"max\" or an integer from 2 through ",
            );
            reveal_strlit(
                " points, but valid points for this range are \"max\" or an integer from ",
            );
            reveal_strlit(" through ");
            let b =
                " points, but valid points for this range are \"max\" or an integer from "@;
            let c = " through "@;
            assert(text::decimal(2) =~= seq!['2']);
            assert(" points, but valid points for this range are \"max\" or an integer from 2 through "@
                =~= b + text::decimal(2) + c);
            text::lemma_three_numbers(
                "requested "@,
                requested as nat,
                b,
                2,
                c,
                available as nat,
                Seq::empty(),
            );
            text::lemma_words_hold_no_number(Seq::empty(), Seq::empty());
            assert(error.text() =~= "requested "@ + text::decimal(requested as nat) + b
                + text::decimal(2) + c + text::decimal(available as nat) + Seq::empty());
        },
    }
}

/// The instrument answers with twelve bytes for each point, and a scan is refused
/// only if they cannot be counted.
pub proof fn law_answer_length(spec: ScanSpec)
    ensures
        match spec.answer_length() {
            Ok(bytes) => bytes == 12 * spec.points,
            Err(error) => 12 * spec.points > usize::MAX && error == SpecError::TooManyPoints(
                spec.points,
            ),
        },
{
}

} // verus!
