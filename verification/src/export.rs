//! The files of a finished scan.
//!
//! A number reaches this module twice: by its bits, which say whether it is a
//! number at all, and in fixed decimal notation, which is all that a file
//! shows of it.
use vstd::arithmetic::power;
use vstd::prelude::*;
use vstd::slice::slice_subrange;

use crate::binary64::Binary64;
use crate::model::{CalibratedSample, RawSample, ScanMode, ScanSpec};
use crate::text;

verus! {

/// The format that a scan file names.
pub const SCAN_FORMAT: &'static str = "minivna-scan-v1";

/// How many digits a frequency has at most.
pub const FREQUENCY_DIGITS: usize = 10;

/// A measured quantity of a CSV file.
#[derive(Clone, Copy, Debug, PartialEq, Eq, Structural)]
pub enum CsvColumn {
    Loss,
    Phase,
    Resistance,
    Swr,
    Reactance,
    Impedance,
    Theta,
}

impl CsvColumn {
    pub open spec fn places(self) -> usize {
        match self {
            CsvColumn::Loss | CsvColumn::Phase | CsvColumn::Swr => 2,
            _ => 1,
        }
    }

    pub open spec fn digits(self) -> usize {
        match self {
            CsvColumn::Loss | CsvColumn::Phase | CsvColumn::Swr => 3,
            _ => 5,
        }
    }

    /// How many decimal places the quantity is written with.
    pub fn decimal_places(self) -> (places: usize)
        ensures
            places == self.places(),
    {
        match self {
            CsvColumn::Loss | CsvColumn::Phase | CsvColumn::Swr => 2,
            _ => 1,
        }
    }

    /// How many digits the quantity has before its decimal point at most.
    pub fn integer_digits(self) -> (digits: usize)
        ensures
            digits == self.digits(),
    {
        match self {
            CsvColumn::Loss | CsvColumn::Phase | CsvColumn::Swr => 3,
            _ => 5,
        }
    }
}

/// The quantities of a sample in fixed decimal notation.
#[derive(Debug)]
pub struct CsvTexts {
    pub loss: String,
    pub phase: String,
    pub resistance: String,
    pub swr: String,
    pub reactance: String,
    pub impedance: String,
    pub theta: String,
}

// ---------------------------------------------------------------------------
// Numbers
// ---------------------------------------------------------------------------
/// The last `maximum` digits of a number.
pub open spec fn last_digits(value: u64, maximum: usize) -> Seq<char> {
    let digits = text::decimal(value as nat);
    if digits.len() > maximum {
        digits.skip(digits.len() - maximum)
    } else {
        digits
    }
}

pub fn format_java_integer(value: u64, maximum_integer_digits: usize) -> (formatted: String)
    ensures
        formatted@ == last_digits(value, maximum_integer_digits),
{
    let digits: String = text::decimal_of(value as u128);
    let chars: Vec<char> = text::chars_of(digits.as_str());
    if chars.len() > maximum_integer_digits {
        let tail: &[char] = slice_subrange(
            chars.as_slice(),
            chars.len() - maximum_integer_digits,
            chars.len(),
        );
        assert(tail@ =~= last_digits(value, maximum_integer_digits));
        return text::string_of(tail);
    }
    digits
}

/// One for a leading minus sign.
pub open spec fn sign_length(formatted: Seq<char>) -> int {
    if formatted.len() > 0 && formatted[0] == '-' {
        1
    } else {
        0
    }
}

/// The number of digits before the decimal point.
pub open spec fn integer_length(formatted: Seq<char>) -> int {
    text::position(formatted.skip(sign_length(formatted)), '.')
}

/// A number in fixed notation that keeps its sign, its decimal places and the
/// last `maximum` digits before its decimal point.
pub open spec fn cut_number(formatted: Seq<char>, maximum: usize) -> Seq<char> {
    let sign = sign_length(formatted);
    let digits = integer_length(formatted);
    if digits <= maximum {
        formatted
    } else {
        formatted.take(sign) + formatted.skip(sign + digits - maximum)
    }
}

/// How a CSV file shows a number.
pub open spec fn java_number(value: Binary64, formatted: Seq<char>, maximum: usize) -> Seq<char> {
    if value.nan() {
        "NaN"@
    } else if value.infinite() {
        if value.negative() {
            "-?"@
        } else {
            "?"@
        }
    } else {
        cut_number(formatted, maximum)
    }
}

/// Shows a number of which `formatted` is the fixed notation.
pub fn format_java_number(value: Binary64, formatted: &str, maximum_integer_digits: usize) -> (shown:
    String)
    ensures
        shown@ == java_number(value, formatted@, maximum_integer_digits),
{
    let mut out: String = String::new();
    if value.is_nan() {
        out.append("NaN");
        assert(out@ =~= "NaN"@);
        return out;
    }
    if value.is_infinite() {
        if value.is_sign_negative() {
            out.append("-?");
            assert(out@ =~= "-?"@);
        } else {
            out.append("?");
            assert(out@ =~= "?"@);
        }
        return out;
    }
    let chars: Vec<char> = text::chars_of(formatted);
    let all: &[char] = chars.as_slice();
    let sign: usize = if all.len() > 0 && all[0] == '-' {
        1
    } else {
        0
    };
    let unsigned: &[char] = slice_subrange(all, sign, all.len());
    assert(unsigned@ =~= all@.skip(sign as int));
    let digits: usize = text::find(unsigned, '.');
    if digits <= maximum_integer_digits {
        return text::string_of(all);
    }
    let head: &[char] = slice_subrange(all, 0, sign);
    let tail: &[char] = slice_subrange(all, sign + (digits - maximum_integer_digits), all.len());
    text::push_chars(&mut out, head);
    text::push_chars(&mut out, tail);
    assert(out@ =~= cut_number(formatted@, maximum_integer_digits));
    out
}

// ---------------------------------------------------------------------------
// CSV
// ---------------------------------------------------------------------------
pub open spec fn csv_header(mode: ScanMode) -> Seq<char> {
    "Frequency(Hz),"@ + (match mode {
        ScanMode::Reflection => "Return Loss(dB)"@,
        ScanMode::Transmission => "Transmission Loss(dB)"@,
    }) + ",Phase(deg),Rs,SWR,Xs,|Z|,Theta\n"@
}

/// The number of one column behind its comma.
pub open spec fn csv_field(column: CsvColumn, value: Binary64, formatted: Seq<char>) -> Seq<char> {
    seq![','] + java_number(value, formatted, column.digits())
}

pub open spec fn csv_row(sample: CalibratedSample, texts: CsvTexts) -> Seq<char> {
    last_digits(sample.frequency_hz, FREQUENCY_DIGITS) + csv_field(
        CsvColumn::Loss,
        sample.loss_db,
        texts.loss@,
    ) + csv_field(CsvColumn::Phase, sample.phase_deg, texts.phase@) + csv_field(
        CsvColumn::Resistance,
        sample.resistance_ohm,
        texts.resistance@,
    ) + csv_field(CsvColumn::Swr, sample.swr, texts.swr@) + csv_field(
        CsvColumn::Reactance,
        sample.reactance_ohm,
        texts.reactance@,
    ) + csv_field(CsvColumn::Impedance, sample.impedance_ohm, texts.impedance@) + csv_field(
        CsvColumn::Theta,
        sample.theta_deg,
        texts.theta@,
    ) + seq!['\n']
}

/// The lines of a CSV file: its header, and one line for each sample.
pub open spec fn csv_lines(
    mode: ScanMode,
    samples: Seq<CalibratedSample>,
    texts: Seq<CsvTexts>,
) -> Seq<Seq<char>> {
    seq![csv_header(mode)] + Seq::new(samples.len(), |i: int| csv_row(samples[i], texts[i]))
}

fn push_field(out: &mut String, column: CsvColumn, value: Binary64, formatted: &str)
    ensures
        final(out)@ == old(out)@ + csv_field(column, value, formatted@),
{
    out.push(',');
    out.append(format_java_number(value, formatted, column.integer_digits()).as_str());
    assert(out@ =~= old(out)@ + csv_field(column, value, formatted@));
}

fn push_row(out: &mut String, sample: &CalibratedSample, texts: &CsvTexts)
    ensures
        final(out)@ == old(out)@ + csv_row(*sample, *texts),
{
    out.append(format_java_integer(sample.frequency_hz, FREQUENCY_DIGITS).as_str());
    push_field(out, CsvColumn::Loss, sample.loss_db, texts.loss.as_str());
    push_field(out, CsvColumn::Phase, sample.phase_deg, texts.phase.as_str());
    push_field(out, CsvColumn::Resistance, sample.resistance_ohm, texts.resistance.as_str());
    push_field(out, CsvColumn::Swr, sample.swr, texts.swr.as_str());
    push_field(out, CsvColumn::Reactance, sample.reactance_ohm, texts.reactance.as_str());
    push_field(out, CsvColumn::Impedance, sample.impedance_ohm, texts.impedance.as_str());
    push_field(out, CsvColumn::Theta, sample.theta_deg, texts.theta.as_str());
    out.push('\n');
    assert(out@ =~= old(out)@ + csv_row(*sample, *texts));
}

/// The CSV file of a scan. There is one set of texts for each sample.
pub fn csv_document(mode: ScanMode, samples: &Vec<CalibratedSample>, texts: &Vec<CsvTexts>) -> (document:
    String)
    requires
        texts@.len() == samples@.len(),
    ensures
        document@ == text::concat(csv_lines(mode, samples@, texts@)),
{
    let ghost goal = csv_lines(mode, samples@, texts@);
    let mut out: String = String::new();
    out.append("Frequency(Hz),");
    match mode {
        ScanMode::Reflection => out.append("Return Loss(dB)"),
        ScanMode::Transmission => out.append("Transmission Loss(dB)"),
    }
    out.append(",Phase(deg),Rs,SWR,Xs,|Z|,Theta\n");
    proof {
        assert(out@ =~= csv_header(mode));
        assert(goal.take(1).drop_last() =~= Seq::empty());
        assert(text::concat(goal.take(1).drop_last()) =~= Seq::empty());
        assert(text::concat(goal.take(1)) =~= csv_header(mode));
    }
    let mut i: usize = 0;
    while i < samples.len()
        invariant
            i <= samples.len(),
            texts@.len() == samples@.len(),
            goal == csv_lines(mode, samples@, texts@),
            out@ == text::concat(goal.take(i + 1)),
        decreases samples.len() - i,
    {
        push_row(&mut out, &samples[i], &texts[i]);
        proof {
            assert(goal.take(i + 2).drop_last() =~= goal.take(i + 1));
            assert(goal.take(i + 2).last() == csv_row(samples@[i as int], texts@[i as int]));
        }
        i = i + 1;
    }
    proof {
        assert(goal.take(i + 1) =~= goal);
    }
    out
}

// ---------------------------------------------------------------------------
// Scan files
// ---------------------------------------------------------------------------
/// One sample of a JSON scan file: what was received and what it means.
#[derive(Clone, Copy, Debug, PartialEq, Eq, Structural)]
pub struct ScanSample {
    pub raw: RawSample,
    pub calibrated: CalibratedSample,
}

/// Why nothing is written.
#[derive(Clone, Copy, Debug, PartialEq, Eq, Structural)]
pub enum ExportError {
    EmptyScan,
    Exists,
    Counts { raw: usize, calibrated: usize, expected: usize },
}

impl ExportError {
    pub open spec fn text(self, target: Seq<char>) -> Seq<char> {
        match self {
            ExportError::EmptyScan => "refusing to write an empty scan"@,
            ExportError::Exists => "refusing to overwrite existing output "@ + target,
            ExportError::Counts { raw, calibrated, expected } => "JSON output has "@
                + text::decimal(raw as nat) + " raw and "@ + text::decimal(calibrated as nat)
                + " calibrated samples; expected "@ + text::decimal(expected as nat),
        }
    }

    /// The error about the file at `target`.
    pub fn message(&self, target: &str) -> (message: String)
        ensures
            message@ == self.text(target@),
    {
        let mut out: String = String::new();
        match *self {
            ExportError::EmptyScan => out.append("refusing to write an empty scan"),
            ExportError::Exists => {
                out.append("refusing to overwrite existing output ");
                out.append(target);
            },
            ExportError::Counts { raw, calibrated, expected } => {
                out.append("JSON output has ");
                text::push_decimal(&mut out, raw as u128);
                out.append(" raw and ");
                text::push_decimal(&mut out, calibrated as u128);
                out.append(" calibrated samples; expected ");
                text::push_decimal(&mut out, expected as u128);
            },
        }
        assert(out@ =~= self.text(target@));
        out
    }
}

/// What keeps a CSV file of `samples` samples from being written.
pub open spec fn csv_verdict(samples: usize, present: bool) -> Result<(), ExportError> {
    if samples == 0 {
        Err(ExportError::EmptyScan)
    } else if present {
        Err(ExportError::Exists)
    } else {
        Ok(())
    }
}

pub fn check_csv(samples: usize, present: bool) -> (verdict: Result<(), ExportError>)
    ensures
        verdict == csv_verdict(samples, present),
{
    if samples == 0 {
        return Err(ExportError::EmptyScan);
    }
    check_new(present)
}

/// Whether a file may be written: never over another one.
pub fn check_new(present: bool) -> (verdict: Result<(), ExportError>)
    ensures
        verdict == if present {
            Err::<(), ExportError>(ExportError::Exists)
        } else {
            Ok(())
        },
{
    if present {
        return Err(ExportError::Exists);
    }
    Ok(())
}

/// What keeps a JSON file from being written.
pub open spec fn json_verdict(spec: ScanSpec, raw: nat, calibrated: nat, present: bool) -> Result<
    (),
    ExportError,
> {
    if present {
        Err(ExportError::Exists)
    } else if raw != calibrated || raw != spec.points {
        Err(
            ExportError::Counts {
                raw: raw as usize,
                calibrated: calibrated as usize,
                expected: spec.points,
            },
        )
    } else {
        Ok(())
    }
}

/// Each sample is a raw one with its calibrated one.
pub open spec fn paired(
    samples: Seq<ScanSample>,
    raw: Seq<RawSample>,
    calibrated: Seq<CalibratedSample>,
) -> bool {
    &&& samples.len() == raw.len()
    &&& forall|i: int|
        0 <= i < samples.len() ==> #[trigger] samples[i] == (ScanSample {
            raw: raw[i],
            calibrated: calibrated[i],
        })
}

/// The samples of a JSON scan file.
pub fn scan_samples(
    spec: &ScanSpec,
    raw: &Vec<RawSample>,
    calibrated: &Vec<CalibratedSample>,
    present: bool,
) -> (samples: Result<Vec<ScanSample>, ExportError>)
    ensures
        match samples {
            Ok(samples) => {
                &&& json_verdict(*spec, raw@.len(), calibrated@.len(), present) is Ok
                &&& paired(samples@, raw@, calibrated@)
            },
            Err(error) => json_verdict(*spec, raw@.len(), calibrated@.len(), present) == Err::<
                (),
                ExportError,
            >(error),
        },
{
    if present {
        return Err(ExportError::Exists);
    }
    if raw.len() != calibrated.len() || raw.len() != spec.points {
        return Err(
            ExportError::Counts {
                raw: raw.len(),
                calibrated: calibrated.len(),
                expected: spec.points,
            },
        );
    }
    let mut samples: Vec<ScanSample> = Vec::new();
    let mut i: usize = 0;
    while i < raw.len()
        invariant
            i <= raw.len(),
            raw@.len() == calibrated@.len(),
            samples@.len() == i,
            forall|k: int|
                0 <= k < samples@.len() ==> #[trigger] samples@[k] == (ScanSample {
                    raw: raw@[k],
                    calibrated: calibrated@[k],
                }),
        decreases raw.len() - i,
    {
        samples.push(ScanSample { raw: raw[i], calibrated: calibrated[i] });
        i = i + 1;
    }
    Ok(samples)
}

/// The name of the file that is written first and then renamed: hidden, and
/// told apart by the process and the time.
pub open spec fn temporary_file(filename: Seq<char>, process: u32, nonce: u128) -> Seq<char> {
    "."@ + filename + "."@ + text::decimal(process as nat) + "."@ + text::decimal(nonce as nat)
        + ".tmp"@
}

pub fn temporary_name(filename: &str, process: u32, nonce: u128) -> (name: String)
    ensures
        name@ == temporary_file(filename@, process, nonce),
{
    let mut out: String = String::new();
    out.append(".");
    out.append(filename);
    out.append(".");
    text::push_decimal(&mut out, process as u128);
    out.append(".");
    text::push_decimal(&mut out, nonce);
    out.append(".tmp");
    assert(out@ =~= "."@ + filename@ + "."@ + text::decimal(process as nat) + "."@ + text::decimal(
        nonce as nat,
    ) + ".tmp"@);
    out
}

/// A sample that lies at or outside the unit circle of the calibration.
pub open spec fn outside_circle(sample: CalibratedSample) -> bool {
    sample.loss_db.at_least_zero() || !sample.swr.finite()
}

/// How many of the samples lie at or outside the unit circle.
pub open spec fn outside_count(samples: Seq<CalibratedSample>) -> nat
    decreases samples.len(),
{
    if samples.len() == 0 {
        0
    } else {
        outside_count(samples.drop_last()) + if outside_circle(samples.last()) {
            1nat
        } else {
            0nat
        }
    }
}

/// How many samples of a reflection scan lie at or outside the unit circle of
/// its calibration; none if there is nothing to warn of.
pub open spec fn affected_samples(mode: ScanMode, samples: Seq<CalibratedSample>) -> Option<usize> {
    if mode == ScanMode::Reflection && outside_count(samples) > 0 {
        Some(outside_count(samples) as usize)
    } else {
        None
    }
}

pub fn quality_warning(mode: ScanMode, samples: &Vec<CalibratedSample>) -> (affected: Option<usize>)
    ensures
        affected == affected_samples(mode, samples@),
{
    if mode != ScanMode::Reflection {
        return None;
    }
    let mut count: usize = 0;
    let mut i: usize = 0;
    assert(samples@.take(0) =~= Seq::empty());
    while i < samples.len()
        invariant
            i <= samples.len(),
            count == outside_count(samples@.take(i as int)),
            count <= i,
        decreases samples.len() - i,
    {
        proof {
            assert(samples@.take(i + 1).drop_last() =~= samples@.take(i as int));
        }
        if samples[i].loss_db.is_at_least_zero() || !samples[i].swr.is_finite() {
            count = count + 1;
        }
        i = i + 1;
    }
    assert(samples@.take(i as int) =~= samples@);
    if count > 0 {
        Some(count)
    } else {
        None
    }
}

// ---------------------------------------------------------------------------
// Laws
// ---------------------------------------------------------------------------
proof fn lemma_digits_split(s: Seq<char>, k: int)
    requires
        text::all_digits(s),
        0 <= k <= s.len(),
    ensures
        text::digits_value(s) == text::digits_value(s.take(k)) * power::pow(
            10,
            (s.len() - k) as nat,
        ) + text::digits_value(s.skip(k)),
        text::digits_value(s.skip(k)) < power::pow(10, (s.len() - k) as nat),
        text::all_digits(s.skip(k)),
    decreases s.len() - k,
{
    reveal(power::pow);
    assert forall|i: int| 0 <= i < s.len() - k implies text::is_digit(#[trigger] s.skip(k)[i]) by {
        assert(s.skip(k)[i] == s[i + k]);
    }
    if k == s.len() {
        assert(s.take(k) =~= s);
        assert(s.skip(k) =~= Seq::empty());
        let a = text::digits_value(s) as int;
        let one = power::pow(10, 0);
        assert(a * one == a) by (nonlinear_arith)
            requires
                one == 1,
        ;
    } else {
        let front = s.drop_last();
        assert forall|i: int| 0 <= i < front.len() implies text::is_digit(#[trigger] front[i]) by {
            assert(front[i] == s[i]);
        }
        lemma_digits_split(front, k);
        assert(front.take(k) =~= s.take(k));
        assert(front.skip(k) =~= s.skip(k).drop_last());
        assert(s.skip(k).last() == s.last());
        assert(text::is_digit(s[s.len() - 1]));
        let a = text::digits_value(s.take(k)) as int;
        let p = power::pow(10, (front.len() - k) as nat);
        assert((a * p) * 10 == a * (10 * p)) by (nonlinear_arith);
        assert(power::pow(10, (s.len() - k) as nat) == 10 * p);
    }
}

/// A number that is too long loses its leading digits and nothing else: the
/// digits that are shown stand for what is left of it after division by a power
/// of ten.
pub proof fn law_last_digits(value: u64, maximum: usize)
    ensures
        text::all_digits(last_digits(value, maximum)),
        last_digits(value, maximum).len() <= maximum,
        text::digits_value(last_digits(value, maximum)) == if text::decimal(value as nat).len()
            > maximum {
            value as int % power::pow(10, maximum as nat)
        } else {
            value as int
        },
{
    let digits = text::decimal(value as nat);
    text::law_decimal_reads_back(value as nat);
    if digits.len() > maximum {
        let k = digits.len() - maximum;
        lemma_digits_split(digits, k);
        let p = power::pow(10, maximum as nat);
        let high = text::digits_value(digits.take(k)) as int;
        let low = text::digits_value(digits.skip(k)) as int;
        vstd::arithmetic::div_mod::lemma_fundamental_div_mod_converse(
            value as int,
            p,
            high,
            low,
        );
    }
}

/// A finite number keeps its sign and its decimal places.
pub proof fn law_cut_number_keeps_its_ends(formatted: Seq<char>, maximum: usize)
    ensures
        cut_number(formatted, maximum).take(sign_length(formatted)) == formatted.take(
            sign_length(formatted),
        ),
        ({
            let point = sign_length(formatted) + integer_length(formatted);
            let cut = cut_number(formatted, maximum);
            &&& point <= formatted.len()
            &&& cut.len() >= formatted.len() - point
            &&& cut.skip(cut.len() - (formatted.len() - point)) == formatted.skip(point)
        }),
{
    let sign = sign_length(formatted);
    let digits = integer_length(formatted);
    let point = sign + digits;
    let cut = cut_number(formatted, maximum);
    text::lemma_position_found(formatted.skip(sign), '.');
    assert(cut.take(sign) =~= formatted.take(sign));
    assert(cut.skip(cut.len() - (formatted.len() - point)) =~= formatted.skip(point));
}

/// `s` holds no line feed.
pub open spec fn one_line(s: Seq<char>) -> bool {
    forall|i: int| 0 <= i < s.len() ==> #[trigger] s[i] != '\n'
}

/// None of the texts holds a line feed.
pub open spec fn plain(texts: CsvTexts) -> bool {
    &&& one_line(texts.loss@)
    &&& one_line(texts.phase@)
    &&& one_line(texts.resistance@)
    &&& one_line(texts.swr@)
    &&& one_line(texts.reactance@)
    &&& one_line(texts.impedance@)
    &&& one_line(texts.theta@)
}

proof fn lemma_field_is_one_line(column: CsvColumn, value: Binary64, formatted: Seq<char>)
    requires
        one_line(formatted),
    ensures
        one_line(csv_field(column, value, formatted)),
{
    reveal_strlit("NaN");
    reveal_strlit("-?");
    reveal_strlit("?");
    text::lemma_position_found(formatted.skip(sign_length(formatted)), '.');
    let field = csv_field(column, value, formatted);
    let number = java_number(value, formatted, column.digits());
    assert forall|i: int| 0 <= i < number.len() implies #[trigger] number[i] != '\n' by {
        if !value.nan() && !value.infinite() {
            let sign = sign_length(formatted);
            let digits = integer_length(formatted);
            if digits > column.digits() && i >= sign {
                assert(number[i] == formatted[i + digits - column.digits()]);
            } else {
                assert(number[i] == formatted[i]);
            }
        }
    }
    assert forall|i: int| 0 <= i < field.len() implies #[trigger] field[i] != '\n' by {
        if i > 0 {
            assert(field[i] == number[i - 1]);
        }
    }
}

proof fn lemma_one_line_joined(left: Seq<char>, right: Seq<char>)
    requires
        one_line(left),
        one_line(right),
    ensures
        one_line(left + right),
{
    assert forall|i: int| 0 <= i < (left + right).len() implies #[trigger] (left + right)[i]
        != '\n' by {
        if i < left.len() {
            assert((left + right)[i] == left[i]);
        } else {
            assert((left + right)[i] == right[i - left.len()]);
        }
    }
}

proof fn lemma_row_is_line(sample: CalibratedSample, texts: CsvTexts)
    requires
        plain(texts),
    ensures
        text::is_line(csv_row(sample, texts)),
        csv_row(sample, texts).last() == '\n',
{
    law_last_digits(sample.frequency_hz, FREQUENCY_DIGITS);
    let frequency = last_digits(sample.frequency_hz, FREQUENCY_DIGITS);
    assert forall|i: int| 0 <= i < frequency.len() implies #[trigger] frequency[i] != '\n' by {
        assert(text::is_digit(frequency[i]));
    }
    let f1 = csv_field(CsvColumn::Loss, sample.loss_db, texts.loss@);
    let f2 = csv_field(CsvColumn::Phase, sample.phase_deg, texts.phase@);
    let f3 = csv_field(CsvColumn::Resistance, sample.resistance_ohm, texts.resistance@);
    let f4 = csv_field(CsvColumn::Swr, sample.swr, texts.swr@);
    let f5 = csv_field(CsvColumn::Reactance, sample.reactance_ohm, texts.reactance@);
    let f6 = csv_field(CsvColumn::Impedance, sample.impedance_ohm, texts.impedance@);
    let f7 = csv_field(CsvColumn::Theta, sample.theta_deg, texts.theta@);
    lemma_field_is_one_line(CsvColumn::Loss, sample.loss_db, texts.loss@);
    lemma_field_is_one_line(CsvColumn::Phase, sample.phase_deg, texts.phase@);
    lemma_field_is_one_line(CsvColumn::Resistance, sample.resistance_ohm, texts.resistance@);
    lemma_field_is_one_line(CsvColumn::Swr, sample.swr, texts.swr@);
    lemma_field_is_one_line(CsvColumn::Reactance, sample.reactance_ohm, texts.reactance@);
    lemma_field_is_one_line(CsvColumn::Impedance, sample.impedance_ohm, texts.impedance@);
    lemma_field_is_one_line(CsvColumn::Theta, sample.theta_deg, texts.theta@);
    lemma_one_line_joined(frequency, f1);
    lemma_one_line_joined(frequency + f1, f2);
    lemma_one_line_joined(frequency + f1 + f2, f3);
    lemma_one_line_joined(frequency + f1 + f2 + f3, f4);
    lemma_one_line_joined(frequency + f1 + f2 + f3 + f4, f5);
    lemma_one_line_joined(frequency + f1 + f2 + f3 + f4 + f5, f6);
    lemma_one_line_joined(frequency + f1 + f2 + f3 + f4 + f5 + f6, f7);
    let body = frequency + f1 + f2 + f3 + f4 + f5 + f6 + f7;
    let row = csv_row(sample, texts);
    assert(row == body + seq!['\n']);
    assert forall|i: int| 0 <= i < row.len() - 1 implies #[trigger] row[i] != '\n' by {
        assert(row[i] == body[i]);
    }
}

/// A CSV file has one line for its header and one for each sample, in the order
/// of the samples.
pub proof fn law_csv_has_one_line_per_sample(
    mode: ScanMode,
    samples: Seq<CalibratedSample>,
    texts: Seq<CsvTexts>,
)
    requires
        texts.len() == samples.len(),
        forall|i: int| 0 <= i < texts.len() ==> plain(#[trigger] texts[i]),
    ensures
        text::lines(text::concat(csv_lines(mode, samples, texts))) == csv_lines(
            mode,
            samples,
            texts,
        ),
        csv_lines(mode, samples, texts).len() == samples.len() + 1,
{
    let lines = csv_lines(mode, samples, texts);
    lemma_header_is_line(mode);
    assert forall|i: int| 0 <= i < lines.len() implies text::is_line(#[trigger] lines[i])
        && lines[i].last() == '\n' by {
        if i > 0 {
            assert(plain(texts[i - 1]));
            lemma_row_is_line(samples[i - 1], texts[i - 1]);
        }
    }
    text::law_lines_are_found_again(lines);
}

proof fn lemma_header_is_line(mode: ScanMode)
    ensures
        text::is_line(csv_header(mode)),
        csv_header(mode).last() == '\n',
{
    reveal_strlit("Frequency(Hz),");
    reveal_strlit("Return Loss(dB)");
    reveal_strlit("Transmission Loss(dB)");
    reveal_strlit(",Phase(deg),Rs,SWR,Xs,|Z|,Theta\n");
    let first = "Frequency(Hz),"@;
    let second = match mode {
        ScanMode::Reflection => "Return Loss(dB)"@,
        ScanMode::Transmission => "Transmission Loss(dB)"@,
    };
    let third = ",Phase(deg),Rs,SWR,Xs,|Z|,Theta\n"@;
    lemma_one_line_joined(first, second);
    let header = csv_header(mode);
    assert(header == first + second + third);
    assert forall|i: int| 0 <= i < header.len() - 1 implies #[trigger] header[i] != '\n' by {
        let k = first.len() + second.len();
        if i < k {
            assert(header[i] == (first + second)[i]);
        } else {
            assert(header[i] == third[i - k]);
        }
    }
}

/// The parts of a line of a CSV file: what stands between its commas, without
/// the line feed at its end.
pub open spec fn line_fields(line: Seq<char>) -> Seq<Seq<char>> {
    text::split(line.drop_last(), ',')
}

/// `s` holds neither a comma nor a line feed.
pub open spec fn bare(s: Seq<char>) -> bool {
    !s.contains(',') && !s.contains('\n')
}

/// None of the texts holds a comma or a line feed.
pub open spec fn bare_texts(texts: CsvTexts) -> bool {
    &&& bare(texts.loss@)
    &&& bare(texts.phase@)
    &&& bare(texts.resistance@)
    &&& bare(texts.swr@)
    &&& bare(texts.reactance@)
    &&& bare(texts.impedance@)
    &&& bare(texts.theta@)
}

/// `shown` is how a number appears that has up to `digits` digits before its
/// decimal point: `NaN` if it is none, a question mark with its sign if it is
/// infinite, and else its fixed notation, whole if it is short enough, and
/// otherwise with its sign, its decimal places and the last of its other digits.
pub open spec fn shows(
    shown: Seq<char>,
    value: Binary64,
    formatted: Seq<char>,
    digits: int,
) -> bool {
    let sign = if formatted.len() > 0 && formatted[0] == '-' {
        1int
    } else {
        0
    };
    let point = text::position(formatted, '.');
    &&& value.nan() ==> shown == "NaN"@
    &&& value.infinite() && !value.negative() ==> shown == "?"@
    &&& value.infinite() && value.negative() ==> shown == "-?"@
    &&& value.finite() && point - sign <= digits ==> shown == formatted
    &&& value.finite() && point - sign > digits ==> shown == formatted.take(sign)
        + formatted.skip(point - digits)
}

proof fn lemma_shows(value: Binary64, formatted: Seq<char>, digits: usize)
    ensures
        shows(java_number(value, formatted, digits), value, formatted, digits as int),
        bare(formatted) ==> bare(java_number(value, formatted, digits)),
{
    reveal_strlit("NaN");
    reveal_strlit("-?");
    reveal_strlit("?");
    let sign = sign_length(formatted);
    let rest = formatted.skip(sign);
    text::lemma_position_found(rest, '.');
    let at = text::position(rest, '.');
    assert forall|j: int| 0 <= j < sign + at implies formatted[j] != '.' by {
        if j >= sign {
            assert(formatted[j] == rest[j - sign]);
        }
    }
    if sign + at < formatted.len() {
        assert(formatted[sign + at] == rest[at]);
    }
    text::lemma_position(formatted, '.', sign + at);
    let shown = java_number(value, formatted, digits);
    if bare(formatted) {
        if shown.contains(',') || shown.contains('\n') {
            let bad = if shown.contains(',') {
                ','
            } else {
                '\n'
            };
            let i = choose|i: int| 0 <= i < shown.len() && shown[i] == bad;
            if !value.nan() && !value.infinite() {
                if at > digits && i >= sign {
                    assert(formatted[i + at - digits] == bad);
                } else {
                    assert(formatted[i] == bad);
                }
            }
        }
    }
}

/// A CSV file reads back as its scan. Its first line names eight columns. Line
/// `i + 1` has eight fields: the frequency of sample `i` in decimal, and its
/// return or transmission loss, phase, resistance, standing wave ratio,
/// reactance, impedance and theta, each as that number appears.
pub proof fn law_csv_reads_back(
    mode: ScanMode,
    samples: Seq<CalibratedSample>,
    texts: Seq<CsvTexts>,
    i: int,
)
    requires
        texts.len() == samples.len(),
        forall|k: int| 0 <= k < texts.len() ==> bare_texts(#[trigger] texts[k]),
        0 <= i < samples.len(),
        samples[i].frequency_hz < 10_000_000_000,
    ensures
        ({
            let lines = text::lines(text::concat(csv_lines(mode, samples, texts)));
            let header = line_fields(lines[0]);
            let row = line_fields(lines[i + 1]);
            let sample = samples[i];
            &&& lines.len() == samples.len() + 1
            &&& lines[0].last() == '\n' && lines[i + 1].last() == '\n'
            &&& header == seq![
                "Frequency(Hz)"@,
                if mode == ScanMode::Reflection {
                    "Return Loss(dB)"@
                } else {
                    "Transmission Loss(dB)"@
                },
                "Phase(deg)"@,
                "Rs"@,
                "SWR"@,
                "Xs"@,
                "|Z|"@,
                "Theta"@,
            ]
            &&& row.len() == 8
            &&& row[0] == text::decimal(sample.frequency_hz as nat)
            &&& shows(row[1], sample.loss_db, texts[i].loss@, 3)
            &&& shows(row[2], sample.phase_deg, texts[i].phase@, 3)
            &&& shows(row[3], sample.resistance_ohm, texts[i].resistance@, 5)
            &&& shows(row[4], sample.swr, texts[i].swr@, 3)
            &&& shows(row[5], sample.reactance_ohm, texts[i].reactance@, 5)
            &&& shows(row[6], sample.impedance_ohm, texts[i].impedance@, 5)
            &&& shows(row[7], sample.theta_deg, texts[i].theta@, 5)
        }),
{
    assert forall|k: int| 0 <= k < texts.len() implies plain(#[trigger] texts[k]) by {
        assert(bare_texts(texts[k]));
        lemma_bare_is_one_line(texts[k].loss@);
        lemma_bare_is_one_line(texts[k].phase@);
        lemma_bare_is_one_line(texts[k].resistance@);
        lemma_bare_is_one_line(texts[k].swr@);
        lemma_bare_is_one_line(texts[k].reactance@);
        lemma_bare_is_one_line(texts[k].impedance@);
        lemma_bare_is_one_line(texts[k].theta@);
    }
    law_csv_has_one_line_per_sample(mode, samples, texts);
    lemma_header_is_line(mode);
    lemma_header_fields(mode);
    assert(plain(texts[i]));
    lemma_row_is_line(samples[i], texts[i]);
    lemma_row_fields(samples[i], texts[i]);
}

proof fn lemma_bare_is_one_line(s: Seq<char>)
    requires
        bare(s),
    ensures
        one_line(s),
{
    assert forall|i: int| 0 <= i < s.len() implies #[trigger] s[i] != '\n' by {
        assert(s.contains(s[i]));
    }
}

/// Eight bare parts with commas between them are split into those parts.
proof fn lemma_eight_parts(
    a: Seq<char>,
    b: Seq<char>,
    c: Seq<char>,
    d: Seq<char>,
    e: Seq<char>,
    f: Seq<char>,
    g: Seq<char>,
    h: Seq<char>,
)
    requires
        !a.contains(','),
        !b.contains(','),
        !c.contains(','),
        !d.contains(','),
        !e.contains(','),
        !f.contains(','),
        !g.contains(','),
        !h.contains(','),
    ensures
        text::split(
            a + seq![','] + (b + seq![','] + (c + seq![','] + (d + seq![','] + (e + seq![','] + (f
                + seq![','] + (g + seq![','] + h)))))),
            ',',
        ) == seq![a, b, c, d, e, f, g, h],
{
    let r = seq![','];
    let g1 = g + r + h;
    let f1 = f + r + g1;
    let e1 = e + r + f1;
    let d1 = d + r + e1;
    let c1 = c + r + d1;
    let b1 = b + r + c1;
    text::law_split_cuts_at_the_first(h, ',', Seq::empty());
    text::law_split_cuts_at_the_first(g, ',', h);
    text::law_split_cuts_at_the_first(f, ',', g1);
    text::law_split_cuts_at_the_first(e, ',', f1);
    text::law_split_cuts_at_the_first(d, ',', e1);
    text::law_split_cuts_at_the_first(c, ',', d1);
    text::law_split_cuts_at_the_first(b, ',', c1);
    text::law_split_cuts_at_the_first(a, ',', b1);
    assert(text::split(a + r + b1, ',') =~= seq![a, b, c, d, e, f, g, h]);
}

proof fn lemma_header_fields(mode: ScanMode)
    ensures
        line_fields(csv_header(mode)) == seq![
            "Frequency(Hz)"@,
            if mode == ScanMode::Reflection {
                "Return Loss(dB)"@
            } else {
                "Transmission Loss(dB)"@
            },
            "Phase(deg)"@,
            "Rs"@,
            "SWR"@,
            "Xs"@,
            "|Z|"@,
            "Theta"@,
        ],
{
    reveal_strlit("Frequency(Hz),");
    reveal_strlit("Frequency(Hz)");
    reveal_strlit("Return Loss(dB)");
    reveal_strlit("Transmission Loss(dB)");
    reveal_strlit(",Phase(deg),Rs,SWR,Xs,|Z|,Theta\n");
    reveal_strlit("Phase(deg)");
    reveal_strlit("Rs");
    reveal_strlit("SWR");
    reveal_strlit("Xs");
    reveal_strlit("|Z|");
    reveal_strlit("Theta");
    let loss = if mode == ScanMode::Reflection {
        "Return Loss(dB)"@
    } else {
        "Transmission Loss(dB)"@
    };
    let r = seq![','];
    let a = "Frequency(Hz)"@;
    let tail = "Phase(deg)"@ + r + ("Rs"@ + r + ("SWR"@ + r + ("Xs"@ + r + ("|Z|"@ + r
        + "Theta"@))));
    lemma_eight_parts(
        a,
        loss,
        "Phase(deg)"@,
        "Rs"@,
        "SWR"@,
        "Xs"@,
        "|Z|"@,
        "Theta"@,
    );
    assert("Frequency(Hz),"@ =~= a + r);
    assert(",Phase(deg),Rs,SWR,Xs,|Z|,Theta\n"@ =~= r + tail + seq!['\n']);
    assert(csv_header(mode).drop_last() =~= a + r + (loss + r + tail));
}

proof fn lemma_row_fields(sample: CalibratedSample, texts: CsvTexts)
    requires
        bare_texts(texts),
        sample.frequency_hz < 10_000_000_000,
    ensures
        ({
            let row = line_fields(csv_row(sample, texts));
            &&& row.len() == 8
            &&& row[0] == text::decimal(sample.frequency_hz as nat)
            &&& shows(row[1], sample.loss_db, texts.loss@, 3)
            &&& shows(row[2], sample.phase_deg, texts.phase@, 3)
            &&& shows(row[3], sample.resistance_ohm, texts.resistance@, 5)
            &&& shows(row[4], sample.swr, texts.swr@, 3)
            &&& shows(row[5], sample.reactance_ohm, texts.reactance@, 5)
            &&& shows(row[6], sample.impedance_ohm, texts.impedance@, 5)
            &&& shows(row[7], sample.theta_deg, texts.theta@, 5)
        }),
{
    let a = text::decimal(sample.frequency_hz as nat);
    lemma_ten_digits(sample.frequency_hz as nat);
    assert(last_digits(sample.frequency_hz, FREQUENCY_DIGITS) == a);
    text::law_decimal_reads_back(sample.frequency_hz as nat);
    assert(!a.contains(',')) by {
        if a.contains(',') {
            let k = choose|k: int| 0 <= k < a.len() && a[k] == ',';
            assert(text::is_digit(a[k]));
        }
    }
    let b = java_number(sample.loss_db, texts.loss@, 3);
    let c = java_number(sample.phase_deg, texts.phase@, 3);
    let d = java_number(sample.resistance_ohm, texts.resistance@, 5);
    let e = java_number(sample.swr, texts.swr@, 3);
    let f = java_number(sample.reactance_ohm, texts.reactance@, 5);
    let g = java_number(sample.impedance_ohm, texts.impedance@, 5);
    let h = java_number(sample.theta_deg, texts.theta@, 5);
    lemma_shows(sample.loss_db, texts.loss@, 3);
    lemma_shows(sample.phase_deg, texts.phase@, 3);
    lemma_shows(sample.resistance_ohm, texts.resistance@, 5);
    lemma_shows(sample.swr, texts.swr@, 3);
    lemma_shows(sample.reactance_ohm, texts.reactance@, 5);
    lemma_shows(sample.impedance_ohm, texts.impedance@, 5);
    lemma_shows(sample.theta_deg, texts.theta@, 5);
    lemma_eight_parts(a, b, c, d, e, f, g, h);
    lemma_regrouped(a, b, c, d, e, f, g, h);
}

/// A line that was put together field by field, without its last character, is
/// its eight parts with commas between them.
proof fn lemma_regrouped(
    a: Seq<char>,
    b: Seq<char>,
    c: Seq<char>,
    d: Seq<char>,
    e: Seq<char>,
    f: Seq<char>,
    g: Seq<char>,
    h: Seq<char>,
)
    ensures
        ({
            let r = seq![','];
            (a + (r + b) + (r + c) + (r + d) + (r + e) + (r + f) + (r + g) + (r + h)
                + seq!['\n']).drop_last() == a + r + (b + r + (c + r + (d + r + (e + r + (f + r + (g
                + r + h))))))
        }),
{
    let r = seq![','];
    let s1 = a + (r + b);
    let s2 = s1 + (r + c);
    let s3 = s2 + (r + d);
    let s4 = s3 + (r + e);
    let s5 = s4 + (r + f);
    let s6 = s5 + (r + g);
    let s7 = s6 + (r + h);
    let g1 = g + r + h;
    let f1 = f + r + g1;
    let e1 = e + r + f1;
    let d1 = d + r + e1;
    let c1 = c + r + d1;
    let b1 = b + r + c1;
    assert((s7 + seq!['\n']).drop_last() =~= s7);
    assert(s7 =~= s5 + (r + g1));
    assert(s5 + (r + g1) =~= s4 + (r + f1));
    assert(s4 + (r + f1) =~= s3 + (r + e1));
    assert(s3 + (r + e1) =~= s2 + (r + d1));
    assert(s2 + (r + d1) =~= s1 + (r + c1));
    assert(s1 + (r + c1) =~= a + (r + b1));
    assert(a + (r + b1) =~= a + r + b1);
}

/// A number below ten to the power ten has ten digits at most.
proof fn lemma_ten_digits(n: nat)
    requires
        n < 10_000_000_000,
    ensures
        text::decimal(n).len() <= 10,
{
    reveal_with_fuel(text::decimal, 11);
}

/// A JSON scan file is written exactly if there is none yet and there is one raw
/// and one calibrated sample for each point of the scan. A file that is there is
/// never written over, whatever else is wrong.
pub proof fn law_json_needs_every_sample(
    spec: ScanSpec,
    raw: usize,
    calibrated: usize,
    present: bool,
)
    ensures
        ({
            let verdict = json_verdict(spec, raw as nat, calibrated as nat, present);
            &&& verdict is Ok <==> !present && raw == spec.points && calibrated == spec.points
            &&& present ==> verdict == Err::<(), ExportError>(ExportError::Exists)
            &&& !present && verdict is Err ==> verdict == Err::<(), ExportError>(
                ExportError::Counts { raw, calibrated, expected: spec.points },
            )
        }),
{
}

/// A sample is outside the circle if its loss is zero or more, minus zero
/// included, or its standing wave ratio is infinite or no number. The samples
/// outside are counted one by one, in whatever order.
pub proof fn law_outside_samples_are_counted(
    left: Seq<CalibratedSample>,
    sample: CalibratedSample,
    right: Seq<CalibratedSample>,
)
    ensures
        outside_count(left + seq![sample] + right) == outside_count(left) + outside_count(right)
            + if (!sample.loss_db.nan() && (sample.loss_db.bits < 0x8000_0000_0000_0000
            || sample.loss_db.bits == 0x8000_0000_0000_0000)) || sample.swr.nan()
            || sample.swr.infinite() {
            1nat
        } else {
            0nat
        },
        outside_count(Seq::empty()) == 0,
    decreases right.len(),
{
    let all = left + seq![sample] + right;
    if right.len() == 0 {
        assert(all.drop_last() =~= left);
        assert(all.last() == sample);
    } else {
        law_outside_samples_are_counted(left, sample, right.drop_last());
        assert(all.drop_last() =~= left + seq![sample] + right.drop_last());
        assert(all.last() == right.last());
    }
}

/// The error about a scan of too few samples names them in this order: raw,
/// calibrated, expected.
pub proof fn law_errors_name_their_numbers(
    raw: usize,
    calibrated: usize,
    expected: usize,
    target: Seq<char>,
)
    ensures
        text::numbers((ExportError::Counts { raw, calibrated, expected }).text(target)) == seq![
            raw as nat,
            calibrated as nat,
            expected as nat,
        ],
{
    reveal_strlit("JSON output has ");
    reveal_strlit(" raw and ");
    reveal_strlit(" calibrated samples; expected ");
    let error = ExportError::Counts { raw, calibrated, expected };
    text::lemma_three_numbers(
        "JSON output has "@,
        raw as nat,
        " raw and "@,
        calibrated as nat,
        " calibrated samples; expected "@,
        expected as nat,
        Seq::empty(),
    );
    text::lemma_words_hold_no_number(Seq::empty(), Seq::empty());
    assert(error.text(target) =~= "JSON output has "@ + text::decimal(raw as nat) + " raw and "@
        + text::decimal(calibrated as nat) + " calibrated samples; expected "@ + text::decimal(
        expected as nat,
    ) + Seq::empty());
}

/// A CSV file is written exactly if there is none yet and there is something to
/// write. An empty scan is refused first.
pub proof fn law_csv_needs_samples(samples: usize, present: bool)
    ensures
        csv_verdict(samples, present) is Ok <==> samples > 0 && !present,
        samples == 0 ==> csv_verdict(samples, present) == Err::<(), ExportError>(
            ExportError::EmptyScan,
        ),
        samples > 0 && present ==> csv_verdict(samples, present) == Err::<(), ExportError>(
            ExportError::Exists,
        ),
{
}

/// A temporary file is hidden and named after its file. Another process or another
/// time gives another one.
pub proof fn law_temporary_files(
    filename: Seq<char>,
    process: u32,
    nonce: u128,
    other_process: u32,
    other_nonce: u128,
)
    ensures
        temporary_file(filename, process, nonce) == temporary_file(
            filename,
            other_process,
            other_nonce,
        ) ==> process == other_process && nonce == other_nonce,
        ({
            let name = temporary_file(filename, process, nonce);
            let ending = seq!['.'] + text::decimal(process as nat) + seq!['.'] + text::decimal(
                nonce as nat,
            ) + seq!['.', 't', 'm', 'p'];
            &&& name == seq!['.'] + filename + ending
            &&& text::numbers(ending) == seq![process as nat, nonce as nat]
        }),
{
    lemma_temporary_file(filename, process, nonce);
    lemma_temporary_file(filename, other_process, other_nonce);
    let name = temporary_file(filename, process, nonce);
    let same = seq![process as nat, nonce as nat];
    let other = seq![other_process as nat, other_nonce as nat];
    if name == temporary_file(filename, other_process, other_nonce) {
        assert(same[0] == other[0] && same[1] == other[1]);
    }
}

proof fn lemma_temporary_file(filename: Seq<char>, process: u32, nonce: u128)
    ensures
        ({
            let name = temporary_file(filename, process, nonce);
            let ending = seq!['.'] + text::decimal(process as nat) + seq!['.'] + text::decimal(
                nonce as nat,
            ) + seq!['.', 't', 'm', 'p'];
            &&& name == seq!['.'] + filename + ending
            &&& name.skip(filename.len() + 1int) == ending
            &&& text::numbers(ending) == seq![process as nat, nonce as nat]
        }),
{
    reveal_strlit(".");
    reveal_strlit(".tmp");
    assert("."@ =~= seq!['.']);
    assert(".tmp"@ =~= seq!['.', 't', 'm', 'p']);
    let dot = seq!['.'];
    let last = seq!['.', 't', 'm', 'p'];
    text::lemma_two_numbers(dot, process as nat, dot, nonce as nat, last);
    text::lemma_words_hold_no_number(last, Seq::empty());
    assert(seq![process as nat, nonce as nat] + Seq::<nat>::empty() =~= seq![
        process as nat,
        nonce as nat,
    ]);
    let ending = dot + text::decimal(process as nat) + dot + text::decimal(nonce as nat) + last;
    assert(temporary_file(filename, process, nonce) =~= dot + filename + ending);
    assert((dot + filename + ending).skip(filename.len() + 1int) =~= ending);
}

/// A reflection scan is warned of exactly if one of its samples is outside the
/// circle, with their number; a transmission scan never is.
pub proof fn law_quality_warnings(samples: Seq<CalibratedSample>)
    requires
        samples.len() <= usize::MAX,
    ensures
        affected_samples(ScanMode::Transmission, samples) is None,
        affected_samples(ScanMode::Reflection, samples) is Some <==> exists|i: int|
            0 <= i < samples.len() && outside_circle(#[trigger] samples[i]),
        affected_samples(ScanMode::Reflection, samples) matches Some(affected) ==> affected
            == outside_count(samples) && 0 < affected <= samples.len(),
{
    lemma_outside_count(samples);
}

proof fn lemma_outside_count(samples: Seq<CalibratedSample>)
    ensures
        outside_count(samples) <= samples.len(),
        outside_count(samples) > 0 <==> exists|i: int|
            0 <= i < samples.len() && outside_circle(#[trigger] samples[i]),
    decreases samples.len(),
{
    if samples.len() > 0 {
        let front = samples.drop_last();
        lemma_outside_count(front);
        assert(samples.last() == samples[samples.len() - 1]);
        if outside_count(front) > 0 {
            let i = choose|i: int| 0 <= i < front.len() && outside_circle(#[trigger] front[i]);
            assert(outside_circle(samples[i]));
        }
        if exists|i: int| 0 <= i < samples.len() && outside_circle(#[trigger] samples[i]) {
            let i = choose|i: int| 0 <= i < samples.len() && outside_circle(#[trigger] samples[i]);
            if i < front.len() {
                assert(outside_circle(front[i]));
            }
        }
    }
}

/// A JSON scan file has one sample for each raw one, in the same order, with the
/// raw and the calibrated values of the same place.
pub proof fn law_samples_stay_together(
    samples: Seq<ScanSample>,
    raw: Seq<RawSample>,
    calibrated: Seq<CalibratedSample>,
    i: int,
)
    requires
        paired(samples, raw, calibrated),
        0 <= i < raw.len(),
    ensures
        samples.len() == raw.len(),
        samples[i].raw == raw[i],
        samples[i].calibrated == calibrated[i],
{
}

} // verus!
