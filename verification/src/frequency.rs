//! Frequencies as the user writes them: a decimal number with an optional
//! unit, such as `45M` or `45.001 MHz`.
use vstd::arithmetic::power;
use vstd::prelude::*;
use vstd::slice::slice_subrange;

use crate::text;

verus! {

/// Why a text is no frequency.
#[derive(Clone, Copy, Debug, PartialEq, Eq, Structural)]
pub enum FrequencyError {
    Empty,
    UnknownSuffix,
    NotDecimal,
    TooLarge,
    TooManyDecimalPlaces,
    NotWholeHertz,
}

/// `s` without ASCII white space and in lower case.
pub open spec fn unit_of(s: Seq<char>) -> Seq<char>
    decreases s.len(),
{
    if s.len() == 0 {
        Seq::empty()
    } else if text::is_ascii_space(s.last()) {
        unit_of(s.drop_last())
    } else {
        unit_of(s.drop_last()).push(text::lower_char(s.last()))
    }
}

/// How many hertz the unit stands for.
pub open spec fn unit_hertz(unit: Seq<char>) -> Option<nat> {
    if unit == Seq::<char>::empty() || unit == "h"@ || unit == "hz"@ {
        Some(1)
    } else if unit == "k"@ || unit == "kh"@ || unit == "khz"@ {
        Some(1_000)
    } else if unit == "m"@ || unit == "mh"@ || unit == "mhz"@ {
        Some(1_000_000)
    } else if unit == "g"@ || unit == "gh"@ || unit == "ghz"@ {
        Some(1_000_000_000)
    } else {
        None
    }
}

/// The digits before the decimal point.
pub open spec fn whole_part(number: Seq<char>) -> Seq<char> {
    number.take(text::position(number, '.'))
}

pub open spec fn has_fraction(number: Seq<char>) -> bool {
    text::position(number, '.') < number.len()
}

/// The digits behind the decimal point.
pub open spec fn fraction_part(number: Seq<char>) -> Seq<char> {
    if has_fraction(number) {
        number.skip(text::position(number, '.') + 1)
    } else {
        Seq::empty()
    }
}

/// `number` is digits, or digits, a decimal point and digits.
pub open spec fn is_decimal(number: Seq<char>) -> bool {
    &&& whole_part(number).len() > 0
    &&& text::all_digits(whole_part(number))
    &&& has_fraction(number) ==> fraction_part(number).len() > 0
    &&& text::all_digits(fraction_part(number))
}

/// What the number must be divided by once its decimal point is left out.
pub open spec fn divisor(number: Seq<char>) -> nat {
    power::pow(10, fraction_part(number).len()) as nat
}

/// The number with its decimal point left out.
pub open spec fn undivided(number: Seq<char>) -> nat {
    text::digits_value(whole_part(number)) * divisor(number) + text::digits_value(
        fraction_part(number),
    )
}

/// The frequency that a decimal number of units of `hertz` each stands for.
pub open spec fn number_frequency(number: Seq<char>, hertz: nat) -> Result<u64, FrequencyError> {
    let scaled = undivided(number) * hertz;
    if !is_decimal(number) {
        Err(FrequencyError::NotDecimal)
    } else if text::digits_value(whole_part(number)) > u128::MAX {
        Err(FrequencyError::TooLarge)
    } else if fraction_part(number).len() > 38 {
        Err(FrequencyError::TooManyDecimalPlaces)
    } else if scaled > u128::MAX {
        Err(FrequencyError::TooLarge)
    } else if scaled % divisor(number) != 0 {
        Err(FrequencyError::NotWholeHertz)
    } else if scaled / divisor(number) > u64::MAX {
        Err(FrequencyError::TooLarge)
    } else {
        Ok((scaled / divisor(number)) as u64)
    }
}

/// The number that a frequency starts with.
pub open spec fn number_of(s: Seq<char>) -> Seq<char> {
    text::trim(text::trim(s).take(text::letter_position(text::trim(s))))
}

/// The unit that a frequency ends with.
pub open spec fn suffix_of(s: Seq<char>) -> Seq<char> {
    unit_of(text::trim(s).skip(text::letter_position(text::trim(s))))
}

/// The frequency that `s` stands for. White space around it and around its
/// number is left out; the unit starts at the first letter, and case does not
/// matter in it.
pub open spec fn frequency_of(s: Seq<char>) -> Result<u64, FrequencyError> {
    if text::trim(s).len() == 0 {
        Err(FrequencyError::Empty)
    } else {
        match unit_hertz(suffix_of(s)) {
            None => Err(FrequencyError::UnknownSuffix),
            Some(hertz) => number_frequency(number_of(s), hertz),
        }
    }
}

/// The text with quotes around it and special characters escaped, as
/// `{:?}` writes it.
pub uninterp spec fn debug_text(shown: Seq<char>) -> Seq<char>;

/// The `Debug` formatting of `str`, which depends on the text alone. What it
/// escapes, and how, is not stated.
#[verifier::external_body]
pub(crate) fn debug_quoted(shown: &str) -> (quoted: String)
    ensures
        quoted@ == debug_text(shown@),
{
    format!("{:?}", shown)
}

impl FrequencyError {
    /// The error as the user reads it; `quoted` is the frequency in quotes.
    pub open spec fn text(self, quoted: Seq<char>) -> Seq<char> {
        match self {
            FrequencyError::Empty => "frequency cannot be empty"@,
            FrequencyError::UnknownSuffix => "frequency "@ + quoted
                + " has an unknown suffix; use H, K, M, G, Hz, kHz, MHz, or GHz"@,
            FrequencyError::NotDecimal => "frequency "@ + quoted
                + " is not a valid decimal number"@,
            FrequencyError::TooLarge => "frequency "@ + quoted + " is too large"@,
            FrequencyError::TooManyDecimalPlaces => "frequency "@ + quoted
                + " has too many decimal places"@,
            FrequencyError::NotWholeHertz => "frequency "@ + quoted
                + " does not resolve to a whole number of hertz"@,
        }
    }

    pub fn message(&self, quoted: &str) -> (message: String)
        ensures
            message@ == self.text(quoted@),
    {
        let mut out: String = String::new();
        if let FrequencyError::Empty = *self {
            out.append("frequency cannot be empty");
            assert(out@ =~= self.text(quoted@));
            return out;
        }
        out.append("frequency ");
        out.append(quoted);
        match *self {
            FrequencyError::Empty => {},
            FrequencyError::UnknownSuffix => out.append(
                " has an unknown suffix; use H, K, M, G, Hz, kHz, MHz, or GHz",
            ),
            FrequencyError::NotDecimal => out.append(" is not a valid decimal number"),
            FrequencyError::TooLarge => out.append(" is too large"),
            FrequencyError::TooManyDecimalPlaces => out.append(" has too many decimal places"),
            FrequencyError::NotWholeHertz => out.append(
                " does not resolve to a whole number of hertz",
            ),
        }
        assert(out@ =~= self.text(quoted@));
        out
    }
}

fn unit(s: &[char]) -> (unit: Vec<char>)
    ensures
        unit@ == unit_of(s@),
{
    let mut unit: Vec<char> = Vec::new();
    let mut i: usize = 0;
    while i < s.len()
        invariant
            i <= s@.len(),
            unit@ == unit_of(s@.take(i as int)),
        decreases s@.len() - i,
    {
        if !text::ascii_space(s[i]) {
            unit.push(text::lower_of(s[i]));
        }
        proof {
            assert(s@.take(i + 1).drop_last() =~= s@.take(i as int));
        }
        i = i + 1;
    }
    proof {
        assert(s@.take(i as int) =~= s@);
    }
    unit
}

fn hertz_of(unit: &[char]) -> (hertz: Option<u128>)
    ensures
        match hertz {
            Some(hertz) => unit_hertz(unit@) == Some(hertz as nat) && 1 <= hertz <= 1_000_000_000,
            None => unit_hertz(unit@) is None,
        },
{
    proof {
        assert(unit@.len() == 0 ==> unit@ =~= Seq::<char>::empty());
    }
    if unit.len() == 0 || text::same(unit, "h") || text::same(unit, "hz") {
        Some(1)
    } else if text::same(unit, "k") || text::same(unit, "kh") || text::same(unit, "khz") {
        Some(1_000)
    } else if text::same(unit, "m") || text::same(unit, "mh") || text::same(unit, "mhz") {
        Some(1_000_000)
    } else if text::same(unit, "g") || text::same(unit, "gh") || text::same(unit, "ghz") {
        Some(1_000_000_000)
    } else {
        None
    }
}

/// Ten to the power `exponent`, if it fits.
fn power_of_ten(exponent: usize) -> (value: Option<u128>)
    ensures
        match value {
            Some(value) => exponent <= 38 && value == power::pow(10, exponent as nat),
            None => exponent > 38,
        },
{
    if exponent > 38 {
        return None;
    }
    let mut value: u128 = 1;
    let mut i: usize = 0;
    proof {
        power::lemma_pow0(10);
    }
    while i < exponent
        invariant
            i <= exponent <= 38,
            value == power::pow(10, i as nat),
        decreases exponent - i,
    {
        proof {
            lemma_power_bound((i + 1) as nat);
            reveal(power::pow);
        }
        value = value * 10;
        i = i + 1;
    }
    Some(value)
}

proof fn lemma_power_bound(exponent: nat)
    requires
        exponent <= 38,
    ensures
        0 < power::pow(10, exponent) <= 100_000_000_000_000_000_000_000_000_000_000_000_000,
{
    power::lemma_pow_positive(10, exponent);
    power::lemma_pow_increases(10, exponent, 38);
    power::lemma_pow1(10);
    power::lemma_pow_adds(10, 1, 1);
    assert(power::pow(10, 2) == 100);
    power::lemma_pow_adds(10, 2, 2);
    assert(power::pow(10, 4) == 10_000);
    power::lemma_pow_adds(10, 4, 4);
    assert(power::pow(10, 8) == 100_000_000);
    power::lemma_pow_adds(10, 8, 8);
    assert(power::pow(10, 16) == 10_000_000_000_000_000);
    power::lemma_pow_adds(10, 16, 16);
    assert(power::pow(10, 32) == 100_000_000_000_000_000_000_000_000_000_000);
    power::lemma_pow_adds(10, 32, 4);
    assert(power::pow(10, 36) == 1_000_000_000_000_000_000_000_000_000_000_000_000);
    power::lemma_pow_adds(10, 36, 2);
    assert(power::pow(10, 38) == 100_000_000_000_000_000_000_000_000_000_000_000_000);
}

/// Digits stand for less than ten to the power of their number.
proof fn lemma_digits_bound(s: Seq<char>)
    requires
        text::all_digits(s),
    ensures
        text::digits_value(s) < power::pow(10, s.len()),
    decreases s.len(),
{
    reveal(power::pow);
    if s.len() > 0 {
        assert forall|i: int| 0 <= i < s.len() - 1 implies text::is_digit(
            #[trigger] s.drop_last()[i],
        ) by {
            assert(s.drop_last()[i] == s[i]);
        }
        lemma_digits_bound(s.drop_last());
        assert(text::is_digit(s[s.len() - 1]));
    }
}

fn frequency_of_number(number: &[char], hertz: u128) -> (frequency: Result<u64, FrequencyError>)
    requires
        1 <= hertz <= 1_000_000_000,
    ensures
        frequency == number_frequency(number@, hertz as nat),
{
    let dot: usize = text::find(number, '.');
    let whole: &[char] = slice_subrange(number, 0, dot);
    proof {
        assert(whole@ =~= whole_part(number@));
    }
    let fraction: &[char] = if dot < number.len() {
        slice_subrange(number, dot + 1, number.len())
    } else {
        slice_subrange(number, dot, dot)
    };
    proof {
        assert(fraction@ =~= fraction_part(number@));
    }
    if whole.len() == 0 || !text::only_digits(whole) || (dot < number.len() && fraction.len() == 0)
        || !text::only_digits(fraction) {
        return Err(FrequencyError::NotDecimal);
    }
    let whole_value: u128 = match text::number(whole) {
        Some(value) => value,
        None => return Err(FrequencyError::TooLarge),
    };
    let divisor: u128 = match power_of_ten(fraction.len()) {
        Some(value) => value,
        None => return Err(FrequencyError::TooManyDecimalPlaces),
    };
    proof {
        lemma_digits_bound(fraction@);
        lemma_power_bound(fraction@.len());
    }
    let fraction_value: u128 = match text::number(fraction) {
        Some(value) => value,
        None => return Err(FrequencyError::TooLarge),
    };
    let ghost scaled = undivided(number@) * hertz as nat;
    proof {
        let w = whole_value as int;
        let d = divisor as int;
        let f = fraction_value as int;
        let h = hertz as int;
        assert(w * d >= 0 && w * d + f <= (w * d + f) * h) by (nonlinear_arith)
            requires
                w >= 0,
                d >= 0,
                f >= 0,
                h >= 1,
        ;
        assert(scaled == (w * d + f) * h);
    }
    let product: u128 = match whole_value.checked_mul(divisor) {
        Some(value) => value,
        None => return Err(FrequencyError::TooLarge),
    };
    let sum: u128 = match product.checked_add(fraction_value) {
        Some(value) => value,
        None => return Err(FrequencyError::TooLarge),
    };
    let total: u128 = match sum.checked_mul(hertz) {
        Some(value) => value,
        None => return Err(FrequencyError::TooLarge),
    };
    if total % divisor != 0 {
        return Err(FrequencyError::NotWholeHertz);
    }
    let value: u128 = total / divisor;
    if value > u64::MAX as u128 {
        return Err(FrequencyError::TooLarge);
    }
    Ok(value as u64)
}

/// Reads a frequency.
pub fn read_frequency(input: &str) -> (frequency: Result<u64, FrequencyError>)
    ensures
        frequency == frequency_of(input@),
{
    let chars: Vec<char> = text::chars_of(input);
    let trimmed: &[char] = text::trimmed(chars.as_slice());
    if trimmed.len() == 0 {
        return Err(FrequencyError::Empty);
    }
    let cut: usize = text::find_letter(trimmed);
    let head: &[char] = slice_subrange(trimmed, 0, cut);
    let tail: &[char] = slice_subrange(trimmed, cut, trimmed.len());
    proof {
        assert(head@ =~= trimmed@.take(cut as int));
        assert(tail@ =~= trimmed@.skip(cut as int));
    }
    let number: &[char] = text::trimmed(head);
    let suffix: Vec<char> = unit(tail);
    match hertz_of(suffix.as_slice()) {
        None => Err(FrequencyError::UnknownSuffix),
        Some(hertz) => frequency_of_number(number, hertz),
    }
}

/// Reads a frequency, or says in words why it cannot be read.
pub fn parse_frequency_hz(input: &str) -> (frequency: Result<u64, String>)
    ensures
        match frequency {
            Ok(hertz) => frequency_of(input@) == Ok::<u64, FrequencyError>(hertz),
            Err(message) => frequency_of(input@) is Err && message@ == frequency_of(
                input@,
            )->Err_0.text(debug_text(text::trim(input@))),
        },
{
    match read_frequency(input) {
        Ok(hertz) => Ok(hertz),
        Err(error) => {
            let chars: Vec<char> = text::chars_of(input);
            let trimmed: String = text::string_of(text::trimmed(chars.as_slice()));
            let quoted: String = debug_quoted(trimmed.as_str());
            Err(error.message(quoted.as_str()))
        },
    }
}

// ---------------------------------------------------------------------------
// Laws
// ---------------------------------------------------------------------------
/// A frequency is exact: with `d` the power of ten that its decimal places
/// ask for, it is its digits times the hertz of its unit, divided by `d`
/// without a remainder.
pub proof fn law_frequency_is_exact(s: Seq<char>, hertz: u64)
    requires
        frequency_of(s) == Ok::<u64, FrequencyError>(hertz),
    ensures
        unit_hertz(suffix_of(s)) is Some,
        is_decimal(number_of(s)),
        hertz * divisor(number_of(s)) == undivided(number_of(s)) * unit_hertz(suffix_of(s))->0,
{
    let d = divisor(number_of(s));
    lemma_power_bound(fraction_part(number_of(s)).len());
    let scaled = undivided(number_of(s)) * unit_hertz(suffix_of(s))->0;
    assert(scaled / d * d == scaled) by (nonlinear_arith)
        requires
            scaled % d == 0,
            d > 0,
    ;
}

/// Case does not matter in a frequency.
pub proof fn law_case_does_not_matter(s: Seq<char>)
    ensures
        frequency_of(text::lower(s)) == frequency_of(s),
{
    let t = text::trim(s);
    let l = text::trim(text::lower(s));
    text::lemma_lower_trim(s);
    text::lemma_lower_letter_position(t);
    let cut = text::letter_position(t);
    assert(l.take(cut) =~= t.take(cut)) by {
        assert forall|i: int| 0 <= i < cut implies #[trigger] l[i] == t[i] by {
            assert(!text::is_letter(t[i]));
        }
    }
    assert(l.skip(cut) =~= text::lower(t.skip(cut)));
    lemma_unit_ignores_case(t.skip(cut));
}

proof fn lemma_unit_ignores_case(s: Seq<char>)
    ensures
        unit_of(text::lower(s)) == unit_of(s),
    decreases s.len(),
{
    if s.len() > 0 {
        assert(text::lower(s).drop_last() =~= text::lower(s.drop_last()));
        lemma_unit_ignores_case(s.drop_last());
    } else {
        assert(text::lower(s) =~= s);
    }
}

/// White space around a frequency does not matter.
pub proof fn law_space_around_does_not_matter(s: Seq<char>)
    ensures
        frequency_of(text::trim(s)) == frequency_of(s),
{
    text::law_trimmed_ends(s);
    text::law_trim_leaves_clean_text(text::trim(s));
}

/// A whole number followed by a unit, in any case, stands for that many units.
/// Without a unit it stands for hertz.
pub proof fn law_number_with_unit(n: nat, unit: Seq<char>, hertz: nat)
    requires
        forall|i: int| 0 <= i < unit.len() ==> text::is_letter(#[trigger] unit[i]),
        unit_hertz(text::lower(unit)) == Some(hertz),
        n * hertz <= u64::MAX,
    ensures
        frequency_of(text::decimal(n) + unit) == Ok::<u64, FrequencyError>((n * hertz) as u64),
{
    let number = text::decimal(n);
    let s = number + unit;
    text::law_decimal_reads_back(n);
    assert(s[0] == number[0] && text::is_digit(number[0]));
    assert(!text::is_space(s.last())) by {
        if unit.len() > 0 {
            assert(s.last() == unit[unit.len() - 1]);
        } else {
            assert(s.last() == number[number.len() - 1]);
        }
    }
    text::law_trim_leaves_clean_text(s);
    assert forall|j: int| 0 <= j < number.len() implies !text::is_letter(s[j]) by {
        assert(text::is_digit(number[j]));
    }
    if unit.len() > 0 {
        assert(s[number.len() as int] == unit[0]);
    }
    text::lemma_letter_position(s, number.len() as int);
    assert(s.take(number.len() as int) =~= number);
    assert(s.skip(number.len() as int) =~= unit);
    assert(text::is_digit(number[number.len() - 1]));
    text::law_trim_leaves_clean_text(number);
    lemma_unit_of_letters(unit);
    assert forall|j: int| 0 <= j < number.len() implies number[j] != '.' by {
        assert(text::is_digit(number[j]));
    }
    text::lemma_position(number, '.', number.len() as int);
    assert(whole_part(number) =~= number);
    assert(fraction_part(number) =~= Seq::empty());
    power::lemma_pow0(10);
    assert(text::digits_value(fraction_part(number)) == 0);
    let d = divisor(number);
    assert(d == 1);
    assert(n * d == n) by (nonlinear_arith)
        requires
            d == 1,
    ;
    assert(undivided(number) == n);
    assert(n <= n * hertz) by (nonlinear_arith)
        requires
            hertz >= 1,
    ;
}

proof fn lemma_unit_of_letters(s: Seq<char>)
    requires
        forall|i: int| 0 <= i < s.len() ==> text::is_letter(#[trigger] s[i]),
    ensures
        unit_of(s) == text::lower(s),
    decreases s.len(),
{
    if s.len() > 0 {
        let front = s.drop_last();
        assert forall|i: int| 0 <= i < front.len() implies text::is_letter(
            #[trigger] front[i],
        ) by {
            assert(front[i] == s[i]);
        }
        lemma_unit_of_letters(front);
        assert(text::is_letter(s[s.len() - 1]));
    }
    assert(unit_of(s) =~= text::lower(s));
}

/// The number of hertz of each unit that a frequency can be written with.
pub open spec fn documented_unit(unit: Seq<char>, hertz: nat) -> bool {
    ||| hertz == 1 && (unit == ""@ || unit == "H"@ || unit == "Hz"@)
    ||| hertz == 1_000 && (unit == "K"@ || unit == "k"@ || unit == "kH"@ || unit == "kHz"@ || unit
        == "KHz"@)
    ||| hertz == 1_000_000 && (unit == "M"@ || unit == "MH"@ || unit == "MHz"@)
    ||| hertz == 1_000_000_000 && (unit == "G"@ || unit == "GH"@ || unit == "GHz"@)
}

/// A whole number of gigahertz, megahertz, kilohertz or hertz stands for that
/// many of them, whether the unit is written out or as its first letter.
pub proof fn law_documented_units(n: nat, unit: Seq<char>, hertz: nat)
    requires
        documented_unit(unit, hertz),
        n * hertz <= u64::MAX,
    ensures
        frequency_of(text::decimal(n) + unit) == Ok::<u64, FrequencyError>((n * hertz) as u64),
{
    lemma_documented_unit(unit, hertz);
    law_number_with_unit(n, unit, hertz);
}

proof fn lemma_documented_unit(unit: Seq<char>, hertz: nat)
    requires
        documented_unit(unit, hertz),
    ensures
        forall|i: int| 0 <= i < unit.len() ==> text::is_letter(#[trigger] unit[i]),
        unit_hertz(text::lower(unit)) == Some(hertz),
{
    reveal_strlit("");
    reveal_strlit("H");
    reveal_strlit("Hz");
    reveal_strlit("K");
    reveal_strlit("k");
    reveal_strlit("kHz");
    reveal_strlit("KHz");
    reveal_strlit("M");
    reveal_strlit("MHz");
    reveal_strlit("G");
    reveal_strlit("GHz");
    reveal_strlit("kH");
    reveal_strlit("MH");
    reveal_strlit("GH");
    reveal_strlit("h");
    reveal_strlit("hz");
    reveal_strlit("khz");
    reveal_strlit("m");
    reveal_strlit("mhz");
    reveal_strlit("g");
    reveal_strlit("ghz");
    reveal_strlit("kh");
    reveal_strlit("mh");
    reveal_strlit("gh");
    let l = text::lower(unit);
    if hertz == 1 {
        assert(unit == "H"@ ==> l =~= "h"@);
        assert(unit == "Hz"@ ==> l =~= "hz"@);
    } else if hertz == 1_000 {
        assert(unit == "K"@ || unit == "k"@ ==> l =~= "k"@);
        assert(unit == "kH"@ ==> l =~= "kh"@);
        assert(unit == "kHz"@ || unit == "KHz"@ ==> l =~= "khz"@);
    } else if hertz == 1_000_000 {
        assert(unit == "M"@ ==> l =~= "m"@);
        assert(unit == "MH"@ ==> l =~= "mh"@);
        assert(unit == "MHz"@ ==> l =~= "mhz"@);
    } else {
        assert(unit == "G"@ ==> l =~= "g"@);
        assert(unit == "GH"@ ==> l =~= "gh"@);
        assert(unit == "GHz"@ ==> l =~= "ghz"@);
    }
    assert(l.len() == unit.len());
    lemma_units_apart(l);
}

/// A unit has one first letter and one length.
proof fn lemma_units_apart(l: Seq<char>)
    ensures
        l == "h"@ || l == "hz"@ ==> unit_hertz(l) == Some(1nat),
        l.len() == 0 ==> unit_hertz(l) == Some(1nat),
        l == "k"@ || l == "kh"@ || l == "khz"@ ==> unit_hertz(l) == Some(1_000nat),
        l == "m"@ || l == "mh"@ || l == "mhz"@ ==> unit_hertz(l) == Some(1_000_000nat),
        l == "g"@ || l == "gh"@ || l == "ghz"@ ==> unit_hertz(l) == Some(1_000_000_000nat),
{
    reveal_strlit("h");
    reveal_strlit("hz");
    reveal_strlit("k");
    reveal_strlit("kh");
    reveal_strlit("khz");
    reveal_strlit("m");
    reveal_strlit("mh");
    reveal_strlit("mhz");
    reveal_strlit("g");
    reveal_strlit("gh");
    reveal_strlit("ghz");
    if l.len() == 0 {
        assert(l =~= Seq::<char>::empty());
    } else {
        assert(l != Seq::<char>::empty());
        assert(l == "h"@ || l == "hz"@ ==> l[0] == 'h');
        assert(l == "k"@ || l == "kh"@ || l == "khz"@ ==> l[0] == 'k');
        assert(l == "m"@ || l == "mh"@ || l == "mhz"@ ==> l[0] == 'm');
        assert(l == "g"@ || l == "gh"@ || l == "ghz"@ ==> l[0] == 'g');
    }
}

/// A number with decimal places, white space and a unit stands for exactly that
/// part of the unit, and for nothing if that is no whole number of hertz: with
/// `f` decimal places, `hertz` times ten to the power `f` is the number without
/// its decimal point times the hertz of its unit.
pub proof fn law_number_with_fraction(
    whole: Seq<char>,
    fraction: Seq<char>,
    gap: Seq<char>,
    unit: Seq<char>,
    unit_hz: nat,
)
    requires
        whole.len() > 0,
        text::all_digits(whole),
        0 < fraction.len() <= 38,
        text::all_digits(fraction),
        forall|i: int| 0 <= i < gap.len() ==> #[trigger] gap[i] == ' ',
        unit.len() == 0 ==> gap.len() == 0,
        documented_unit(unit, unit_hz),
        text::digits_value(whole + fraction) * unit_hz <= u128::MAX,
    ensures
        ({
            let digits = text::digits_value(whole + fraction);
            let places = power::pow(10, fraction.len());
            match frequency_of(whole + seq!['.'] + fraction + gap + unit) {
                Ok(hertz) => hertz * places == digits * unit_hz,
                Err(FrequencyError::NotWholeHertz) => (digits * unit_hz) as int % places != 0,
                Err(FrequencyError::TooLarge) => (digits * unit_hz) as int / places > u64::MAX,
                Err(_) => false,
            }
        }),
{
    let number = whole + seq!['.'] + fraction;
    let s = number + gap + unit;
    assert(whole + seq!['.'] + fraction + gap + unit =~= s);
    lemma_documented_unit(unit, unit_hz);
    assert(s[0] == whole[0] && text::is_digit(whole[0]));
    assert(!text::is_space(s.last())) by {
        if unit.len() > 0 {
            assert(s.last() == unit[unit.len() - 1]);
            assert(text::is_letter(unit[unit.len() - 1]));
        } else {
            assert(s.last() == fraction[fraction.len() - 1]);
            assert(text::is_digit(fraction[fraction.len() - 1]));
        }
    }
    text::law_trim_leaves_clean_text(s);
    let cut = (number + gap).len() as int;
    assert forall|j: int| 0 <= j < cut implies !text::is_letter(s[j]) by {
        if j < whole.len() {
            assert(s[j] == whole[j] && text::is_digit(whole[j]));
        } else if j == whole.len() {
            assert(s[j] == '.');
        } else if j < number.len() {
            assert(s[j] == fraction[j - whole.len() - 1]);
            assert(text::is_digit(fraction[j - whole.len() - 1]));
        } else {
            assert(s[j] == gap[j - number.len()]);
        }
    }
    if unit.len() > 0 {
        assert(s[cut] == unit[0]);
    }
    text::lemma_letter_position(s, cut);
    assert(s.take(cut) =~= number + gap);
    assert(s.skip(cut) =~= unit);
    lemma_unit_of_letters(unit);
    assert(number.last() == fraction[fraction.len() - 1]);
    assert(text::is_digit(fraction[fraction.len() - 1]));
    assert(number[0] == whole[0]);
    lemma_trim_gap(number, gap);
    assert(number_of(s) == number);
    assert forall|j: int| 0 <= j < whole.len() implies number[j] != '.' by {
        assert(number[j] == whole[j] && text::is_digit(whole[j]));
    }
    text::lemma_position(number, '.', whole.len() as int);
    assert(whole_part(number) =~= whole);
    assert(fraction_part(number) =~= fraction);
    text::law_place_value(whole, fraction);
    lemma_power_bound(fraction.len());
    let digits = text::digits_value(whole + fraction);
    let w = text::digits_value(whole) as int;
    let f = text::digits_value(fraction) as int;
    let d = power::pow(10, fraction.len());
    assert(undivided(number) == digits);
    assert(digits <= digits * unit_hz && w <= w * d) by (nonlinear_arith)
        requires
            unit_hz >= 1,
            d >= 1,
            w >= 0,
            digits >= 0,
    ;
    let scaled = (digits * unit_hz) as int;
    assert(scaled / d <= scaled && scaled == d * (scaled / d) + scaled % d) by (nonlinear_arith)
        requires
            d >= 1,
            scaled >= 0,
    ;
    assert((scaled / d) * d == d * (scaled / d)) by (nonlinear_arith);
}

/// Spaces behind a clean text are trimmed.
proof fn lemma_trim_gap(s: Seq<char>, gap: Seq<char>)
    requires
        s.len() > 0,
        !text::is_space(s[0]),
        !text::is_space(s.last()),
        forall|i: int| 0 <= i < gap.len() ==> #[trigger] gap[i] == ' ',
    ensures
        text::trim(s + gap) == s,
    decreases gap.len(),
{
    if gap.len() == 0 {
        assert(s + gap =~= s);
        text::law_trim_leaves_clean_text(s);
    } else {
        let shorter = gap.drop_last();
        assert forall|i: int| 0 <= i < shorter.len() implies #[trigger] shorter[i] == ' ' by {
            assert(shorter[i] == gap[i]);
        }
        lemma_trim_gap(s, shorter);
        assert((s + gap).last() == gap[gap.len() - 1]);
        assert((s + gap).drop_last() =~= s + shorter);
        assert(text::trim_start(s + gap) == s + gap);
        assert(text::trim_start(s + shorter) == s + shorter);
    }
}

/// A text that starts with digits and goes on with a letter that starts none of
/// the units is refused, and so is one that is blank.
pub proof fn law_other_units_are_refused(digits: Seq<char>, unit: Seq<char>)
    requires
        text::all_digits(digits),
        digits.len() > 0,
        unit.len() > 0,
        forall|i: int| 0 <= i < unit.len() ==> text::is_letter(#[trigger] unit[i]),
        !(text::lower(unit)[0] == 'h' || text::lower(unit)[0] == 'k' || text::lower(unit)[0] == 'm'
            || text::lower(unit)[0] == 'g') || unit.len() > 3,
    ensures
        frequency_of(digits + unit) == Err::<u64, FrequencyError>(FrequencyError::UnknownSuffix),
{
    let s = digits + unit;
    assert(s[0] == digits[0] && text::is_digit(digits[0]));
    assert(s.last() == unit[unit.len() - 1]);
    assert(text::is_letter(unit[unit.len() - 1]));
    text::law_trim_leaves_clean_text(s);
    assert forall|j: int| 0 <= j < digits.len() implies !text::is_letter(s[j]) by {
        assert(text::is_digit(digits[j]));
    }
    assert(s[digits.len() as int] == unit[0]);
    text::lemma_letter_position(s, digits.len() as int);
    assert(s.skip(digits.len() as int) =~= unit);
    lemma_unit_of_letters(unit);
    let l = text::lower(unit);
    assert(l.len() == unit.len());
    reveal_strlit("h");
    reveal_strlit("hz");
    reveal_strlit("k");
    reveal_strlit("kh");
    reveal_strlit("khz");
    reveal_strlit("m");
    reveal_strlit("mh");
    reveal_strlit("mhz");
    reveal_strlit("g");
    reveal_strlit("gh");
    reveal_strlit("ghz");
    assert(l != Seq::<char>::empty());
    assert(l == "h"@ || l == "hz"@ ==> l[0] == 'h' && l.len() <= 3);
    assert(l == "k"@ || l == "kh"@ || l == "khz"@ ==> l[0] == 'k' && l.len() <= 3);
    assert(l == "m"@ || l == "mh"@ || l == "mhz"@ ==> l[0] == 'm' && l.len() <= 3);
    assert(l == "g"@ || l == "gh"@ || l == "ghz"@ ==> l[0] == 'g' && l.len() <= 3);
}

/// A whole number of units that is more hertz than can be counted is refused as
/// too large, however large it is.
pub proof fn law_large_frequencies_are_refused(n: nat, unit: Seq<char>, hertz: nat)
    requires
        documented_unit(unit, hertz),
        n * hertz > u64::MAX,
    ensures
        frequency_of(text::decimal(n) + unit) == Err::<u64, FrequencyError>(
            FrequencyError::TooLarge,
        ),
{
    lemma_documented_unit(unit, hertz);
    let number = text::decimal(n);
    let s = number + unit;
    text::law_decimal_reads_back(n);
    lemma_number_then_letters(number, unit);
    power::lemma_pow0(10);
    assert(text::digits_value(fraction_part(number)) == 0);
    let d = divisor(number);
    assert(d == 1);
    assert(n * d == n) by (nonlinear_arith)
        requires
            d == 1,
    ;
    assert(undivided(number) == n);
}

/// Digits followed by letters are read as a number and its unit.
proof fn lemma_number_then_letters(number: Seq<char>, unit: Seq<char>)
    requires
        number.len() > 0,
        text::all_digits(number),
        forall|i: int| 0 <= i < unit.len() ==> text::is_letter(#[trigger] unit[i]),
    ensures
        text::trim(number + unit).len() > 0,
        number_of(number + unit) == number,
        suffix_of(number + unit) == text::lower(unit),
        whole_part(number) == number,
        !has_fraction(number),
        fraction_part(number) == Seq::<char>::empty(),
{
    let s = number + unit;
    assert(s[0] == number[0] && text::is_digit(number[0]));
    assert(!text::is_space(s.last())) by {
        if unit.len() > 0 {
            assert(s.last() == unit[unit.len() - 1]);
        } else {
            assert(s.last() == number[number.len() - 1]);
        }
    }
    text::law_trim_leaves_clean_text(s);
    assert forall|j: int| 0 <= j < number.len() implies !text::is_letter(s[j]) by {
        assert(text::is_digit(number[j]));
    }
    if unit.len() > 0 {
        assert(s[number.len() as int] == unit[0]);
    }
    text::lemma_letter_position(s, number.len() as int);
    assert(s.take(number.len() as int) =~= number);
    assert(s.skip(number.len() as int) =~= unit);
    assert(text::is_digit(number[number.len() - 1]));
    text::law_trim_leaves_clean_text(number);
    lemma_unit_of_letters(unit);
    assert forall|j: int| 0 <= j < number.len() implies number[j] != '.' by {
        assert(text::is_digit(number[j]));
    }
    text::lemma_position(number, '.', number.len() as int);
    assert(whole_part(number) =~= number);
    assert(fraction_part(number) =~= Seq::empty());
}

/// A frequency is empty exactly if it is nothing but white space.
pub proof fn law_empty_frequencies(s: Seq<char>)
    ensures
        frequency_of(s) == Err::<u64, FrequencyError>(FrequencyError::Empty) <==> forall|i: int|
            0 <= i < s.len() ==> text::is_space(#[trigger] s[i]),
{
    text::law_blank_text(s);
}

/// A frequency that stands for something starts, but for white space, with a
/// digit, and what stands before its first letter is digits with one decimal
/// point among them at most.
pub proof fn law_frequencies_are_numbers(s: Seq<char>)
    requires
        frequency_of(s) is Ok,
    ensures
        number_of(s).len() > 0,
        text::is_digit(number_of(s)[0]),
        text::is_digit(number_of(s).last()),
        forall|i: int, j: int|
            0 <= i < j < number_of(s).len() && !text::is_digit(#[trigger] number_of(s)[i])
                ==> text::is_digit(#[trigger] number_of(s)[j]),
        forall|i: int|
            0 <= i < number_of(s).len() && !text::is_digit(#[trigger] number_of(s)[i])
                ==> number_of(s)[i] == '.',
{
    let number = number_of(s);
    let point = text::position(number, '.');
    text::lemma_position_found(number, '.');
    let whole = whole_part(number);
    let fraction = fraction_part(number);
    assert(whole[0] == number[0]);
    assert forall|i: int| 0 <= i < number.len() && i != point implies text::is_digit(
        #[trigger] number[i],
    ) by {
        if i < point {
            assert(whole[i] == number[i]);
        } else {
            assert(fraction[i - point - 1] == number[i]);
        }
    }
    if point < number.len() {
        assert(number.last() == fraction[fraction.len() - 1]);
        assert(number[number.len() - 1] == number.last());
    } else {
        assert(whole[whole.len() - 1] == number.last());
    }
}

/// Digits, leading zeros among them, white space and a unit stand for that many
/// units.
pub proof fn law_digits_with_unit(
    digits: Seq<char>,
    gap: Seq<char>,
    unit: Seq<char>,
    hertz: nat,
)
    requires
        digits.len() > 0,
        text::all_digits(digits),
        forall|i: int| 0 <= i < gap.len() ==> #[trigger] gap[i] == ' ',
        unit.len() == 0 ==> gap.len() == 0,
        documented_unit(unit, hertz),
        text::digits_value(digits) * hertz <= u64::MAX,
    ensures
        frequency_of(digits + gap + unit) == Ok::<u64, FrequencyError>(
            (text::digits_value(digits) * hertz) as u64,
        ),
{
    lemma_documented_unit(unit, hertz);
    let s = digits + gap + unit;
    assert(s[0] == digits[0] && text::is_digit(digits[0]));
    assert(!text::is_space(s.last())) by {
        if unit.len() > 0 {
            assert(s.last() == unit[unit.len() - 1]);
            assert(text::is_letter(unit[unit.len() - 1]));
        } else {
            assert(s.last() == digits[digits.len() - 1]);
            assert(text::is_digit(digits[digits.len() - 1]));
        }
    }
    text::law_trim_leaves_clean_text(s);
    let cut = (digits + gap).len() as int;
    assert forall|j: int| 0 <= j < cut implies !text::is_letter(s[j]) by {
        if j < digits.len() {
            assert(s[j] == digits[j] && text::is_digit(digits[j]));
        } else {
            assert(s[j] == gap[j - digits.len()]);
        }
    }
    if unit.len() > 0 {
        assert(s[cut] == unit[0]);
    }
    text::lemma_letter_position(s, cut);
    assert(s.take(cut) =~= digits + gap);
    assert(s.skip(cut) =~= unit);
    assert(text::is_digit(digits[digits.len() - 1]));
    lemma_trim_gap(digits, gap);
    lemma_number_then_letters(digits, unit);
    lemma_unit_of_letters(unit);
    let n = text::digits_value(digits);
    power::lemma_pow0(10);
    assert(text::digits_value(fraction_part(digits)) == 0);
    let d = divisor(digits);
    assert(d == 1);
    assert(n * d == n) by (nonlinear_arith)
        requires
            d == 1,
    ;
    assert(n <= n * hertz) by (nonlinear_arith)
        requires
            hertz >= 1,
    ;
}

/// Wherever they stand in a unit, tabs, line feeds, form feeds, carriage returns
/// and spaces are left out, upper case letters become lower case ones, and all
/// else stays.
pub proof fn law_unit_is_read_character_by_character(left: Seq<char>, c: char, right: Seq<char>)
    ensures
        unit_of(left + seq![c] + right) == unit_of(left) + (if c as int == 9 || c as int == 10
            || c as int == 12 || c as int == 13 || c as int == 32 {
            Seq::<char>::empty()
        } else if 65 <= c as int <= 90 {
            seq![(c as int + 32) as char]
        } else {
            seq![c]
        }) + unit_of(right),
        unit_of(Seq::empty()) == Seq::<char>::empty(),
    decreases right.len(),
{
    let all = left + seq![c] + right;
    let middle = if text::is_ascii_space(c) {
        Seq::<char>::empty()
    } else {
        seq![text::lower_char(c)]
    };
    if right.len() == 0 {
        assert(all.drop_last() =~= left);
        assert(all.last() == c);
        assert(unit_of(all) =~= unit_of(left) + middle + unit_of(right));
    } else {
        law_unit_is_read_character_by_character(left, c, right.drop_last());
        assert(all.drop_last() =~= left + seq![c] + right.drop_last());
        assert(all.last() == right.last());
        assert(unit_of(all) =~= unit_of(left) + middle + unit_of(right));
    }
}

/// Text without letters, clean at its ends, is what stands before a unit.
proof fn lemma_text_then_letters(number: Seq<char>, unit: Seq<char>)
    requires
        forall|i: int| 0 <= i < number.len() ==> !text::is_letter(#[trigger] number[i]),
        number.len() > 0 ==> !text::is_space(number[0]) && !text::is_space(number.last()),
        forall|i: int| 0 <= i < unit.len() ==> text::is_letter(#[trigger] unit[i]),
        number.len() + unit.len() > 0,
    ensures
        text::trim(number + unit).len() > 0,
        number_of(number + unit) == number,
        suffix_of(number + unit) == text::lower(unit),
{
    let s = number + unit;
    assert(!text::is_space(s[0])) by {
        if number.len() > 0 {
            assert(s[0] == number[0]);
        } else {
            assert(s[0] == unit[0]);
        }
    }
    assert(!text::is_space(s.last())) by {
        if unit.len() > 0 {
            assert(s.last() == unit[unit.len() - 1]);
        } else {
            assert(s.last() == number.last());
        }
    }
    text::law_trim_leaves_clean_text(s);
    assert forall|j: int| 0 <= j < number.len() implies !text::is_letter(s[j]) by {
        assert(s[j] == number[j]);
    }
    if unit.len() > 0 {
        assert(s[number.len() as int] == unit[0]);
    }
    text::lemma_letter_position(s, number.len() as int);
    assert(s.take(number.len() as int) =~= number);
    assert(s.skip(number.len() as int) =~= unit);
    text::law_trim_leaves_clean_text(number);
    lemma_unit_of_letters(unit);
}

/// What stands before a unit and is no number is refused: nothing at all, a
/// character that is neither a digit nor a decimal point, a decimal point at an
/// end, or a second decimal point.
pub proof fn law_other_numbers_are_refused(number: Seq<char>, unit: Seq<char>, hertz: nat, at: int)
    requires
        documented_unit(unit, hertz),
        number.len() + unit.len() > 0,
        forall|i: int| 0 <= i < number.len() ==> !text::is_letter(#[trigger] number[i]),
        number.len() > 0 ==> !text::is_space(number[0]) && !text::is_space(number.last()),
        ({
            ||| number.len() == 0
            ||| number[0] == '.'
            ||| number.last() == '.'
            ||| 0 <= at < number.len() && !text::is_digit(number[at]) && number[at] != '.'
            ||| 0 <= at < number.len() && number[at] == '.' && number.take(at).contains('.')
        }),
    ensures
        frequency_of(number + unit) == Err::<u64, FrequencyError>(FrequencyError::NotDecimal),
{
    lemma_documented_unit(unit, hertz);
    lemma_text_then_letters(number, unit);
    let point = text::position(number, '.');
    text::lemma_position_found(number, '.');
    let whole = whole_part(number);
    let fraction = fraction_part(number);
    if is_decimal(number) {
        assert(whole[0] == number[0]);
        assert(text::is_digit(whole[0]));
        if number.last() == '.' {
            if point == number.len() - 1 {
                assert(fraction.len() == 0);
            } else if point < number.len() {
                assert(fraction[fraction.len() - 1] == number.last());
                assert(text::is_digit(fraction[fraction.len() - 1]));
            }
        }
        if 0 <= at < number.len() {
            if at < point {
                assert(whole[at] == number[at]);
                assert(text::is_digit(whole[at]));
            } else if at > point {
                assert(fraction[at - point - 1] == number[at]);
                assert(text::is_digit(fraction[at - point - 1]));
            } else if number.take(at).contains('.') {
                let k = choose|k: int|
                    0 <= k < number.take(at).len() && number.take(at)[k] == '.';
                assert(number[k] == '.');
            }
        }
    }
}

/// More than 38 decimal places are refused, whatever they are.
pub proof fn law_decimal_places_are_limited(
    whole: Seq<char>,
    fraction: Seq<char>,
    unit: Seq<char>,
    hertz: nat,
)
    requires
        whole.len() > 0,
        text::all_digits(whole),
        text::digits_value(whole) <= u128::MAX,
        fraction.len() > 38,
        text::all_digits(fraction),
        documented_unit(unit, hertz),
    ensures
        frequency_of(whole + seq!['.'] + fraction + unit) == Err::<u64, FrequencyError>(
            FrequencyError::TooManyDecimalPlaces,
        ),
{
    let number = whole + seq!['.'] + fraction;
    lemma_documented_unit(unit, hertz);
    assert forall|j: int| 0 <= j < number.len() implies !text::is_letter(#[trigger] number[j]) by {
        if j < whole.len() {
            assert(number[j] == whole[j] && text::is_digit(whole[j]));
        } else if j > whole.len() {
            assert(number[j] == fraction[j - whole.len() - 1]);
            assert(text::is_digit(fraction[j - whole.len() - 1]));
        }
    }
    assert(number[0] == whole[0] && text::is_digit(whole[0]));
    assert(number.last() == fraction[fraction.len() - 1]);
    assert(text::is_digit(fraction[fraction.len() - 1]));
    lemma_text_then_letters(number, unit);
    assert forall|j: int| 0 <= j < whole.len() implies number[j] != '.' by {
        assert(number[j] == whole[j] && text::is_digit(whole[j]));
    }
    text::lemma_position(number, '.', whole.len() as int);
    assert(whole_part(number) =~= whole);
    assert(fraction_part(number) =~= fraction);
}

/// An error shows the frequency that it is about, unless there is none.
pub proof fn law_errors_show_the_frequency(error: FrequencyError, quoted: Seq<char>)
    requires
        error != FrequencyError::Empty,
    ensures
        text::starts_with(error.text(quoted), "frequency "@ + quoted + seq![' ']),
{
    reveal_strlit("frequency ");
    reveal_strlit(" has an unknown suffix; use H, K, M, G, Hz, kHz, MHz, or GHz");
    reveal_strlit(" is not a valid decimal number");
    reveal_strlit(" is too large");
    reveal_strlit(" has too many decimal places");
    reveal_strlit(" does not resolve to a whole number of hertz");
    let start = "frequency "@ + quoted + seq![' '];
    assert(error.text(quoted).take(start.len() as int) =~= start);
}

} // verus!
