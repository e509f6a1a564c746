//! Text as sequences of characters: trimming, searching, splitting into lines
//! and writing numbers.
//!
//! A `&str` is read once into a vector of characters; every other function
//! here works on slices of such a vector.
use vstd::prelude::*;
use vstd::slice::slice_subrange;

verus! {

/// `String::push` appends one character and leaves the others as they were.
pub assume_specification[ String::push ](destination: &mut String, c: char)
    ensures
        final(destination)@ == old(destination)@.push(c),
;

/// `String::from_utf8`: the text that the bytes encode, or none if they are
/// not valid UTF-8.
#[verifier::external_body]
pub(crate) fn utf8_text(bytes: &Vec<u8>) -> (decoded: Option<String>)
    ensures
        match decoded {
            Some(decoded) => vstd::utf8::valid_utf8(bytes@) && decoded@
                == vstd::utf8::decode_utf8(bytes@),
            None => !vstd::utf8::valid_utf8(bytes@),
        },
{
    String::from_utf8(bytes.clone()).ok()
}

// ---------------------------------------------------------------------------
// Meaning
// ---------------------------------------------------------------------------
/// The characters with the Unicode property `White_Space`.
pub open spec fn is_space(c: char) -> bool {
    ||| '\u{9}' <= c <= '\u{d}'
    ||| c == ' '
    ||| c == '\u{85}'
    ||| c == '\u{a0}'
    ||| c == '\u{1680}'
    ||| '\u{2000}' <= c <= '\u{200a}'
    ||| c == '\u{2028}'
    ||| c == '\u{2029}'
    ||| c == '\u{202f}'
    ||| c == '\u{205f}'
    ||| c == '\u{3000}'
}

/// The ASCII white space characters: tab, line feed, form feed, carriage
/// return and space.
pub open spec fn is_ascii_space(c: char) -> bool {
    c == ' ' || c == '\t' || c == '\n' || c == '\u{c}' || c == '\r'
}

pub open spec fn is_letter(c: char) -> bool {
    'a' <= c <= 'z' || 'A' <= c <= 'Z'
}

pub open spec fn is_digit(c: char) -> bool {
    '0' <= c <= '9'
}

/// `s` without its leading white space.
pub open spec fn trim_start(s: Seq<char>) -> Seq<char>
    decreases s.len(),
{
    if s.len() > 0 && is_space(s[0]) {
        trim_start(s.drop_first())
    } else {
        s
    }
}

/// `s` without its trailing white space.
pub open spec fn trim_end(s: Seq<char>) -> Seq<char>
    decreases s.len(),
{
    if s.len() > 0 && is_space(s.last()) {
        trim_end(s.drop_last())
    } else {
        s
    }
}

/// `s` without white space at either end.
pub open spec fn trim(s: Seq<char>) -> Seq<char> {
    trim_end(trim_start(s))
}

/// The position of the first `c` in `s`, or the length of `s` if there is none.
pub open spec fn position(s: Seq<char>, c: char) -> int
    decreases s.len(),
{
    if s.len() == 0 || s[0] == c {
        0
    } else {
        1 + position(s.drop_first(), c)
    }
}

/// The position of the first ASCII letter of `s`, or its length.
pub open spec fn letter_position(s: Seq<char>) -> int
    decreases s.len(),
{
    if s.len() == 0 || is_letter(s[0]) {
        0
    } else {
        1 + letter_position(s.drop_first())
    }
}

pub open spec fn starts_with(s: Seq<char>, prefix: Seq<char>) -> bool {
    prefix.len() <= s.len() && s.take(prefix.len() as int) == prefix
}

pub open spec fn ends_with(s: Seq<char>, suffix: Seq<char>) -> bool {
    suffix.len() <= s.len() && s.skip(s.len() - suffix.len()) == suffix
}

/// `part` occurs somewhere in `s`.
pub open spec fn occurs(s: Seq<char>, part: Seq<char>) -> bool {
    exists|i: int| #[trigger] occurs_at(s, part, i)
}

/// `part` stands in `s` at position `i`.
pub open spec fn occurs_at(s: Seq<char>, part: Seq<char>, i: int) -> bool {
    0 <= i <= s.len() - part.len() && s.subrange(i, i + part.len()) == part
}

pub open spec fn lower_char(c: char) -> char {
    if 'A' <= c <= 'Z' {
        (c as int + 32) as char
    } else {
        c
    }
}

/// `s` with each ASCII upper case letter replaced by its lower case one.
pub open spec fn lower(s: Seq<char>) -> Seq<char> {
    s.map_values(|c: char| lower_char(c))
}

/// The lines of `s`, each with the line feed that ends it. Only the last line
/// may lack one.
pub open spec fn lines(s: Seq<char>) -> Seq<Seq<char>>
    decreases s.len(),
{
    if s.len() == 0 {
        Seq::empty()
    } else {
        proof {
            lemma_position_found(s, '\n');
        }
        let end = line_end(s);
        seq![s.take(end)] + lines(s.skip(end))
    }
}

/// Where the first line of `s` ends, its line feed included.
pub open spec fn line_end(s: Seq<char>) -> int {
    if position(s, '\n') < s.len() {
        position(s, '\n') + 1
    } else {
        s.len() as int
    }
}

/// All of `parts`, one after the other.
pub open spec fn concat(parts: Seq<Seq<char>>) -> Seq<char>
    decreases parts.len(),
{
    if parts.len() == 0 {
        Seq::empty()
    } else {
        concat(parts.drop_last()) + parts.last()
    }
}

/// All of `parts`, with `separator` between each two of them.
pub open spec fn join(parts: Seq<Seq<char>>, separator: Seq<char>) -> Seq<char>
    decreases parts.len(),
{
    if parts.len() == 0 {
        Seq::empty()
    } else if parts.len() == 1 {
        parts[0]
    } else {
        join(parts.drop_last(), separator) + separator + parts.last()
    }
}

/// The views of a sequence of strings.
pub open spec fn views(strings: Seq<String>) -> Seq<Seq<char>> {
    strings.map_values(|s: String| s@)
}

/// The digit that stands for `n`, which is below sixteen.
pub open spec fn digit(n: int) -> char {
    if n < 10 {
        ('0' as int + n) as char
    } else {
        ('a' as int + n - 10) as char
    }
}

/// `n` in decimal, without leading zeros.
pub open spec fn decimal(n: nat) -> Seq<char>
    decreases n,
{
    if n < 10 {
        seq![digit(n as int)]
    } else {
        decimal(n / 10).push(digit((n % 10) as int))
    }
}

pub open spec fn all_digits(s: Seq<char>) -> bool {
    forall|i: int| 0 <= i < s.len() ==> is_digit(#[trigger] s[i])
}

/// The number that the decimal digits `s` stand for.
pub open spec fn digits_value(s: Seq<char>) -> nat
    decreases s.len(),
{
    if s.len() == 0 {
        0
    } else {
        digits_value(s.drop_last()) * 10 + (s.last() as int - '0' as int) as nat
    }
}

/// The lowest `width` hexadecimal digits of `n`, in lower case.
pub open spec fn hex(n: nat, width: nat) -> Seq<char>
    decreases width,
{
    if width == 0 {
        Seq::empty()
    } else {
        hex(n / 16, (width - 1) as nat).push(digit((n % 16) as int))
    }
}

/// `s` preceded by as many spaces as bring it to `width` characters.
pub open spec fn pad_start(s: Seq<char>, width: nat) -> Seq<char> {
    if s.len() < width {
        spaces((width - s.len()) as nat) + s
    } else {
        s
    }
}

pub open spec fn spaces(count: nat) -> Seq<char> {
    Seq::new(count, |i: int| ' ')
}

/// The code units of ASCII text.
pub open spec fn ascii(s: Seq<char>) -> Seq<u8> {
    s.map_values(|c: char| c as u8)
}

// ---------------------------------------------------------------------------
// Characters
// ---------------------------------------------------------------------------
pub fn space(c: char) -> (answer: bool)
    ensures
        answer == is_space(c),
{
    ('\u{9}' <= c && c <= '\u{d}') || c == ' ' || c == '\u{85}' || c == '\u{a0}' || c == '\u{1680}'
        || ('\u{2000}' <= c && c <= '\u{200a}') || c == '\u{2028}' || c == '\u{2029}' || c
        == '\u{202f}' || c == '\u{205f}' || c == '\u{3000}'
}

pub fn ascii_space(c: char) -> (answer: bool)
    ensures
        answer == is_ascii_space(c),
{
    c == ' ' || c == '\t' || c == '\n' || c == '\u{c}' || c == '\r'
}

pub fn letter(c: char) -> (answer: bool)
    ensures
        answer == is_letter(c),
{
    ('a' <= c && c <= 'z') || ('A' <= c && c <= 'Z')
}

pub fn lower_of(c: char) -> (lowered: char)
    ensures
        lowered == lower_char(c),
{
    if 'A' <= c && c <= 'Z' {
        ((c as u8) + 32) as char
    } else {
        c
    }
}

fn digit_of(n: u8) -> (c: char)
    requires
        n < 16,
    ensures
        c == digit(n as int),
{
    if n < 10 {
        (48 + n) as char
    } else {
        (87 + n) as char
    }
}

// ---------------------------------------------------------------------------
// Reading text
// ---------------------------------------------------------------------------
/// The characters of `text`, one vector element each.
pub fn chars_of(text: &str) -> (chars: Vec<char>)
    ensures
        chars@ == text@,
{
    let mut chars: Vec<char> = Vec::new();
    for c in it: text.chars()
        invariant
            chars@ == it.seq().take(it.index() as int),
            it.seq() == text@,
    {
        chars.push(c);
    }
    chars
}

/// Whether the characters `s` are those of `text`.
pub fn same(s: &[char], text: &str) -> (answer: bool)
    ensures
        answer == (s@ == text@),
{
    let mut i: usize = 0;
    for c in it: text.chars()
        invariant
            it.seq() == text@,
            i == it.index(),
            i <= s@.len(),
            forall|j: int| 0 <= j < i ==> s@[j] == text@[j],
    {
        if i >= s.len() || s[i] != c {
            proof {
                assert(it.index() < text@.len());
                assert(text@[i as int] == c);
            }
            return false;
        }
        i = i + 1;
    }
    proof {
        if i == s@.len() {
            assert(s@ =~= text@);
        }
    }
    i == s.len()
}

/// Whether two texts hold the same characters.
pub fn equal(left: &str, right: &str) -> (answer: bool)
    ensures
        answer == (left@ == right@),
{
    let chars: Vec<char> = chars_of(left);
    same(chars.as_slice(), right)
}

pub fn begins(s: &[char], prefix: &str) -> (answer: bool)
    ensures
        answer == starts_with(s@, prefix@),
{
    let length: usize = chars_of(prefix).len();
    if s.len() < length {
        return false;
    }
    let head: &[char] = slice_subrange(s, 0, length);
    assert(head@ == s@.take(prefix@.len() as int));
    same(head, prefix)
}

pub fn finishes(s: &[char], suffix: &str) -> (answer: bool)
    ensures
        answer == ends_with(s@, suffix@),
{
    let length: usize = chars_of(suffix).len();
    if s.len() < length {
        return false;
    }
    let tail: &[char] = slice_subrange(s, s.len() - length, s.len());
    assert(tail@ == s@.skip(s@.len() - suffix@.len()));
    same(tail, suffix)
}

/// Whether `part` occurs somewhere in `s`.
pub fn includes(s: &[char], part: &str) -> (answer: bool)
    ensures
        answer == occurs(s@, part@),
{
    let length: usize = chars_of(part).len();
    if s.len() < length {
        return false;
    }
    let last: usize = s.len() - length;
    let mut i: usize = 0;
    while i <= last
        invariant
            length == part@.len(),
            length <= s.len(),
            last == s.len() - length,
            i <= last + 1,
            forall|j: int| 0 <= j < i ==> !occurs_at(s@, part@, j),
        decreases last + 1 - i,
    {
        if same(slice_subrange(s, i, i + length), part) {
            assert(occurs_at(s@, part@, i as int));
            return true;
        }
        if i == last {
            assert(forall|j: int| 0 <= j <= last ==> !occurs_at(s@, part@, j));
            return false;
        }
        i = i + 1;
    }
    false
}

pub proof fn lemma_position(s: Seq<char>, c: char, i: int)
    requires
        0 <= i <= s.len(),
        forall|j: int| 0 <= j < i ==> s[j] != c,
        i < s.len() ==> s[i] == c,
    ensures
        position(s, c) == i,
    decreases i,
{
    if i > 0 {
        lemma_position(s.drop_first(), c, i - 1);
    }
}

/// What `position` finds.
pub proof fn lemma_position_found(s: Seq<char>, c: char)
    ensures
        0 <= position(s, c) <= s.len(),
        forall|j: int| 0 <= j < position(s, c) ==> s[j] != c,
        position(s, c) < s.len() ==> s[position(s, c)] == c,
    decreases s.len(),
{
    if s.len() > 0 && s[0] != c {
        lemma_position_found(s.drop_first(), c);
        assert forall|j: int| 0 <= j < position(s, c) implies s[j] != c by {
            if j > 0 {
                assert(s[j] == s.drop_first()[j - 1]);
            }
        }
    }
}

/// The position of the first `c` in `s`, or the length of `s`.
pub fn find(s: &[char], c: char) -> (i: usize)
    ensures
        i == position(s@, c),
        i <= s@.len(),
{
    let mut i: usize = 0;
    while i < s.len() && s[i] != c
        invariant
            i <= s@.len(),
            forall|j: int| 0 <= j < i ==> s@[j] != c,
        decreases s@.len() - i,
    {
        i = i + 1;
    }
    proof {
        lemma_position(s@, c, i as int);
    }
    i
}

pub proof fn lemma_letter_position(s: Seq<char>, i: int)
    requires
        0 <= i <= s.len(),
        forall|j: int| 0 <= j < i ==> !is_letter(s[j]),
        i < s.len() ==> is_letter(s[i]),
    ensures
        letter_position(s) == i,
    decreases i,
{
    if i > 0 {
        lemma_letter_position(s.drop_first(), i - 1);
    }
}

/// The position of the first ASCII letter of `s`, or its length.
pub fn find_letter(s: &[char]) -> (i: usize)
    ensures
        i == letter_position(s@),
        i <= s@.len(),
{
    let mut i: usize = 0;
    while i < s.len() && !letter(s[i])
        invariant
            i <= s@.len(),
            forall|j: int| 0 <= j < i ==> !is_letter(s@[j]),
        decreases s@.len() - i,
    {
        i = i + 1;
    }
    proof {
        lemma_letter_position(s@, i as int);
    }
    i
}

pub fn trimmed_start(s: &[char]) -> (r: &[char])
    ensures
        r@ == trim_start(s@),
{
    let mut i: usize = 0;
    assert(s@.skip(0) =~= s@);
    while i < s.len() && space(s[i])
        invariant
            i <= s@.len(),
            trim_start(s@) == trim_start(s@.skip(i as int)),
        decreases s@.len() - i,
    {
        proof {
            assert(s@.skip(i as int).drop_first() =~= s@.skip(i + 1));
        }
        i = i + 1;
    }
    let r: &[char] = slice_subrange(s, i, s.len());
    assert(r@ =~= s@.skip(i as int));
    r
}

pub fn trimmed_end(s: &[char]) -> (r: &[char])
    ensures
        r@ == trim_end(s@),
{
    let mut n: usize = s.len();
    assert(s@.take(n as int) =~= s@);
    while n > 0 && space(s[n - 1])
        invariant
            n <= s@.len(),
            trim_end(s@) == trim_end(s@.take(n as int)),
        decreases n,
    {
        proof {
            assert(s@.take(n as int).drop_last() =~= s@.take(n - 1));
        }
        n = n - 1;
    }
    let r: &[char] = slice_subrange(s, 0, n);
    assert(r@ =~= s@.take(n as int));
    r
}

pub fn trimmed(s: &[char]) -> (r: &[char])
    ensures
        r@ == trim(s@),
{
    trimmed_end(trimmed_start(s))
}

/// Whether `text` is nothing but white space.
pub fn blank(text: &str) -> (answer: bool)
    ensures
        answer == (trim(text@).len() == 0),
{
    let chars: Vec<char> = chars_of(text);
    trimmed(chars.as_slice()).len() == 0
}

/// The characters of `s` in lower case.
pub fn lowered(s: &[char]) -> (r: Vec<char>)
    ensures
        r@ == lower(s@),
{
    let mut r: Vec<char> = Vec::new();
    let mut i: usize = 0;
    while i < s.len()
        invariant
            i <= s@.len(),
            r@ =~= lower(s@.take(i as int)),
        decreases s@.len() - i,
    {
        r.push(lower_of(s[i]));
        i = i + 1;
    }
    assert(s@.take(i as int) =~= s@);
    r
}

/// Whether `s` consists of decimal digits.
pub fn only_digits(s: &[char]) -> (answer: bool)
    ensures
        answer == all_digits(s@),
{
    let mut i: usize = 0;
    while i < s.len()
        invariant
            i <= s@.len(),
            forall|j: int| 0 <= j < i ==> is_digit(#[trigger] s@[j]),
        decreases s@.len() - i,
    {
        if !('0' <= s[i] && s[i] <= '9') {
            assert(!is_digit(s@[i as int]));
            return false;
        }
        i = i + 1;
    }
    true
}

/// The number that the digits `s` stand for, if it fits.
pub fn number(s: &[char]) -> (value: Option<u128>)
    requires
        all_digits(s@),
    ensures
        value == if digits_value(s@) <= u128::MAX {
            Some(digits_value(s@) as u128)
        } else {
            None
        },
{
    let mut value: u128 = 0;
    let mut i: usize = 0;
    while i < s.len()
        invariant
            i <= s@.len(),
            all_digits(s@),
            value == digits_value(s@.take(i as int)),
        decreases s@.len() - i,
    {
        let d: u128 = ((s[i] as u32) - 48) as u128;
        proof {
            assert(is_digit(s@[i as int]));
            assert(s@.take(i + 1).drop_last() =~= s@.take(i as int));
            lemma_prefix_value(s@, i + 1);
        }
        let tens: Option<u128> = value.checked_mul(10);
        let next: Option<u128> = match tens {
            Some(t) => t.checked_add(d),
            None => None,
        };
        match next {
            Some(n) => {
                value = n;
            },
            None => {
                return None;
            },
        }
        i = i + 1;
    }
    assert(s@.take(i as int) =~= s@);
    Some(value)
}

/// A prefix of a row of digits stands for no more than the whole row.
proof fn lemma_prefix_value(s: Seq<char>, n: int)
    requires
        0 <= n <= s.len(),
    ensures
        digits_value(s.take(n)) <= digits_value(s),
    decreases s.len(),
{
    if n == s.len() {
        assert(s.take(n) =~= s);
    } else {
        lemma_prefix_value(s.drop_last(), n);
        assert(s.drop_last().take(n) =~= s.take(n));
    }
}

/// The same text once more.
pub fn copy_of(original: &str) -> (copy: String)
    ensures
        copy@ == original@,
{
    let mut copy: String = String::new();
    copy.append(original);
    assert(copy@ =~= original@);
    copy
}

// ---------------------------------------------------------------------------
// Writing text
// ---------------------------------------------------------------------------
/// Appends the characters `s` to `out`.
pub fn push_chars(out: &mut String, s: &[char])
    ensures
        final(out)@ == old(out)@ + s@,
{
    let mut i: usize = 0;
    while i < s.len()
        invariant
            i <= s@.len(),
            out@ =~= old(out)@ + s@.take(i as int),
        decreases s@.len() - i,
    {
        out.push(s[i]);
        i = i + 1;
    }
    assert(s@.take(i as int) =~= s@);
}

pub fn string_of(s: &[char]) -> (text: String)
    ensures
        text@ == s@,
{
    let mut text: String = String::new();
    push_chars(&mut text, s);
    assert(text@ =~= s@);
    text
}

/// Appends `n` in decimal to `out`.
pub fn push_decimal(out: &mut String, n: u128)
    ensures
        final(out)@ == old(out)@ + decimal(n as nat),
    decreases n,
{
    if n >= 10 {
        push_decimal(out, n / 10);
    }
    out.push(digit_of((n % 10) as u8));
    assert(out@ =~= old(out)@ + decimal(n as nat));
}

/// `n` in decimal.
pub fn decimal_of(n: u128) -> (text: String)
    ensures
        text@ == decimal(n as nat),
{
    let mut text: String = String::new();
    push_decimal(&mut text, n);
    assert(text@ =~= decimal(n as nat));
    text
}

/// Appends the ASCII digits of `n` in decimal to `out`.
pub fn push_decimal_bytes(out: &mut Vec<u8>, n: u64)
    ensures
        final(out)@ == old(out)@ + ascii(decimal(n as nat)),
    decreases n,
{
    if n >= 10 {
        push_decimal_bytes(out, n / 10);
    }
    let d: u8 = (n % 10) as u8;
    out.push(48 + d);
    assert(out@ =~= old(out)@ + ascii(decimal(n as nat)));
}

/// Appends the lowest `width` hexadecimal digits of `n` to `out`.
pub fn push_hex(out: &mut String, n: u64, width: usize)
    ensures
        final(out)@ == old(out)@ + hex(n as nat, width as nat),
    decreases width,
{
    if width > 0 {
        push_hex(out, n / 16, width - 1);
        out.push(digit_of((n % 16) as u8));
    }
    assert(out@ =~= old(out)@ + hex(n as nat, width as nat));
}

pub fn push_spaces(out: &mut String, count: usize)
    ensures
        final(out)@ == old(out)@ + spaces(count as nat),
{
    let mut i: usize = 0;
    while i < count
        invariant
            i <= count,
            out@ =~= old(out)@ + spaces(i as nat),
        decreases count - i,
    {
        out.push(' ');
        i = i + 1;
    }
}

/// Appends `parts`, with `separator` between each two of them, to `out`.
pub fn push_joined(out: &mut String, parts: &Vec<String>, separator: &str)
    ensures
        final(out)@ == old(out)@ + join(views(parts@), separator@),
{
    let mut i: usize = 0;
    while i < parts.len()
        invariant
            i <= parts@.len(),
            out@ =~= old(out)@ + join(views(parts@).take(i as int), separator@),
        decreases parts@.len() - i,
    {
        proof {
            assert(views(parts@).take(i + 1).drop_last() =~= views(parts@).take(i as int));
            assert(views(parts@).take(i + 1).last() == parts@[i as int]@);
        }
        if i > 0 {
            out.append(separator);
        }
        out.append(parts[i].as_str());
        i = i + 1;
    }
    assert(views(parts@).take(i as int) =~= views(parts@));
}

/// `text` preceded by as many spaces as bring it to `width` characters.
pub fn padded_start(text: &str, width: usize) -> (r: String)
    ensures
        r@ == pad_start(text@, width as nat),
{
    let length: usize = chars_of(text).len();
    let mut r: String = String::new();
    if length < width {
        push_spaces(&mut r, width - length);
    }
    r.append(text);
    assert(r@ =~= pad_start(text@, width as nat));
    r
}

// ---------------------------------------------------------------------------
// Laws
// ---------------------------------------------------------------------------
/// A number written in decimal reads back as itself.
pub proof fn law_decimal_reads_back(n: nat)
    ensures
        decimal(n).len() > 0,
        all_digits(decimal(n)),
        digits_value(decimal(n)) == n,
    decreases n,
{
    reveal_with_fuel(digits_value, 2);
    if n < 10 {
        assert(decimal(n).drop_last() =~= Seq::empty());
    } else {
        law_decimal_reads_back(n / 10);
        assert(decimal(n).drop_last() =~= decimal(n / 10));
        assert forall|i: int| 0 <= i < decimal(n).len() implies is_digit(
            #[trigger] decimal(n)[i],
        ) by {
            if i < decimal(n).len() - 1 {
                assert(decimal(n)[i] == decimal(n / 10)[i]);
            }
        }
    }
}

/// `line` is not empty, and holds a line feed at its end only.
pub open spec fn is_line(line: Seq<char>) -> bool {
    line.len() > 0 && forall|i: int| 0 <= i < line.len() - 1 ==> #[trigger] line[i] != '\n'
}

/// `parts` are lines, and all but the last end in a line feed.
pub open spec fn are_lines(parts: Seq<Seq<char>>) -> bool {
    &&& forall|i: int| 0 <= i < parts.len() ==> is_line(#[trigger] parts[i])
    &&& forall|i: int| 0 <= i < parts.len() - 1 ==> (#[trigger] parts[i]).last() == '\n'
}

proof fn lemma_concat_front(first: Seq<char>, rest: Seq<Seq<char>>)
    ensures
        concat(seq![first] + rest) == first + concat(rest),
    decreases rest.len(),
{
    let all = seq![first] + rest;
    if rest.len() == 0 {
        assert(all.drop_last() =~= Seq::empty());
        assert(concat(all.drop_last()) =~= Seq::empty());
        assert(concat(all) =~= first + concat(rest));
    } else {
        assert(all.drop_last() =~= seq![first] + rest.drop_last());
        lemma_concat_front(first, rest.drop_last());
        assert(concat(all) =~= first + concat(rest));
    }
}

/// A text is its lines, one after the other.
pub proof fn law_lines_make_the_text(s: Seq<char>)
    ensures
        concat(lines(s)) == s,
        are_lines(lines(s)),
    decreases s.len(),
{
    if s.len() > 0 {
        lemma_position_found(s, '\n');
        let end = line_end(s);
        let first = s.take(end);
        let rest = lines(s.skip(end));
        law_lines_make_the_text(s.skip(end));
        lemma_concat_front(first, rest);
        assert(first + s.skip(end) =~= s);
        assert forall|i: int| 0 <= i < lines(s).len() implies is_line(#[trigger] lines(s)[i]) by {
            if i > 0 {
                assert(lines(s)[i] == rest[i - 1]);
            }
        }
        assert forall|i: int| 0 <= i < lines(s).len() - 1 implies (
        #[trigger] lines(s)[i]).last() == '\n' by {
            if i > 0 {
                assert(lines(s)[i] == rest[i - 1]);
            } else {
                assert(rest.len() > 0);
                assert(s.skip(end).len() > 0);
            }
        }
    }
}

/// Lines that are put together are found again.
pub proof fn law_lines_are_found_again(parts: Seq<Seq<char>>)
    requires
        are_lines(parts),
    ensures
        lines(concat(parts)) == parts,
    decreases parts.len(),
{
    if parts.len() > 0 {
        let first = parts[0];
        let rest = parts.drop_first();
        let all = concat(parts);
        assert(parts =~= seq![first] + rest);
        lemma_concat_front(first, rest);
        assert forall|i: int| 0 <= i < rest.len() implies is_line(#[trigger] rest[i]) by {
            assert(rest[i] == parts[i + 1]);
        }
        assert forall|i: int| 0 <= i < rest.len() - 1 implies (#[trigger] rest[i]).last()
            == '\n' by {
            assert(rest[i] == parts[i + 1]);
        }
        law_lines_are_found_again(rest);
        assert(is_line(first));
        if first.last() == '\n' {
            assert forall|j: int| 0 <= j < first.len() - 1 implies all[j] != '\n' by {
                assert(all[j] == first[j]);
            }
            assert(all[first.len() - 1] == '\n');
            lemma_position(all, '\n', first.len() - 1);
        } else {
            assert(rest =~= Seq::empty());
            assert(all =~= first);
            assert forall|j: int| 0 <= j < first.len() implies all[j] != '\n' by {
                if j < first.len() - 1 {
                    assert(first[j] != '\n');
                }
            }
            lemma_position(all, '\n', first.len() as int);
        }
        assert(all.take(first.len() as int) =~= first);
        assert(all.skip(first.len() as int) =~= concat(rest));
        assert(lines(all) =~= parts);
    } else {
        assert(concat(parts) =~= Seq::empty());
        assert(parts =~= Seq::empty());
    }
}

/// Trimmed text starts and ends in no white space.
pub proof fn law_trimmed_ends(s: Seq<char>)
    ensures
        trim(s).len() > 0 ==> !is_space(trim(s)[0]) && !is_space(trim(s).last()),
        trim(s).len() <= s.len(),
{
    lemma_trim_start(s);
    lemma_trim_end(trim_start(s));
}

/// Text that starts and ends in no white space is left as it is.
pub proof fn law_trim_leaves_clean_text(s: Seq<char>)
    requires
        s.len() > 0 ==> !is_space(s[0]) && !is_space(s.last()),
    ensures
        trim(s) == s,
{
}

pub proof fn lemma_trim_start(s: Seq<char>)
    ensures
        trim_start(s).len() <= s.len(),
        trim_start(s) == s.skip(s.len() - trim_start(s).len()),
        trim_start(s).len() > 0 ==> !is_space(trim_start(s)[0]),
        forall|i: int|
            0 <= i < s.len() - trim_start(s).len() ==> is_space(#[trigger] s[i]),
    decreases s.len(),
{
    if s.len() > 0 && is_space(s[0]) {
        lemma_trim_start(s.drop_first());
        let rest = s.drop_first();
        assert(trim_start(s) =~= s.skip(s.len() - trim_start(s).len()));
        assert forall|i: int| 0 <= i < s.len() - trim_start(s).len() implies is_space(
            #[trigger] s[i],
        ) by {
            if i > 0 {
                assert(s[i] == rest[i - 1]);
            }
        }
    } else {
        assert(s.skip(0) =~= s);
    }
}

pub proof fn lemma_trim_end(s: Seq<char>)
    ensures
        trim_end(s).len() <= s.len(),
        trim_end(s) == s.take(trim_end(s).len() as int),
        trim_end(s).len() > 0 ==> !is_space(trim_end(s).last()),
    decreases s.len(),
{
    if s.len() > 0 && is_space(s.last()) {
        lemma_trim_end(s.drop_last());
        assert(trim_end(s) =~= s.take(trim_end(s).len() as int));
    } else {
        assert(s.take(s.len() as int) =~= s);
    }
}

/// Lower case changes neither white space nor where letters stand.
pub proof fn lemma_lower_trim(s: Seq<char>)
    ensures
        trim(lower(s)) == lower(trim(s)),
{
    lemma_lower_trim_start(s);
    lemma_lower_trim_end(trim_start(s));
}

proof fn lemma_lower_trim_start(s: Seq<char>)
    ensures
        trim_start(lower(s)) == lower(trim_start(s)),
    decreases s.len(),
{
    if s.len() > 0 {
        assert(lower(s).drop_first() =~= lower(s.drop_first()));
        lemma_lower_trim_start(s.drop_first());
    } else {
        assert(lower(s) =~= s);
    }
}

proof fn lemma_lower_trim_end(s: Seq<char>)
    ensures
        trim_end(lower(s)) == lower(trim_end(s)),
    decreases s.len(),
{
    if s.len() > 0 {
        assert(lower(s).drop_last() =~= lower(s.drop_last()));
        lemma_lower_trim_end(s.drop_last());
    } else {
        assert(lower(s) =~= s);
    }
}

pub proof fn lemma_lower_letter_position(s: Seq<char>)
    ensures
        letter_position(lower(s)) == letter_position(s),
        0 <= letter_position(s) <= s.len(),
        forall|i: int| 0 <= i < letter_position(s) ==> !is_letter(#[trigger] s[i]),
    decreases s.len(),
{
    if s.len() > 0 {
        assert(lower(s).drop_first() =~= lower(s.drop_first()));
        lemma_lower_letter_position(s.drop_first());
        assert forall|i: int| 0 <= i < letter_position(s) implies !is_letter(#[trigger] s[i]) by {
            if i > 0 {
                assert(s[i] == s.drop_first()[i - 1]);
            }
        }
    }
}

/// The parts of `s` that `at` separates: there is one more of them than there
/// are occurrences of `at`, and none of them holds it.
pub open spec fn split<A>(s: Seq<A>, at: A) -> Seq<Seq<A>>
    decreases s.len(),
{
    if s.len() == 0 {
        seq![Seq::empty()]
    } else if s[0] == at {
        seq![Seq::<A>::empty()] + split(s.drop_first(), at)
    } else {
        let rest = split(s.drop_first(), at);
        seq![seq![s[0]] + rest[0]] + rest.drop_first()
    }
}

/// What stands before the first `at` is the first part, and the rest is split
/// by itself.
pub proof fn law_split_cuts_at_the_first<A>(part: Seq<A>, at: A, rest: Seq<A>)
    requires
        !part.contains(at),
    ensures
        split(part + seq![at] + rest, at) == seq![part] + split(rest, at),
        split(part, at) == seq![part],
    decreases part.len(),
{
    let all = part + seq![at] + rest;
    if part.len() == 0 {
        assert(all.drop_first() =~= rest);
        assert(part =~= Seq::empty());
        assert(split(all, at) =~= seq![part] + split(rest, at));
    } else {
        let front = part.drop_first();
        assert(!front.contains(at)) by {
            if front.contains(at) {
                let i = choose|i: int| 0 <= i < front.len() && front[i] == at;
                assert(part[i + 1] == at);
            }
        }
        law_split_cuts_at_the_first(front, at, rest);
        assert(part.contains(part[0]));
        assert(all.drop_first() =~= front + seq![at] + rest);
        assert(seq![part[0]] + front =~= part);
        assert((seq![front] + split(rest, at)).drop_first() =~= split(rest, at));
        assert(split(all, at) =~= seq![part] + split(rest, at));
        assert(seq![front].drop_first() =~= Seq::empty());
        assert(split(part, at) =~= seq![part]);
    }
}

/// A digit stands for its distance from zero, and each digit to its left for
/// ten times as much as the one to its right.
pub proof fn law_place_value(left: Seq<char>, right: Seq<char>)
    ensures
        digits_value(left + right) == digits_value(left) * vstd::arithmetic::power::pow(
            10,
            right.len(),
        ) + digits_value(right),
        forall|c: char| is_digit(c) ==> #[trigger] digits_value(seq![c]) == c as int - 48,
    decreases right.len(),
{
    reveal(vstd::arithmetic::power::pow);
    assert forall|c: char| is_digit(c) implies #[trigger] digits_value(seq![c]) == c as int
        - 48 by {
        assert(seq![c].drop_last() =~= Seq::empty());
        assert(digits_value(seq![c].drop_last()) == 0);
    }
    if right.len() == 0 {
        assert(left + right =~= left);
        let a = digits_value(left) as int;
        let one = vstd::arithmetic::power::pow(10, 0);
        assert(a * one == a) by (nonlinear_arith)
            requires
                one == 1,
        ;
    } else {
        let front = right.drop_last();
        law_place_value(left, front);
        assert((left + right).drop_last() =~= left + front);
        let a = digits_value(left) as int;
        let p = vstd::arithmetic::power::pow(10, front.len());
        assert(vstd::arithmetic::power::pow(10, right.len()) == 10 * p);
        assert((a * p) * 10 == a * (10 * p)) by (nonlinear_arith);
    }
}

/// A number is written without leading zeros.
pub proof fn law_decimal_is_shortest(n: nat)
    ensures
        decimal(n).len() > 1 ==> decimal(n)[0] != '0',
        n < 10 <==> decimal(n).len() == 1,
        n > 0 ==> decimal(n)[0] != '0',
    decreases n,
{
    law_decimal_reads_back(n);
    if n >= 10 {
        law_decimal_reads_back(n / 10);
        law_decimal_is_shortest(n / 10);
    }
}

/// Trimming takes white space from both ends and nothing else.
pub proof fn law_trim_takes_space_alone(s: Seq<char>) -> (ends: (int, int))
    ensures
        0 <= ends.0 <= ends.1 <= s.len(),
        trim(s) == s.subrange(ends.0, ends.1),
        forall|i: int| 0 <= i < ends.0 ==> is_space(#[trigger] s[i]),
        forall|i: int| ends.1 <= i < s.len() ==> is_space(#[trigger] s[i]),
        trim(s).len() > 0 ==> !is_space(trim(s)[0]) && !is_space(trim(s).last()),
{
    lemma_trim_start(s);
    let front = trim_start(s);
    lemma_trim_end(front);
    lemma_trim_end_takes_space(front);
    law_trimmed_ends(s);
    let from = s.len() - front.len();
    let to = from + trim(s).len();
    assert(trim(s) =~= s.subrange(from, to));
    assert forall|i: int| to <= i < s.len() implies is_space(#[trigger] s[i]) by {
        assert(s[i] == front[i - from]);
    }
    (from, to)
}

proof fn lemma_trim_end_takes_space(s: Seq<char>)
    ensures
        forall|i: int| trim_end(s).len() <= i < s.len() ==> is_space(#[trigger] s[i]),
    decreases s.len(),
{
    if s.len() > 0 && is_space(s.last()) {
        lemma_trim_end_takes_space(s.drop_last());
        assert forall|i: int| trim_end(s).len() <= i < s.len() implies is_space(
            #[trigger] s[i],
        ) by {
            if i < s.len() - 1 {
                assert(s[i] == s.drop_last()[i]);
            }
        }
    }
}

/// Among the ASCII characters, the space and the codes from tab to carriage
/// return are white space; case is a distance of 32 between letters, and nothing
/// else has any.
pub proof fn law_ascii_characters(c: char)
    requires
        c as int <= 127,
    ensures
        is_space(c) <==> (9 <= c as int <= 13 || c as int == 32),
        is_ascii_space(c) <==> (is_space(c) && c as int != 11),
        is_digit(c) <==> 48 <= c as int <= 57,
        is_letter(c) <==> (65 <= c as int <= 90 || 97 <= c as int <= 122),
        lower_char(c) as int == if 65 <= c as int <= 90 {
            c as int + 32
        } else {
            c as int
        },
{
}

/// Lowering a text changes its upper case letters and nothing else, character
/// by character.
pub proof fn law_lower_is_letter_by_letter(s: Seq<char>, i: int)
    requires
        0 <= i < s.len(),
    ensures
        lower(s).len() == s.len(),
        65 <= s[i] as int <= 90 ==> lower(s)[i] as int == s[i] as int + 32,
        !(65 <= s[i] as int <= 90) ==> lower(s)[i] == s[i],
{
}

/// A number in hexadecimal has as many digits as were asked for, and the digit
/// at each place from the right stands for that power of sixteen.
pub proof fn law_hex_digits(n: nat, width: nat, i: nat)
    requires
        i < width,
    ensures
        hex(n, width).len() == width,
        ({
            let c = hex(n, width)[width - 1 - i] as int;
            let value = (n as int / vstd::arithmetic::power::pow(16, i)) % 16;
            c == if value < 10 {
                48 + value
            } else {
                87 + value
            }
        }),
    decreases width,
{
    reveal(vstd::arithmetic::power::pow);
    lemma_hex_length(n, width);
    lemma_hex_length(n / 16, (width - 1) as nat);
    if i > 0 {
        law_hex_digits(n / 16, (width - 1) as nat, (i - 1) as nat);
        let p = vstd::arithmetic::power::pow(16, (i - 1) as nat);
        vstd::arithmetic::power::lemma_pow_positive(16, (i - 1) as nat);
        vstd::arithmetic::div_mod::lemma_div_denominator(n as int, 16, p);
        assert(vstd::arithmetic::power::pow(16, i) == 16 * p);
    }
}

proof fn lemma_hex_length(n: nat, width: nat)
    ensures
        hex(n, width).len() == width,
    decreases width,
{
    if width > 0 {
        lemma_hex_length(n / 16, (width - 1) as nat);
    }
}

/// A padded text ends in the text, has spaces before it, and is as long as was
/// asked for, or as the text if that is longer.
pub proof fn law_padding(s: Seq<char>, width: nat)
    ensures
        pad_start(s, width).len() == if s.len() < width {
            width
        } else {
            s.len()
        },
        pad_start(s, width).skip(pad_start(s, width).len() - s.len()) == s,
        forall|i: int|
            0 <= i < pad_start(s, width).len() - s.len() ==> (#[trigger] pad_start(
                s,
                width,
            )[i]) as int == 32,
{
    let padded = pad_start(s, width);
    assert(padded.skip(padded.len() - s.len()) =~= s);
}

/// Parts that do not hold the separator are found again when what was joined is
/// split.
pub proof fn law_join_is_split_again(parts: Seq<Seq<char>>, separator: char)
    requires
        parts.len() > 0,
        forall|i: int| 0 <= i < parts.len() ==> !(#[trigger] parts[i]).contains(separator),
    ensures
        split(join(parts, seq![separator]), separator) == parts,
    decreases parts.len(),
{
    let first = parts[0];
    if parts.len() == 1 {
        law_split_cuts_at_the_first(first, separator, Seq::empty());
        assert(parts =~= seq![first]);
    } else {
        let rest = parts.drop_first();
        assert forall|i: int| 0 <= i < rest.len() implies !(#[trigger] rest[i]).contains(
            separator,
        ) by {
            assert(rest[i] == parts[i + 1]);
        }
        law_join_is_split_again(rest, separator);
        lemma_join_front(parts, seq![separator]);
        law_split_cuts_at_the_first(first, separator, join(rest, seq![separator]));
        assert(parts =~= seq![first] + rest);
    }
}

proof fn lemma_join_front(parts: Seq<Seq<char>>, separator: Seq<char>)
    requires
        parts.len() > 1,
    ensures
        join(parts, separator) == parts[0] + separator + join(parts.drop_first(), separator),
    decreases parts.len(),
{
    let rest = parts.drop_first();
    if parts.len() == 2 {
        reveal_with_fuel(join, 2);
        assert(join(parts, separator) =~= parts[0] + separator + join(rest, separator));
    } else {
        lemma_join_front(parts.drop_last(), separator);
        assert(parts.drop_last().drop_first() =~= rest.drop_last());
        assert(rest.last() == parts.last());
        assert(parts.drop_last()[0] == parts[0]);
        assert(join(parts, separator) =~= parts[0] + separator + join(rest, separator));
    }
}

/// The white space characters by their codes.
pub proof fn law_space_characters(c: char)
    ensures
        is_space(c) <==> {
            let code = c as int;
            ||| 9 <= code <= 13
            ||| code == 0x20 || code == 0x85 || code == 0xa0 || code == 0x1680
            ||| 0x2000 <= code <= 0x200a
            ||| code == 0x2028 || code == 0x2029 || code == 0x202f || code == 0x205f || code
                == 0x3000
        },
{
}

/// A text starts with whatever something was put behind, and ends with whatever
/// something was put before.
pub proof fn law_starts_and_ends(s: Seq<char>, part: Seq<char>, rest: Seq<char>)
    ensures
        starts_with(part + rest, part),
        ends_with(rest + part, part),
        starts_with(s, part) ==> s == part + s.skip(part.len() as int),
        ends_with(s, part) ==> s == s.take(s.len() - part.len()) + part,
{
    assert((part + rest).take(part.len() as int) =~= part);
    assert((rest + part).skip(rest.len() as int) =~= part);
    if starts_with(s, part) {
        assert(s =~= s.take(part.len() as int) + s.skip(part.len() as int));
    }
    if ends_with(s, part) {
        assert(s =~= s.take(s.len() - part.len()) + s.skip(s.len() - part.len()));
    }
}

/// A part occurs in a text exactly if the text is something, the part, and
/// something else.
pub proof fn law_occurrence(before: Seq<char>, part: Seq<char>, after: Seq<char>, s: Seq<char>)
    ensures
        occurs(before + part + after, part),
        occurs(s, part) ==> exists|i: int|
            0 <= i <= s.len() - part.len() && s == #[trigger] s.take(i) + part + s.skip(
                i + part.len(),
            ),
{
    let all = before + part + after;
    let at = before.len() as int;
    assert(all.subrange(at, at + part.len()) =~= part);
    assert(occurs_at(all, part, at));
    if occurs(s, part) {
        let i = choose|i: int| #[trigger] occurs_at(s, part, i);
        assert(s =~= s.take(i) + s.subrange(i, i + part.len()) + s.skip(i + part.len()));
    }
}

/// Parts that are put together in two groups are the groups put together.
pub proof fn law_concat_in_groups(left: Seq<Seq<char>>, right: Seq<Seq<char>>, one: Seq<char>)
    ensures
        concat(left + right) == concat(left) + concat(right),
        concat(seq![one]) == one,
    decreases right.len(),
{
    assert(seq![one].drop_last() =~= Seq::empty());
    assert(concat(seq![one].drop_last()) =~= Seq::empty());
    assert(concat(seq![one]) =~= one);
    if right.len() == 0 {
        assert(left + right =~= left);
        assert(concat(left) + concat(right) =~= concat(left));
    } else {
        law_concat_in_groups(left, right.drop_last(), one);
        assert((left + right).drop_last() =~= left + right.drop_last());
        assert(concat(left + right) =~= concat(left) + concat(right));
    }
}

/// `s` is the lower case `word`, with any of its letters in upper case.
pub open spec fn spells(s: Seq<char>, word: Seq<char>) -> bool {
    &&& s.len() == word.len()
    &&& forall|i: int|
        0 <= i < s.len() ==> (#[trigger] s[i] == word[i] || (65 <= s[i] as int <= 90 && s[i] as int
            + 32 == word[i] as int))
}

/// Lowering a text makes it a lower case word exactly if it spells that word.
pub proof fn law_spelling(s: Seq<char>, word: Seq<char>)
    requires
        forall|i: int| 0 <= i < word.len() ==> 97 <= (#[trigger] word[i]) as int <= 122,
    ensures
        lower(s) == word <==> spells(s, word),
{
    if lower(s) == word {
        assert forall|i: int| 0 <= i < s.len() implies (#[trigger] s[i] == word[i] || (65
            <= s[i] as int <= 90 && s[i] as int + 32 == word[i] as int)) by {
            assert(lower(s)[i] == word[i]);
        }
    }
    if spells(s, word) {
        assert forall|i: int| 0 <= i < s.len() implies lower(s)[i] == word[i] by {
            assert(s[i] == word[i] || (65 <= s[i] as int <= 90 && s[i] as int + 32
                == word[i] as int));
        }
        assert(lower(s) =~= word);
    }
}

/// Trimming leaves nothing exactly if there is nothing but white space.
pub proof fn law_blank_text(s: Seq<char>)
    ensures
        trim(s).len() == 0 <==> forall|i: int| 0 <= i < s.len() ==> is_space(#[trigger] s[i]),
{
    let ends = law_trim_takes_space_alone(s);
    if trim(s).len() > 0 {
        assert(trim(s)[0] == s[ends.0]);
    }
}

/// How many digits `s` starts with.
pub open spec fn digits_length(s: Seq<char>) -> int
    decreases s.len(),
{
    if s.len() == 0 || !is_digit(s[0]) {
        0
    } else {
        1 + digits_length(s.drop_first())
    }
}

pub proof fn lemma_digits_length(s: Seq<char>)
    ensures
        0 <= digits_length(s) <= s.len(),
    decreases s.len(),
{
    if s.len() > 0 {
        lemma_digits_length(s.drop_first());
    }
}

/// The numbers that can be read in `s`, in their order.
pub open spec fn numbers(s: Seq<char>) -> Seq<nat>
    decreases s.len(),
{
    if s.len() == 0 {
        Seq::empty()
    } else if !is_digit(s[0]) {
        numbers(s.drop_first())
    } else {
        proof {
            lemma_digits_length(s.drop_first());
        }
        let end = digits_length(s);
        seq![digits_value(s.take(end))] + numbers(s.skip(end))
    }
}

/// `s` holds no digit.
pub open spec fn is_wordy(s: Seq<char>) -> bool {
    forall|i: int| 0 <= i < s.len() ==> !is_digit(#[trigger] s[i])
}

/// Words hold no number.
pub proof fn lemma_words_hold_no_number(words: Seq<char>, rest: Seq<char>)
    requires
        is_wordy(words),
    ensures
        numbers(words + rest) == numbers(rest),
        numbers(words) == Seq::<nat>::empty(),
    decreases words.len(),
{
    if words.len() == 0 {
        assert(words + rest =~= rest);
    } else {
        let fewer = words.drop_first();
        assert forall|i: int| 0 <= i < fewer.len() implies !is_digit(#[trigger] fewer[i]) by {
            assert(fewer[i] == words[i + 1]);
        }
        lemma_words_hold_no_number(fewer, rest);
        assert((words + rest)[0] == words[0]);
        assert((words + rest).drop_first() =~= fewer + rest);
    }
}

proof fn lemma_leading_digits(digits: Seq<char>, rest: Seq<char>)
    requires
        all_digits(digits),
        rest.len() > 0 ==> !is_digit(rest[0]),
    ensures
        digits_length(digits + rest) == digits.len(),
    decreases digits.len(),
{
    if digits.len() == 0 {
        assert(digits + rest =~= rest);
    } else {
        let fewer = digits.drop_first();
        assert forall|i: int| 0 <= i < fewer.len() implies is_digit(#[trigger] fewer[i]) by {
            assert(fewer[i] == digits[i + 1]);
        }
        lemma_leading_digits(fewer, rest);
        assert((digits + rest)[0] == digits[0]);
        assert((digits + rest).drop_first() =~= fewer + rest);
    }
}

/// A number in decimal between words is read as that number.
pub proof fn lemma_number_is_read(words: Seq<char>, n: nat, rest: Seq<char>)
    requires
        is_wordy(words),
        rest.len() > 0 ==> !is_digit(rest[0]),
    ensures
        numbers(words + decimal(n) + rest) == seq![n] + numbers(rest),
{
    let digits = decimal(n);
    let tail = digits + rest;
    law_decimal_reads_back(n);
    lemma_leading_digits(digits, rest);
    assert(words + decimal(n) + rest =~= words + tail);
    lemma_words_hold_no_number(words, tail);
    assert(tail[0] == digits[0] && is_digit(digits[0]));
    assert(tail.take(digits.len() as int) =~= digits);
    assert(tail.skip(digits.len() as int) =~= rest);
}

/// Two numbers between words are read in their order.
pub proof fn lemma_two_numbers(a: Seq<char>, n: nat, b: Seq<char>, m: nat, c: Seq<char>)
    requires
        is_wordy(a),
        is_wordy(b),
        b.len() > 0,
        c.len() > 0 ==> !is_digit(c[0]),
    ensures
        numbers(a + decimal(n) + b + decimal(m) + c) == seq![n, m] + numbers(c),
{
    let rest = b + decimal(m) + c;
    assert(a + decimal(n) + b + decimal(m) + c =~= a + decimal(n) + rest);
    assert(rest[0] == b[0]);
    lemma_number_is_read(a, n, rest);
    lemma_number_is_read(b, m, c);
    assert(seq![n] + (seq![m] + numbers(c)) =~= seq![n, m] + numbers(c));
}

/// Three numbers between words are read in their order.
pub proof fn lemma_three_numbers(
    a: Seq<char>,
    n: nat,
    b: Seq<char>,
    m: nat,
    c: Seq<char>,
    k: nat,
    d: Seq<char>,
)
    requires
        is_wordy(a),
        is_wordy(b),
        is_wordy(c),
        b.len() > 0,
        c.len() > 0,
        d.len() > 0 ==> !is_digit(d[0]),
    ensures
        numbers(a + decimal(n) + b + decimal(m) + c + decimal(k) + d) == seq![n, m, k] + numbers(d),
{
    let rest = c + decimal(k) + d;
    assert(a + decimal(n) + b + decimal(m) + c + decimal(k) + d =~= a + decimal(n) + b + decimal(m)
        + rest);
    assert(rest[0] == c[0]);
    lemma_two_numbers(a, n, b, m, rest);
    lemma_number_is_read(c, k, d);
    assert(seq![n, m] + (seq![k] + numbers(d)) =~= seq![n, m, k] + numbers(d));
}

/// Four numbers between words are read in their order.
pub proof fn lemma_four_numbers(
    a: Seq<char>,
    n: nat,
    b: Seq<char>,
    m: nat,
    c: Seq<char>,
    k: nat,
    d: Seq<char>,
    l: nat,
    e: Seq<char>,
)
    requires
        is_wordy(a),
        is_wordy(b),
        is_wordy(c),
        is_wordy(d),
        b.len() > 0,
        c.len() > 0,
        d.len() > 0,
        e.len() > 0 ==> !is_digit(e[0]),
    ensures
        numbers(
            a + decimal(n) + b + decimal(m) + c + decimal(k) + d + decimal(l) + e,
        ) == seq![n, m, k, l] + numbers(e),
{
    let rest = c + decimal(k) + d + decimal(l) + e;
    assert(a + decimal(n) + b + decimal(m) + c + decimal(k) + d + decimal(l) + e =~= a + decimal(n)
        + b + decimal(m) + rest);
    assert(rest[0] == c[0]);
    lemma_two_numbers(a, n, b, m, rest);
    lemma_two_numbers(c, k, d, l, e);
    assert(seq![n, m] + (seq![k, l] + numbers(e)) =~= seq![n, m, k, l] + numbers(e));
}

} // verus!
