//! Changing one setting of a configuration file and nothing else.
use vstd::prelude::*;
use vstd::slice::slice_subrange;

use crate::text;

verus! {

/// A setting that the program itself writes.
#[derive(Clone, Copy, Debug, PartialEq, Eq, Structural)]
pub enum Setting {
    /// `calibration` in the table `[scan]`.
    ScanCalibration,
    /// `output` before any table.
    RootOutput,
}

/// Why a setting cannot be changed.
#[derive(Clone, Copy, Debug, PartialEq, Eq, Structural)]
pub enum EditError {
    Missing(Setting),
    Duplicate(Setting),
}

impl Setting {
    pub open spec fn key_text(self) -> Seq<char> {
        match self {
            Setting::ScanCalibration => "calibration"@,
            Setting::RootOutput => "output"@,
        }
    }

    /// The name of the setting's key.
    pub fn key(self) -> (key: &'static str)
        ensures
            key@ == self.key_text(),
    {
        match self {
            Setting::ScanCalibration => "calibration",
            Setting::RootOutput => "output",
        }
    }
}

impl EditError {
    pub open spec fn text(self) -> Seq<char> {
        match self {
            EditError::Missing(Setting::ScanCalibration) =>
                "configuration has no scan.calibration key to update"@,
            EditError::Missing(Setting::RootOutput) =>
                "configuration has no root output key to update"@,
            EditError::Duplicate(Setting::ScanCalibration) =>
                "configuration contains duplicate scan.calibration keys"@,
            EditError::Duplicate(Setting::RootOutput) =>
                "configuration contains duplicate output keys"@,
        }
    }

    pub fn message(&self) -> (message: &'static str)
        ensures
            message@ == self.text(),
    {
        match *self {
            EditError::Missing(Setting::ScanCalibration) =>
                "configuration has no scan.calibration key to update",
            EditError::Missing(Setting::RootOutput) =>
                "configuration has no root output key to update",
            EditError::Duplicate(Setting::ScanCalibration) =>
                "configuration contains duplicate scan.calibration keys",
            EditError::Duplicate(Setting::RootOutput) =>
                "configuration contains duplicate output keys",
        }
    }
}

// ---------------------------------------------------------------------------
// Lines
// ---------------------------------------------------------------------------
/// The line opens a table.
pub open spec fn is_header(line: Seq<char>) -> bool {
    let trimmed = text::trim(line);
    trimmed.len() > 0 && trimmed[0] == '[' && trimmed.last() == ']'
}

/// What stands before the line's first equals sign, if it has one.
pub open spec fn key_of(line: Seq<char>) -> Option<Seq<char>> {
    let equals = text::position(line, '=');
    if equals < line.len() {
        Some(text::trim(line.take(equals)))
    } else {
        None
    }
}

/// What stands behind the line's first equals sign.
pub open spec fn value_of(line: Seq<char>) -> Seq<char> {
    text::trim(line.skip(text::position(line, '=') + 1))
}

/// The white space that a line starts with.
pub open spec fn indentation(line: Seq<char>) -> Seq<char> {
    line.take(line.len() - text::trim_start(line).len())
}

/// The line's end.
pub open spec fn line_break(line: Seq<char>) -> Seq<char> {
    if text::ends_with(line, "\r\n"@) {
        "\r\n"@
    } else if text::ends_with(line, "\n"@) {
        "\n"@
    } else {
        Seq::empty()
    }
}

/// After the first `n` of `lines` the table that holds `setting` is open.
pub open spec fn inside(setting: Setting, lines: Seq<Seq<char>>, n: int) -> bool
    decreases n,
{
    if n <= 0 {
        setting == Setting::RootOutput
    } else if is_header(lines[n - 1]) {
        setting == Setting::ScanCalibration && text::trim(lines[n - 1]) == "[scan]"@
    } else {
        inside(setting, lines, n - 1)
    }
}

/// The line at `i` sets `setting`.
pub open spec fn sets(setting: Setting, lines: Seq<Seq<char>>, i: int) -> bool {
    inside(setting, lines, i + 1) && key_of(lines[i]) == Some(setting.key_text())
}

/// How many of the first `n` lines set `setting`.
pub open spec fn count(setting: Setting, lines: Seq<Seq<char>>, n: int) -> nat
    decreases n,
{
    if n <= 0 {
        0
    } else {
        count(setting, lines, n - 1) + if sets(setting, lines, n - 1) {
            1nat
        } else {
            0nat
        }
    }
}

/// The line that gives `setting` the value `value` in place of `line`. A
/// calibration keeps its indentation; the end of the line stays what it was.
pub open spec fn replacement(setting: Setting, line: Seq<char>, value: Seq<char>) -> Seq<char> {
    let indent = if setting == Setting::ScanCalibration {
        indentation(line)
    } else {
        Seq::empty()
    };
    indent + setting.key_text() + " = "@ + value + line_break(line)
}

/// The lines with `setting` set to `value`.
pub open spec fn edited(setting: Setting, lines: Seq<Seq<char>>, value: Seq<char>) -> Seq<
    Seq<char>,
> {
    Seq::new(
        lines.len(),
        |i: int|
            if sets(setting, lines, i) {
                replacement(setting, lines[i], value)
            } else {
                lines[i]
            },
    )
}

/// The file `content` with `setting` set to `value`. Exactly one line must
/// set it.
pub open spec fn edit(setting: Setting, content: Seq<char>, value: Seq<char>) -> Result<
    Seq<char>,
    EditError,
> {
    let lines = text::lines(content);
    let settings = count(setting, lines, lines.len() as int);
    if settings == 0 {
        Err(EditError::Missing(setting))
    } else if settings > 1 {
        Err(EditError::Duplicate(setting))
    } else {
        Ok(text::concat(edited(setting, lines, value)))
    }
}

fn header(line: &[char]) -> (answer: bool)
    ensures
        answer == is_header(line@),
{
    let trimmed: &[char] = text::trimmed(line);
    trimmed.len() > 0 && trimmed[0] == '[' && trimmed[trimmed.len() - 1] == ']'
}

fn has_key(line: &[char], key: &str) -> (answer: bool)
    ensures
        answer == (key_of(line@) == Some(key@)),
{
    let equals: usize = text::find(line, '=');
    if equals == line.len() {
        return false;
    }
    let before: &[char] = slice_subrange(line, 0, equals);
    assert(before@ =~= line@.take(equals as int));
    text::same(text::trimmed(before), key)
}

fn push_replacement(out: &mut String, setting: Setting, line: &[char], value: &str)
    ensures
        final(out)@ == old(out)@ + replacement(setting, line@, value@),
{
    if let Setting::ScanCalibration = setting {
        proof {
            text::lemma_trim_start(line@);
        }
        let indent: usize = line.len() - text::trimmed_start(line).len();
        let space: &[char] = slice_subrange(line, 0, indent);
        assert(space@ =~= indentation(line@));
        text::push_chars(out, space);
    }
    out.append(setting.key());
    out.append(" = ");
    out.append(value);
    if text::finishes(line, "\r\n") {
        out.append("\r\n");
    } else if text::finishes(line, "\n") {
        out.append("\n");
    }
    assert(out@ =~= old(out)@ + replacement(setting, line@, value@));
}

proof fn lemma_count_grows(setting: Setting, lines: Seq<Seq<char>>, m: int, n: int)
    requires
        m <= n,
    ensures
        count(setting, lines, m) <= count(setting, lines, n),
    decreases n - m,
{
    if m < n {
        lemma_count_grows(setting, lines, m, n - 1);
    }
}

/// The file `content` with `setting` set to `value`.
pub fn set_value(content: &str, setting: Setting, value: &str) -> (updated: Result<
    String,
    EditError,
>)
    ensures
        match updated {
            Ok(updated) => edit(setting, content@, value@) == Ok::<Seq<char>, EditError>(updated@),
            Err(error) => edit(setting, content@, value@) == Err::<Seq<char>, EditError>(error),
        },
{
    let chars: Vec<char> = text::chars_of(content);
    let all: &[char] = chars.as_slice();
    let ghost lines = text::lines(content@);
    let ghost goal = edited(setting, lines, value@);
    let ghost mut n: int = 0;
    let mut start: usize = 0;
    let mut is_inside: bool = match setting {
        Setting::ScanCalibration => false,
        Setting::RootOutput => true,
    };
    let mut replaced: bool = false;
    let mut out: String = String::new();
    proof {
        assert(all@.skip(0) =~= all@);
        assert(lines.skip(0) =~= lines);
        assert(goal.take(0) =~= Seq::empty());
    }
    while start < all.len()
        invariant
            all@ == content@,
            lines == text::lines(content@),
            goal == edited(setting, lines, value@),
            start <= all.len(),
            0 <= n <= lines.len(),
            lines.skip(n) == text::lines(all@.skip(start as int)),
            out@ == text::concat(goal.take(n)),
            is_inside == inside(setting, lines, n),
            count(setting, lines, n) == if replaced {
                1nat
            } else {
                0nat
            },
        decreases all.len() - start,
    {
        let rest: &[char] = slice_subrange(all, start, all.len());
        proof {
            assert(rest@ =~= all@.skip(start as int));
            text::lemma_position_found(rest@, '\n');
        }
        let found: usize = text::find(rest, '\n');
        let length: usize = if found < rest.len() {
            found + 1
        } else {
            rest.len()
        };
        let line: &[char] = slice_subrange(rest, 0, length);
        proof {
            assert(line@ =~= rest@.take(length as int));
            assert(text::lines(rest@).len() > 0);
            assert(lines.skip(n).len() == lines.len() - n);
            assert(lines.skip(n)[0] == line@);
            assert(lines[n] == line@);
            assert(goal.take(n + 1).drop_last() =~= goal.take(n));
            assert(rest@.skip(length as int) =~= all@.skip(start + length));
            assert(lines.skip(n).skip(1) =~= text::lines(rest@.skip(length as int)));
            assert(lines.skip(n).skip(1) =~= lines.skip(n + 1));
        }
        if header(line) {
            is_inside = match setting {
                Setting::ScanCalibration => text::same(text::trimmed(line), "[scan]"),
                Setting::RootOutput => false,
            };
        }
        if is_inside && has_key(line, setting.key()) {
            if replaced {
                proof {
                    lemma_count_grows(setting, lines, n + 1, lines.len() as int);
                }
                return Err(EditError::Duplicate(setting));
            }
            push_replacement(&mut out, setting, line, value);
            replaced = true;
        } else {
            text::push_chars(&mut out, line);
        }
        start = start + length;
        proof {
            n = n + 1;
        }
    }
    proof {
        assert(all@.skip(start as int).len() == 0);
        assert(lines.skip(n).len() == 0);
        assert(goal.take(n) =~= goal);
    }
    if replaced {
        Ok(out)
    } else {
        Err(EditError::Missing(setting))
    }
}

// ---------------------------------------------------------------------------
// Laws
// ---------------------------------------------------------------------------
/// `value` can stand behind an equals sign: it is one line, without white
/// space at its ends.
pub open spec fn is_value(value: Seq<char>) -> bool {
    &&& value.len() > 0
    &&& !text::is_space(value[0])
    &&& !text::is_space(value.last())
    &&& forall|i: int| 0 <= i < value.len() ==> #[trigger] value[i] != '\n'
}

/// A line with a key starts with that key, behind its indentation, and opens
/// no table.
proof fn lemma_line_with_key(setting: Setting, line: Seq<char>)
    requires
        key_of(line) == Some(setting.key_text()),
    ensures
        !is_header(line),
        indentation(line).len() < line.len(),
        text::trim_start(line).len() > 0,
        text::trim_start(line)[0] == setting.key_text()[0],
{
    reveal_strlit("calibration");
    reveal_strlit("output");
    let equals = text::position(line, '=');
    text::lemma_position_found(line, '=');
    let before = line.take(equals);
    text::lemma_trim_start(before);
    text::lemma_trim_end(text::trim_start(before));
    text::lemma_trim_start(line);
    let k = before.len() - text::trim_start(before).len();
    let m = line.len() - text::trim_start(line).len();
    assert(text::trim_start(before)[0] == setting.key_text()[0]);
    assert(text::trim_start(before)[0] == before[k]);
    assert(line[k] == before[k]);
    assert(!text::is_space(line[k]));
    if m > k {
        assert(text::is_space(line[k]));
    }
    if m < k {
        assert(text::is_space(before[m]));
        assert(text::trim_start(line)[0] == line[m]);
    }
    text::lemma_trim_end(text::trim_start(line));
    if text::trim(line).len() > 0 {
        assert(text::trim(line)[0] == text::trim_start(line)[0]);
    }
}

/// The end of a line by its last characters.
proof fn lemma_line_break(line: Seq<char>)
    requires
        line.len() > 0,
    ensures
        line_break(line) == if line.last() != '\n' {
            Seq::<char>::empty()
        } else if line.len() >= 2 && line[line.len() - 2] == '\r' {
            seq!['\r', '\n']
        } else {
            seq!['\n']
        },
{
    reveal_strlit("\r\n");
    reveal_strlit("\n");
    assert("\n"@ =~= seq!['\n']);
    assert("\r\n"@ =~= seq!['\r', '\n']);
    assert(line.skip(line.len() - 1) =~= seq![line.last()]);
    assert(seq![line.last()] == seq!['\n'] ==> seq![line.last()][0] == '\n');
    if line.len() >= 2 {
        let ending = line.skip(line.len() - 2);
        assert(ending =~= seq![line[line.len() - 2], line.last()]);
        if ending == seq!['\r', '\n'] {
            assert(ending[0] == '\r' && ending[1] == '\n');
        }
    }
}

/// The parts of a line: white space, a key, an equals sign, a value and the
/// line's end.
spec fn assembled(indent: Seq<char>, key: Seq<char>, value: Seq<char>, end: Seq<char>) -> Seq<
    char,
> {
    indent + key + " = "@ + value + end
}

spec fn is_line_end(end: Seq<char>) -> bool {
    end == Seq::<char>::empty() || end == seq!['\n'] || end == seq!['\r', '\n']
}

spec fn is_key(key: Seq<char>) -> bool {
    &&& key.len() > 0
    &&& forall|i: int|
        0 <= i < key.len() ==> !text::is_space(#[trigger] key[i]) && key[i] != '='
}

spec fn is_indent(indent: Seq<char>) -> bool {
    forall|i: int|
        0 <= i < indent.len() ==> text::is_space(#[trigger] indent[i]) && indent[i] != '\n'
}

proof fn lemma_assembled_shape(
    indent: Seq<char>,
    key: Seq<char>,
    value: Seq<char>,
    end: Seq<char>,
)
    requires
        is_indent(indent),
        is_key(key),
        is_value(value),
        is_line_end(end),
    ensures
        text::is_line(assembled(indent, key, value, end)),
        (assembled(indent, key, value, end).last() == '\n') == (end.len() > 0),
        line_break(assembled(indent, key, value, end)) == end,
{
    reveal_strlit(" = ");
    let new = assembled(indent, key, value, end);
    let body = indent + key + " = "@ + value;
    assert(new =~= body + end);
    assert(body.last() == value.last());
    assert(value[value.len() - 1] != '\n');
    if end.len() == 0 {
        assert(new.last() == value.last());
    } else {
        assert(new.last() == end.last());
    }
    if end.len() == 1 {
        assert(new[new.len() - 2] == value.last());
        assert(value.last() != '\r');
    } else if end.len() == 2 {
        assert(new[new.len() - 2] == end[0]);
    }
    lemma_line_break(new);
    assert forall|i: int| 0 <= i < new.len() - 1 implies #[trigger] new[i] != '\n' by {
        if i < indent.len() {
            assert(new[i] == indent[i]);
        } else if i < indent.len() + key.len() {
            assert(new[i] == key[i - indent.len()]);
        } else if i < indent.len() + key.len() + 3 {
            assert(new[i] == " = "@[i - indent.len() - key.len()]);
        } else if i < body.len() {
            assert(new[i] == value[i - indent.len() - key.len() - 3]);
        } else {
            assert(new[i] == end[i - body.len()]);
        }
    }
}

proof fn lemma_assembled_key(indent: Seq<char>, key: Seq<char>, value: Seq<char>, end: Seq<char>)
    requires
        is_indent(indent),
        is_key(key),
        is_value(value),
    ensures
        key_of(assembled(indent, key, value, end)) == Some(key),
        text::position(assembled(indent, key, value, end), '=') == indent.len() + key.len() + 1,
{
    reveal_strlit(" = ");
    let new = assembled(indent, key, value, end);
    let equals = indent.len() + key.len() + 1;
    assert forall|i: int| 0 <= i < equals implies new[i] != '=' by {
        if i < indent.len() {
            assert(new[i] == indent[i]);
        } else if i < indent.len() + key.len() {
            assert(new[i] == key[i - indent.len()]);
        } else {
            assert(new[i] == " = "@[0]);
        }
    }
    assert(new[equals as int] == " = "@[1]);
    text::lemma_position(new, '=', equals as int);
    let before = new.take(equals as int);
    assert(before =~= indent + key.push(' ')) by {
        assert(" = "@[0] == ' ');
    }
    assert(!text::is_space(key[0]));
    lemma_trim_start_of(indent, key.push(' '));
    assert(key.push(' ').drop_last() =~= key);
    assert(!text::is_space(key[key.len() - 1]));
    reveal_with_fuel(text::trim_end, 2);
    assert(text::trim(before) == key);
}

proof fn lemma_assembled_value(
    indent: Seq<char>,
    key: Seq<char>,
    value: Seq<char>,
    end: Seq<char>,
)
    requires
        is_indent(indent),
        is_key(key),
        is_value(value),
        is_line_end(end),
    ensures
        value_of(assembled(indent, key, value, end)) == value,
{
    reveal_strlit(" = ");
    let new = assembled(indent, key, value, end);
    lemma_assembled_key(indent, key, value, end);
    let after = new.skip((indent.len() + key.len() + 2) as int);
    assert(after =~= seq![' '] + (value + end)) by {
        assert(" = "@[2] == ' ');
    }
    let rest = value + end;
    assert(rest[0] == value[0]);
    let space = seq![' '];
    lemma_trim_start_of(space, rest);
    assert(text::trim_end(value) == value);
    if end.len() == 0 {
        assert(rest =~= value);
    } else if end.len() == 1 {
        assert(rest.last() == '\n');
        assert(rest.drop_last() =~= value);
    } else {
        assert(rest.last() == '\n');
        let shorter = rest.drop_last();
        assert(shorter.last() == '\r');
        assert(shorter.drop_last() =~= value);
        assert(text::trim_end(shorter) == value);
    }
}

/// What holds of the line that replaces one.
proof fn lemma_replacement(setting: Setting, line: Seq<char>, value: Seq<char>)
    requires
        text::is_line(line),
        key_of(line) == Some(setting.key_text()),
        is_value(value),
    ensures
        ({
            let new = replacement(setting, line, value);
            &&& text::is_line(new)
            &&& (new.last() == '\n') == (line.last() == '\n')
            &&& key_of(new) == Some(setting.key_text())
            &&& value_of(new) == value
            &&& setting == Setting::ScanCalibration ==> indentation(new) == indentation(line)
            &&& line_break(new) == line_break(line)
        }),
{
    reveal_strlit("calibration");
    reveal_strlit("output");
    reveal_strlit(" = ");
    lemma_line_with_key(setting, line);
    lemma_line_break(line);
    text::lemma_trim_start(line);
    let key = setting.key_text();
    let indent = if setting == Setting::ScanCalibration {
        indentation(line)
    } else {
        Seq::empty()
    };
    let end = line_break(line);
    assert forall|i: int| 0 <= i < indent.len() implies text::is_space(#[trigger] indent[i])
        && indent[i] != '\n' by {
        assert(indent[i] == line[i]);
        assert(i < line.len() - 1);
    }
    lemma_assembled_shape(indent, key, value, end);
    lemma_assembled_key(indent, key, value, end);
    lemma_assembled_value(indent, key, value, end);
    if setting == Setting::ScanCalibration {
        let new = replacement(setting, line, value);
        let tail = key + " = "@ + value + end;
        assert(new =~= indent + tail);
        assert(tail[0] == key[0]);
        lemma_trim_start_of(indent, tail);
        assert(new.take(indent.len() as int) =~= indent);
    }
}

/// White space before text that starts in none is what gets trimmed.
proof fn lemma_trim_start_of(space: Seq<char>, tail: Seq<char>)
    requires
        forall|i: int| 0 <= i < space.len() ==> text::is_space(#[trigger] space[i]),
        tail.len() > 0,
        !text::is_space(tail[0]),
    ensures
        text::trim_start(space + tail) == tail,
    decreases space.len(),
{
    if space.len() == 0 {
        assert(space + tail =~= tail);
    } else {
        assert((space + tail)[0] == space[0]);
        assert((space + tail).drop_first() =~= space.drop_first() + tail);
        lemma_trim_start_of(space.drop_first(), tail);
    }
}

/// Changing one setting opens and closes no table, and leaves it to the same
/// lines to set either setting.
proof fn lemma_same_structure(
    setting: Setting,
    lines: Seq<Seq<char>>,
    value: Seq<char>,
    other: Setting,
    n: int,
)
    requires
        text::are_lines(lines),
        is_value(value),
        0 <= n <= lines.len(),
    ensures
        inside(other, edited(setting, lines, value), n) == inside(other, lines, n),
        count(other, edited(setting, lines, value), n) == count(other, lines, n),
        n > 0 ==> sets(other, edited(setting, lines, value), n - 1) == sets(other, lines, n - 1),
    decreases n,
{
    if n > 0 {
        let new = edited(setting, lines, value);
        lemma_same_structure(setting, lines, value, other, n - 1);
        let line = lines[n - 1];
        if sets(setting, lines, n - 1) {
            assert(text::is_line(line));
            lemma_line_with_key(setting, line);
            lemma_replacement(setting, line, value);
            lemma_line_with_key(setting, new[n - 1]);
            reveal_strlit("calibration");
            reveal_strlit("output");
            assert("calibration"@.len() != "output"@.len());
        }
    }
}

proof fn lemma_edited_lines(setting: Setting, lines: Seq<Seq<char>>, value: Seq<char>)
    requires
        text::are_lines(lines),
        is_value(value),
    ensures
        text::are_lines(edited(setting, lines, value)),
{
    let new = edited(setting, lines, value);
    assert forall|i: int| 0 <= i < new.len() implies text::is_line(#[trigger] new[i]) by {
        assert(text::is_line(lines[i]));
        if sets(setting, lines, i) {
            lemma_replacement(setting, lines[i], value);
        }
    }
    assert forall|i: int| 0 <= i < new.len() - 1 implies (#[trigger] new[i]).last() == '\n' by {
        assert(text::is_line(lines[i]));
        assert(lines[i].last() == '\n');
        if sets(setting, lines, i) {
            lemma_replacement(setting, lines[i], value);
        }
    }
}

/// Setting a value changes the line that sets it and no other: the file keeps
/// its lines, each other line is what it was, and the line that sets the value
/// now has it.
pub proof fn law_edit_changes_one_line(setting: Setting, content: Seq<char>, value: Seq<char>)
    requires
        is_value(value),
        edit(setting, content, value) is Ok,
    ensures
        ({
            let before = text::lines(content);
            let after = text::lines(edit(setting, content, value)->Ok_0);
            &&& after.len() == before.len()
            &&& forall|i: int|
                0 <= i < before.len() && !sets(setting, before, i) ==> #[trigger] after[i]
                    == before[i]
            &&& forall|i: int|
                0 <= i < before.len() && sets(setting, before, i) ==> sets(setting, after, i)
                    && value_of(#[trigger] after[i]) == value
            &&& count(setting, after, after.len() as int) == 1
        }),
{
    let before = text::lines(content);
    text::law_lines_make_the_text(content);
    lemma_edited_lines(setting, before, value);
    text::law_lines_are_found_again(edited(setting, before, value));
    let after = edited(setting, before, value);
    lemma_same_structure(setting, before, value, setting, before.len() as int);
    assert forall|i: int| 0 <= i < before.len() && sets(setting, before, i) implies sets(
        setting,
        after,
        i,
    ) && value_of(#[trigger] after[i]) == value by {
        assert(text::is_line(before[i]));
        lemma_replacement(setting, before[i], value);
        lemma_same_structure(setting, before, value, setting, i + 1);
    }
}

/// Setting a value twice is setting it once, to the second value.
pub proof fn law_second_edit_wins(
    setting: Setting,
    content: Seq<char>,
    first: Seq<char>,
    second: Seq<char>,
)
    requires
        is_value(first),
        is_value(second),
        edit(setting, content, first) is Ok,
    ensures
        edit(setting, edit(setting, content, first)->Ok_0, second) == edit(
            setting,
            content,
            second,
        ),
{
    let lines = text::lines(content);
    text::law_lines_make_the_text(content);
    lemma_edited_lines(setting, lines, first);
    let once = edited(setting, lines, first);
    text::law_lines_are_found_again(once);
    lemma_same_structure(setting, lines, first, setting, lines.len() as int);
    assert forall|i: int| 0 <= i < lines.len() implies #[trigger] edited(
        setting,
        once,
        second,
    )[i] == edited(setting, lines, second)[i] by {
        lemma_same_structure(setting, lines, first, setting, i + 1);
        assert(text::is_line(lines[i]));
        if sets(setting, lines, i) {
            lemma_replacement(setting, lines[i], first);
        }
    }
    assert(edited(setting, once, second) =~= edited(setting, lines, second));
}

/// It does not matter which of two settings is set first.
pub proof fn law_edits_commute(content: Seq<char>, calibration: Seq<char>, output: Seq<char>)
    requires
        is_value(calibration),
        is_value(output),
        edit(Setting::ScanCalibration, content, calibration) is Ok,
        edit(Setting::RootOutput, content, output) is Ok,
    ensures
        edit(
            Setting::RootOutput,
            edit(Setting::ScanCalibration, content, calibration)->Ok_0,
            output,
        ) is Ok,
        edit(
            Setting::RootOutput,
            edit(Setting::ScanCalibration, content, calibration)->Ok_0,
            output,
        ) == edit(
            Setting::ScanCalibration,
            edit(Setting::RootOutput, content, output)->Ok_0,
            calibration,
        ),
{
    let a = Setting::ScanCalibration;
    let b = Setting::RootOutput;
    let lines = text::lines(content);
    let total = lines.len() as int;
    text::law_lines_make_the_text(content);
    lemma_edited_lines(a, lines, calibration);
    lemma_edited_lines(b, lines, output);
    let with_a = edited(a, lines, calibration);
    let with_b = edited(b, lines, output);
    text::law_lines_are_found_again(with_a);
    text::law_lines_are_found_again(with_b);
    lemma_same_structure(a, lines, calibration, b, total);
    lemma_same_structure(b, lines, output, a, total);
    reveal_strlit("calibration");
    reveal_strlit("output");
    assert("calibration"@.len() != "output"@.len());
    assert forall|i: int| 0 <= i < lines.len() implies #[trigger] edited(b, with_a, output)[i]
        == edited(a, with_b, calibration)[i] by {
        lemma_same_structure(a, lines, calibration, b, i + 1);
        lemma_same_structure(b, lines, output, a, i + 1);
    }
    assert(edited(b, with_a, output) =~= edited(a, with_b, calibration));
}

/// A name between square brackets.
pub open spec fn bracketed(name: Seq<char>) -> Seq<char> {
    seq!['['] + name + seq![']']
}

/// The line opens a table: but for white space at its ends it is a name between
/// square brackets.
pub open spec fn opens_table(line: Seq<char>) -> bool {
    exists|name: Seq<char>| text::trim(line) == #[trigger] bracketed(name)
}

/// A line with an equals sign.
pub open spec fn assignment(key: Seq<char>, value: Seq<char>) -> Seq<char> {
    key + seq!['='] + value
}

/// But for white space, `key` stands before the line's first equals sign.
pub open spec fn assigns(line: Seq<char>, key: Seq<char>) -> bool {
    exists|before: Seq<char>, after: Seq<char>|
        line == #[trigger] assignment(before, after) && !before.contains('=') && text::trim(before)
            == key
}

/// No table has been opened up to the line at `i`.
pub open spec fn before_tables(lines: Seq<Seq<char>>, i: int) -> bool {
    forall|h: int| 0 <= h <= i ==> !opens_table(#[trigger] lines[h])
}

/// The last table that was opened up to the line at `i` is `[scan]`.
pub open spec fn in_scan_table(lines: Seq<Seq<char>>, i: int) -> bool {
    exists|h: int|
        0 <= h <= i && text::trim(#[trigger] lines[h]) == "[scan]"@ && forall|j: int|
            h < j <= i ==> !opens_table(#[trigger] lines[j])
}

/// The line at `i` is the calibration of the table `[scan]`, or the output that
/// stands before all tables.
pub open spec fn stands(setting: Setting, lines: Seq<Seq<char>>, i: int) -> bool {
    match setting {
        Setting::ScanCalibration => in_scan_table(lines, i) && assigns(lines[i], "calibration"@),
        Setting::RootOutput => before_tables(lines, i) && assigns(lines[i], "output"@),
    }
}

/// A line in three parts.
pub open spec fn parted(indent: Seq<char>, body: Seq<char>, end: Seq<char>) -> Seq<char> {
    indent + body + end
}

/// `new` gives the setting of `line` the value `value`: the line end stays, and
/// so does the indentation of a calibration.
pub open spec fn rewritten(
    setting: Setting,
    line: Seq<char>,
    value: Seq<char>,
    new: Seq<char>,
) -> bool {
    exists|indent: Seq<char>, body: Seq<char>, end: Seq<char>| #![trigger parted(indent, body, end)]
        {
            &&& line == parted(indent, body, end)
            &&& forall|i: int| 0 <= i < indent.len() ==> text::is_space(#[trigger] indent[i])
            &&& body.len() > 0 && !text::is_space(body[0])
            &&& end == ""@ && body.last() != '\n' || end == "\n"@ && body.last() != '\r' || end
                == "\r\n"@
            &&& match setting {
                Setting::ScanCalibration => new == indent + "calibration = "@ + value + end,
                Setting::RootOutput => new == "output = "@ + value + end,
            }
        }
}

proof fn lemma_opens_table(line: Seq<char>)
    ensures
        is_header(line) == opens_table(line),
{
    let t = text::trim(line);
    if is_header(line) {
        let name = t.subrange(1, t.len() - 1);
        assert(t =~= bracketed(name));
    }
    if opens_table(line) {
        let name = choose|name: Seq<char>| t == #[trigger] bracketed(name);
        assert(bracketed(name).last() == ']');
    }
}

proof fn lemma_assigns(line: Seq<char>, key: Seq<char>)
    ensures
        (key_of(line) == Some(key)) == assigns(line, key),
{
    let equals = text::position(line, '=');
    text::lemma_position_found(line, '=');
    if key_of(line) == Some(key) {
        let before = line.take(equals);
        let after = line.skip(equals + 1);
        assert(line =~= assignment(before, after));
        assert(!before.contains('='));
    }
    if assigns(line, key) {
        let (before, after) = choose|before: Seq<char>, after: Seq<char>|
            line == #[trigger] assignment(before, after) && !before.contains('=') && text::trim(
                before,
            ) == key;
        assert forall|j: int| 0 <= j < before.len() implies line[j] != '=' by {
            assert(line[j] == before[j]);
            assert(before.contains(before[j]));
        }
        assert(line[before.len() as int] == '=');
        text::lemma_position(line, '=', before.len() as int);
        assert(line.take(before.len() as int) =~= before);
    }
}

proof fn lemma_inside(lines: Seq<Seq<char>>, n: int)
    requires
        0 <= n <= lines.len(),
    ensures
        inside(Setting::RootOutput, lines, n) == before_tables(lines, n - 1),
        inside(Setting::ScanCalibration, lines, n) == in_scan_table(lines, n - 1),
    decreases n,
{
    if n > 0 {
        lemma_inside(lines, n - 1);
        let line = lines[n - 1];
        lemma_opens_table(line);
        let scan = Setting::ScanCalibration;
        reveal_strlit("[scan]");
        if text::trim(line) == "[scan]"@ {
            assert(is_header(line));
        }
        if inside(scan, lines, n) && !is_header(line) {
            let h = choose|h: int|
                0 <= h <= n - 2 && text::trim(#[trigger] lines[h]) == "[scan]"@ && forall|j: int|
                    h < j <= n - 2 ==> !opens_table(#[trigger] lines[j]);
            assert forall|j: int| h < j <= n - 1 implies !opens_table(#[trigger] lines[j]) by {}
            assert(in_scan_table(lines, n - 1));
        }
        if in_scan_table(lines, n - 1) {
            let h = choose|h: int|
                0 <= h <= n - 1 && text::trim(#[trigger] lines[h]) == "[scan]"@ && forall|j: int|
                    h < j <= n - 1 ==> !opens_table(#[trigger] lines[j]);
            if h < n - 1 {
                assert(!opens_table(lines[n - 1]));
                assert(in_scan_table(lines, n - 2));
            }
        }
    }
}

proof fn lemma_stands(setting: Setting, lines: Seq<Seq<char>>, i: int)
    requires
        0 <= i < lines.len(),
    ensures
        sets(setting, lines, i) == stands(setting, lines, i),
{
    lemma_inside(lines, i + 1);
    lemma_assigns(lines[i], setting.key_text());
}

proof fn lemma_count(setting: Setting, lines: Seq<Seq<char>>, n: int)
    requires
        0 <= n <= lines.len(),
    ensures
        count(setting, lines, n) >= 1 <==> exists|i: int| 0 <= i < n && #[trigger] sets(setting, lines, i),
        count(setting, lines, n) >= 2 <==> exists|i: int, j: int|
            0 <= i < j < n && #[trigger] sets(setting, lines, i) && #[trigger] sets(setting, lines, j),
    decreases n,
{
    if n > 0 {
        lemma_count(setting, lines, n - 1);
        if sets(setting, lines, n - 1) && count(setting, lines, n - 1) >= 1 {
            let i = choose|i: int| 0 <= i < n - 1 && #[trigger] sets(setting, lines, i);
            assert(0 <= i < n - 1 < n);
        }
    }
}

proof fn lemma_rewritten(setting: Setting, line: Seq<char>, value: Seq<char>)
    requires
        text::is_line(line),
        key_of(line) == Some(setting.key_text()),
    ensures
        rewritten(setting, line, value, replacement(setting, line, value)),
{
    lemma_line_with_key(setting, line);
    lemma_line_break(line);
    text::lemma_trim_start(line);
    reveal_strlit("");
    reveal_strlit("\n");
    reveal_strlit("\r\n");
    reveal_strlit("calibration");
    reveal_strlit("output");
    reveal_strlit(" = ");
    reveal_strlit("calibration = ");
    reveal_strlit("output = ");
    assert("calibration"@ + " = "@ =~= "calibration = "@);
    assert("output"@ + " = "@ =~= "output = "@);
    let indent = indentation(line);
    let end = line_break(line);
    let rest = text::trim_start(line);
    assert(line =~= indent + rest);
    assert forall|i: int| 0 <= i < indent.len() implies text::is_space(#[trigger] indent[i]) by {
        assert(indent[i] == line[i]);
    }
    assert(!text::is_space(rest[0]));
    assert(rest.last() == line.last());
    assert(rest.len() > end.len()) by {
        if end.len() == 2 && rest.len() == 2 {
            assert(rest[0] == line[line.len() - 2]);
        }
    }
    let body = rest.take(rest.len() - end.len());
    if end.len() == 1 {
        assert(body.last() == line[line.len() - 2]);
        assert(end =~= "\n"@);
    } else if end.len() == 2 {
        assert(end =~= "\r\n"@);
    } else {
        assert(end =~= ""@);
        assert(body =~= rest);
    }
    assert(rest =~= body + end) by {
        assert(rest.skip(rest.len() - end.len()) =~= end) by {
            if end.len() == 2 {
                assert(rest[rest.len() - 2] == line[line.len() - 2]);
            }
        }
    }
    assert(line =~= parted(indent, body, end));
    let new = replacement(setting, line, value);
    match setting {
        Setting::ScanCalibration => {
            assert(new =~= indent + "calibration = "@ + value + end);
        },
        Setting::RootOutput => {
            assert(new =~= "output = "@ + value + end);
        },
    }
}

/// A file that sets the calibration or the output once gets that line rewritten,
/// and keeps all the others. One that does not set it, or sets it twice, is
/// refused. A key counts only in its own place: the calibration in the table
/// `[scan]`, the output before all tables.
pub proof fn law_edit_finds_the_setting(setting: Setting, content: Seq<char>, value: Seq<char>)
    ensures
        ({
            let lines = text::lines(content);
            match edit(setting, content, value) {
                Ok(after) => exists|k: int, new: Seq<char>|
                    #![trigger lines.update(k, new)]
                    {
                        &&& 0 <= k < lines.len()
                        &&& stands(setting, lines, k)
                        &&& forall|i: int|
                            0 <= i < lines.len() && i != k ==> !#[trigger] stands(
                                setting,
                                lines,
                                i,
                            )
                        &&& rewritten(setting, lines[k], value, new)
                        &&& after == text::concat(lines.update(k, new))
                    },
                Err(EditError::Missing(missing)) => missing == setting && forall|i: int|
                    0 <= i < lines.len() ==> !#[trigger] stands(setting, lines, i),
                Err(EditError::Duplicate(twice)) => twice == setting && exists|i: int, j: int|
                    0 <= i < j < lines.len() && #[trigger] stands(setting, lines, i)
                        && #[trigger] stands(setting, lines, j),
            }
        }),
{
    let lines = text::lines(content);
    let n = lines.len() as int;
    text::law_lines_make_the_text(content);
    lemma_count(setting, lines, n);
    assert forall|i: int| 0 <= i < n implies #[trigger] sets(setting, lines, i) == stands(
        setting,
        lines,
        i,
    ) by {
        lemma_stands(setting, lines, i);
    }
    assert forall|i: int| 0 <= i < n implies #[trigger] stands(setting, lines, i) == sets(
        setting,
        lines,
        i,
    ) by {
        lemma_stands(setting, lines, i);
    }
    match edit(setting, content, value) {
        Ok(after) => {
            let k = choose|i: int| 0 <= i < n && #[trigger] sets(setting, lines, i);
            let new = replacement(setting, lines[k], value);
            assert(text::is_line(lines[k]));
            lemma_rewritten(setting, lines[k], value);
            assert forall|i: int| 0 <= i < n && i != k implies !#[trigger] stands(
                setting,
                lines,
                i,
            ) by {
                if sets(setting, lines, i) {
                    if i < k {
                        assert(sets(setting, lines, i) && sets(setting, lines, k));
                    } else {
                        assert(sets(setting, lines, k) && sets(setting, lines, i));
                    }
                }
            }
            assert(edited(setting, lines, value) =~= lines.update(k, new));
        },
        Err(EditError::Missing(_)) => {},
        Err(EditError::Duplicate(_)) => {
            let (i, j) = choose|i: int, j: int|
                0 <= i < j < n && #[trigger] sets(setting, lines, i) && #[trigger] sets(
                    setting,
                    lines,
                    j,
                );
            assert(stands(setting, lines, i) && stands(setting, lines, j));
        },
    }
}

} // verus!
