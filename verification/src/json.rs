//! JSON string literals.
use vstd::prelude::*;

use crate::text;

verus! {

/// The error of `serde_json`.
#[verifier::external_type_specification]
#[verifier::external_body]
pub struct ExJsonError(serde_json::Error);

/// How a JSON string literal writes one character.
pub open spec fn escaped(c: char) -> Seq<char> {
    if c == '"' {
        seq!['\\', '"']
    } else if c == '\\' {
        seq!['\\', '\\']
    } else if c == '\u{8}' {
        seq!['\\', 'b']
    } else if c == '\t' {
        seq!['\\', 't']
    } else if c == '\n' {
        seq!['\\', 'n']
    } else if c == '\u{c}' {
        seq!['\\', 'f']
    } else if c == '\r' {
        seq!['\\', 'r']
    } else if c as int <= 0x1f {
        seq!['\\', 'u', '0', '0', text::digit(c as int / 16), text::digit(c as int % 16)]
    } else {
        seq![c]
    }
}

/// How a JSON string literal writes a text between its quotes.
pub open spec fn escape(s: Seq<char>) -> Seq<char>
    decreases s.len(),
{
    if s.len() == 0 {
        Seq::empty()
    } else {
        escaped(s[0]) + escape(s.drop_first())
    }
}

/// The JSON string literal of a text.
pub open spec fn quoted(s: Seq<char>) -> Seq<char> {
    seq!['"'] + escape(s) + seq!['"']
}

/// `serde_json::to_string` on a string: it always succeeds and writes the
/// string literal, with quotes, backslashes and control characters escaped
/// and all else as it is.
#[verifier::external_body]
pub(crate) fn string_literal(value: &str) -> (literal: Result<String, serde_json::Error>)
    ensures
        literal is Ok,
        literal->Ok_0@ == quoted(value@),
{
    serde_json::to_string(value)
}

/// The JSON string literal of `value`.
pub fn quote(value: &str) -> (literal: String)
    ensures
        literal@ == quoted(value@),
{
    match string_literal(value) {
        Ok(literal) => literal,
        Err(_) => String::new(),
    }
}

// ---------------------------------------------------------------------------
// Laws
// ---------------------------------------------------------------------------
/// The number that a lower case hexadecimal digit stands for.
pub open spec fn hex_value(c: char) -> int {
    if c <= '9' {
        c as int - '0' as int
    } else {
        c as int - 'a' as int + 10
    }
}

/// The character that a two character escape stands for.
pub open spec fn short_escape(c: char) -> char {
    if c == 'b' {
        '\u{8}'
    } else if c == 't' {
        '\t'
    } else if c == 'n' {
        '\n'
    } else if c == 'f' {
        '\u{c}'
    } else if c == 'r' {
        '\r'
    } else {
        c
    }
}

/// The text that stands between the quotes of a JSON string literal.
pub open spec fn unescape(s: Seq<char>) -> Seq<char>
    decreases s.len(),
{
    if s.len() == 0 {
        Seq::empty()
    } else if s[0] != '\\' {
        seq![s[0]] + unescape(s.skip(1))
    } else if s.len() >= 6 && s[1] == 'u' {
        seq![(hex_value(s[4]) * 16 + hex_value(s[5])) as char] + unescape(s.skip(6))
    } else if s.len() >= 2 {
        seq![short_escape(s[1])] + unescape(s.skip(2))
    } else {
        Seq::empty()
    }
}

proof fn lemma_control_character(c: char)
    requires
        c as int <= 0x1f,
    ensures
        hex_value(text::digit(c as int / 16)) * 16 + hex_value(text::digit(c as int % 16))
            == c as int,
        text::digit(c as int / 16) as int >= '0' as int,
        text::digit(c as int % 16) as int >= '0' as int,
{
    assert(c as int / 16 * 16 + c as int % 16 == c as int);
}

/// A text is read back from its string literal.
pub proof fn law_literal_reads_back(s: Seq<char>)
    ensures
        unescape(escape(s)) == s,
        quoted(s).subrange(1, quoted(s).len() - 1) == escape(s),
    decreases s.len(),
{
    assert(quoted(s).subrange(1, quoted(s).len() - 1) =~= escape(s));
    if s.len() > 0 {
        let rest = s.drop_first();
        law_literal_reads_back(rest);
        let head = escaped(s[0]);
        let all = escape(s);
        assert(all == head + escape(rest));
        assert(all[0] == head[0]);
        if head.len() == 1 {
            assert(all.skip(1) =~= escape(rest));
        } else if head.len() == 2 {
            assert(all[1] == head[1]);
            assert(all.skip(2) =~= escape(rest));
        } else {
            assert(s[0] as int <= 0x1f) by {
                if s[0] as int > 0x1f {
                    assert(head.len() <= 2);
                }
            }
            assert(all[1] == head[1] && all[4] == head[4] && all[5] == head[5]);
            assert(all.skip(6) =~= escape(rest));
            lemma_control_character(s[0]);
        }
        assert(unescape(all) =~= seq![s[0]] + rest);
        assert(seq![s[0]] + rest =~= s);
    }
}

/// A string literal holds no line feed, and no white space at its ends.
pub proof fn law_literal_is_one_line(s: Seq<char>)
    ensures
        forall|i: int| 0 <= i < quoted(s).len() ==> #[trigger] quoted(s)[i] != '\n',
        quoted(s).len() >= 2,
        quoted(s)[0] == '"',
        quoted(s).last() == '"',
{
    lemma_escape_is_one_line(s);
}

proof fn lemma_escape_is_one_line(s: Seq<char>)
    ensures
        forall|i: int| 0 <= i < escape(s).len() ==> #[trigger] escape(s)[i] != '\n',
    decreases s.len(),
{
    if s.len() > 0 {
        lemma_escape_is_one_line(s.drop_first());
        let head = escaped(s[0]);
        let tail = escape(s.drop_first());
        assert forall|i: int| 0 <= i < escape(s).len() implies #[trigger] escape(s)[i] != '\n' by {
            if i >= head.len() {
                assert(escape(s)[i] == tail[i - head.len()]);
            } else {
                assert(escape(s)[i] == head[i]);
                if s[0] as int <= 0x1f {
                    lemma_control_character(s[0]);
                }
            }
        }
    }
}

} // verus!
