//! The little JSON that the executor prints.

use vstd::prelude::*;
use vstd::string::*;

verus! {

/// The lower-case hexadecimal digit with the value `n`.
pub open spec fn hex_lower(n: nat) -> char {
    if n < 10 {
        (48 + n) as char
    } else {
        (87 + n) as char
    }
}

/// One character inside a JSON string: quote, backslash and the control
/// characters below U+0020 are escaped, everything else stands as it is.
pub open spec fn json_char(c: char) -> Seq<char> {
    let n = c as nat;
    if c == '"' {
        seq!['\\', '"']
    } else if c == '\\' {
        seq!['\\', '\\']
    } else if n == 0x08 {
        seq!['\\', 'b']
    } else if n == 0x09 {
        seq!['\\', 't']
    } else if n == 0x0A {
        seq!['\\', 'n']
    } else if n == 0x0C {
        seq!['\\', 'f']
    } else if n == 0x0D {
        seq!['\\', 'r']
    } else if n < 0x20 {
        seq!['\\', 'u', '0', '0', hex_lower(n / 16), hex_lower(n % 16)]
    } else {
        seq![c]
    }
}

/// The characters of a JSON string between its quotes.
pub open spec fn json_body(text: Seq<char>) -> Seq<char>
    decreases text.len(),
{
    if text.len() == 0 {
        Seq::empty()
    } else {
        json_body(text.drop_last()) + json_char(text.last())
    }
}

/// `text` as a JSON string.
pub open spec fn json_string_of(text: Seq<char>) -> Seq<char> {
    seq!['"'] + json_body(text) + seq!['"']
}

/// `serde_json::Value::from` makes a string value of `text`, and the value's
/// `to_string` writes it as compact JSON: quoted, with quote, backslash and
/// control characters escaped, the latter by their short form where they have
/// one, else as `\u00` and two lower-case hexadecimal digits.
#[verifier::external_body]
pub(crate) fn json_string(text: &str) -> (json: String)
    ensures
        json@ == json_string_of(text@),
{
    serde_json::Value::from(text).to_string()
}

/// The envelope around a failure's message.
pub open spec fn envelope_of(message: Seq<char>) -> Seq<char> {
    "{\"error\":{\"code\":\"backend_error\",\"message\":"@ + json_string_of(message) + "}}"@
}

/// One-line machine-readable diagnostic.
pub fn envelope(message: &str) -> (line: String)
    ensures
        line@ == envelope_of(message@),
{
    let mut line: String = "{\"error\":{\"code\":\"backend_error\",\"message\":".to_string();
    let quoted: String = json_string(message);
    line.append(quoted.as_str());
    line.append("}}");
    line
}

/// The report on platform support: the reason is there where the backend is
/// not supported.
pub open spec fn probe_line_of(is_supported: bool, reason: Option<Seq<char>>) -> Seq<char> {
    (if is_supported {
        "{\"availableMethods\":[\"vz\"],\"isSupported\":true,\"reason\":"@
    } else {
        "{\"availableMethods\":[],\"isSupported\":false,\"reason\":"@
    }) + (match reason {
        Some(text) => json_string_of(text),
        None => "null"@,
    }) + "}"@
}

/// The line that reports platform support.
pub fn probe_line(is_supported: bool, reason: Option<String>) -> (line: String)
    ensures
        line@ == probe_line_of(
            is_supported,
            match reason {
                Some(text) => Some(text@),
                None => None,
            },
        ),
{
    let mut line: String = if is_supported {
        "{\"availableMethods\":[\"vz\"],\"isSupported\":true,\"reason\":".to_string()
    } else {
        "{\"availableMethods\":[],\"isSupported\":false,\"reason\":".to_string()
    };
    match reason {
        Some(text) => {
            let quoted: String = json_string(text.as_str());
            line.append(quoted.as_str());
        },
        None => {
            line.append("null");
        },
    }
    line.append("}");
    line
}

/// A JSON string never holds a line break, so an envelope is always one line.
pub proof fn json_strings_are_one_line(text: Seq<char>)
    ensures
        !json_body(text).contains('\n'),
        !json_body(text).contains('\r'),
        !json_string_of(text).contains('\n'),
        !json_string_of(text).contains('\r'),
    decreases text.len(),
{
    let body = json_body(text);
    if text.len() > 0 {
        json_strings_are_one_line(text.drop_last());
        let front = json_body(text.drop_last());
        let tail = json_char(text.last());
        assert forall|i: int| 0 <= i < body.len() implies body[i] != '\n' && body[i] != '\r' by {
            if i < front.len() {
                assert(front[i] == body[i]);
                assert(front.contains(body[i]));
            } else {
                assert(body[i] == tail[i - front.len()]);
            }
        }
    }
    let whole = json_string_of(text);
    assert forall|i: int| 0 <= i < whole.len() implies whole[i] != '\n' && whole[i] != '\r' by {
        if 0 < i < whole.len() - 1 {
            assert(whole[i] == body[i - 1]);
        }
    }
}

/// Strings are escaped character by character, in order: quote and backslash
/// behind a backslash, backspace, tab, line feed, form feed and carriage return
/// by their letters, and everything from the space on as it is. Each other
/// control character takes six characters, the last two of which spell it.
pub proof fn json_strings_escape_each_character(front: Seq<char>, back: Seq<char>, c: char)
    ensures
        json_body(Seq::empty()) == Seq::<char>::empty(),
        json_body(front + back) == json_body(front) + json_body(back),
        json_string_of(front).len() == json_body(front).len() + 2,
        json_string_of(front)[0] == '"',
        json_string_of(front).last() == '"',
        c == '"' ==> json_body(seq![c]) == seq!['\\', '"'],
        c == '\\' ==> json_body(seq![c]) == seq!['\\', '\\'],
        c == '\n' ==> json_body(seq![c]) == seq!['\\', 'n'],
        c == '\r' ==> json_body(seq![c]) == seq!['\\', 'r'],
        c == '\t' ==> json_body(seq![c]) == seq!['\\', 't'],
        c == '\u{8}' ==> json_body(seq![c]) == seq!['\\', 'b'],
        c == '\u{c}' ==> json_body(seq![c]) == seq!['\\', 'f'],
        c >= ' ' && c != '"' && c != '\\' ==> json_body(seq![c]) == seq![c],
        c < ' ' && c != '\n' && c != '\r' && c != '\t' && c != '\u{8}' && c != '\u{c}' ==> json_body(
            seq![c],
        ).len() == 6 && json_body(seq![c]).subrange(0, 4) == seq!['\\', 'u', '0', '0'],
    decreases back.len(),
{
    reveal_with_fuel(json_body, 2);
    assert(seq![c].drop_last() =~= Seq::empty());
    assert(json_body(seq![c]) =~= json_char(c));
    if json_char(c).len() == 6 {
        assert(json_body(seq![c]).subrange(0, 4) =~= seq!['\\', 'u', '0', '0']);
    }
    let all = front + back;
    if back.len() == 0 {
        assert(all =~= front);
        assert(json_body(front) + json_body(back) =~= json_body(front));
    } else {
        assert(all.drop_last() =~= front + back.drop_last());
        json_strings_escape_each_character(front, back.drop_last(), c);
        assert(json_body(all) =~= json_body(front) + json_body(back));
    }
}

/// The report on support names the backend exactly where it is supported, and
/// gives the reason, or null where there is none.
pub proof fn probe_reports_say(reason: Seq<char>)
    ensures
        probe_line_of(true, None)
            == "{\"availableMethods\":[\"vz\"],\"isSupported\":true,\"reason\":"@ + "null"@
            + "}"@,
        probe_line_of(false, Some(reason))
            == "{\"availableMethods\":[],\"isSupported\":false,\"reason\":"@ + json_string_of(
            reason,
        ) + "}"@,
{
}

} // verus!
