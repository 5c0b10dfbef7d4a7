//! The wording of error messages.

use vstd::prelude::*;

verus! {

/// The character of a hexadecimal digit, in lower case.
pub open spec fn hex_digit(n: int) -> char {
    if n < 10 {
        (0x30 + n) as char
    } else {
        (0x61 + n - 10) as char
    }
}

/// A byte as it is shown in a message: a tab, a carriage return, a line
/// feed, a quote, a double quote and a backslash as a backslash and a
/// character; any other printable ASCII character as itself; and any other
/// byte as `\x` and two hexadecimal digits.
pub open spec fn spec_escape(byte: u8) -> Seq<char> {
    if byte == 0x09 {
        seq!['\\', 't']
    } else if byte == 0x0d {
        seq!['\\', 'r']
    } else if byte == 0x0a {
        seq!['\\', 'n']
    } else if byte == 0x27 {
        seq!['\\', '\'']
    } else if byte == 0x22 {
        seq!['\\', '"']
    } else if byte == 0x5c {
        seq!['\\', '\\']
    } else if 0x20 <= byte <= 0x7e {
        seq![byte as char]
    } else {
        seq!['\\', 'x', hex_digit(byte as int / 16), hex_digit(byte as int % 16)]
    }
}

/// `core::ascii::escape_default` of the standard library, with its output
/// gathered in a string: the escaped form of `byte`, by the rules that the
/// documentation of that function lists.
#[verifier::external_body]
pub(crate) fn escape(byte: u8) -> (text: String)
    ensures
        text@ == spec_escape(byte),
{
    core::ascii::escape_default(byte).to_string()
}

/// The text `before`, the escaped form of `byte`, and the text `after`.
pub(crate) fn around(before: &str, byte: u8, after: &str) -> (text: String)
    ensures
        text@ == before@ + spec_escape(byte) + after@,
{
    let mut text = String::from_str(before);
    let escaped = escape(byte);
    text.append(escaped.as_str());
    text.append(after);
    text
}

} // verus!
