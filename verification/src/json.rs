//! JSON, as the `serde_json` crate writes and reads it.

use crate::text::hex_padded;
use vstd::prelude::*;

verus! {

/// A character in a JSON string: the quote, the backslash and the control
/// characters are escaped.
pub open spec fn json_escape(c: char) -> Seq<char> {
    if c == '"' || c == '\\' {
        seq!['\\', c]
    } else if c == '\u{8}' {
        seq!['\\', 'b']
    } else if c == '\u{c}' {
        seq!['\\', 'f']
    } else if c == '\n' {
        seq!['\\', 'n']
    } else if c == '\r' {
        seq!['\\', 'r']
    } else if c == '\t' {
        seq!['\\', 't']
    } else if ' ' > c {
        seq!['\\', 'u'] + hex_padded(c as nat, 4)
    } else {
        seq![c]
    }
}

/// A text between the quotes of a JSON string.
pub open spec fn json_escaped(text: Seq<char>) -> Seq<char>
    decreases text.len(),
{
    if text.len() == 0 {
        Seq::empty()
    } else {
        json_escaped(text.drop_last()) + json_escape(text.last())
    }
}

/// A text as a JSON string.
pub open spec fn json_string_of(text: Seq<char>) -> Seq<char> {
    seq!['"'] + json_escaped(text) + seq!['"']
}

/// `serde_json::to_string` on a text: its JSON string, quotes included, with
/// the escapes of [`json_escape`] and no others. Of a text it never fails.
#[verifier::external_body]
pub(crate) fn json_string(text: &str) -> (r: String)
    ensures
        r@ == json_string_of(text@),
{
    serde_json::to_string(text).expect("a text is always a JSON string")
}

/// The text in a field of a JSON object, as `serde_json::from_slice` reads it;
/// `None` where the bytes are no JSON object, or the field is missing or holds
/// no text.
pub uninterp spec fn json_text_field(bytes: Seq<u8>, field: Seq<char>) -> Option<Seq<char>>;

/// `serde_json::from_slice` into a `serde_json::Value`, then `Value::get` and
/// `Value::as_str`: the field's text is determined by the bytes and the field's
/// name.
#[verifier::external_body]
pub(crate) fn json_field(bytes: &Vec<u8>, field: &str) -> (r: Option<String>)
    ensures
        r is Some == json_text_field(bytes@, field@) is Some,
        r is Some ==> r->0@ == json_text_field(bytes@, field@)->0,
{
    let value: serde_json::Value = serde_json::from_slice(bytes).ok()?;
    Some(value.get(field)?.as_str()?.to_string())
}

} // verus!
