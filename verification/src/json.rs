//! JSON documents, of which single strings are read and written.
//!
//! Reading and writing JSON is `serde_json`'s work. A document is its text.

use serde_json::Value;
use vstd::prelude::*;
use vstd::string::StringExecFns;

verus! {

/// The string that the `serde_json::Value` which `serde_json::from_str` reads in a
/// text holds at a JSON pointer; none where the text is not JSON, where nothing
/// stands there, or where that is no string.
pub uninterp spec fn json_text_at(text: Seq<char>, pointer: Seq<char>) -> Option<Seq<char>>;

/// Reads a text with `serde_json::from_str` into a `serde_json::Value`, and hands
/// out the string that `Value::pointer` finds in it, through `Value::as_str`.
///
/// Nothing more is claimed than that the text and the pointer alone decide what
/// comes back: neither the JSON grammar nor that of pointers is written out here.
#[verifier::external_body]
pub(crate) fn read_text_at(text: &str, pointer: &str) -> (value: Option<String>)
    ensures
        match json_text_at(text@, pointer@) {
            Some(v) => value matches Some(s) && s@ == v,
            None => value is None,
        },
{
    match serde_json::from_str::<Value>(text) {
        Err(_) => None,
        Ok(document) => document.pointer(pointer).and_then(Value::as_str).map(str::to_owned),
    }
}

/// The hexadecimal digit of `d`.
pub open spec fn hex_digit(d: int) -> char {
    if d < 10 {
        (48 + d) as char
    } else {
        (87 + d) as char
    }
}

/// How one character is written in a JSON string.
pub open spec fn json_char(c: char) -> Seq<char> {
    if c == '"' || c == '\\' {
        seq!['\\', c]
    } else if c == '\u{8}' {
        seq!['\\', 'b']
    } else if c == '\t' {
        seq!['\\', 't']
    } else if c == '\n' {
        seq!['\\', 'n']
    } else if c == '\u{c}' {
        seq!['\\', 'f']
    } else if c == '\r' {
        seq!['\\', 'r']
    } else if (c as int) < 32 {
        seq!['\\', 'u', '0', '0', hex_digit(c as int / 16), hex_digit(c as int % 16)]
    } else {
        seq![c]
    }
}

/// How characters are written in a JSON string.
pub open spec fn json_chars(s: Seq<char>) -> Seq<char>
    decreases s.len(),
{
    if s.len() == 0 {
        Seq::empty()
    } else {
        json_chars(s.drop_last()) + json_char(s.last())
    }
}

/// The text of a JSON object with one field, which holds a string.
pub open spec fn json_field(key: Seq<char>, value: Seq<char>) -> Seq<char> {
    seq!['{', '"'] + json_chars(key) + seq!['"', ':', '"'] + json_chars(value) + seq!['"', '}']
}

/// A key that stands in a pointer as it is, and that `serde_json` does not read in
/// a way of its own: one that is not empty, does not begin with `$`, and holds
/// neither `/` nor `~`.
pub open spec fn plain_key(key: Seq<char>) -> bool {
    key.len() > 0 && key[0] != '$' && !key.contains('/') && !key.contains('~')
}

/// The string in a field of the object that `text` holds, where the key is plain.
pub open spec fn text_field(text: Seq<char>, key: Seq<char>) -> Option<Seq<char>> {
    json_text_at(text, "/"@ + key)
}

/// Writes an object with one field, which holds a string, through
/// `serde_json::Value`'s `to_string`: no white space stands between the tokens, and
/// in the two strings quotes, backslashes and control characters are escaped.
/// Claimed besides, of a [plain key](plain_key): reading the text again finds that
/// string in that field.
#[verifier::external_body]
pub(crate) fn write_field(key: &str, value: &str) -> (text: String)
    ensures
        text@ == json_field(key@, value@),
        plain_key(key@) ==> text_field(text@, key@) == Some(value@),
{
    let mut object = serde_json::Map::new();
    object.insert(key.to_owned(), Value::String(value.to_owned()));
    Value::Object(object).to_string()
}

/// The string in a field of the object that `text` holds, where the key is plain.
pub fn read_text_field(text: &str, key: &str) -> (value: Option<String>)
    ensures
        match text_field(text@, key@) {
            Some(v) => value matches Some(s) && s@ == v,
            None => value is None,
        },
{
    let mut pointer = "/".to_owned();
    pointer.append(key);
    read_text_at(text, pointer.as_str())
}

} // verus!
