//! JSON as the library holds it: compact text, read through `serde_json`. Reading a
//! float may change its last digit, so what holds numbers is read from the bytes in which
//! it came, once; of a text only strings are read again.

use vstd::prelude::*;

use crate::sorted_map::Duplicate;
use crate::text::Text;

verus! {

/// A JSON value, held as its compact text.
#[derive(Debug, Clone, PartialEq)]
pub struct Json {
    pub text: String,
}

impl View for Json {
    type V = Text;

    open spec fn view(&self) -> Text {
        self.text@
    }
}

impl Duplicate for Json {
    fn duplicate(&self) -> (copy: Self) {
        Json { text: self.text.clone() }
    }
}

/// The compact text of the JSON value that `raw` holds, where it holds one:
/// what `serde_json` reads from the bytes, written out again.
pub uninterp spec fn json_document(raw: Seq<u8>) -> Option<Text>;

/// The compact text of the value that the JSON pointer `pointer` finds in the JSON that
/// `raw` holds, where it finds one.
pub uninterp spec fn json_at(raw: Seq<u8>, pointer: Text) -> Option<Text>;

/// The compact text of the member `key` of the JSON object `text`, where `text`
/// is an object that has one.
pub uninterp spec fn json_member(text: Text, key: Text) -> Option<Text>;

/// What the JSON string `text` spells, where `text` is a string.
pub uninterp spec fn json_string(text: Text) -> Option<Text>;

/// Is the JSON value `text` an array?
pub uninterp spec fn json_array(text: Text) -> bool;

/// No control character stands in the text.
pub open spec fn printable(text: Text) -> bool {
    forall|i: int| 0 <= i < text.len() ==> 32 <= (#[trigger] text[i]) as int
}

/// Calls `serde_json::from_slice` for a `serde_json::Value` and writes that value
/// out with its `Display`. What comes back is named by `json_document`: `None`
/// where the bytes are not JSON. The compact text is never empty and holds no
/// control character, since the serialiser escapes those inside strings and
/// writes no white space.
#[verifier::external_body]
fn read_document(raw: &[u8]) -> (r: Option<String>)
    ensures
        r is Some <==> json_document(raw@) is Some,
        r matches Some(t) ==> Some(t@) == json_document(raw@),
        r matches Some(t) ==> t@.len() > 0 && printable(t@),
{
    serde_json::from_slice::<serde_json::Value>(raw).ok().map(|v| v.to_string())
}

/// Calls `serde_json::Value::pointer` on what `serde_json::from_slice` reads from the
/// bytes and writes the value out with its `Display`. What comes back is named by
/// `json_at`: `None` where the bytes are not JSON or the pointer leads nowhere. The
/// bytes are read once, however long the path is.
#[verifier::external_body]
fn read_pointer(raw: &[u8], pointer: &str) -> (r: Option<String>)
    ensures
        r is Some <==> json_at(raw@, pointer@) is Some,
        r matches Some(t) ==> Some(t@) == json_at(raw@, pointer@),
        r matches Some(t) ==> t@.len() > 0 && printable(t@),
{
    let v: serde_json::Value = serde_json::from_slice(raw).ok()?;
    v.pointer(pointer).map(|m| m.to_string())
}

/// Calls `serde_json::Value::get` on what `text` holds and writes the member out
/// with its `Display`. What comes back is named by `json_member`: `None` where
/// `text` is not a JSON object or lacks the key.
#[verifier::external_body]
fn read_member(text: &str, key: &str) -> (r: Option<String>)
    ensures
        r is Some <==> json_member(text@, key@) is Some,
        r matches Some(t) ==> Some(t@) == json_member(text@, key@),
        r matches Some(t) ==> t@.len() > 0 && printable(t@),
{
    let v: serde_json::Value = serde_json::from_str(text).ok()?;
    v.get(key).map(|m| m.to_string())
}

/// Calls `serde_json::Value::as_str` on what `text` holds. What comes back is
/// named by `json_string`: `None` where `text` is not a JSON string.
#[verifier::external_body]
fn read_string(text: &str) -> (r: Option<String>)
    ensures
        r is Some <==> json_string(text@) is Some,
        r matches Some(t) ==> Some(t@) == json_string(text@),
{
    let v: serde_json::Value = serde_json::from_str(text).ok()?;
    v.as_str().map(|s| s.to_string())
}

/// Calls `serde_json::Value::as_array` on what `text` holds. Whether it is an
/// array is named by `json_array`.
#[verifier::external_body]
fn read_is_array(text: &str) -> (r: bool)
    ensures
        r == json_array(text@),
{
    serde_json::from_str::<serde_json::Value>(text).is_ok_and(|v| v.as_array().is_some())
}

impl Json {
    /// Read JSON from bytes.
    pub fn read(raw: &[u8]) -> (r: Option<Json>)
        ensures
            r is Some <==> json_document(raw@) is Some,
            r matches Some(j) ==> Some(j@) == json_document(raw@) && j@.len() > 0 && printable(j@),
    {
        match read_document(raw) {
            Some(text) => Some(Json { text }),
            None => None,
        }
    }

    /// Read what stands at a path in the JSON in bytes. The path is a JSON pointer, such
    /// as `/result/value`.
    pub fn read_at(raw: &[u8], pointer: &str) -> (r: Option<Json>)
        ensures
            r is Some <==> json_at(raw@, pointer@) is Some,
            r matches Some(j) ==> Some(j@) == json_at(raw@, pointer@) && j@.len() > 0 && printable(
                j@,
            ),
    {
        match read_pointer(raw, pointer) {
            Some(text) => Some(Json { text }),
            None => None,
        }
    }

    /// The member of an object under a key.
    pub fn member(&self, key: &str) -> (r: Option<Json>)
        ensures
            r is Some <==> json_member(self@, key@) is Some,
            r matches Some(j) ==> Some(j@) == json_member(self@, key@) && j@.len() > 0 && printable(
                j@,
            ),
    {
        match read_member(self.text.as_str(), key) {
            Some(text) => Some(Json { text }),
            None => None,
        }
    }

    /// What a string spells.
    pub fn as_text(&self) -> (r: Option<String>)
        ensures
            r is Some <==> json_string(self@) is Some,
            r matches Some(t) ==> Some(t@) == json_string(self@),
    {
        read_string(self.text.as_str())
    }

    /// Is this an array?
    pub fn is_array(&self) -> (r: bool)
        ensures
            r == json_array(self@),
    {
        read_is_array(self.text.as_str())
    }
}

/// What the string member `key` of the JSON object `text` spells, where there is
/// such a member.
pub open spec fn member_string(text: Text, key: Text) -> Option<Text> {
    match json_member(text, key) {
        Some(m) => json_string(m),
        None => None,
    }
}

/// What a string member of an object spells.
pub fn member_text(json: &Json, key: &str) -> (r: Option<String>)
    ensures
        r is Some <==> member_string(json@, key@) is Some,
        r matches Some(t) ==> Some(t@) == member_string(json@, key@),
{
    match json.member(key) {
        Some(m) => m.as_text(),
        None => None,
    }
}

/// The character for a hexadecimal digit, in lower case.
pub open spec fn hex_digit(d: int) -> char {
    if d < 10 {
        (48 + d) as char
    } else {
        (87 + d) as char
    }
}

/// How a character is written inside a JSON string.
pub open spec fn escaped_char(c: char) -> Text {
    let code = c as int;
    if c == '"' || c == '\\' {
        seq!['\\', c]
    } else if code == 8 {
        seq!['\\', 'b']
    } else if code == 9 {
        seq!['\\', 't']
    } else if code == 10 {
        seq!['\\', 'n']
    } else if code == 12 {
        seq!['\\', 'f']
    } else if code == 13 {
        seq!['\\', 'r']
    } else if code < 32 {
        seq!['\\', 'u', '0', '0', hex_digit(code / 16), hex_digit(code % 16)]
    } else {
        seq![c]
    }
}

/// How a text is written inside a JSON string.
pub open spec fn escaped(s: Text) -> Text
    decreases s.len(),
{
    if s.len() == 0 {
        Seq::empty()
    } else {
        escaped_char(s[0]) + escaped(s.drop_first())
    }
}

/// A text as a JSON string.
pub open spec fn quoted(s: Text) -> Text {
    seq!['"'] + escaped(s) + seq!['"']
}

/// Calls `serde_json::to_string` on a string slice: the text between quotation
/// marks, with quotation marks, backslashes and control characters escaped and
/// every other character as it is.
#[verifier::external_body]
pub(crate) fn quote(s: &str) -> (r: String)
    ensures
        r@ == quoted(s@),
{
    serde_json::to_string(s).unwrap_or_default()
}

} // verus!
