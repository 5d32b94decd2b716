//! JSON values and their text.
use crate::text::join;
use json::JsonValue;
use vstd::prelude::*;

verus! {

/// A JSON value.
#[verifier::external_type_specification]
#[verifier::external_body]
pub struct ExJsonValue(JsonValue);

/// The text of a JSON value, as it stands in an object.
pub uninterp spec fn json_text(value: JsonValue) -> Seq<char>;

/// The members of an object, in order: each with its key and with the text of
/// its value. A value that is no object has none.
pub uninterp spec fn members(value: JsonValue) -> Seq<(Seq<char>, Seq<char>)>;

/// One of the members has the key `key`.
pub open spec fn has_key(members: Seq<(Seq<char>, Seq<char>)>, key: Seq<char>) -> bool {
    exists|i: int| 0 <= i < members.len() && (#[trigger] members[i]).0 == key
}

/// The members after `key` was set: a member with this key keeps its place and
/// gets the new value, else the new member comes last.
pub open spec fn with_member(
    members: Seq<(Seq<char>, Seq<char>)>,
    key: Seq<char>,
    text: Seq<char>,
) -> Seq<(Seq<char>, Seq<char>)> {
    if has_key(members, key) {
        members.map_values(
            |m: (Seq<char>, Seq<char>)|
                if m.0 == key {
                    (key, text)
                } else {
                    m
                },
        )
    } else {
        members.push((key, text))
    }
}

/// The last digit but one of the hexadecimal number of a control character.
pub open spec fn high_hex_digit(c: char) -> char {
    if c as int >= 16 {
        '1'
    } else {
        '0'
    }
}

/// The last digit of the hexadecimal number of a control character.
pub open spec fn low_hex_digit(c: char) -> char {
    let n = c as int % 16;
    if n < 10 {
        ('0' as int + n) as char
    } else {
        ('a' as int + n - 10) as char
    }
}

/// A character as it stands in a JSON string.
pub open spec fn escaped(c: char) -> Seq<char> {
    if c == '"' || c == '\\' {
        seq!['\\', c]
    } else if c == '\u{8}' {
        seq!['\\', 'b']
    } else if c == '\t' {
        seq!['\\', 't']
    } else if c == '\n' {
        seq!['\\', 'n']
    } else if c == '\u{c}' {
        seq!['\\', 'f']
    } else if c == '\r' {
        seq!['\\', 'r']
    } else if ' ' > c {
        seq!['\\', 'u', '0', '0', high_hex_digit(c), low_hex_digit(c)]
    } else {
        seq![c]
    }
}

/// Characters as they stand in a JSON string.
pub open spec fn all_escaped(s: Seq<char>) -> Seq<char>
    decreases s.len(),
{
    if s.len() == 0 {
        Seq::empty()
    } else {
        all_escaped(s.drop_last()) + escaped(s.last())
    }
}

/// The text of a JSON string.
pub open spec fn json_quoted(s: Seq<char>) -> Seq<char> {
    seq!['"'] + all_escaped(s) + seq!['"']
}

/// The text of an object: its members in braces, with commas between them and
/// a colon behind each key, without any white space.
pub open spec fn object_text(members: Seq<(Seq<char>, Seq<char>)>) -> Seq<char> {
    seq!['{'] + join(
        members.map_values(|m: (Seq<char>, Seq<char>)| json_quoted(m.0).push(':') + m.1),
        ',',
    ) + seq!['}']
}

/// `JsonValue::new_object` makes an object without members.
#[verifier::external_body]
pub(crate) fn new_object() -> (r: JsonValue)
    ensures
        members(r) == Seq::<(Seq<char>, Seq<char>)>::empty(),
        json_text(r) == object_text(members(r)),
{
    JsonValue::new_object()
}

/// Assigning to an index, which `JsonValue` has by `IndexMut<&str>`, sets a
/// member of an object; a value that is no object becomes one first.
#[verifier::external_body]
pub(crate) fn set_member(object: &mut JsonValue, key: &str, value: JsonValue)
    ensures
        members(*final(object)) == with_member(members(*old(object)), key@, json_text(value)),
        json_text(*final(object)) == object_text(members(*final(object))),
{
    object[key] = value;
}

/// `JsonValue::from` makes a JSON string of a string.
#[verifier::external_body]
pub(crate) fn from_string(s: String) -> (r: JsonValue)
    ensures
        json_text(r) == json_quoted(s@),
{
    JsonValue::from(s)
}

/// A clone of a `JsonValue` has the same text and the same members.
#[verifier::external_body]
pub(crate) fn copy(value: &JsonValue) -> (r: JsonValue)
    ensures
        json_text(r) == json_text(*value),
        members(r) == members(*value),
{
    value.clone()
}

/// `JsonValue::to_string` prints an object as JSON, without any white space
/// between the tokens. (A string would be printed without its quotes.)
#[verifier::external_body]
pub(crate) fn print_object(value: &JsonValue) -> (r: String)
    requires
        json_text(*value) == object_text(members(*value)),
    ensures
        r@ == json_text(*value),
{
    value.to_string()
}

} // verus!
