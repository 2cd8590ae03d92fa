//! Reading JSON text: what lies at a path of object keys, and JSON string literals.
use vstd::prelude::*;
use serde_json::Value;
use crate::text::texts;

verus! {

#[verifier::external_type_specification]
#[verifier::external_body]
pub struct ExValue(serde_json::Value);

/// What lies at a path of object keys in a JSON document.
pub enum JsonNode {
    /// The text is not JSON.
    Invalid,
    /// Some key of the path is absent, or names into something that is not an object.
    Missing,
    Object,
    /// An array, with its elements.
    Array(Vec<Value>),
    Text(String),
    /// A number, a boolean or null.
    Other,
}

/// The shape of a `JsonNode`, an array by its length.
pub enum JsonShape {
    Invalid,
    Missing,
    Object,
    Array(nat),
    Text(Seq<char>),
    Other,
}

pub open spec fn shape_of(n: JsonNode) -> JsonShape {
    match n {
        JsonNode::Invalid => JsonShape::Invalid,
        JsonNode::Missing => JsonShape::Missing,
        JsonNode::Object => JsonShape::Object,
        JsonNode::Array(v) => JsonShape::Array(v@.len()),
        JsonNode::Text(s) => JsonShape::Text(s@),
        JsonNode::Other => JsonShape::Other,
    }
}

/// What serde_json finds in `text` at the object keys `path`.
pub uninterp spec fn json_shape(text: Seq<char>, path: Seq<Seq<char>>) -> JsonShape;

/// Relies on serde_json::from_str and serde_json::Value::get: parses `text` and follows
/// the keys of `path` from the top; the result depends on the text and path alone.
#[verifier::external_body]
pub fn json_at(text: &str, path: &Vec<String>) -> (r: JsonNode)
    ensures
        shape_of(r) == json_shape(text@, texts(path@)),
{
    let v: Value = match serde_json::from_str(text) {
        Ok(v) => v,
        Err(_) => return JsonNode::Invalid,
    };
    match path.iter().try_fold(&v, |v, k| v.get(k.as_str())) {
        None => JsonNode::Missing,
        Some(Value::Object(_)) => JsonNode::Object,
        Some(Value::Array(a)) => JsonNode::Array(a.clone()),
        Some(Value::String(s)) => JsonNode::Text(s.clone()),
        Some(_) => JsonNode::Other,
    }
}

/// The path made of `keys`.
pub fn key_path(keys: &Vec<&str>) -> (r: Vec<String>)
    ensures
        texts(r@) == keys@.map_values(|k: &str| k@),
{
    let mut out: Vec<String> = Vec::new();
    let mut i: usize = 0;
    while i < keys.len()
        invariant
            i <= keys.len(),
            texts(out@) == keys@.take(i as int).map_values(|k: &str| k@),
        decreases keys.len() - i,
    {
        let s = keys[i].to_owned();
        let ghost before = out@;
        out.push(s);
        assert(texts(out@) =~= texts(before).push(s@));
        assert(keys@.take(i + 1).map_values(|k: &str| k@) =~= keys@.take(i as int).map_values(
            |k: &str| k@,
        ).push(keys@[i as int]@));
        i = i + 1;
    }
    assert(keys@.take(keys.len() as int) =~= keys@);
    out
}

/// The text stored at `path`, `None` when something else (or nothing) is there.
pub open spec fn json_text(text: Seq<char>, path: Seq<Seq<char>>) -> Option<Seq<char>> {
    match json_shape(text, path) {
        JsonShape::Text(s) => Some(s),
        _ => None,
    }
}

/// The text stored at `path` in `text`.
pub fn text_at(text: &str, keys: &Vec<&str>) -> (r: Option<String>)
    ensures
        match r {
            Some(s) => json_text(text@, keys@.map_values(|k: &str| k@)) == Some(s@),
            None => json_text(text@, keys@.map_values(|k: &str| k@)) is None,
        },
{
    let path = key_path(keys);
    match json_at(text, &path) {
        JsonNode::Text(s) => Some(s),
        _ => None,
    }
}

/// A hexadecimal digit, lower case.
pub open spec fn hex_digit(d: nat) -> char {
    if d < 10 {
        crate::text::digit_char(d)
    } else if d == 10 {
        'a'
    } else if d == 11 {
        'b'
    } else if d == 12 {
        'c'
    } else if d == 13 {
        'd'
    } else if d == 14 {
        'e'
    } else {
        'f'
    }
}

/// How serde_json writes one character inside a string literal: `"` and `\` and the
/// control characters below U+0020 escaped (the five with a short form by it, the
/// others as `\u00XX`), every other character as itself.
pub open spec fn escaped_char(c: char) -> Seq<char> {
    if c == '"' {
        seq!['\\', '"']
    } else if c == '\\' {
        seq!['\\', '\\']
    } else if c == '\u{8}' {
        seq!['\\', 'b']
    } else if c == '\t' {
        seq!['\\', 't']
    } else if c == '\n' {
        seq!['\\', 'n']
    } else if c == '\u{c}' {
        seq!['\\', 'f']
    } else if c == '\r' {
        seq!['\\', 'r']
    } else if (c as u32) < 0x20 {
        seq!['\\', 'u', '0', '0', hex_digit((c as u32 / 16) as nat), hex_digit((c as u32 % 16) as nat)]
    } else {
        seq![c]
    }
}

pub open spec fn json_escaped(s: Seq<char>) -> Seq<char>
    decreases s.len(),
{
    if s.len() == 0 {
        Seq::empty()
    } else {
        json_escaped(s.drop_last()) + escaped_char(s.last())
    }
}

/// What serde_json writes for a text: the text in double quotes, escaped.
pub open spec fn json_quoted(s: Seq<char>) -> Seq<char> {
    seq!['"'] + json_escaped(s) + seq!['"']
}

/// Relies on serde_json::to_string on a `str`, which cannot fail: the text as a JSON
/// string literal.
#[verifier::external_body]
pub(crate) fn quote_json(s: &str) -> (r: String)
    ensures
        r@ == json_quoted(s@),
{
    serde_json::to_string(s).unwrap_or_default()
}

} // verus!
