//! The library's model of a parsed JSON document, and the trusted border to
//! serde_json, which does the parsing.
//!
//! A JSON number is kept twice over: its integer readings, where it has them,
//! as plain values, and the `serde_json::Number` itself for the flags that
//! hold a double-precision value. The library never computes with the number;
//! it stores it, renders it, and compares it.

use vstd::prelude::*;

verus! {

#[verifier::external_type_specification]
#[verifier::external_body]
pub struct ExValue(serde_json::Value);

#[verifier::external_type_specification]
#[verifier::external_body]
pub struct ExNumber(serde_json::Number);

/// One JSON number, as the flag engine reads it.
pub struct JsonNum {
    /// The number as an `i64`, where it is an integer in range.
    pub as_int: Option<i64>,
    /// The number as an `i128`, where it is an integer.
    pub as_wide: Option<i128>,
    /// The number itself, for the double-precision flags.
    pub num: serde_json::Number,
}

/// One JSON value, as the flag engine reads it.
pub enum JsonVal {
    Null,
    Bool(bool),
    Num(JsonNum),
    Str(String),
    Arr(Vec<JsonVal>),
    Obj(Vec<(String, JsonVal)>),
}

/// The document that parsing this text yields, if the text is well-formed
/// JSON: a function of the text alone.
pub uninterp spec fn json_doc_of_text(s: Seq<char>) -> Option<JsonVal>;

/// The number that parsing this text as a bare JSON number yields, if any:
/// a function of the text alone.
pub uninterp spec fn num_of_text(s: Seq<char>) -> Option<serde_json::Number>;

/// The decimal text that rendering this number yields: a function of the
/// number alone.
pub uninterp spec fn text_of_num(n: serde_json::Number) -> Seq<char>;

/// Relies on `serde_json::Number::{as_i64, as_i128}` for the integer readings
/// of the number; the number itself is moved over.
#[verifier::external_body]
fn number_model(n: serde_json::Number) -> JsonNum {
    JsonNum { as_int: n.as_i64(), as_wide: n.as_i128(), num: n }
}

/// Relies on `serde_json::Value`: one arm for each variant, fields moved
/// over; `number_model` lays out the numbers.
#[verifier::external_body]
fn value_model(v: serde_json::Value) -> JsonVal {
    match v {
        serde_json::Value::Null => JsonVal::Null,
        serde_json::Value::Bool(b) => JsonVal::Bool(b),
        serde_json::Value::Number(n) => JsonVal::Num(number_model(n)),
        serde_json::Value::String(s) => JsonVal::Str(s),
        serde_json::Value::Array(a) => JsonVal::Arr(a.into_iter().map(value_model).collect()),
        serde_json::Value::Object(m) => JsonVal::Obj(
            m.into_iter().map(|(k, x)| (k, value_model(x))).collect(),
        ),
    }
}

/// Relies on `serde_json::from_str`: whether the text parses, and what it
/// parses to, are functions of the text alone. `value_model` lays the parsed
/// document out as the library models it.
#[verifier::external_body]
pub fn parse_json_text(s: &str) -> (r: Option<JsonVal>)
    ensures
        r == json_doc_of_text(s@),
{
    serde_json::from_str::<serde_json::Value>(s).ok().map(value_model)
}

/// Relies on `serde_json::from_str` for `serde_json::Number`: parses exactly
/// a bare JSON number, a function of the text alone.
#[verifier::external_body]
pub fn parse_number(s: &str) -> (r: Option<serde_json::Number>)
    ensures
        r == num_of_text(s@),
{
    serde_json::from_str::<serde_json::Number>(s).ok()
}

/// Relies on the display of `serde_json::Number`: integers print exactly, and
/// doubles print the shortest decimal text that parses back to the very same
/// value, so the rendered text always parses back to the number it came from.
#[verifier::external_body]
pub fn number_to_text(n: &serde_json::Number) -> (r: String)
    ensures
        r@ == text_of_num(*n),
        num_of_text(r@) == Some(*n),
{
    n.to_string()
}

/// Relies on the derived `Clone` of `serde_json::Number`, which copies the
/// number.
pub assume_specification[ <serde_json::Number as Clone>::clone ](
    n: &serde_json::Number,
) -> (r: serde_json::Number)
    ensures
        r == *n,
;

} // verus!
