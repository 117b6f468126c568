//! JSON as text: the calls into `serde_json`.

use crate::json::{Float, Json, JsonView, Members, Numeral, NumeralView};
use crate::pattern;
use crate::text;
use serde_json::Value;
use vstd::prelude::*;

verus! {

/// A JSON value of `serde_json`.
#[verifier::external_type_specification]
#[verifier::external_body]
pub struct ExValue(serde_json::Value);

/// What `serde_json::from_str` makes of a text: the value, or the message of its error.
pub uninterp spec fn json_value(text: Seq<char>) -> Result<JsonView, Seq<char>>;

/// What `serde_json::to_string` makes of a value: the text, or the message of its error.
pub uninterp spec fn json_text(value: JsonView) -> Result<Seq<char>, Seq<char>>;

/// What `serde_json::to_string_pretty` makes of a value: the text, or the message of its error.
pub uninterp spec fn pretty_json_text(value: JsonView) -> Result<Seq<char>, Seq<char>>;

/// What `str::parse` makes of a text that spells a floating-point number: the JSON number that
/// `serde_json::Number::from_f64` has for it (none where it is not finite) and its own text, or the
/// message of the error.
pub uninterp spec fn float_reading(text: Seq<char>) -> Result<
    (Option<NumeralView>, Seq<char>),
    Seq<char>,
>;

/// Whether a value is a list of texts.
pub open spec fn is_text_list(value: JsonView) -> bool {
    value matches JsonView::Array(items) && forall|i: int|
        0 <= i < items.len() ==> (#[trigger] items[i]) is Text
}

/// A value of `serde_json` as a value of this library, part by part. The map of `serde_json` is a
/// `BTreeMap`: it hands its members out in the order of their names, each name once.
#[verifier::external_body]
fn from_value(value: Value) -> (r: Json) {
    match value {
        Value::Null => Json::Null,
        Value::Bool(b) => Json::Bool(b),
        Value::Number(n) => Json::Number(match (n.as_u64(), n.as_i64()) {
            (Some(u), _) => Numeral::Unsigned(u),
            (_, Some(i)) => Numeral::Negative(i),
            _ => Numeral::Float(Float { text: n.to_string() }),
        }),
        Value::String(s) => Json::Text(s),
        Value::Array(a) => Json::Array(a.into_iter().map(from_value).collect()),
        Value::Object(m) => Json::Object(Members { list: m.into_iter().map(|(k, v)| (k, from_value(v))).collect() }),
    }
}

/// A value of this library as a value of `serde_json`, part by part. The text of a `Float` is the
/// shortest that reads back as the same number, so the number is read from it.
#[verifier::external_body]
fn to_value(value: &Json) -> (r: Value) {
    match value {
        Json::Null => Value::Null,
        Json::Bool(b) => Value::Bool(*b),
        Json::Number(Numeral::Unsigned(n)) => Value::from(*n),
        Json::Number(Numeral::Negative(n)) => Value::from(*n),
        Json::Number(Numeral::Float(f)) => f.text.parse().ok().and_then(serde_json::Number::from_f64).into(),
        Json::Text(s) => Value::from(s.as_str()),
        Json::Array(a) => Value::Array(a.iter().map(to_value).collect()),
        Json::Object(m) => Value::Object(m.list.iter().map(|(k, v)| (k.clone(), to_value(v))).collect()),
    }
}

/// `serde_json::from_str` reads a JSON value from a text: what it returns, and the message of its
/// error, depend on the text alone. It skips blanks, tabs and line breaks, no other white space; where
/// a bracket is what comes then, it reads a list or nothing.
#[verifier::external_body]
pub(crate) fn read_json(text: &str) -> (r: Result<Json, String>)
    ensures
        match r {
            Ok(v) => {
                &&& json_value(text@) == Ok::<JsonView, Seq<char>>(v@)
                &&& pattern::begins(text::trimmed_start(text@), "["@) ==> v@ is Array
            },
            Err(e) => json_value(text@) == Err::<JsonView, Seq<char>>(e@),
        },
{
    serde_json::from_str(text).map(from_value).map_err(|e| e.to_string())
}

/// `serde_json::to_string` writes a JSON value without white space: the text depends on the value
/// alone. The text of a list begins with a bracket, and `serde_json::from_str` reads that of a list of
/// texts as the same list. Nothing is said of reading other values back: a number that is no whole
/// number may be read as its neighbour, and a value of more than 127 levels is not read at all.
#[verifier::external_body]
pub(crate) fn write_json(value: &Json) -> (r: Result<String, String>)
    ensures
        match r {
            Ok(t) => {
                &&& json_text(value@) == Ok::<Seq<char>, Seq<char>>(t@)
                &&& is_text_list(value@) ==> t@.len() > 0 && t@[0] == '[' && json_value(t@) == Ok::<
                    JsonView,
                    Seq<char>,
                >(value@)
            },
            Err(e) => json_text(value@) == Err::<Seq<char>, Seq<char>>(e@),
        },
{
    serde_json::to_string(&to_value(value)).map_err(|e| e.to_string())
}

/// `serde_json::to_string_pretty` writes a JSON value over several lines: the text depends on the
/// value alone.
#[verifier::external_body]
pub(crate) fn write_pretty_json(value: &Json) -> (r: Result<String, String>)
    ensures
        match r {
            Ok(t) => pretty_json_text(value@) == Ok::<Seq<char>, Seq<char>>(t@),
            Err(e) => pretty_json_text(value@) == Err::<Seq<char>, Seq<char>>(e@),
        },
{
    serde_json::to_string_pretty(&to_value(value)).map_err(|e| e.to_string())
}

/// `str::parse` reads a floating-point number, `serde_json::Number::from_f64` makes a JSON number of
/// it where it is finite, and `to_string` writes it: all three depend on the text alone. Nothing is said
/// of what the text that is written reads as.
#[verifier::external_body]
pub(crate) fn read_float(text: &str) -> (r: Result<(Option<Numeral>, String), String>)
    ensures
        match r {
            Ok((Some(n), t)) => float_reading(text@) == Ok::<
                (Option<NumeralView>, Seq<char>),
                Seq<char>,
            >((Some(n@), t@)),
            Ok((None, t)) => float_reading(text@) == Ok::<
                (Option<NumeralView>, Seq<char>),
                Seq<char>,
            >((None, t@)),
            Err(e) => float_reading(text@) == Err::<(Option<NumeralView>, Seq<char>), Seq<char>>(e@),
        },
{
    let x = text.parse().map_err(|e: std::num::ParseFloatError| e.to_string())?;
    let number = serde_json::Number::from_f64(x);
    Ok((number.map(|n| Numeral::Float(Float { text: n.to_string() })), x.to_string()))
}

} // verus!
