//! Reading and writing documents in JSON, YAML and TOML, through serde_json,
//! serde_yaml and toml. What each parser and printer gives is named, not
//! restated: the names below stand for it.
use vstd::prelude::*;

use serde_json::Value as JsonValue;
use serde_yaml::Value as YamlValue;
use toml::Value as TomlValue;

use crate::numbers::numbers_valid;
use crate::value::{wf, Json, Value};

verus! {

#[verifier::external_type_specification]
#[verifier::external_body]
pub struct ExJsonValue(JsonValue);

#[verifier::external_type_specification]
#[verifier::external_body]
pub struct ExYamlValue(YamlValue);

#[verifier::external_type_specification]
#[verifier::external_body]
pub struct ExTomlValue(TomlValue);

/// Name for whether serde_json's `Number::from_str` reads a text as a number.
pub uninterp spec fn json_number_text(text: Seq<char>) -> bool;

/// Name for the document that `serde_json::from_str` reads from a text, if it
/// reads one, as [`from_json_value`] turns it into a document (a number keeps
/// its display text).
pub uninterp spec fn json_document(text: Seq<char>) -> Option<Json>;

/// Name for the document that `serde_yaml::from_str` reads from a text, if it
/// reads one, taken as a JSON value with `serde_json::to_value` and turned
/// into a document by [`from_json_value`].
pub uninterp spec fn yaml_document(text: Seq<char>) -> Option<Json>;

/// Name for the document that `toml::from_str` reads from a text, if it reads
/// one, as [`from_toml_value`] turns it into a document: a date or time
/// becomes its text, a float goes through `serde_json::to_value` (which makes
/// a float that is not finite null), and an integer keeps its decimal text.
pub uninterp spec fn toml_document(text: Seq<char>) -> Option<Json>;

/// Name for the text that `serde_json::to_string_pretty` prints for a
/// document, if it prints one, after [`to_json_value`] reads each number's
/// text with serde_json's `Number::from_str`.
pub uninterp spec fn json_pretty_text(doc: Json) -> Option<Seq<char>>;

/// Name for the text that `serde_yaml::to_string` prints for a document, if
/// it prints one, after [`to_json_value`] reads each number's text and
/// [`to_yaml_value`] writes a number as an integer when it is one that fits
/// `i64`, else as a float.
pub uninterp spec fn yaml_text(doc: Json) -> Option<Seq<char>>;

/// Name for the text that `toml::to_string` prints for a document, if it
/// prints one, after [`to_json_value`] reads each number's text and
/// [`to_toml_value`] writes a number as an integer when it is one that fits
/// `i64`, else as a float, and refuses a null.
pub uninterp spec fn toml_text(doc: Json) -> Option<Seq<char>>;

/// The result of a reader, as a document and the reader's error message.
pub open spec fn read_result(r: Result<Value, String>, doc: Option<Json>) -> bool {
    match doc {
        Some(j) => r matches Ok(v) && v@ == j,
        None => r is Err,
    }
}

/// The result of a printer, as a text and the printer's error message.
pub open spec fn print_result(r: Result<String, String>, text: Option<Seq<char>>) -> bool {
    match r {
        Ok(s) => text == Some(s@),
        Err(_) => text is None,
    }
}

// Conversions, one for one, between the serde value types and documents.
// A number keeps its decimal text.
#[verifier::external_body]
fn from_json_value(v: JsonValue) -> Value {
    match v {
        JsonValue::Null => Value::Null,
        JsonValue::Bool(b) => Value::Bool(b),
        JsonValue::Number(n) => Value::Number(n.to_string()),
        JsonValue::String(s) => Value::String(s),
        JsonValue::Array(a) => Value::Array(a.into_iter().map(from_json_value).collect()),
        JsonValue::Object(m) => Value::Object(
            m.into_iter().map(|(k, x)| (k, from_json_value(x))).collect(),
        ),
    }
}

#[verifier::external_body]
fn from_toml_value(v: TomlValue) -> Value {
    match v {
        TomlValue::String(s) => Value::String(s),
        TomlValue::Integer(i) => Value::Number(i.to_string()),
        TomlValue::Float(x) => from_json_value(serde_json::to_value(x).unwrap_or_default()),
        TomlValue::Boolean(b) => Value::Bool(b),
        TomlValue::Datetime(d) => Value::String(d.to_string()),
        TomlValue::Array(a) => Value::Array(a.into_iter().map(from_toml_value).collect()),
        TomlValue::Table(t) => Value::Object(
            t.into_iter().map(|(k, x)| (k, from_toml_value(x))).collect(),
        ),
    }
}

#[verifier::external_body]
fn to_json_value(v: &Value) -> Result<JsonValue, String> {
    Ok(match v {
        Value::Null => JsonValue::Null,
        Value::Bool(b) => JsonValue::Bool(*b),
        Value::Number(t) => JsonValue::Number(t.parse().map_err(|e: serde_json::Error| e.to_string())?),
        Value::String(s) => JsonValue::String(s.clone()),
        Value::Array(a) => JsonValue::Array(a.iter().map(to_json_value).collect::<Result<_, _>>()?),
        Value::Object(m) => JsonValue::Object(
            m.iter().map(|(k, x)| to_json_value(x).map(|j| (k.clone(), j))).collect::<Result<_, _>>()?,
        ),
    })
}

#[verifier::external_body]
fn to_yaml_value(v: &JsonValue) -> YamlValue {
    match v {
        JsonValue::Null => YamlValue::Null,
        JsonValue::Bool(b) => YamlValue::Bool(*b),
        JsonValue::Number(n) => n.as_i64().map(serde_yaml::Number::from).or(n.as_f64().map(serde_yaml::Number::from)).map_or(YamlValue::Null, YamlValue::Number),
        JsonValue::String(s) => YamlValue::String(s.clone()),
        JsonValue::Array(a) => YamlValue::Sequence(a.iter().map(to_yaml_value).collect()),
        JsonValue::Object(m) => YamlValue::Mapping(
            m.iter().map(|(k, x)| (YamlValue::String(k.clone()), to_yaml_value(x))).collect(),
        ),
    }
}

#[verifier::external_body]
fn to_toml_value(v: &JsonValue) -> Result<TomlValue, String> {
    Ok(match v {
        JsonValue::Null => return TomlValue::try_from(()).map_err(|e| e.to_string()),
        JsonValue::Bool(b) => TomlValue::Boolean(*b),
        JsonValue::Number(n) => n.as_i64().map_or(TomlValue::Float(n.as_f64().unwrap_or_default()), TomlValue::Integer),
        JsonValue::String(s) => TomlValue::String(s.clone()),
        JsonValue::Array(a) => TomlValue::Array(a.iter().map(to_toml_value).collect::<Result<_, _>>()?),
        JsonValue::Object(m) => TomlValue::Table(
            m.iter().map(|(k, x)| to_toml_value(x).map(|t| (k.clone(), t))).collect::<Result<_, _>>()?,
        ),
    })
}

/// Calls `serde_json::from_str` on the text; the document it reads is named
/// by [`json_document`], and its error message is not stated. The document
/// repeats no key in an object (serde_json's `Map` holds each key once) and
/// each number's text is the display of a serde_json `Number`, which
/// `Number::from_str` reads back.
#[verifier::external_body]
pub(crate) fn read_json(content: &str) -> (r: Result<Value, String>)
    ensures
        read_result(r, json_document(content@)),
        r matches Ok(v) ==> wf(v@) && numbers_valid(v@),
{
    serde_json::from_str::<JsonValue>(content).map(from_json_value).map_err(|e| e.to_string())
}

/// Calls `serde_yaml::from_str` on the text and takes the value it reads as
/// a JSON value with `serde_json::to_value`; the document is named by
/// [`yaml_document`], and the error message is not stated. As for JSON, no
/// object repeats a key and every number's text reads back as a number.
#[verifier::external_body]
pub(crate) fn read_yaml(content: &str) -> (r: Result<Value, String>)
    ensures
        read_result(r, yaml_document(content@)),
        r matches Ok(v) ==> wf(v@) && numbers_valid(v@),
{
    let yaml: YamlValue = serde_yaml::from_str(content).map_err(|e| e.to_string())?;
    serde_json::to_value(yaml).map(from_json_value).map_err(|e| e.to_string())
}

/// Calls `toml::from_str` on the text; the document it reads is named by
/// [`toml_document`], and the error message is not stated. A TOML table holds
/// each key once, and every number's text is an `i64` in decimal or the
/// display of a finite serde_json `Number`, which reads back as a number.
#[verifier::external_body]
pub(crate) fn read_toml(content: &str) -> (r: Result<Value, String>)
    ensures
        read_result(r, toml_document(content@)),
        r matches Ok(v) ==> wf(v@) && numbers_valid(v@),
{
    toml::from_str::<TomlValue>(content).map(from_toml_value).map_err(|e| e.to_string())
}

/// Calls `serde_json::to_string_pretty` on the document; the text it prints
/// is named by [`json_pretty_text`], and the error message is not stated.
/// When `Number::from_str` reads every number's text, printing succeeds:
/// serde_json writes a `Value` with string keys and finite numbers without
/// error; a lone number prints exactly when its text reads.
#[verifier::external_body]
pub(crate) fn print_json(v: &Value) -> (r: Result<String, String>)
    ensures
        print_result(r, json_pretty_text(v@)),
        numbers_valid(v@) ==> r is Ok,
        v@ matches Json::Number(t) ==> (r is Ok <==> json_number_text(t)),
{
    serde_json::to_string_pretty(&to_json_value(v)?).map_err(|e| e.to_string())
}

/// Calls `serde_yaml::to_string` on the document; the text it prints is
/// named by [`yaml_text`], and the error message is not stated.
#[verifier::external_body]
pub(crate) fn print_yaml(v: &Value) -> (r: Result<String, String>)
    ensures
        print_result(r, yaml_text(v@)),
{
    serde_yaml::to_string(&to_yaml_value(&to_json_value(v)?)).map_err(|e| e.to_string())
}

/// Calls `toml::to_string` on the document; the text it prints is named by
/// [`toml_text`] (none for a document that holds a null or is not an
/// object), and the error message is not stated.
#[verifier::external_body]
pub(crate) fn print_toml(v: &Value) -> (r: Result<String, String>)
    ensures
        print_result(r, toml_text(v@)),
{
    toml::to_string(&to_toml_value(&to_json_value(v)?)?).map_err(|e| e.to_string())
}

} // verus!
