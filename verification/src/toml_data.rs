//! The document syntax layer: a thin trusted surface over the `toml` crate.
//!
//! The crate's values are opaque to verification, so each value is given a
//! mathematical model, [`TomlModel`], and every reader states its result
//! against that model. A float or a datetime is carried as the text its
//! display writes: the library never computes with either, it only passes
//! the text on or rejects the value.

use vstd::prelude::*;

use toml::de::Error as TomlDeError;

verus! {

/// The mathematical model of a TOML value: scalars as plain values, floats
/// and datetimes as their rendered text, arrays and tables as sequences of
/// modelled contents (tables in iteration order, with distinct keys).
pub enum TomlModel {
    Bool(bool),
    Int(i64),
    Float(Seq<char>),
    Str(Seq<char>),
    Datetime(Seq<char>),
    Array(Seq<TomlModel>),
    Table(Seq<(Seq<char>, TomlModel)>),
}

#[verifier::external_type_specification]
#[verifier::external_body]
pub struct ExTomlValue(toml::Value);

#[verifier::external_type_specification]
#[verifier::external_body]
pub struct ExTomlDeError(TomlDeError);

/// The contents of a parsed TOML value.
pub uninterp spec fn toml_model(v: toml::Value) -> TomlModel;

/// The outcome of decoding a text as a TOML document: the document's
/// contents, or nothing when the text is not well-formed TOML (bad syntax,
/// duplicate keys).
pub uninterp spec fn toml_document(text: Seq<char>) -> Option<TomlModel>;

/// A scalar read out of a TOML value; floats and datetimes carry their
/// rendered text.
pub enum TomlScalar {
    Bool(bool),
    Int(i64),
    Float(String),
    Str(String),
    Datetime(String),
}

/// Relies on `toml::from_str`: decodes the text as a TOML document, whose
/// root is always a table; a rejected text gives the crate's error back.
#[verifier::external_body]
pub(crate) fn parse_toml(text: &str) -> (r: Result<toml::Value, TomlDeError>)
    ensures
        r is Ok <==> toml_document(text@) is Some,
        r matches Ok(v) ==> toml_model(v) == toml_document(text@)->0 && toml_model(v) is Table,
{
    toml::from_str::<toml::Value>(text)
}

/// Relies on `toml::de::Error::message`: the human-readable reason of a
/// rejected document.
#[verifier::external_body]
pub(crate) fn toml_error_message(e: &TomlDeError) -> String {
    e.message().to_owned()
}

/// Relies on `toml::de::Error::span`: the byte range of the offending text,
/// when the error points at one.
#[verifier::external_body]
pub(crate) fn toml_error_span(e: &TomlDeError) -> Option<(usize, usize)> {
    e.span().map(|r| (r.start, r.end))
}

/// Relies on matching `toml::Value`'s variants; a float or a datetime is
/// rendered by its display, whose text depends on the value alone.
#[verifier::external_body]
pub(crate) fn read_scalar(v: &toml::Value) -> (r: Option<TomlScalar>)
    ensures
        match toml_model(*v) {
            TomlModel::Bool(b) => r matches Some(TomlScalar::Bool(x)) && x == b,
            TomlModel::Int(i) => r matches Some(TomlScalar::Int(x)) && x == i,
            TomlModel::Float(f) => r matches Some(TomlScalar::Float(x)) && x@ == f,
            TomlModel::Str(s) => r matches Some(TomlScalar::Str(x)) && x@ == s,
            TomlModel::Datetime(d) => r matches Some(TomlScalar::Datetime(x)) && x@ == d,
            TomlModel::Array(_) => r is None,
            TomlModel::Table(_) => r is None,
        },
{
    match v {
        toml::Value::Boolean(b) => Some(TomlScalar::Bool(*b)),
        toml::Value::Integer(i) => Some(TomlScalar::Int(*i)),
        toml::Value::Float(f) => Some(TomlScalar::Float(f.to_string())),
        toml::Value::String(s) => Some(TomlScalar::Str(s.clone())),
        toml::Value::Datetime(d) => Some(TomlScalar::Datetime(d.to_string())),
        toml::Value::Array(_) => None,
        toml::Value::Table(_) => None,
    }
}

/// Relies on `toml::Value::as_array`: the elements of an array value, in
/// order.
#[verifier::external_body]
pub(crate) fn read_array(v: &toml::Value) -> (r: Option<Vec<toml::Value>>)
    ensures
        match toml_model(*v) {
            TomlModel::Array(items) => {
                &&& r matches Some(vs)
                &&& vs@.len() == items.len()
                &&& forall|i: int|
                    0 <= i < items.len() ==> toml_model(#[trigger] vs@[i]) == items[i]
            },
            _ => r is None,
        },
{
    v.as_array().cloned()
}

/// Relies on `toml::Value::as_table` and `toml::map::Map` iteration: the
/// entries of a table value in iteration order (lexicographic by key), whose
/// keys are distinct because the table is a map.
#[verifier::external_body]
pub(crate) fn read_table(v: &toml::Value) -> (r: Option<Vec<(String, toml::Value)>>)
    ensures
        match toml_model(*v) {
            TomlModel::Table(entries) => {
                &&& r matches Some(es)
                &&& es@.len() == entries.len()
                &&& forall|i: int|
                    0 <= i < entries.len() ==> (#[trigger] es@[i]).0@ == entries[i].0
                        && toml_model(es@[i].1) == entries[i].1
                &&& forall|i: int, j: int|
                    0 <= i < j < entries.len() ==> entries[i].0 != entries[j].0
            },
            _ => r is None,
        },
{
    v.as_table().map(|t| t.iter().map(|(k, v)| (k.clone(), v.clone())).collect())
}

} // verus!
