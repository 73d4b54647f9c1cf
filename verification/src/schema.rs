//! The document model: decoding a parsed TOML document into the typed
//! schema, with field aliasing, defaults, the body's exactly-one-of rule,
//! and the type-validation pass over the free-form tables.

use vstd::prelude::*;

use crate::error::Error;
use crate::error::ErrorModel;
use crate::table::spec_table_get;
use crate::table::Table;
use crate::toml_data::read_array;
use crate::toml_data::read_scalar;
use crate::toml_data::read_table;
use crate::toml_data::toml_model;
use crate::toml_data::TomlModel;
use crate::toml_data::TomlScalar;
use crate::types::Primitive;
use crate::types::PrimitiveModel;

verus! {

/// A leaf value of a free-form table as decoded, before the validation
/// pass: scalars and arrays of scalars are kept, a datetime or a nested
/// table is carried only far enough to be rejected by name.
#[derive(Debug, Clone)]
pub enum RawValue {
    Prim(Primitive),
    Datetime(String),
    NestedTable,
    Arr(Vec<Primitive>),
}

/// The mathematical model of a [`RawValue`].
pub enum RawModel {
    Prim(PrimitiveModel),
    Datetime(Seq<char>),
    NestedTable,
    Arr(Seq<PrimitiveModel>),
}

impl View for RawValue {
    type V = RawModel;

    open spec fn view(&self) -> RawModel {
        match self {
            RawValue::Prim(p) => RawModel::Prim(p@),
            RawValue::Datetime(d) => RawModel::Datetime(d@),
            RawValue::NestedTable => RawModel::NestedTable,
            RawValue::Arr(ps) => RawModel::Arr(ps@.map_values(|p: Primitive| p@)),
        }
    }
}

impl DeepView for RawValue {
    type V = RawModel;

    open spec fn deep_view(&self) -> RawModel {
        self.view()
    }
}

/// A result laid out over the models of its two sides.
pub open spec fn result_model<T: View>(r: Result<T, Error>) -> Result<<T as View>::V, ErrorModel> {
    match r {
        Ok(t) => Ok(t@),
        Err(e) => Err(e@),
    }
}

/// The scalar model a TOML value decodes to, when it is one of the four
/// primitive kinds.
pub open spec fn spec_prim_of(m: TomlModel) -> Option<PrimitiveModel> {
    match m {
        TomlModel::Bool(b) => Some(PrimitiveModel::Bool(b)),
        TomlModel::Int(i) => Some(PrimitiveModel::Int(i)),
        TomlModel::Float(f) => Some(PrimitiveModel::Float(f)),
        TomlModel::Str(s) => Some(PrimitiveModel::Str(s)),
        TomlModel::Datetime(_) => None,
        TomlModel::Array(_) => None,
        TomlModel::Table(_) => None,
    }
}

/// The reason a field that must hold a table holds something else.
pub open spec fn msg_must_be_table(field: Seq<char>) -> Seq<char> {
    "invalid type: `"@ + field + "` must be a table"@
}

/// The reason a field that must hold a string holds something else.
pub open spec fn msg_must_be_string(field: Seq<char>) -> Seq<char> {
    "invalid type: `"@ + field + "` must be a string"@
}

/// The reason an array in a free-form table was rejected.
pub open spec fn msg_bad_array(field: Seq<char>) -> Seq<char> {
    "invalid array in `"@ + field + "`: only primitive values are supported"@
}

pub(crate) fn err_must_be_table(field: &str) -> (e: Error)
    ensures
        e@ == (ErrorModel::Deserialization { message: msg_must_be_table(field@), span: None }),
{
    let mut m = "invalid type: `".to_owned();
    m.append(field);
    m.append("` must be a table");
    Error::Deserialization { message: m, span: None }
}

pub(crate) fn err_must_be_string(field: &str) -> (e: Error)
    ensures
        e@ == (ErrorModel::Deserialization { message: msg_must_be_string(field@), span: None }),
{
    let mut m = "invalid type: `".to_owned();
    m.append(field);
    m.append("` must be a string");
    Error::Deserialization { message: m, span: None }
}

pub(crate) fn err_bad_array(field: &str) -> (e: Error)
    ensures
        e@ == (ErrorModel::Deserialization { message: msg_bad_array(field@), span: None }),
{
    let mut m = "invalid array in `".to_owned();
    m.append(field);
    m.append("`: only primitive values are supported");
    Error::Deserialization { message: m, span: None }
}

/// How one leaf of a free-form table decodes: scalars and arrays of
/// scalars are kept (datetimes and nested tables too, to be rejected by
/// the validation pass); an array holding anything else is a decode error.
pub open spec fn spec_raw_value(field: Seq<char>, m: TomlModel) -> Result<RawModel, ErrorModel> {
    match m {
        TomlModel::Datetime(d) => Ok(RawModel::Datetime(d)),
        TomlModel::Table(_) => Ok(RawModel::NestedTable),
        TomlModel::Array(items) => if forall|i: int|
            0 <= i < items.len() ==> spec_prim_of(#[trigger] items[i]) is Some {
            Ok(RawModel::Arr(items.map_values(|it: TomlModel| spec_prim_of(it)->0)))
        } else {
            Err(ErrorModel::Deserialization { message: msg_bad_array(field), span: None })
        },
        _ => Ok(RawModel::Prim(spec_prim_of(m).unwrap())),
    }
}

/// How the entries of a free-form table decode, in order, stopping at the
/// first rejected value.
pub open spec fn spec_raw_entries(field: Seq<char>, entries: Seq<(Seq<char>, TomlModel)>) -> Result<
    Seq<(Seq<char>, RawModel)>,
    ErrorModel,
>
    decreases entries.len(),
{
    if entries.len() == 0 {
        Ok(Seq::empty())
    } else {
        match spec_raw_value(field, entries[0].1) {
            Err(e) => Err(e),
            Ok(v) => match spec_raw_entries(field, entries.drop_first()) {
                Err(e) => Err(e),
                Ok(rest) => Ok(seq![(entries[0].0, v)] + rest),
            },
        }
    }
}

/// How a free-form table field decodes: it must hold a table, whose
/// entries decode in order.
pub open spec fn spec_raw_table(field: Seq<char>, m: TomlModel) -> Result<
    Seq<(Seq<char>, RawModel)>,
    ErrorModel,
> {
    match m {
        TomlModel::Table(entries) => spec_raw_entries(field, entries),
        _ => Err(ErrorModel::Deserialization { message: msg_must_be_table(field), span: None }),
    }
}

/// The entry vector read out of a TOML table matches the modelled entries.
pub open spec fn entries_match(
    vec: Seq<(String, toml::Value)>,
    ents: Seq<(Seq<char>, TomlModel)>,
) -> bool {
    vec.len() == ents.len() && forall|i: int|
        0 <= i < vec.len() ==> (#[trigger] vec[i]).0@ == ents[i].0 && toml_model(vec[i].1)
            == ents[i].1
}

fn decode_prim(v: &toml::Value) -> (r: Option<Primitive>)
    ensures
        match spec_prim_of(toml_model(*v)) {
            Some(p) => r matches Some(x) && x@ == p,
            None => r is None,
        },
{
    match read_scalar(v) {
        Some(TomlScalar::Bool(b)) => Some(Primitive::Bool(b)),
        Some(TomlScalar::Int(i)) => Some(Primitive::Int(i)),
        Some(TomlScalar::Float(f)) => Some(Primitive::Float(f)),
        Some(TomlScalar::Str(s)) => Some(Primitive::Str(s)),
        Some(TomlScalar::Datetime(_)) => None,
        None => None,
    }
}

fn decode_raw_value(field: &str, v: &toml::Value) -> (r: Result<RawValue, Error>)
    ensures
        result_model(r) == spec_raw_value(field@, toml_model(*v)),
{
    match read_scalar(v) {
        Some(TomlScalar::Bool(b)) => Ok(RawValue::Prim(Primitive::Bool(b))),
        Some(TomlScalar::Int(i)) => Ok(RawValue::Prim(Primitive::Int(i))),
        Some(TomlScalar::Float(f)) => Ok(RawValue::Prim(Primitive::Float(f))),
        Some(TomlScalar::Str(s)) => Ok(RawValue::Prim(Primitive::Str(s))),
        Some(TomlScalar::Datetime(d)) => Ok(RawValue::Datetime(d)),
        None => {
            match read_array(v) {
                Some(items) => {
                    let ghost ms = toml_model(*v)->Array_0;
                    let mut prims: Vec<Primitive> = Vec::new();
                    let mut i: usize = 0;
                    while i < items.len()
                        invariant
                            i <= items.len(),
                            items@.len() == ms.len(),
                            forall|k: int|
                                0 <= k < items@.len() ==> toml_model(#[trigger] items@[k])
                                    == ms[k],
                            prims@.len() == i,
                            forall|k: int| 0 <= k < i ==> spec_prim_of(#[trigger] ms[k]) is Some,
                            forall|k: int|
                                0 <= k < i ==> (#[trigger] prims@[k])@ == spec_prim_of(ms[k])->0,
                        decreases items.len() - i,
                    {
                        proof {
                            assert(toml_model(items@[i as int]) == ms[i as int]);
                        }
                        match decode_prim(&items[i]) {
                            Some(p) => {
                                prims.push(p);
                                proof {
                                    assert(prims@[i as int] == p);
                                    assert(spec_prim_of(ms[i as int]) matches Some(q) && p@ == q);
                                }
                            },
                            None => {
                                proof {
                                    assert(spec_prim_of(ms[i as int]) is None);
                                }
                                return Err(err_bad_array(field));
                            },
                        }
                        i = i + 1;
                    }
                    let ghost mapped = ms.map_values(|it: TomlModel| spec_prim_of(it)->0);
                    proof {
                        assert(prims@.map_values(|p: Primitive| p@) =~= mapped);
                    }
                    Ok(RawValue::Arr(prims))
                },
                None => Ok(RawValue::NestedTable),
            }
        },
    }
}

/// Decodes the entries of a free-form table field, in order, stopping at
/// the first rejected value.
fn decode_raw_entries(
    field: &str,
    vec: &Vec<(String, toml::Value)>,
    Ghost(ents): Ghost<Seq<(Seq<char>, TomlModel)>>,
) -> (r: Result<Table<RawValue>, Error>)
    requires
        entries_match(vec@, ents),
    ensures
        match r {
            Ok(t) => spec_raw_entries(field@, ents) == Ok::<_, ErrorModel>(t@),
            Err(e) => spec_raw_entries(field@, ents) == Err::<Seq<(Seq<char>, RawModel)>, _>(e@),
        },
{
    let mut out: Vec<(String, RawValue)> = Vec::new();
    let mut i: usize = 0;
    proof {
        assert(ents.skip(0) =~= ents);
    }
    while i < vec.len()
        invariant
            i <= vec.len(),
            entries_match(vec@, ents),
            out.deep_view().len() == i,
            spec_raw_entries(field@, ents) == match spec_raw_entries(field@, ents.skip(i as int)) {
                Ok(rest) => Ok::<_, ErrorModel>(out.deep_view() + rest),
                Err(e) => Err::<Seq<(Seq<char>, RawModel)>, _>(e),
            },
        decreases vec.len() - i,
    {
        proof {
            assert(ents.skip(i as int).drop_first() =~= ents.skip(i + 1));
            assert(ents.skip(i as int)[0] == ents[i as int]);
        }
        let ghost before = out.deep_view();
        match decode_raw_value(field, &vec[i].1) {
            Ok(rv) => {
                let key = vec[i].0.clone();
                out.push((key, rv));
                proof {
                    assert(out.deep_view() =~= before.push((ents[i as int].0, rv@)));
                    if spec_raw_entries(field@, ents.skip(i + 1)) is Ok {
                        let rest = spec_raw_entries(field@, ents.skip(i + 1))->Ok_0;
                        assert(before + (seq![(ents[i as int].0, rv@)] + rest) =~= (before.push(
                            (ents[i as int].0, rv@),
                        ) + rest));
                    }
                }
            },
            Err(e) => {
                return Err(e);
            },
        }
        i = i + 1;
    }
    proof {
        assert(ents.skip(vec@.len() as int) =~= Seq::<(Seq<char>, TomlModel)>::empty());
        assert(out.deep_view() + Seq::<(Seq<char>, RawModel)>::empty() =~= out.deep_view());
    }
    Ok(Table::new(out))
}

/// The `http` section of a document: the one required field.
#[derive(Debug, Clone)]
pub struct Http {
    pub url: String,
    pub method: crate::method::Method,
    pub version: crate::version::HttpVersion,
}

/// The mathematical model of an [`Http`] section.
pub struct HttpModel {
    pub url: Seq<char>,
    pub method: crate::method::Method,
    pub version: crate::version::HttpVersion,
}

impl View for Http {
    type V = HttpModel;

    open spec fn view(&self) -> HttpModel {
        HttpModel { url: self.url@, method: self.method, version: self.version }
    }
}

/// The reason an unrecognized HTTP method was rejected.
pub open spec fn msg_unknown_method(text: Seq<char>) -> Seq<char> {
    "unknown HTTP method `"@ + text + "`"@
}

/// The reason an unrecognized HTTP version was rejected.
pub open spec fn msg_unknown_version(text: Seq<char>) -> Seq<char> {
    "unknown HTTP version `"@ + text + "`"@
}

fn err_unknown_method(text: &str) -> (e: Error)
    ensures
        e@ == (ErrorModel::Deserialization { message: msg_unknown_method(text@), span: None }),
{
    let mut m = "unknown HTTP method `".to_owned();
    m.append(text);
    m.append("`");
    Error::Deserialization { message: m, span: None }
}

fn err_unknown_version(text: &str) -> (e: Error)
    ensures
        e@ == (ErrorModel::Deserialization { message: msg_unknown_version(text@), span: None }),
{
    let mut m = "unknown HTTP version `".to_owned();
    m.append(text);
    m.append("`");
    Error::Deserialization { message: m, span: None }
}

/// How the `http` section decodes: it must be a table holding a string
/// `url`; `method` defaults to GET and `version` to HTTP/1.1 when absent.
pub open spec fn spec_decode_http(m: TomlModel) -> Result<HttpModel, ErrorModel> {
    match m {
        TomlModel::Table(es) => match spec_table_get(es, "url"@) {
            None => Err(ErrorModel::MissingField("missing field `url`"@)),
            Some(TomlModel::Str(url)) => match spec_decode_method(es) {
                Err(e) => Err(e),
                Ok(method) => match spec_decode_version(es) {
                    Err(e) => Err(e),
                    Ok(version) => Ok(HttpModel { url, method, version }),
                },
            },
            Some(_) => Err(
                ErrorModel::Deserialization { message: msg_must_be_string("url"@), span: None },
            ),
        },
        _ => Err(ErrorModel::Deserialization { message: msg_must_be_table("http"@), span: None }),
    }
}

/// How the `method` field decodes: absent means GET; otherwise a string
/// naming a supported method, matched without regard to ASCII case.
pub open spec fn spec_decode_method(es: Seq<(Seq<char>, TomlModel)>) -> Result<
    crate::method::Method,
    ErrorModel,
> {
    match spec_table_get(es, "method"@) {
        None => Ok(crate::method::Method::GET),
        Some(TomlModel::Str(t)) => match crate::method::spec_method_of(t) {
            Some(m) => Ok(m),
            None => Err(
                ErrorModel::Deserialization { message: msg_unknown_method(t), span: None },
            ),
        },
        Some(_) => Err(
            ErrorModel::Deserialization { message: msg_must_be_string("method"@), span: None },
        ),
    }
}

/// How the `version` field decodes: absent means HTTP/1.1; otherwise a
/// string naming a supported protocol version.
pub open spec fn spec_decode_version(es: Seq<(Seq<char>, TomlModel)>) -> Result<
    crate::version::HttpVersion,
    ErrorModel,
> {
    match spec_table_get(es, "version"@) {
        None => Ok(crate::version::HttpVersion::Http11),
        Some(TomlModel::Str(t)) => match crate::version::spec_version_of(t) {
            Some(v) => Ok(v),
            None => Err(
                ErrorModel::Deserialization { message: msg_unknown_version(t), span: None },
            ),
        },
        Some(_) => Err(
            ErrorModel::Deserialization { message: msg_must_be_string("version"@), span: None },
        ),
    }
}

/// Looks an entry up by key, mirroring [`spec_table_get`] over the models.
fn find_entry<'a>(
    vec: &'a Vec<(String, toml::Value)>,
    Ghost(ents): Ghost<Seq<(Seq<char>, TomlModel)>>,
    name: &str,
) -> (r: Option<&'a toml::Value>)
    requires
        entries_match(vec@, ents),
    ensures
        match r {
            Some(v) => spec_table_get(ents, name@) == Some(toml_model(*v)),
            None => spec_table_get(ents, name@) is None,
        },
{
    let mut i: usize = 0;
    proof {
        assert(ents.skip(0) =~= ents);
    }
    while i < vec.len()
        invariant
            i <= vec.len(),
            entries_match(vec@, ents),
            spec_table_get(ents, name@) == spec_table_get(ents.skip(i as int), name@),
        decreases vec.len() - i,
    {
        proof {
            assert(ents.skip(i as int).drop_first() =~= ents.skip(i + 1));
            assert(ents.skip(i as int)[0] == ents[i as int]);
        }
        if crate::text::str_eq(vec[i].0.as_str(), name) {
            return Some(&vec[i].1);
        }
        i = i + 1;
    }
    assert(ents.skip(vec@.len() as int) =~= Seq::<(Seq<char>, TomlModel)>::empty());
    None
}

/// Decodes the `http` section.
fn decode_http(v: &toml::Value) -> (r: Result<Http, Error>)
    ensures
        result_model(r) == spec_decode_http(toml_model(*v)),
{
    let vec = match read_table(v) {
        Some(vec) => vec,
        None => {
            return Err(err_must_be_table("http"));
        },
    };
    let ghost es = toml_model(*v)->Table_0;
    let url = match find_entry(&vec, Ghost(es), "url") {
        None => {
            return Err(Error::MissingField("missing field `url`".to_owned()));
        },
        Some(uv) => match read_scalar(uv) {
            Some(TomlScalar::Str(s)) => s,
            _ => {
                return Err(err_must_be_string("url"));
            },
        },
    };
    let method = match find_entry(&vec, Ghost(es), "method") {
        None => crate::method::Method::GET,
        Some(mv) => match read_scalar(mv) {
            Some(TomlScalar::Str(t)) => match crate::method::Method::from_text(t.as_str()) {
                Some(m) => m,
                None => {
                    return Err(err_unknown_method(t.as_str()));
                },
            },
            _ => {
                return Err(err_must_be_string("method"));
            },
        },
    };
    let version = match find_entry(&vec, Ghost(es), "version") {
        None => crate::version::HttpVersion::Http11,
        Some(vv) => match read_scalar(vv) {
            Some(TomlScalar::Str(t)) => match crate::version::HttpVersion::from_text(t.as_str()) {
                Some(w) => w,
                None => {
                    return Err(err_unknown_version(t.as_str()));
                },
            },
            _ => {
                return Err(err_must_be_string("version"));
            },
        },
    };
    Ok(Http { url, method, version })
}

/// A character allowed in an HTTP header name: an ASCII letter or digit,
/// or one of the token symbols.
pub open spec fn spec_header_name_char(c: char) -> bool {
    (65 <= c as u32 <= 90) || (97 <= c as u32 <= 122) || (48 <= c as u32 <= 57) || c == '!' || c
        == '#' || c == '$' || c == '%' || c == '&' || c == '\'' || c == '*' || c == '+' || c == '-'
        || c == '.' || c == '^' || c == '_' || c == '`' || c == '|' || c == '~'
}

/// A legal HTTP header name: non-empty, token characters only.
pub open spec fn spec_valid_header_name(s: Seq<char>) -> bool {
    s.len() > 0 && forall|i: int| 0 <= i < s.len() ==> spec_header_name_char(#[trigger] s[i])
}

/// A character allowed in an HTTP header value: visible ASCII, space or
/// horizontal tab.
pub open spec fn spec_header_value_char(c: char) -> bool {
    (32 <= c as u32 <= 126) || c == '\t'
}

/// A legal HTTP header value: visible ASCII, spaces and tabs only.
pub open spec fn spec_valid_header_value(s: Seq<char>) -> bool {
    forall|i: int| 0 <= i < s.len() ==> spec_header_value_char(#[trigger] s[i])
}

/// Whether the text is a legal HTTP header name.
pub fn valid_header_name(s: &str) -> (b: bool)
    ensures
        b == spec_valid_header_name(s@),
{
    let n: usize = s.unicode_len();
    if n == 0 {
        return false;
    }
    let mut i: usize = 0;
    while i < n
        invariant
            i <= n,
            n == s@.len(),
            forall|q: int| 0 <= q < i ==> spec_header_name_char(#[trigger] s@[q]),
        decreases n - i,
    {
        let c = s.get_char(i);
        let u = c as u32;
        let ok = (65 <= u && u <= 90) || (97 <= u && u <= 122) || (48 <= u && u <= 57) || c == '!'
            || c == '#' || c == '$' || c == '%' || c == '&' || c == '\'' || c == '*' || c == '+'
            || c == '-' || c == '.' || c == '^' || c == '_' || c == '`' || c == '|' || c == '~';
        if !ok {
            return false;
        }
        i = i + 1;
    }
    true
}

/// Whether the text is a legal HTTP header value.
pub fn valid_header_value(s: &str) -> (b: bool)
    ensures
        b == spec_valid_header_value(s@),
{
    let n: usize = s.unicode_len();
    let mut i: usize = 0;
    while i < n
        invariant
            i <= n,
            n == s@.len(),
            forall|q: int| 0 <= q < i ==> spec_header_value_char(#[trigger] s@[q]),
        decreases n - i,
    {
        let c = s.get_char(i);
        let u = c as u32;
        if !((32 <= u && u <= 126) || c == '\t') {
            return false;
        }
        i = i + 1;
    }
    true
}

/// The reason a header whose value is not a string was rejected.
pub open spec fn msg_header_not_string(name: Seq<char>) -> Seq<char> {
    "invalid type: header `"@ + name + "` must be a string"@
}

/// The reason an illegal header name was rejected.
pub open spec fn msg_bad_header_name(name: Seq<char>) -> Seq<char> {
    "invalid header name `"@ + name + "`"@
}

/// The reason an illegal header value was rejected.
pub open spec fn msg_bad_header_value(name: Seq<char>) -> Seq<char> {
    "invalid header value for `"@ + name + "`"@
}

fn err_header_not_string(name: &str) -> (e: Error)
    ensures
        e@ == (ErrorModel::Deserialization { message: msg_header_not_string(name@), span: None }),
{
    let mut m = "invalid type: header `".to_owned();
    m.append(name);
    m.append("` must be a string");
    Error::Deserialization { message: m, span: None }
}

fn err_bad_header_name(name: &str) -> (e: Error)
    ensures
        e@ == (ErrorModel::Deserialization { message: msg_bad_header_name(name@), span: None }),
{
    let mut m = "invalid header name `".to_owned();
    m.append(name);
    m.append("`");
    Error::Deserialization { message: m, span: None }
}

fn err_bad_header_value(name: &str) -> (e: Error)
    ensures
        e@ == (ErrorModel::Deserialization { message: msg_bad_header_value(name@), span: None }),
{
    let mut m = "invalid header value for `".to_owned();
    m.append(name);
    m.append("`");
    Error::Deserialization { message: m, span: None }
}

/// How the entries of the `headers` table decode, in order: every value
/// must be a string, every name and value legal for HTTP.
pub open spec fn spec_decode_header_entries(entries: Seq<(Seq<char>, TomlModel)>) -> Result<
    Seq<(Seq<char>, Seq<char>)>,
    ErrorModel,
>
    decreases entries.len(),
{
    if entries.len() == 0 {
        Ok(Seq::empty())
    } else {
        let name = entries[0].0;
        match entries[0].1 {
            TomlModel::Str(v) => if !spec_valid_header_name(name) {
                Err(
                    ErrorModel::Deserialization {
                        message: msg_bad_header_name(name),
                        span: None,
                    },
                )
            } else if !spec_valid_header_value(v) {
                Err(
                    ErrorModel::Deserialization {
                        message: msg_bad_header_value(name),
                        span: None,
                    },
                )
            } else {
                match spec_decode_header_entries(entries.drop_first()) {
                    Err(e) => Err(e),
                    Ok(rest) => Ok(seq![(name, v)] + rest),
                }
            },
            _ => Err(
                ErrorModel::Deserialization { message: msg_header_not_string(name), span: None },
            ),
        }
    }
}

/// How the `headers` field decodes: it must hold a table of legal header
/// names and string values.
pub open spec fn spec_decode_headers(m: TomlModel) -> Result<
    Seq<(Seq<char>, Seq<char>)>,
    ErrorModel,
> {
    match m {
        TomlModel::Table(entries) => spec_decode_header_entries(entries),
        _ => Err(
            ErrorModel::Deserialization { message: msg_must_be_table("headers"@), span: None },
        ),
    }
}

/// Decodes the `headers` field.
fn decode_headers(v: &toml::Value) -> (r: Result<Table<String>, Error>)
    ensures
        match r {
            Ok(t) => spec_decode_headers(toml_model(*v)) == Ok::<_, ErrorModel>(t@),
            Err(e) => spec_decode_headers(toml_model(*v)) == Err::<
                Seq<(Seq<char>, Seq<char>)>,
                _,
            >(e@),
        },
{
    let vec = match read_table(v) {
        Some(vec) => vec,
        None => {
            return Err(err_must_be_table("headers"));
        },
    };
    let ghost ents = toml_model(*v)->Table_0;
    let mut out: Vec<(String, String)> = Vec::new();
    let mut i: usize = 0;
    proof {
        assert(ents.skip(0) =~= ents);
    }
    while i < vec.len()
        invariant
            i <= vec.len(),
            entries_match(vec@, ents),
            out.deep_view().len() == i,
            spec_decode_header_entries(ents) == match spec_decode_header_entries(
                ents.skip(i as int),
            ) {
                Ok(rest) => Ok::<_, ErrorModel>(out.deep_view() + rest),
                Err(e) => Err::<Seq<(Seq<char>, Seq<char>)>, _>(e),
            },
        decreases vec.len() - i,
    {
        proof {
            assert(ents.skip(i as int).drop_first() =~= ents.skip(i + 1));
            assert(ents.skip(i as int)[0] == ents[i as int]);
        }
        let ghost before = out.deep_view();
        let name = &vec[i].0;
        match read_scalar(&vec[i].1) {
            Some(TomlScalar::Str(val)) => {
                if !valid_header_name(name.as_str()) {
                    return Err(err_bad_header_name(name.as_str()));
                }
                if !valid_header_value(val.as_str()) {
                    return Err(err_bad_header_value(name.as_str()));
                }
                let key = name.clone();
                out.push((key, val));
                proof {
                    assert(out.deep_view() =~= before.push(
                        (ents[i as int].0, ents[i as int].1->Str_0),
                    ));
                    if spec_decode_header_entries(ents.skip(i + 1)) is Ok {
                        let rest = spec_decode_header_entries(ents.skip(i + 1))->Ok_0;
                        assert(before + (seq![(ents[i as int].0, ents[i as int].1->Str_0)] + rest)
                            =~= (out.deep_view() + rest));
                    }
                }
            },
            _ => {
                return Err(err_header_not_string(name.as_str()));
            },
        }
        i = i + 1;
    }
    proof {
        assert(ents.skip(vec@.len() as int) =~= Seq::<(Seq<char>, TomlModel)>::empty());
        assert(out.deep_view() + Seq::<(Seq<char>, Seq<char>)>::empty() =~= out.deep_view());
    }
    Ok(Table::new(out))
}

/// The body of a document as decoded, before the validation pass.
#[derive(Debug, Clone)]
pub enum RawBody {
    Empty,
    Raw(String),
    Binary(String),
    FormData(Table<RawFormValue>),
    XFormUrlEncoded(Table<RawValue>),
}

/// One entry of a form-data body as decoded: text to submit, or the path
/// of a file to attach.
#[derive(Debug, Clone)]
pub enum RawFormValue {
    Text(RawValue),
    File(String),
}

/// The mathematical model of a [`RawFormValue`].
pub enum RawFormModel {
    Text(RawModel),
    File(Seq<char>),
}

/// The mathematical model of a [`RawBody`].
pub enum RawBodyModel {
    Empty,
    Raw(Seq<char>),
    Binary(Seq<char>),
    FormData(Seq<(Seq<char>, RawFormModel)>),
    XFormUrlEncoded(Seq<(Seq<char>, RawModel)>),
}

impl View for RawFormValue {
    type V = RawFormModel;

    open spec fn view(&self) -> RawFormModel {
        match self {
            RawFormValue::Text(v) => RawFormModel::Text(v@),
            RawFormValue::File(p) => RawFormModel::File(p@),
        }
    }
}

impl DeepView for RawFormValue {
    type V = RawFormModel;

    open spec fn deep_view(&self) -> RawFormModel {
        self.view()
    }
}

impl View for RawBody {
    type V = RawBodyModel;

    open spec fn view(&self) -> RawBodyModel {
        match self {
            RawBody::Empty => RawBodyModel::Empty,
            RawBody::Raw(c) => RawBodyModel::Raw(c@),
            RawBody::Binary(p) => RawBodyModel::Binary(p@),
            RawBody::FormData(t) => RawBodyModel::FormData(t@),
            RawBody::XFormUrlEncoded(t) => RawBodyModel::XFormUrlEncoded(t@),
        }
    }
}

/// The rejection of a body that does not declare exactly one kind, worded
/// as the document syntax's own decoder words it.
pub open spec fn msg_one_element() -> Seq<char> {
    "wanted exactly 1 element"@
}

/// The reason an unrecognized body field was rejected.
pub open spec fn msg_unknown_body_field(key: Seq<char>) -> Seq<char> {
    "unknown field `"@ + key + "` in `body`"@
}

/// The reason an unrecognized form-data entry field was rejected.
pub open spec fn msg_unknown_form_field(key: Seq<char>) -> Seq<char> {
    "unknown field `"@ + key + "`, expected `text` or `file`"@
}

fn err_one_element() -> (e: Error)
    ensures
        e@ == (ErrorModel::Deserialization { message: msg_one_element(), span: None }),
{
    Error::Deserialization { message: "wanted exactly 1 element".to_owned(), span: None }
}

fn err_unknown_body_field(key: &str) -> (e: Error)
    ensures
        e@ == (ErrorModel::Deserialization { message: msg_unknown_body_field(key@), span: None }),
{
    let mut m = "unknown field `".to_owned();
    m.append(key);
    m.append("` in `body`");
    Error::Deserialization { message: m, span: None }
}

fn err_unknown_form_field(key: &str) -> (e: Error)
    ensures
        e@ == (ErrorModel::Deserialization { message: msg_unknown_form_field(key@), span: None }),
{
    let mut m = "unknown field `".to_owned();
    m.append(key);
    m.append("`, expected `text` or `file`");
    Error::Deserialization { message: m, span: None }
}

/// The names that select a raw text body.
pub open spec fn spec_raw_names() -> Seq<Seq<char>> {
    seq!["raw"@, "text"@]
}

/// The names that select a binary file body.
pub open spec fn spec_binary_names() -> Seq<Seq<char>> {
    seq!["binary"@, "file"@]
}

/// The names that select a form-data body.
pub open spec fn spec_form_data_names() -> Seq<Seq<char>> {
    seq!["form_data"@, "form-data"@, "multipart_form_data"@, "multipart-form-data"@]
}

/// The names that select a URL-encoded form body.
pub open spec fn spec_urlencoded_names() -> Seq<Seq<char>> {
    seq!["x-www-form-urlencoded"@, "form_urlencoded"@, "form-urlencoded"@]
}

/// How one entry of a form-data table decodes: it must be a table holding
/// exactly one of `text` (a leaf value, validated later) or `file` (a
/// string path).
pub open spec fn spec_decode_form_entry(key: Seq<char>, m: TomlModel) -> Result<
    RawFormModel,
    ErrorModel,
> {
    match m {
        TomlModel::Table(es) => if es.len() != 1 {
            Err(ErrorModel::Deserialization { message: msg_one_element(), span: None })
        } else if es[0].0 == "text"@ {
            match spec_raw_value("form_data"@, es[0].1) {
                Ok(v) => Ok(RawFormModel::Text(v)),
                Err(e) => Err(e),
            }
        } else if es[0].0 == "file"@ {
            match es[0].1 {
                TomlModel::Str(p) => Ok(RawFormModel::File(p)),
                _ => Err(
                    ErrorModel::Deserialization {
                        message: msg_must_be_string("file"@),
                        span: None,
                    },
                ),
            }
        } else {
            Err(
                ErrorModel::Deserialization {
                    message: msg_unknown_form_field(es[0].0),
                    span: None,
                },
            )
        },
        _ => Err(ErrorModel::Deserialization { message: msg_must_be_table(key), span: None }),
    }
}

/// How the entries of a form-data table decode, in order.
pub open spec fn spec_decode_form_entries(entries: Seq<(Seq<char>, TomlModel)>) -> Result<
    Seq<(Seq<char>, RawFormModel)>,
    ErrorModel,
>
    decreases entries.len(),
{
    if entries.len() == 0 {
        Ok(Seq::empty())
    } else {
        match spec_decode_form_entry(entries[0].0, entries[0].1) {
            Err(e) => Err(e),
            Ok(v) => match spec_decode_form_entries(entries.drop_first()) {
                Err(e) => Err(e),
                Ok(rest) => Ok(seq![(entries[0].0, v)] + rest),
            },
        }
    }
}

/// How the `body` section decodes: absent or empty means no body; more
/// than one field is rejected; exactly one field selects the body kind by
/// name.
pub open spec fn spec_decode_body(m: TomlModel) -> Result<RawBodyModel, ErrorModel> {
    match m {
        TomlModel::Table(es) => if es.len() == 0 {
            Ok(RawBodyModel::Empty)
        } else if es.len() >= 2 {
            Err(ErrorModel::Deserialization { message: msg_one_element(), span: None })
        } else {
            spec_decode_body_field(es[0].0, es[0].1)
        },
        _ => Err(ErrorModel::Deserialization { message: msg_must_be_table("body"@), span: None }),
    }
}

/// How the one field of a `body` table decodes, selected by its name.
pub open spec fn spec_decode_body_field(key: Seq<char>, m: TomlModel) -> Result<
    RawBodyModel,
    ErrorModel,
> {
    if spec_raw_names().contains(key) {
        match m {
            TomlModel::Str(c) => Ok(RawBodyModel::Raw(c)),
            _ => Err(ErrorModel::Deserialization { message: msg_must_be_string(key), span: None }),
        }
    } else if spec_binary_names().contains(key) {
        match m {
            TomlModel::Str(p) => Ok(RawBodyModel::Binary(p)),
            _ => Err(ErrorModel::Deserialization { message: msg_must_be_string(key), span: None }),
        }
    } else if spec_form_data_names().contains(key) {
        match m {
            TomlModel::Table(es) => match spec_decode_form_entries(es) {
                Ok(t) => Ok(RawBodyModel::FormData(t)),
                Err(e) => Err(e),
            },
            _ => Err(ErrorModel::Deserialization { message: msg_must_be_table(key), span: None }),
        }
    } else if spec_urlencoded_names().contains(key) {
        match spec_raw_table("x-www-form-urlencoded"@, m) {
            Ok(t) => Ok(RawBodyModel::XFormUrlEncoded(t)),
            Err(e) => Err(e),
        }
    } else {
        Err(ErrorModel::Deserialization { message: msg_unknown_body_field(key), span: None })
    }
}

/// Decodes one entry of a form-data table.
fn decode_form_entry(key: &str, v: &toml::Value) -> (r: Result<RawFormValue, Error>)
    ensures
        match r {
            Ok(x) => spec_decode_form_entry(key@, toml_model(*v)) == Ok::<_, ErrorModel>(x@),
            Err(e) => spec_decode_form_entry(key@, toml_model(*v)) == Err::<RawFormModel, _>(e@),
        },
{
    let vec = match read_table(v) {
        Some(vec) => vec,
        None => {
            return Err(err_must_be_table(key));
        },
    };
    let ghost es = toml_model(*v)->Table_0;
    if vec.len() != 1 {
        return Err(err_one_element());
    }
    let name = &vec[0].0;
    if crate::text::str_eq(name.as_str(), "text") {
        match decode_raw_value("form_data", &vec[0].1) {
            Ok(rv) => Ok(RawFormValue::Text(rv)),
            Err(e) => Err(e),
        }
    } else if crate::text::str_eq(name.as_str(), "file") {
        match read_scalar(&vec[0].1) {
            Some(TomlScalar::Str(p)) => Ok(RawFormValue::File(p)),
            _ => Err(err_must_be_string("file")),
        }
    } else {
        Err(err_unknown_form_field(name.as_str()))
    }
}

/// Decodes the entries of a form-data table, in order.
fn decode_form_entries(
    vec: &Vec<(String, toml::Value)>,
    Ghost(ents): Ghost<Seq<(Seq<char>, TomlModel)>>,
) -> (r: Result<Table<RawFormValue>, Error>)
    requires
        entries_match(vec@, ents),
    ensures
        match r {
            Ok(t) => spec_decode_form_entries(ents) == Ok::<_, ErrorModel>(t@),
            Err(e) => spec_decode_form_entries(ents) == Err::<Seq<(Seq<char>, RawFormModel)>, _>(
                e@,
            ),
        },
{
    let mut out: Vec<(String, RawFormValue)> = Vec::new();
    let mut i: usize = 0;
    proof {
        assert(ents.skip(0) =~= ents);
    }
    while i < vec.len()
        invariant
            i <= vec.len(),
            entries_match(vec@, ents),
            out.deep_view().len() == i,
            spec_decode_form_entries(ents) == match spec_decode_form_entries(
                ents.skip(i as int),
            ) {
                Ok(rest) => Ok::<_, ErrorModel>(out.deep_view() + rest),
                Err(e) => Err::<Seq<(Seq<char>, RawFormModel)>, _>(e),
            },
        decreases vec.len() - i,
    {
        proof {
            assert(ents.skip(i as int).drop_first() =~= ents.skip(i + 1));
            assert(ents.skip(i as int)[0] == ents[i as int]);
        }
        let ghost before = out.deep_view();
        match decode_form_entry(vec[i].0.as_str(), &vec[i].1) {
            Ok(fv) => {
                let key = vec[i].0.clone();
                out.push((key, fv));
                proof {
                    assert(out.deep_view() =~= before.push((ents[i as int].0, fv@)));
                    if spec_decode_form_entries(ents.skip(i + 1)) is Ok {
                        let rest = spec_decode_form_entries(ents.skip(i + 1))->Ok_0;
                        assert(before + (seq![(ents[i as int].0, fv@)] + rest) =~= (
                        out.deep_view() + rest));
                    }
                }
            },
            Err(e) => {
                return Err(e);
            },
        }
        i = i + 1;
    }
    proof {
        assert(ents.skip(vec@.len() as int) =~= Seq::<(Seq<char>, TomlModel)>::empty());
        assert(out.deep_view() + Seq::<(Seq<char>, RawFormModel)>::empty() =~= out.deep_view());
    }
    Ok(Table::new(out))
}

/// Whether the key is one of the given names.
fn key_in_names(key: &str, names: &[&str]) -> (b: bool)
    ensures
        b == spec_name_seq(names@).contains(key@),
{
    let mut i: usize = 0;
    while i < names.len()
        invariant
            i <= names@.len(),
            forall|q: int| 0 <= q < i ==> spec_name_seq(names@)[q] != key@,
        decreases names@.len() - i,
    {
        if crate::text::str_eq(key, names[i]) {
            assert(spec_name_seq(names@)[i as int] == key@);
            return true;
        }
        i = i + 1;
    }
    assert(forall|q: int|
        0 <= q < names@.len() ==> spec_name_seq(names@)[q] != key@);
    false
}

/// The views of a list of names.
pub open spec fn spec_name_seq(names: Seq<&str>) -> Seq<Seq<char>> {
    names.map_values(|s: &str| s@)
}

/// Decodes the `body` section.
fn decode_body(v: &toml::Value) -> (r: Result<RawBody, Error>)
    ensures
        match r {
            Ok(b) => spec_decode_body(toml_model(*v)) == Ok::<_, ErrorModel>(b@),
            Err(e) => spec_decode_body(toml_model(*v)) == Err::<RawBodyModel, _>(e@),
        },
{
    let vec = match read_table(v) {
        Some(vec) => vec,
        None => {
            return Err(err_must_be_table("body"));
        },
    };
    let ghost es = toml_model(*v)->Table_0;
    if vec.len() == 0 {
        return Ok(RawBody::Empty);
    }
    if vec.len() >= 2 {
        return Err(err_one_element());
    }
    let key = &vec[0].0;
    let val = &vec[0].1;
    let raw_names: [&str; 2] = ["raw", "text"];
    let binary_names: [&str; 2] = ["binary", "file"];
    let form_names: [&str; 4] = [
        "form_data",
        "form-data",
        "multipart_form_data",
        "multipart-form-data",
    ];
    let url_names: [&str; 3] = ["x-www-form-urlencoded", "form_urlencoded", "form-urlencoded"];
    proof {
        assert(spec_name_seq(raw_names@) =~= spec_raw_names());
        assert(spec_name_seq(binary_names@) =~= spec_binary_names());
        assert(spec_name_seq(form_names@) =~= spec_form_data_names());
        assert(spec_name_seq(url_names@) =~= spec_urlencoded_names());
    }
    if key_in_names(key.as_str(), raw_names.as_slice()) {
        match read_scalar(val) {
            Some(TomlScalar::Str(c)) => Ok(RawBody::Raw(c)),
            _ => Err(err_must_be_string(key.as_str())),
        }
    } else if key_in_names(key.as_str(), binary_names.as_slice()) {
        match read_scalar(val) {
            Some(TomlScalar::Str(p)) => Ok(RawBody::Binary(p)),
            _ => Err(err_must_be_string(key.as_str())),
        }
    } else if key_in_names(key.as_str(), form_names.as_slice()) {
        match read_table(val) {
            Some(fvec) => {
                let ghost fents = toml_model(vec@[0].1)->Table_0;
                match decode_form_entries(&fvec, Ghost(fents)) {
                    Ok(t) => Ok(RawBody::FormData(t)),
                    Err(e) => Err(e),
                }
            },
            None => Err(err_must_be_table(key.as_str())),
        }
    } else if key_in_names(key.as_str(), url_names.as_slice()) {
        match decode_raw_table("x-www-form-urlencoded", val) {
            Ok(t) => Ok(RawBody::XFormUrlEncoded(t)),
            Err(e) => Err(e),
        }
    } else {
        Err(err_unknown_body_field(key.as_str()))
    }
}

/// Decodes a free-form table field: the value must be a table, whose
/// entries decode in order.
fn decode_raw_table(field: &str, v: &toml::Value) -> (r: Result<Table<RawValue>, Error>)
    ensures
        match r {
            Ok(t) => spec_raw_table(field@, toml_model(*v)) == Ok::<_, ErrorModel>(t@),
            Err(e) => spec_raw_table(field@, toml_model(*v)) == Err::<
                Seq<(Seq<char>, RawModel)>,
                _,
            >(e@),
        },
{
    match read_table(v) {
        Some(vec) => {
            let ghost ents = toml_model(*v)->Table_0;
            decode_raw_entries(field, &vec, Ghost(ents))
        },
        None => Err(err_must_be_table(field)),
    }
}

/// How one input parameter declaration decodes: a table with an optional
/// string `hint` and an optional string `default`; other keys are ignored.
pub open spec fn spec_decode_input_param(key: Seq<char>, m: TomlModel) -> Result<
    crate::input_param::InputParamModel,
    ErrorModel,
> {
    match m {
        TomlModel::Table(es) => match spec_table_get(es, "hint"@) {
            Some(TomlModel::Str(h)) => spec_input_default(es, Some(h)),
            None => spec_input_default(es, None),
            Some(_) => Err(
                ErrorModel::Deserialization { message: msg_must_be_string("hint"@), span: None },
            ),
        },
        _ => Err(ErrorModel::Deserialization { message: msg_must_be_table(key), span: None }),
    }
}

/// The second half of an input parameter declaration: its `default`.
pub open spec fn spec_input_default(
    es: Seq<(Seq<char>, TomlModel)>,
    hint: Option<Seq<char>>,
) -> Result<crate::input_param::InputParamModel, ErrorModel> {
    match spec_table_get(es, "default"@) {
        Some(TomlModel::Str(d)) => Ok(
            crate::input_param::InputParamModel { hint, default: Some(d) },
        ),
        None => Ok(crate::input_param::InputParamModel { hint, default: None }),
        Some(_) => Err(
            ErrorModel::Deserialization { message: msg_must_be_string("default"@), span: None },
        ),
    }
}

/// How the entries of the input parameters table decode, in order.
pub open spec fn spec_decode_input_entries(entries: Seq<(Seq<char>, TomlModel)>) -> Result<
    Seq<(Seq<char>, crate::input_param::InputParamModel)>,
    ErrorModel,
>
    decreases entries.len(),
{
    if entries.len() == 0 {
        Ok(Seq::empty())
    } else {
        match spec_decode_input_param(entries[0].0, entries[0].1) {
            Err(e) => Err(e),
            Ok(v) => match spec_decode_input_entries(entries.drop_first()) {
                Err(e) => Err(e),
                Ok(rest) => Ok(seq![(entries[0].0, v)] + rest),
            },
        }
    }
}

/// How the input parameters field decodes: a table of declarations.
pub open spec fn spec_decode_input_params(m: TomlModel) -> Result<
    Seq<(Seq<char>, crate::input_param::InputParamModel)>,
    ErrorModel,
> {
    match m {
        TomlModel::Table(entries) => spec_decode_input_entries(entries),
        _ => Err(
            ErrorModel::Deserialization {
                message: msg_must_be_table("input_params"@),
                span: None,
            },
        ),
    }
}

/// Decodes one input parameter declaration.
fn decode_input_param(key: &str, v: &toml::Value) -> (r: Result<crate::input_param::InputParam, Error>)
    ensures
        match r {
            Ok(x) => spec_decode_input_param(key@, toml_model(*v)) == Ok::<_, ErrorModel>(x@),
            Err(e) => spec_decode_input_param(key@, toml_model(*v)) == Err::<
                crate::input_param::InputParamModel,
                _,
            >(e@),
        },
{
    let vec = match read_table(v) {
        Some(vec) => vec,
        None => {
            return Err(err_must_be_table(key));
        },
    };
    let ghost es = toml_model(*v)->Table_0;
    let hint = match find_entry(&vec, Ghost(es), "hint") {
        None => None,
        Some(hv) => match read_scalar(hv) {
            Some(TomlScalar::Str(h)) => Some(h),
            _ => {
                return Err(err_must_be_string("hint"));
            },
        },
    };
    let default = match find_entry(&vec, Ghost(es), "default") {
        None => None,
        Some(dv) => match read_scalar(dv) {
            Some(TomlScalar::Str(d)) => Some(d),
            _ => {
                return Err(err_must_be_string("default"));
            },
        },
    };
    Ok(crate::input_param::InputParam { hint, default })
}

/// Decodes the input parameters field.
fn decode_input_params(v: &toml::Value) -> (r: Result<Table<crate::input_param::InputParam>, Error>)
    ensures
        match r {
            Ok(t) => spec_decode_input_params(toml_model(*v)) == Ok::<_, ErrorModel>(t@),
            Err(e) => spec_decode_input_params(toml_model(*v)) == Err::<
                Seq<(Seq<char>, crate::input_param::InputParamModel)>,
                _,
            >(e@),
        },
{
    let vec = match read_table(v) {
        Some(vec) => vec,
        None => {
            return Err(err_must_be_table("input_params"));
        },
    };
    let ghost ents = toml_model(*v)->Table_0;
    let mut out: Vec<(String, crate::input_param::InputParam)> = Vec::new();
    let mut i: usize = 0;
    proof {
        assert(ents.skip(0) =~= ents);
    }
    while i < vec.len()
        invariant
            i <= vec.len(),
            entries_match(vec@, ents),
            out.deep_view().len() == i,
            spec_decode_input_entries(ents) == match spec_decode_input_entries(
                ents.skip(i as int),
            ) {
                Ok(rest) => Ok::<_, ErrorModel>(out.deep_view() + rest),
                Err(e) => Err::<Seq<(Seq<char>, crate::input_param::InputParamModel)>, _>(e),
            },
        decreases vec.len() - i,
    {
        proof {
            assert(ents.skip(i as int).drop_first() =~= ents.skip(i + 1));
            assert(ents.skip(i as int)[0] == ents[i as int]);
        }
        let ghost before = out.deep_view();
        match decode_input_param(vec[i].0.as_str(), &vec[i].1) {
            Ok(ip) => {
                let key = vec[i].0.clone();
                out.push((key, ip));
                proof {
                    assert(out.deep_view() =~= before.push((ents[i as int].0, ip@)));
                    if spec_decode_input_entries(ents.skip(i + 1)) is Ok {
                        let rest = spec_decode_input_entries(ents.skip(i + 1))->Ok_0;
                        assert(before + (seq![(ents[i as int].0, ip@)] + rest) =~= (
                        out.deep_view() + rest));
                    }
                }
            },
            Err(e) => {
                return Err(e);
            },
        }
        i = i + 1;
    }
    proof {
        assert(ents.skip(vec@.len() as int) =~= Seq::<(Seq<char>, TomlModel)>::empty());
        assert(out.deep_view() + Seq::<(Seq<char>, crate::input_param::InputParamModel)>::empty()
            =~= out.deep_view());
    }
    Ok(Table::new(out))
}

/// How many document entries use one of the given names.
pub open spec fn spec_count_alias(
    entries: Seq<(Seq<char>, TomlModel)>,
    names: Seq<Seq<char>>,
) -> nat
    decreases entries.len(),
{
    if entries.len() == 0 {
        0
    } else {
        (if names.contains(entries[0].0) {
            1nat
        } else {
            0nat
        }) + spec_count_alias(entries.drop_first(), names)
    }
}

/// The value of the first document entry using one of the given names.
pub open spec fn spec_find_alias(
    entries: Seq<(Seq<char>, TomlModel)>,
    names: Seq<Seq<char>>,
) -> Option<TomlModel>
    decreases entries.len(),
{
    if entries.len() == 0 {
        None
    } else if names.contains(entries[0].0) {
        Some(entries[0].1)
    } else {
        spec_find_alias(entries.drop_first(), names)
    }
}

/// The reason a field spelled under two of its aliases was rejected.
pub open spec fn msg_duplicate_field(name: Seq<char>) -> Seq<char> {
    "duplicate field `"@ + name + "`"@
}

fn err_duplicate_field(name: &str) -> (e: Error)
    ensures
        e@ == (ErrorModel::Deserialization { message: msg_duplicate_field(name@), span: None }),
{
    let mut m = "duplicate field `".to_owned();
    m.append(name);
    m.append("`");
    Error::Deserialization { message: m, span: None }
}

/// Counts the document entries using one of the given names.
fn count_alias(
    vec: &Vec<(String, toml::Value)>,
    Ghost(ents): Ghost<Seq<(Seq<char>, TomlModel)>>,
    names: &[&str],
) -> (n: usize)
    requires
        entries_match(vec@, ents),
    ensures
        n == spec_count_alias(ents, spec_name_seq(names@)),
{
    let ghost nseq = spec_name_seq(names@);
    let mut n: usize = 0;
    let mut i: usize = 0;
    proof {
        assert(ents.skip(0) =~= ents);
    }
    while i < vec.len()
        invariant
            i <= vec.len(),
            n <= i,
            entries_match(vec@, ents),
            spec_count_alias(ents, nseq) == n + spec_count_alias(ents.skip(i as int), nseq),
        decreases vec.len() - i,
    {
        proof {
            assert(ents.skip(i as int).drop_first() =~= ents.skip(i + 1));
            assert(ents.skip(i as int)[0] == ents[i as int]);
        }
        if key_in_names(vec[i].0.as_str(), names) {
            n = n + 1;
        }
        i = i + 1;
    }
    assert(ents.skip(vec@.len() as int) =~= Seq::<(Seq<char>, TomlModel)>::empty());
    n
}

/// Finds the first document entry using one of the given names.
fn find_alias<'a>(
    vec: &'a Vec<(String, toml::Value)>,
    Ghost(ents): Ghost<Seq<(Seq<char>, TomlModel)>>,
    names: &[&str],
) -> (r: Option<&'a toml::Value>)
    requires
        entries_match(vec@, ents),
    ensures
        match r {
            Some(v) => spec_find_alias(ents, spec_name_seq(names@)) == Some(toml_model(*v)),
            None => spec_find_alias(ents, spec_name_seq(names@)) is None,
        },
{
    let ghost nseq = spec_name_seq(names@);
    let mut i: usize = 0;
    proof {
        assert(ents.skip(0) =~= ents);
    }
    while i < vec.len()
        invariant
            i <= vec.len(),
            entries_match(vec@, ents),
            spec_find_alias(ents, nseq) == spec_find_alias(ents.skip(i as int), nseq),
        decreases vec.len() - i,
    {
        proof {
            assert(ents.skip(i as int).drop_first() =~= ents.skip(i + 1));
            assert(ents.skip(i as int)[0] == ents[i as int]);
        }
        if key_in_names(vec[i].0.as_str(), names) {
            return Some(&vec[i].1);
        }
        i = i + 1;
    }
    assert(ents.skip(vec@.len() as int) =~= Seq::<(Seq<char>, TomlModel)>::empty());
    None
}

/// The names under which the query parameters table may be spelled.
pub open spec fn spec_qp_names() -> Seq<Seq<char>> {
    seq!["queryparams"@, "query-params"@, "query_params"@]
}

/// The names under which the input parameters table may be spelled.
pub open spec fn spec_ip_names() -> Seq<Seq<char>> {
    seq!["inputparams"@, "input-params"@, "input_params"@]
}

/// The document model before the validation pass.
#[derive(Debug)]
pub struct RawSchema {
    pub http: Http,
    pub metadata: Table<RawValue>,
    pub headers: Table<String>,
    pub query_params: Table<RawValue>,
    pub body: RawBody,
    pub variables: Table<RawValue>,
    pub input_params: Table<crate::input_param::InputParam>,
}

/// The mathematical model of a [`RawSchema`].
pub struct RawSchemaModel {
    pub http: HttpModel,
    pub metadata: Seq<(Seq<char>, RawModel)>,
    pub headers: Seq<(Seq<char>, Seq<char>)>,
    pub query_params: Seq<(Seq<char>, RawModel)>,
    pub body: RawBodyModel,
    pub variables: Seq<(Seq<char>, RawModel)>,
    pub input_params: Seq<(Seq<char>, crate::input_param::InputParamModel)>,
}

impl View for RawSchema {
    type V = RawSchemaModel;

    open spec fn view(&self) -> RawSchemaModel {
        RawSchemaModel {
            http: self.http@,
            metadata: self.metadata@,
            headers: self.headers@,
            query_params: self.query_params@,
            body: self.body@,
            variables: self.variables@,
            input_params: self.input_params@,
        }
    }
}

/// An absent free-form table decodes to an empty one.
pub open spec fn spec_opt_table(field: Seq<char>, opt: Option<TomlModel>) -> Result<
    Seq<(Seq<char>, RawModel)>,
    ErrorModel,
> {
    match opt {
        None => Ok(Seq::empty()),
        Some(m) => spec_raw_table(field, m),
    }
}

/// An absent headers table decodes to an empty one.
pub open spec fn spec_opt_headers(opt: Option<TomlModel>) -> Result<
    Seq<(Seq<char>, Seq<char>)>,
    ErrorModel,
> {
    match opt {
        None => Ok(Seq::empty()),
        Some(m) => spec_decode_headers(m),
    }
}

/// An absent body decodes to no body.
pub open spec fn spec_opt_body(opt: Option<TomlModel>) -> Result<RawBodyModel, ErrorModel> {
    match opt {
        None => Ok(RawBodyModel::Empty),
        Some(m) => spec_decode_body(m),
    }
}

/// An absent input parameters table decodes to an empty one.
pub open spec fn spec_opt_inputs(opt: Option<TomlModel>) -> Result<
    Seq<(Seq<char>, crate::input_param::InputParamModel)>,
    ErrorModel,
> {
    match opt {
        None => Ok(Seq::empty()),
        Some(m) => spec_decode_input_params(m),
    }
}

/// How a whole document decodes into the pre-validation model: the
/// required `http` section, then each field in a fixed order, aliases
/// normalized and duplicate spellings rejected, absent fields defaulted.
pub open spec fn spec_decode_root(doc: Seq<(Seq<char>, TomlModel)>) -> Result<
    RawSchemaModel,
    ErrorModel,
> {
    match spec_table_get(doc, "http"@) {
        None => Err(ErrorModel::MissingField("missing field `http`"@)),
        Some(hm) => match spec_decode_http(hm) {
            Err(e) => Err(e),
            Ok(http) => match spec_opt_table("metadata"@, spec_table_get(doc, "metadata"@)) {
                Err(e) => Err(e),
                Ok(metadata) => match spec_opt_headers(spec_table_get(doc, "headers"@)) {
                    Err(e) => Err(e),
                    Ok(headers) => if spec_count_alias(doc, spec_qp_names()) >= 2 {
                        Err(
                            ErrorModel::Deserialization {
                                message: msg_duplicate_field("query_params"@),
                                span: None,
                            },
                        )
                    } else {
                        match spec_opt_table(
                            "query_params"@,
                            spec_find_alias(doc, spec_qp_names()),
                        ) {
                            Err(e) => Err(e),
                            Ok(query_params) => match spec_opt_body(
                                spec_table_get(doc, "body"@),
                            ) {
                                Err(e) => Err(e),
                                Ok(body) => match spec_opt_table(
                                    "variables"@,
                                    spec_table_get(doc, "variables"@),
                                ) {
                                    Err(e) => Err(e),
                                    Ok(variables) => if spec_count_alias(doc, spec_ip_names())
                                        >= 2 {
                                        Err(
                                            ErrorModel::Deserialization {
                                                message: msg_duplicate_field("input_params"@),
                                                span: None,
                                            },
                                        )
                                    } else {
                                        match spec_opt_inputs(
                                            spec_find_alias(doc, spec_ip_names()),
                                        ) {
                                            Err(e) => Err(e),
                                            Ok(input_params) => Ok(
                                                RawSchemaModel {
                                                    http,
                                                    metadata,
                                                    headers,
                                                    query_params,
                                                    body,
                                                    variables,
                                                    input_params,
                                                },
                                            ),
                                        }
                                    },
                                },
                            },
                        }
                    },
                },
            },
        },
    }
}

/// A table with no entries.
fn table_empty<V: DeepView>() -> (r: Table<V>)
    ensures
        r@ == Seq::<(Seq<char>, <V as DeepView>::V)>::empty(),
{
    let t = Table::new(Vec::new());
    proof {
        assert(t@ =~= Seq::<(Seq<char>, <V as DeepView>::V)>::empty());
    }
    t
}

/// Decodes a whole document into the pre-validation model.
fn decode_root(
    vec: &Vec<(String, toml::Value)>,
    Ghost(doc): Ghost<Seq<(Seq<char>, TomlModel)>>,
) -> (r: Result<RawSchema, Error>)
    requires
        entries_match(vec@, doc),
    ensures
        match r {
            Ok(s) => spec_decode_root(doc) == Ok::<_, ErrorModel>(s@),
            Err(e) => spec_decode_root(doc) == Err::<RawSchemaModel, _>(e@),
        },
{
    let http = match find_entry(vec, Ghost(doc), "http") {
        None => {
            return Err(Error::MissingField("missing field `http`".to_owned()));
        },
        Some(hv) => match decode_http(hv) {
            Ok(h) => h,
            Err(e) => {
                return Err(e);
            },
        },
    };
    let metadata = match find_entry(vec, Ghost(doc), "metadata") {
        None => table_empty(),
        Some(v) => match decode_raw_table("metadata", v) {
            Ok(t) => t,
            Err(e) => {
                return Err(e);
            },
        },
    };
    let headers = match find_entry(vec, Ghost(doc), "headers") {
        None => table_empty(),
        Some(v) => match decode_headers(v) {
            Ok(t) => t,
            Err(e) => {
                return Err(e);
            },
        },
    };
    let qp_names: [&str; 3] = ["queryparams", "query-params", "query_params"];
    proof {
        assert(spec_name_seq(qp_names@) =~= spec_qp_names());
    }
    if count_alias(vec, Ghost(doc), qp_names.as_slice()) >= 2 {
        return Err(err_duplicate_field("query_params"));
    }
    let query_params = match find_alias(vec, Ghost(doc), qp_names.as_slice()) {
        None => table_empty(),
        Some(v) => match decode_raw_table("query_params", v) {
            Ok(t) => t,
            Err(e) => {
                return Err(e);
            },
        },
    };
    let body = match find_entry(vec, Ghost(doc), "body") {
        None => RawBody::Empty,
        Some(v) => match decode_body(v) {
            Ok(b) => b,
            Err(e) => {
                return Err(e);
            },
        },
    };
    let variables = match find_entry(vec, Ghost(doc), "variables") {
        None => table_empty(),
        Some(v) => match decode_raw_table("variables", v) {
            Ok(t) => t,
            Err(e) => {
                return Err(e);
            },
        },
    };
    let ip_names: [&str; 3] = ["inputparams", "input-params", "input_params"];
    proof {
        assert(spec_name_seq(ip_names@) =~= spec_ip_names());
    }
    if count_alias(vec, Ghost(doc), ip_names.as_slice()) >= 2 {
        return Err(err_duplicate_field("input_params"));
    }
    let input_params = match find_alias(vec, Ghost(doc), ip_names.as_slice()) {
        None => table_empty(),
        Some(v) => match decode_input_params(v) {
            Ok(t) => t,
            Err(e) => {
                return Err(e);
            },
        },
    };
    Ok(RawSchema { http, metadata, headers, query_params, body, variables, input_params })
}

/// The validated document model: the typed form a request is built from.
#[derive(Debug)]
pub struct Schema {
    pub http: Http,
    pub metadata: Table<crate::types::PrimitiveArray>,
    pub headers: Table<String>,
    pub query_params: Table<crate::types::PrimitiveArray>,
    pub body: SchemaBody,
    pub variables: Table<crate::types::PrimitiveArray>,
    pub input_params: Table<crate::input_param::InputParam>,
}

/// The body of a validated document.
#[derive(Debug)]
pub enum SchemaBody {
    Empty,
    Raw(String),
    Binary(String),
    FormData(Table<SchemaFormValue>),
    XFormUrlEncoded(Table<crate::types::PrimitiveArray>),
}

/// One entry of a validated form-data body.
#[derive(Debug)]
pub enum SchemaFormValue {
    Text(crate::types::PrimitiveArray),
    File(String),
}

/// The mathematical model of a [`SchemaFormValue`].
pub enum SchemaFormModel {
    Text(crate::types::PrimitiveArrayModel),
    File(Seq<char>),
}

/// The mathematical model of a [`SchemaBody`].
pub enum SchemaBodyModel {
    Empty,
    Raw(Seq<char>),
    Binary(Seq<char>),
    FormData(Seq<(Seq<char>, SchemaFormModel)>),
    XFormUrlEncoded(Seq<(Seq<char>, crate::types::PrimitiveArrayModel)>),
}

/// The mathematical model of a [`Schema`].
pub struct SchemaModel {
    pub http: HttpModel,
    pub metadata: Seq<(Seq<char>, crate::types::PrimitiveArrayModel)>,
    pub headers: Seq<(Seq<char>, Seq<char>)>,
    pub query_params: Seq<(Seq<char>, crate::types::PrimitiveArrayModel)>,
    pub body: SchemaBodyModel,
    pub variables: Seq<(Seq<char>, crate::types::PrimitiveArrayModel)>,
    pub input_params: Seq<(Seq<char>, crate::input_param::InputParamModel)>,
}

impl View for SchemaFormValue {
    type V = SchemaFormModel;

    open spec fn view(&self) -> SchemaFormModel {
        match self {
            SchemaFormValue::Text(a) => SchemaFormModel::Text(a@),
            SchemaFormValue::File(p) => SchemaFormModel::File(p@),
        }
    }
}

impl DeepView for SchemaFormValue {
    type V = SchemaFormModel;

    open spec fn deep_view(&self) -> SchemaFormModel {
        self.view()
    }
}

impl View for SchemaBody {
    type V = SchemaBodyModel;

    open spec fn view(&self) -> SchemaBodyModel {
        match self {
            SchemaBody::Empty => SchemaBodyModel::Empty,
            SchemaBody::Raw(c) => SchemaBodyModel::Raw(c@),
            SchemaBody::Binary(p) => SchemaBodyModel::Binary(p@),
            SchemaBody::FormData(t) => SchemaBodyModel::FormData(t@),
            SchemaBody::XFormUrlEncoded(t) => SchemaBodyModel::XFormUrlEncoded(t@),
        }
    }
}

impl View for Schema {
    type V = SchemaModel;

    open spec fn view(&self) -> SchemaModel {
        SchemaModel {
            http: self.http@,
            metadata: self.metadata@,
            headers: self.headers@,
            query_params: self.query_params@,
            body: self.body@,
            variables: self.variables@,
            input_params: self.input_params@,
        }
    }
}

/// The validated form of one leaf: a scalar stands alone, an array keeps
/// its order. Only defined for leaves that passed validation; a rejected
/// kind maps to a harmless placeholder that validation never lets through.
pub open spec fn raw_to_array(r: RawModel) -> crate::types::PrimitiveArrayModel {
    match r {
        RawModel::Prim(p) => crate::types::PrimitiveArrayModel::Single(p),
        RawModel::Arr(ps) => crate::types::PrimitiveArrayModel::Multiple(ps),
        _ => crate::types::PrimitiveArrayModel::Single(PrimitiveModel::Bool(false)),
    }
}

/// Some leaf of the table is a datetime.
pub open spec fn spec_has_datetime(entries: Seq<(Seq<char>, RawModel)>) -> bool {
    exists|i: int| 0 <= i < entries.len() && (#[trigger] entries[i]).1 is Datetime
}

/// Some leaf of the table is a nested table.
pub open spec fn spec_has_nested_table(entries: Seq<(Seq<char>, RawModel)>) -> bool {
    exists|i: int| 0 <= i < entries.len() && (#[trigger] entries[i]).1 is NestedTable
}

/// The validation of one free-form table: a datetime leaf is rejected
/// first, then a nested-table leaf, each naming the collection; a clean
/// table refines to typed scalar-or-array values.
pub open spec fn spec_refine_table(
    field: Seq<char>,
    entries: Seq<(Seq<char>, RawModel)>,
) -> Result<Seq<(Seq<char>, crate::types::PrimitiveArrayModel)>, ErrorModel> {
    if spec_has_datetime(entries) {
        Err(ErrorModel::InvalidType { field, kind: "datetime"@ })
    } else if spec_has_nested_table(entries) {
        Err(ErrorModel::InvalidType { field, kind: "table"@ })
    } else {
        Ok(entries.map_values(|e: (Seq<char>, RawModel)| (e.0, raw_to_array(e.1))))
    }
}

/// Some text entry of the form table is a datetime.
pub open spec fn spec_form_has_datetime(entries: Seq<(Seq<char>, RawFormModel)>) -> bool {
    exists|i: int|
        0 <= i < entries.len() && ((#[trigger] entries[i]).1 matches RawFormModel::Text(t)
            && t is Datetime)
}

/// Some text entry of the form table is a nested table.
pub open spec fn spec_form_has_nested_table(entries: Seq<(Seq<char>, RawFormModel)>) -> bool {
    exists|i: int|
        0 <= i < entries.len() && ((#[trigger] entries[i]).1 matches RawFormModel::Text(t)
            && t is NestedTable)
}

/// The validated form of one form-data entry.
pub open spec fn raw_form_to_schema(r: RawFormModel) -> SchemaFormModel {
    match r {
        RawFormModel::Text(t) => SchemaFormModel::Text(raw_to_array(t)),
        RawFormModel::File(p) => SchemaFormModel::File(p),
    }
}

/// The validation of a form-data table: only its text entries are under
/// the leaf rules; file paths are plain strings and exempt.
pub open spec fn spec_refine_form(entries: Seq<(Seq<char>, RawFormModel)>) -> Result<
    Seq<(Seq<char>, SchemaFormModel)>,
    ErrorModel,
> {
    if spec_form_has_datetime(entries) {
        Err(ErrorModel::InvalidType { field: "form_data"@, kind: "datetime"@ })
    } else if spec_form_has_nested_table(entries) {
        Err(ErrorModel::InvalidType { field: "form_data"@, kind: "table"@ })
    } else {
        Ok(entries.map_values(|e: (Seq<char>, RawFormModel)| (e.0, raw_form_to_schema(e.1))))
    }
}

/// The validation of the body: only form tables hold leaves to check.
pub open spec fn spec_refine_body(b: RawBodyModel) -> Result<SchemaBodyModel, ErrorModel> {
    match b {
        RawBodyModel::Empty => Ok(SchemaBodyModel::Empty),
        RawBodyModel::Raw(c) => Ok(SchemaBodyModel::Raw(c)),
        RawBodyModel::Binary(p) => Ok(SchemaBodyModel::Binary(p)),
        RawBodyModel::FormData(es) => match spec_refine_form(es) {
            Ok(t) => Ok(SchemaBodyModel::FormData(t)),
            Err(e) => Err(e),
        },
        RawBodyModel::XFormUrlEncoded(es) => match spec_refine_table(
            "x-www-form-urlencoded"@,
            es,
        ) {
            Ok(t) => Ok(SchemaBodyModel::XFormUrlEncoded(t)),
            Err(e) => Err(e),
        },
    }
}

/// The validation pass over a decoded document: the free-form tables are
/// walked in a fixed order, and the first forbidden leaf kind rejects the
/// document naming its collection.
pub open spec fn spec_refine_schema(raw: RawSchemaModel) -> Result<SchemaModel, ErrorModel> {
    match spec_refine_table("metadata"@, raw.metadata) {
        Err(e) => Err(e),
        Ok(metadata) => match spec_refine_table("query_params"@, raw.query_params) {
            Err(e) => Err(e),
            Ok(query_params) => match spec_refine_table("variables"@, raw.variables) {
                Err(e) => Err(e),
                Ok(variables) => match spec_refine_body(raw.body) {
                    Err(e) => Err(e),
                    Ok(body) => Ok(
                        SchemaModel {
                            http: raw.http,
                            metadata,
                            headers: raw.headers,
                            query_params,
                            body,
                            variables,
                            input_params: raw.input_params,
                        },
                    ),
                },
            },
        },
    }
}

fn err_invalid_type(field: &str, kind: &str) -> (e: Error)
    ensures
        e@ == (ErrorModel::InvalidType { field: field@, kind: kind@ }),
{
    Error::InvalidType { field: field.to_owned(), kind: kind.to_owned() }
}

/// The validated form of one leaf that passed the checks.
fn raw_value_to_array(v: &RawValue) -> (r: crate::types::PrimitiveArray)
    ensures
        r@ == raw_to_array(v@),
{
    match v {
        RawValue::Prim(p) => crate::types::PrimitiveArray::Single(p.clone()),
        RawValue::Arr(ps) => {
            let mut out: Vec<Primitive> = Vec::new();
            let mut i: usize = 0;
            while i < ps.len()
                invariant
                    i <= ps.len(),
                    out@.len() == i,
                    forall|k: int| 0 <= k < i ==> (#[trigger] out@[k])@ == ps@[k]@,
                decreases ps.len() - i,
            {
                out.push(ps[i].clone());
                i = i + 1;
            }
            proof {
                assert(out@.map_values(|p: Primitive| p@) =~= ps@.map_values(
                    |p: Primitive| p@,
                ));
            }
            crate::types::PrimitiveArray::Multiple(out)
        },
        RawValue::Datetime(_) => crate::types::PrimitiveArray::Single(Primitive::Bool(false)),
        RawValue::NestedTable => crate::types::PrimitiveArray::Single(Primitive::Bool(false)),
    }
}

/// Validates and refines one free-form table.
fn refine_table(field: &str, t: &Table<RawValue>) -> (r: Result<
    Table<crate::types::PrimitiveArray>,
    Error,
>)
    ensures
        match r {
            Ok(o) => spec_refine_table(field@, t@) == Ok::<_, ErrorModel>(o@),
            Err(e) => spec_refine_table(field@, t@) == Err::<
                Seq<(Seq<char>, crate::types::PrimitiveArrayModel)>,
                _,
            >(e@),
        },
{
    let n = t.len();
    let mut i: usize = 0;
    while i < n
        invariant
            i <= n,
            n == t@.len(),
            forall|q: int| 0 <= q < i ==> !((#[trigger] t@[q]).1 is Datetime),
        decreases n - i,
    {
        if let RawValue::Datetime(_) = &t.entry_at(i).1 {
            assert(t@[i as int].1 is Datetime);
            return Err(err_invalid_type(field, "datetime"));
        }
        i = i + 1;
    }
    assert(!spec_has_datetime(t@));
    let mut i: usize = 0;
    while i < n
        invariant
            i <= n,
            n == t@.len(),
            forall|q: int| 0 <= q < i ==> !((#[trigger] t@[q]).1 is NestedTable),
        decreases n - i,
    {
        if let RawValue::NestedTable = &t.entry_at(i).1 {
            assert(t@[i as int].1 is NestedTable);
            return Err(err_invalid_type(field, "table"));
        }
        i = i + 1;
    }
    assert(!spec_has_nested_table(t@));
    let mut out: Vec<(String, crate::types::PrimitiveArray)> = Vec::new();
    let mut i: usize = 0;
    while i < n
        invariant
            i <= n,
            n == t@.len(),
            out.deep_view().len() == i,
            forall|k: int|
                0 <= k < i ==> #[trigger] out.deep_view()[k] == (t@[k].0, raw_to_array(t@[k].1)),
        decreases n - i,
    {
        let ghost before = out.deep_view();
        let e = t.entry_at(i);
        let key = e.0.clone();
        let val = raw_value_to_array(&e.1);
        out.push((key, val));
        proof {
            assert(out.deep_view() =~= before.push((key@, val@)));
        }
        i = i + 1;
    }
    proof {
        assert(out.deep_view() =~= t@.map_values(
            |e: (Seq<char>, RawModel)| (e.0, raw_to_array(e.1)),
        ));
    }
    Ok(Table::new(out))
}

/// Validates and refines a form-data table.
fn refine_form(t: &Table<RawFormValue>) -> (r: Result<Table<SchemaFormValue>, Error>)
    ensures
        match r {
            Ok(o) => spec_refine_form(t@) == Ok::<_, ErrorModel>(o@),
            Err(e) => spec_refine_form(t@) == Err::<Seq<(Seq<char>, SchemaFormModel)>, _>(e@),
        },
{
    let n = t.len();
    let mut i: usize = 0;
    while i < n
        invariant
            i <= n,
            n == t@.len(),
            forall|q: int|
                0 <= q < i ==> !((#[trigger] t@[q]).1 matches RawFormModel::Text(x)
                    && x is Datetime),
        decreases n - i,
    {
        if let RawFormValue::Text(RawValue::Datetime(_)) = &t.entry_at(i).1 {
            assert(t@[i as int].1 matches RawFormModel::Text(x) && x is Datetime);
            return Err(err_invalid_type("form_data", "datetime"));
        }
        i = i + 1;
    }
    assert(!spec_form_has_datetime(t@));
    let mut i: usize = 0;
    while i < n
        invariant
            i <= n,
            n == t@.len(),
            forall|q: int|
                0 <= q < i ==> !((#[trigger] t@[q]).1 matches RawFormModel::Text(x)
                    && x is NestedTable),
        decreases n - i,
    {
        if let RawFormValue::Text(RawValue::NestedTable) = &t.entry_at(i).1 {
            assert(t@[i as int].1 matches RawFormModel::Text(x) && x is NestedTable);
            return Err(err_invalid_type("form_data", "table"));
        }
        i = i + 1;
    }
    assert(!spec_form_has_nested_table(t@));
    let mut out: Vec<(String, SchemaFormValue)> = Vec::new();
    let mut i: usize = 0;
    while i < n
        invariant
            i <= n,
            n == t@.len(),
            out.deep_view().len() == i,
            forall|k: int|
                0 <= k < i ==> #[trigger] out.deep_view()[k] == (
                    t@[k].0,
                    raw_form_to_schema(t@[k].1),
                ),
        decreases n - i,
    {
        let ghost before = out.deep_view();
        let e = t.entry_at(i);
        let key = e.0.clone();
        let val = match &e.1 {
            RawFormValue::Text(v) => SchemaFormValue::Text(raw_value_to_array(v)),
            RawFormValue::File(p) => SchemaFormValue::File(p.clone()),
        };
        out.push((key, val));
        proof {
            assert(out.deep_view() =~= before.push((key@, val@)));
        }
        i = i + 1;
    }
    proof {
        assert(out.deep_view() =~= t@.map_values(
            |e: (Seq<char>, RawFormModel)| (e.0, raw_form_to_schema(e.1)),
        ));
    }
    Ok(Table::new(out))
}

/// Validates and refines the body.
fn refine_body(b: RawBody) -> (r: Result<SchemaBody, Error>)
    ensures
        match r {
            Ok(o) => spec_refine_body(b@) == Ok::<_, ErrorModel>(o@),
            Err(e) => spec_refine_body(b@) == Err::<SchemaBodyModel, _>(e@),
        },
{
    match b {
        RawBody::Empty => Ok(SchemaBody::Empty),
        RawBody::Raw(c) => Ok(SchemaBody::Raw(c)),
        RawBody::Binary(p) => Ok(SchemaBody::Binary(p)),
        RawBody::FormData(t) => match refine_form(&t) {
            Ok(o) => Ok(SchemaBody::FormData(o)),
            Err(e) => Err(e),
        },
        RawBody::XFormUrlEncoded(t) => match refine_table("x-www-form-urlencoded", &t) {
            Ok(o) => Ok(SchemaBody::XFormUrlEncoded(o)),
            Err(e) => Err(e),
        },
    }
}

/// Validates and refines a decoded document.
fn refine_schema(raw: RawSchema) -> (r: Result<Schema, Error>)
    ensures
        match r {
            Ok(s) => spec_refine_schema(raw@) == Ok::<_, ErrorModel>(s@),
            Err(e) => spec_refine_schema(raw@) == Err::<SchemaModel, _>(e@),
        },
{
    let metadata = match refine_table("metadata", &raw.metadata) {
        Ok(t) => t,
        Err(e) => {
            return Err(e);
        },
    };
    let query_params = match refine_table("query_params", &raw.query_params) {
        Ok(t) => t,
        Err(e) => {
            return Err(e);
        },
    };
    let variables = match refine_table("variables", &raw.variables) {
        Ok(t) => t,
        Err(e) => {
            return Err(e);
        },
    };
    let body = match refine_body(raw.body) {
        Ok(b) => b,
        Err(e) => {
            return Err(e);
        },
    };
    Ok(
        Schema {
            http: raw.http,
            metadata,
            headers: raw.headers,
            query_params,
            body,
            variables,
            input_params: raw.input_params,
        },
    )
}

/// Type rejection: a free-form table under validation is rejected exactly
/// when it holds a leaf of kind datetime or nested table, and the
/// rejection names that collection and the kind, a datetime leaf taking
/// precedence; a table free of both kinds is accepted whole.
pub proof fn lemma_type_rejection(field: Seq<char>, entries: Seq<(Seq<char>, RawModel)>)
    ensures
        spec_refine_table(field, entries) is Err <==> (spec_has_datetime(entries)
            || spec_has_nested_table(entries)),
        spec_has_datetime(entries) ==> spec_refine_table(field, entries) == Err::<
            Seq<(Seq<char>, crate::types::PrimitiveArrayModel)>,
            _,
        >(ErrorModel::InvalidType { field, kind: "datetime"@ }),
        !spec_has_datetime(entries) && spec_has_nested_table(entries) ==> spec_refine_table(
            field,
            entries,
        ) == Err::<Seq<(Seq<char>, crate::types::PrimitiveArrayModel)>, _>(
            ErrorModel::InvalidType { field, kind: "table"@ },
        ),
{
}

/// Body exclusivity: a body table declaring no kind at all gives an
/// absent body, and one declaring two or more fields is always rejected
/// with the exactly-one rejection.
pub proof fn lemma_body_exclusivity(m: TomlModel)
    requires
        m is Table,
    ensures
        m->Table_0.len() == 0 ==> spec_decode_body(m) == Ok::<_, ErrorModel>(RawBodyModel::Empty),
        m->Table_0.len() >= 2 ==> spec_decode_body(m) == Err::<RawBodyModel, _>(
            ErrorModel::Deserialization { message: msg_one_element(), span: None },
        ),
{
}

/// How a whole document text maps to a validated schema: decoding, then
/// the validation pass.
pub open spec fn spec_schema_of(doc: Seq<(Seq<char>, TomlModel)>) -> Result<
    SchemaModel,
    ErrorModel,
> {
    match spec_decode_root(doc) {
        Err(e) => Err(e),
        Ok(raw) => spec_refine_schema(raw),
    }
}

impl Schema {
    /// Parses a document text into the validated schema: a text the
    /// document syntax rejects gives back its reason and span; a
    /// well-formed document decodes, is validated, and either is returned
    /// whole or is rejected with the exact error the model prescribes.
    pub fn from_str(s: &str) -> (r: Result<Schema, Error>)
        ensures
            match crate::toml_data::toml_document(s@) {
                None => r matches Err(e) && e@ is Deserialization,
                Some(doc) => match spec_schema_of(doc->Table_0) {
                    Ok(sm) => r matches Ok(sch) && sch@ == sm,
                    Err(em) => r matches Err(e) && e@ == em,
                },
            },
    {
        let value = match crate::toml_data::parse_toml(s) {
            Ok(v) => v,
            Err(e) => {
                let message = crate::toml_data::toml_error_message(&e);
                let span = crate::toml_data::toml_error_span(&e);
                return Err(Error::Deserialization { message, span });
            },
        };
        let vec = match read_table(&value) {
            Some(vec) => vec,
            None => {
                return Err(err_must_be_table("document"));
            },
        };
        let ghost doc = toml_model(value)->Table_0;
        let raw = match decode_root(&vec, Ghost(doc)) {
            Ok(raw) => raw,
            Err(e) => {
                return Err(e);
            },
        };
        refine_schema(raw)
    }
}

} // verus!
