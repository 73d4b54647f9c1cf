//! The canonical request, and the pure builder that produces it from a
//! validated document: metadata and variables collapse to one string per
//! key, query parameters expand into ordered pairs, and each body kind is
//! assigned its default MIME type.

use vstd::prelude::*;

use crate::body::Body;
use crate::body::BodyModel;
use crate::body::FormDataModel;
use crate::body::FormDataValue;
use crate::input_param::InputParam;
use crate::input_param::InputParamModel;
use crate::method::Method;
use crate::schema::Schema;
use crate::schema::SchemaBody;
use crate::schema::SchemaBodyModel;
use crate::schema::SchemaFormModel;
use crate::schema::SchemaFormValue;
use crate::schema::SchemaModel;
use crate::table::spec_flatten_table;
use crate::table::spec_into_pairs;
use crate::table::Table;
use crate::types::spec_flatten_array;
use crate::version::HttpVersion;

verus! {

/// The canonical, executor-ready form of an HTTP request.
#[derive(Debug)]
pub struct Request {
    /// HTTP method of the request.
    pub method: Method,
    /// URL of the request.
    pub url: String,
    /// HTTP version of the request.
    pub http_version: HttpVersion,
    /// Metadata of the request document.
    pub metadata: Table<String>,
    /// Headers of the request, in order.
    pub headers: Table<String>,
    /// Query parameters of the request; keys may repeat.
    pub query_params: Vec<(String, String)>,
    /// Body of the request.
    pub body: Body,
    /// Variables that may supply values for placeholders.
    pub variables: Table<String>,
    /// Input parameters the caller may ask the user about.
    pub input_params: Table<InputParam>,
}

/// The mathematical model of a [`Request`].
pub struct RequestModel {
    pub method: Method,
    pub url: Seq<char>,
    pub http_version: HttpVersion,
    pub metadata: Seq<(Seq<char>, Seq<char>)>,
    pub headers: Seq<(Seq<char>, Seq<char>)>,
    pub query_params: Seq<(Seq<char>, Seq<char>)>,
    pub body: BodyModel,
    pub variables: Seq<(Seq<char>, Seq<char>)>,
    pub input_params: Seq<(Seq<char>, InputParamModel)>,
}

impl View for Request {
    type V = RequestModel;

    open spec fn view(&self) -> RequestModel {
        RequestModel {
            method: self.method,
            url: self.url@,
            http_version: self.http_version,
            metadata: self.metadata@,
            headers: self.headers@,
            query_params: self.query_params.deep_view(),
            body: self.body@,
            variables: self.variables@,
            input_params: self.input_params@,
        }
    }
}

/// The body a validated document's body builds into, with its default
/// MIME type; form text entries collapse to their flattened string form.
pub open spec fn spec_build_body(b: SchemaBodyModel) -> BodyModel {
    match b {
        SchemaBodyModel::Empty => BodyModel::Empty,
        SchemaBodyModel::Raw(content) => BodyModel::Raw { content, mime: "text/plain"@ },
        SchemaBodyModel::Binary(path) => BodyModel::Binary {
            path,
            mime: "application/octet-stream"@,
        },
        SchemaBodyModel::FormData(es) => BodyModel::FormData(
            es.map_values(
                |e: (Seq<char>, SchemaFormModel)|
                    (
                        e.0,
                        match e.1 {
                            SchemaFormModel::Text(a) => FormDataModel::Text(spec_flatten_array(a)),
                            SchemaFormModel::File(p) => FormDataModel::File(p),
                        },
                    ),
            ),
        ),
        SchemaBodyModel::XFormUrlEncoded(es) => BodyModel::XFormUrlEncoded(spec_flatten_table(es)),
    }
}

/// The request a validated document builds into: the transform is pure
/// and total, and never fails on a validated schema.
pub open spec fn spec_build_request(s: SchemaModel) -> RequestModel {
    RequestModel {
        method: s.http.method,
        url: s.http.url,
        http_version: s.http.version,
        metadata: spec_flatten_table(s.metadata),
        headers: s.headers,
        query_params: spec_into_pairs(s.query_params),
        body: spec_build_body(s.body),
        variables: spec_flatten_table(s.variables),
        input_params: s.input_params,
    }
}

fn build_body(b: SchemaBody) -> (r: Body)
    ensures
        r@ == spec_build_body(b@),
{
    match b {
        SchemaBody::Empty => Body::Empty,
        SchemaBody::Raw(content) => Body::Raw { content, mime: "text/plain".to_owned() },
        SchemaBody::Binary(path) => Body::Binary {
            path,
            mime: "application/octet-stream".to_owned(),
        },
        SchemaBody::FormData(t) => {
            let ghost model = t@;
            let mut out: Vec<(String, FormDataValue)> = Vec::new();
            let mut i: usize = 0;
            let n = t.len();
            while i < n
                invariant
                    i <= n,
                    n == model.len(),
                    model == t@,
                    out.deep_view().len() == i,
                    forall|k: int|
                        0 <= k < i ==> #[trigger] out.deep_view()[k] == (
                            model[k].0,
                            match model[k].1 {
                                SchemaFormModel::Text(a) => FormDataModel::Text(
                                    spec_flatten_array(a),
                                ),
                                SchemaFormModel::File(p) => FormDataModel::File(p),
                            },
                        ),
                decreases n - i,
            {
                let ghost before = out.deep_view();
                let e = t.entry_at(i);
                let key = e.0.clone();
                let val = match &e.1 {
                    SchemaFormValue::Text(a) => FormDataValue::Text(a.flatten()),
                    SchemaFormValue::File(p) => FormDataValue::File(p.clone()),
                };
                out.push((key, val));
                proof {
                    assert(out.deep_view() =~= before.push((key@, val@)));
                }
                i = i + 1;
            }
            proof {
                assert(out.deep_view() =~= model.map_values(
                    |e: (Seq<char>, SchemaFormModel)|
                        (
                            e.0,
                            match e.1 {
                                SchemaFormModel::Text(a) => FormDataModel::Text(
                                    spec_flatten_array(a),
                                ),
                                SchemaFormModel::File(p) => FormDataModel::File(p),
                            },
                        ),
                ));
            }
            Body::FormData(Table::new(out))
        },
        SchemaBody::XFormUrlEncoded(t) => Body::XFormUrlEncoded(t.into_map()),
    }
}

impl Request {
    /// Builds the canonical request a validated document describes. The
    /// transform is pure and total: only an upstream rejection of the
    /// document can keep a request from being built.
    pub fn from_schema(schema: Schema) -> (r: Request)
        ensures
            r@ == spec_build_request(schema@),
    {
        Request {
            method: schema.http.method,
            url: schema.http.url,
            http_version: schema.http.version,
            metadata: schema.metadata.into_map(),
            headers: schema.headers,
            query_params: schema.query_params.into_pairs(),
            body: build_body(schema.body),
            variables: schema.variables.into_map(),
            input_params: schema.input_params,
        }
    }
}

/// The value of the first header whose name matches up to ASCII case.
pub open spec fn spec_header_get_ci(
    headers: Seq<(Seq<char>, Seq<char>)>,
    name: Seq<char>,
) -> Option<Seq<char>>
    decreases headers.len(),
{
    if headers.len() == 0 {
        None
    } else if crate::text::seq_eq_ci(headers[0].0, name) {
        Some(headers[0].1)
    } else {
        spec_header_get_ci(headers.drop_first(), name)
    }
}

/// The MIME type the request effectively carries: an explicit
/// `Content-Type` header takes precedence over the body's default.
pub open spec fn spec_content_type(rm: RequestModel) -> Option<Seq<char>> {
    match spec_header_get_ci(rm.headers, "Content-Type"@) {
        Some(v) => Some(v),
        None => crate::body::spec_body_mime(rm.body),
    }
}

impl Request {
    /// The MIME type this request effectively carries: an explicit
    /// `Content-Type` header, matched without regard to ASCII case, takes
    /// precedence over the body's default MIME type.
    pub fn content_type(&self) -> (r: Option<String>)
        ensures
            match r {
                Some(m) => spec_content_type(self@) == Some(m@),
                None => spec_content_type(self@) is None,
            },
    {
        let headers = self.headers.entries_vec();
        let mut i: usize = 0;
        proof {
            assert(self@.headers.skip(0) =~= self@.headers);
        }
        while i < headers.len()
            invariant
                i <= headers.len(),
                headers.deep_view() == self@.headers,
                spec_header_get_ci(self@.headers, "Content-Type"@) == spec_header_get_ci(
                    self@.headers.skip(i as int),
                    "Content-Type"@,
                ),
            decreases headers.len() - i,
        {
            proof {
                assert(self@.headers.skip(i as int).drop_first() =~= self@.headers.skip(i + 1));
                assert(self@.headers.skip(i as int)[0] == self@.headers[i as int]);
            }
            if crate::text::str_eq_ci(headers[i].0.as_str(), "Content-Type") {
                return Some(headers[i].1.clone());
            }
            i = i + 1;
        }
        proof {
            assert(self@.headers.skip(self@.headers.len() as int) =~= Seq::<
                (Seq<char>, Seq<char>),
            >::empty());
        }
        match self.body.mime() {
            Some(m) => Some(m.to_owned()),
            None => None,
        }
    }
}

/// Parses a request document into the canonical request it describes: the
/// exactly-one composition of parsing, validation and building. A text the
/// document syntax rejects, or one the validation pass rejects, gives the
/// error the model prescribes.
pub fn parse_request(content: &str) -> (r: Result<Request, crate::error::Error>)
    ensures
        match crate::toml_data::toml_document(content@) {
            None => r matches Err(e) && e@ is Deserialization,
            Some(doc) => match crate::schema::spec_schema_of(doc->Table_0) {
                Ok(sm) => r matches Ok(req) && req@ == spec_build_request(sm),
                Err(em) => r matches Err(e) && e@ == em,
            },
        },
{
    match Schema::from_str(content) {
        Ok(schema) => Ok(Request::from_schema(schema)),
        Err(e) => Err(e),
    }
}

} // verus!
