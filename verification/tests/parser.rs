use rede::body::Body;
use rede::error::Error;
use rede::method::Method;
use rede::request::parse_request;
use rede::schema::Schema;
use rede::schema::SchemaBody;
use rede::table::Table;
use rede::types::Primitive;
use rede::types::PrimitiveArray;
use rede::version::HttpVersion;

const ALL: &str = r#"
    [http]
    method = "GET"
    url = "https://example.org/api"
    version = "HTTP/1.1"

    [metadata]
    name = "Test request"
    description = "Request with all supported options"

    [headers]
    Content-Type = "application/toml"
    Api-Version = "v2"

    [queryparams]
    string = "string"
    integer = 10
    float = 0.1
    array = [ "first", "second" ]
    boolean = true

    [variables]
    string = "string"
    integer = 5
    float = 1.2
    boolean = false
    array = [ 1, "2" ]

    [body]
    raw = """
    {
        "key": "value"
    }
    """

    [input-params]
    host = { hint = "Host name", default = "localhost" }
    no-default = { hint = "This has no default value" }

    [input-params.empty]
    "#;

fn get_array<'t>(table: &'t Table<PrimitiveArray>, key: &str) -> &'t PrimitiveArray {
    table.get(key).expect("key should be present")
}

fn get_str<'t>(table: &'t Table<String>, key: &str) -> &'t String {
    table.get(key).expect("key should be present")
}

fn get_param<'t>(
    table: &'t Table<rede::input_param::InputParam>,
    key: &str,
) -> &'t rede::input_param::InputParam {
    table.get(key).expect("key should be present")
}

fn get_form<'t>(
    table: &'t Table<rede::body::FormDataValue>,
    key: &str,
) -> &'t rede::body::FormDataValue {
    table.get(key).expect("key should be present")
}

#[test]
fn schema_deserialize_all() {
    let schema = Schema::from_str(ALL).unwrap();
    assert_eq!(schema.http.url, "https://example.org/api");
    assert_eq!(schema.http.method, Method::GET);
    assert_eq!(schema.http.version, HttpVersion::Http11);
    assert_eq!(schema.metadata.len(), 2);
    assert_eq!(
        get_array(&schema.metadata, "name"),
        &PrimitiveArray::Single(Primitive::Str("Test request".to_string()))
    );
    assert_eq!(
        get_array(&schema.metadata, "description"),
        &PrimitiveArray::Single(Primitive::Str("Request with all supported options".to_string()))
    );
    assert_eq!(schema.headers.len(), 2);
    assert_eq!(get_str(&schema.headers, "Content-Type"), "application/toml");
    assert_eq!(get_str(&schema.headers, "Api-Version"), "v2");
    assert_eq!(schema.query_params.len(), 5);
    assert_eq!(
        get_array(&schema.query_params, "string"),
        &PrimitiveArray::Single(Primitive::Str("string".into()))
    );
    assert_eq!(
        get_array(&schema.query_params, "integer"),
        &PrimitiveArray::Single(Primitive::Int(10))
    );
    assert_eq!(
        get_array(&schema.query_params, "float"),
        &PrimitiveArray::Single(Primitive::Float("0.1".to_string()))
    );
    assert_eq!(
        get_array(&schema.query_params, "boolean"),
        &PrimitiveArray::Single(Primitive::Bool(true))
    );
    assert_eq!(
        get_array(&schema.query_params, "array"),
        &PrimitiveArray::Multiple(vec![
            Primitive::Str("first".into()),
            Primitive::Str("second".into()),
        ])
    );
    assert_eq!(schema.variables.len(), 5);
    assert_eq!(
        get_array(&schema.variables, "integer"),
        &PrimitiveArray::Single(Primitive::Int(5))
    );
    assert_eq!(
        get_array(&schema.variables, "float"),
        &PrimitiveArray::Single(Primitive::Float("1.2".to_string()))
    );
    assert_eq!(
        get_array(&schema.variables, "boolean"),
        &PrimitiveArray::Single(Primitive::Bool(false))
    );
    assert_eq!(
        get_array(&schema.variables, "array"),
        &PrimitiveArray::Multiple(vec![Primitive::Int(1), Primitive::Str("2".into())])
    );
    assert!(matches!(&schema.body, SchemaBody::Raw(content) if content.contains(r#""key": "value""#)));
    assert_eq!(schema.input_params.len(), 3);
    let host = get_param(&schema.input_params, "host");
    assert_eq!(host.hint, Some("Host name".to_string()));
    assert_eq!(host.default, Some("localhost".to_string()));
    let empty = get_param(&schema.input_params, "empty");
    assert_eq!(empty.hint, None);
    assert_eq!(empty.default, None);
    assert_eq!(
        get_param(&schema.input_params, "no-default").hint,
        Some("This has no default value".to_string())
    );
}

#[test]
fn schema_missing_fields() {
    assert!(Schema::from_str("")
        .err()
        .unwrap()
        .message()
        .contains("missing field `http"));
    assert!(Schema::from_str("[http]")
        .err()
        .unwrap()
        .message()
        .contains("missing field `url`"));
}

#[test]
fn schema_default_values() {
    let toml = r#"http.url = "url""#;
    let schema = Schema::from_str(toml).unwrap();
    assert_eq!(schema.http.method, Method::GET);
    assert_eq!(schema.http.version, HttpVersion::Http11);
    assert_eq!(schema.metadata.len(), 0);
    assert_eq!(schema.headers.len(), 0);
    assert_eq!(schema.query_params.len(), 0);
    assert_eq!(schema.variables.len(), 0);
    assert!(matches!(schema.body, SchemaBody::Empty));
    assert_eq!(schema.input_params.len(), 0);
}

#[test]
fn invalid_types() {
    let toml = r#"
        [http]
        method = "GET"
        url = "url"

        [queryparams]
        date = 1970-01-01
        "#;
    assert!(matches!(
        Schema::from_str(toml).err().unwrap(),
        Error::InvalidType { field, kind } if field == "query_params" && kind == "datetime"
    ));
}

#[test]
fn method_is_case_insensitive() {
    for text in ["get", "GET", "Get", "gEt"] {
        let toml = format!("http = {{ url = \"u\", method = \"{text}\" }}");
        let request = parse_request(&toml).unwrap();
        assert_eq!(request.method, Method::GET);
    }
    let toml = r#"http = { url = "u", method = "FETCH" }"#;
    let err = parse_request(toml).err().unwrap();
    assert!(err.message().contains("unknown HTTP method"));
}

#[test]
fn syntax_errors_carry_reason() {
    let err = parse_request("this is not a document").err().unwrap();
    assert!(matches!(err, Error::Deserialization { .. }));
    let err = parse_request("[http]\nurl = \"a\"\nurl = \"b\"").err().unwrap();
    assert!(matches!(err, Error::Deserialization { .. }));
}

#[test]
fn duplicate_aliases_are_rejected() {
    let toml = r#"
        http.url = "u"
        queryparams.a = 1
        query_params.b = 2
        "#;
    let err = parse_request(toml).err().unwrap();
    assert!(err.message().contains("duplicate field `query_params`"));
}

#[test]
fn body_deserialize() {
    let request = parse_request("http.url = \"u\"\nbody.raw = \"content\"").unwrap();
    assert!(matches!(&request.body, Body::Raw { content, mime }
        if content == "content" && mime == "text/plain"));

    let toml = "http.url = \"u\"\nbody.form-urlencoded = { type = \"integer\", value = 1 }";
    let request = parse_request(toml).unwrap();
    match &request.body {
        Body::XFormUrlEncoded(map) => {
            assert_eq!(map.len(), 2);
            assert_eq!(get_str(map, "type"), "integer");
            assert_eq!(get_str(map, "value"), "1");
        }
        other => panic!("unexpected body: {other:?}"),
    }

    let toml = r#"
        http.url = "u"
        [body.form_data]
        raw.text = "raw"
        binary.file = "path"
        "#;
    let request = parse_request(toml).unwrap();
    match &request.body {
        Body::FormData(map) => {
            assert_eq!(map.len(), 2);
            assert_eq!(
                get_form(map, "raw"),
                &rede::body::FormDataValue::Text("raw".to_string())
            );
            assert_eq!(
                get_form(map, "binary"),
                &rede::body::FormDataValue::File("path".to_string())
            );
        }
        other => panic!("unexpected body: {other:?}"),
    }
}

#[test]
fn only_one_type() {
    let toml = r#"
        http.url = "u"
        [body]
        raw = "raw"
        binary = "file"
        "#;
    let err = parse_request(toml).err().unwrap();
    assert!(err.message().contains("wanted exactly 1 element"));

    let toml = r#"
        http.url = "u"
        [body.form-data]
        key.text = 2
        key.file = "path"
        "#;
    let err = parse_request(toml).err().unwrap();
    assert!(err.message().contains("wanted exactly 1 element"));
}

#[test]
fn body_deserialize_empty() {
    let request = parse_request("http.url = \"u\"\n[body]").unwrap();
    assert!(matches!(request.body, Body::Empty));
}

#[test]
fn input_param_deserialize() {
    let toml = r#"
        http.url = "u"
        [input-params.p]
        hint = "hint"
        default = "default"
        "#;
    let request = parse_request(toml).unwrap();
    let p = get_param(&request.input_params, "p");
    assert_eq!(p.hint, Some("hint".to_string()));
    assert_eq!(p.default, Some("default".to_string()));
}

#[test]
fn input_param_deserialize_empty() {
    let request = parse_request("http.url = \"u\"\n[input-params.p]").unwrap();
    let p = get_param(&request.input_params, "p");
    assert_eq!(p, &rede::input_param::InputParam::default());
}

#[test]
fn valid_schema_types() {
    let toml = r#"
        http.url = "u"

        [metadata]
        string = "valid"
        integer = 0
        float = 0.1
        boolean = true

        [queryparams]
        string = "valid"
        array = [ 1, 2 ]

        [body.form_data]
        text_entry.text = [ "a", 1 ]
        file.file = "file"
        "#;
    assert!(parse_request(toml).is_ok());
}

#[test]
fn invalid_metadata_type() {
    let toml = "http.url = \"u\"\nmetadata.when = 1970-01-01";
    assert_eq!(
        parse_request(toml).err().unwrap(),
        Error::InvalidType {
            field: "metadata".to_string(),
            kind: "datetime".to_string(),
        }
    );
}

#[test]
fn invalid_query_param_type() {
    let toml = "http.url = \"u\"\nquery_params.nested = { a = 1 }";
    assert_eq!(
        parse_request(toml).err().unwrap(),
        Error::InvalidType {
            field: "query_params".to_string(),
            kind: "table".to_string(),
        }
    );
}

#[test]
fn invalid_variables_type() {
    let toml = "http.url = \"u\"\nvariables.when = 1970-01-01";
    assert_eq!(
        parse_request(toml).err().unwrap(),
        Error::InvalidType {
            field: "variables".to_string(),
            kind: "datetime".to_string(),
        }
    );
}

#[test]
fn invalid_form_data_body() {
    let toml = r#"
        http.url = "u"
        [body.form_data]
        key.text = { a = 1 }
        "#;
    assert_eq!(
        parse_request(toml).err().unwrap(),
        Error::InvalidType {
            field: "form_data".to_string(),
            kind: "table".to_string(),
        }
    );
}

#[test]
fn invalid_header_values_are_rejected() {
    let toml = "http.url = \"u\"\nheaders.Accept = \"a\nb\"";
    assert!(parse_request(toml).is_err());
    let toml = "http.url = \"u\"\n[headers]\n\"Bad Name\" = \"v\"";
    let err = parse_request(toml).err().unwrap();
    assert!(err.message().contains("invalid header name"));
}

#[test]
fn from_schema() {
    let schema = Schema {
        http: rede::schema::Http {
            url: "url".to_string(),
            method: Method::GET,
            version: HttpVersion::Http11,
        },
        metadata: Table::new(vec![(
            "name".to_string(),
            PrimitiveArray::Single(Primitive::Str("test".to_string())),
        )]),
        headers: Table::new(vec![("Header".to_string(), "Value".to_string())]),
        query_params: Table::new(vec![(
            "qp".to_string(),
            PrimitiveArray::Multiple(vec![Primitive::Str("s".to_string()), Primitive::Int(1)]),
        )]),
        variables: Table::new(vec![(
            "pp".to_string(),
            PrimitiveArray::Single(Primitive::Str("value".to_string())),
        )]),
        body: SchemaBody::Binary("path".to_string()),
        input_params: Table::new(vec![(
            "ip".to_string(),
            rede::input_param::InputParam {
                hint: Some("hint".to_string()),
                default: Some("127.0.0.1".to_string()),
            },
        )]),
    };

    let request = rede::request::Request::from_schema(schema);
    assert_eq!(request.url, "url");
    assert_eq!(request.method, Method::GET);
    assert_eq!(request.http_version, HttpVersion::Http11);
    assert_eq!(get_str(&request.metadata, "name"), "test");
    assert_eq!(get_str(&request.headers, "Header"), "Value");
    assert_eq!(
        request.query_params,
        vec![
            ("qp".to_string(), "s".to_string()),
            ("qp".to_string(), "1".to_string()),
        ]
    );
    assert_eq!(get_str(&request.variables, "pp"), "value");
    assert!(matches!(&request.body, Body::Binary { path, mime }
        if path == "path" && mime == "application/octet-stream"));
    let ip = get_param(&request.input_params, "ip");
    assert_eq!(ip.hint, Some("hint".to_string()));
    assert_eq!(ip.default, Some("127.0.0.1".to_string()));
}

#[test]
fn body_mime() {
    let request = parse_request("http.url = \"u\"\nbody.raw = \"x\"").unwrap();
    assert_eq!(request.body.mime(), Some("text/plain"));
    let request = parse_request("http.url = \"u\"\nbody.file = \"x\"").unwrap();
    assert_eq!(request.body.mime(), Some("application/octet-stream"));
    let request = parse_request("http.url = \"u\"\nbody.form_data.a.text = \"x\"").unwrap();
    assert_eq!(request.body.mime(), Some("multipart/form-data"));
    let request = parse_request("http.url = \"u\"\nbody.form_urlencoded.a = \"x\"").unwrap();
    assert_eq!(request.body.mime(), Some("application/x-www-form-urlencoded"));
    let request = parse_request("http.url = \"u\"").unwrap();
    assert_eq!(request.body.mime(), None);
}

#[test]
fn content_type_prefers_explicit_header() {
    let toml = r#"
        http.url = "u"
        headers.content-type = "application/json"
        body.raw = "x"
        "#;
    let request = parse_request(toml).unwrap();
    assert_eq!(request.content_type(), Some("application/json".to_string()));

    let request = parse_request("http.url = \"u\"\nbody.raw = \"x\"").unwrap();
    assert_eq!(request.content_type(), Some("text/plain".to_string()));

    let request = parse_request("http.url = \"u\"").unwrap();
    assert_eq!(request.content_type(), None);
}
