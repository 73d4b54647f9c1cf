use rede::method::Method;
use rede::table::Table;
use rede::terminal::Mode;
use rede::terminal::Terminal;
use rede::types::Primitive;
use rede::version::HttpVersion;
use rede::types::PrimitiveArray;

fn new_test_table() -> Table<PrimitiveArray> {
    Table::new(vec![
        (
            "string".to_string(),
            PrimitiveArray::Single(Primitive::Str("value".to_string())),
        ),
        (
            "integer".to_string(),
            PrimitiveArray::Single(Primitive::Int(10)),
        ),
        (
            "float".to_string(),
            PrimitiveArray::Single(Primitive::Float("2.1".to_string())),
        ),
        (
            "boolean".to_string(),
            PrimitiveArray::Single(Primitive::Bool(false)),
        ),
        (
            "array".to_string(),
            PrimitiveArray::Multiple(vec![Primitive::Str("one".to_string()), Primitive::Int(2)]),
        ),
    ])
}

fn assert_pair(pairs: &[(String, String)], key: &str, val: &str) {
    assert_eq!(pairs.iter().find(|(k, _)| k == key).unwrap().1, val);
}

#[test]
fn into_pairs() {
    let pairs = new_test_table().into_pairs();

    assert_eq!(pairs.len(), 6);
    assert_pair(&pairs, "string", "value");
    assert_pair(&pairs, "integer", "10");
    assert_pair(&pairs, "float", "2.1");
    assert_pair(&pairs, "boolean", "false");
}

#[test]
fn into_map() {
    let map = new_test_table().into_map();

    assert_eq!(map.len(), 5);
    assert_eq!(map.get("string"), Some(&"value".to_string()));
    assert_eq!(map.get("integer"), Some(&"10".to_string()));
    assert_eq!(map.get("float"), Some(&"2.1".to_string()));
    assert_eq!(map.get("boolean"), Some(&"false".to_string()));
    assert_eq!(map.get("array"), Some(&"one,2".to_string()));
}

#[test]
fn query_params_as_pairs() {
    let table = Table::new(vec![
        (
            "string".to_string(),
            PrimitiveArray::Single(Primitive::Str("value".to_string())),
        ),
        (
            "integer".to_string(),
            PrimitiveArray::Single(Primitive::Int(10)),
        ),
        (
            "float".to_string(),
            PrimitiveArray::Single(Primitive::Float("2.0".to_string())),
        ),
        (
            "boolean".to_string(),
            PrimitiveArray::Single(Primitive::Bool(false)),
        ),
        (
            "array".to_string(),
            PrimitiveArray::Multiple(vec![Primitive::Str("s".to_string()), Primitive::Int(10)]),
        ),
    ]);
    let pairs = table.into_pairs();

    assert_eq!(pairs.len(), 6);
    assert_pair(&pairs, "string", "value");
    assert_pair(&pairs, "integer", "10");
    assert_pair(&pairs, "float", "2.0");
    assert_pair(&pairs, "boolean", "false");
    assert_pair(&pairs, "array", "s");
}

#[test]
fn primitive() {
    assert_eq!(Primitive::Str("string".to_string()).flatten(), "string");
    assert_eq!(Primitive::Int(10).flatten(), "10");
    assert_eq!(Primitive::Float("5.1".to_string()).flatten(), "5.1");
    assert_eq!(Primitive::Bool(true).flatten(), "true");
    assert_eq!(Primitive::Int(0).flatten(), "0");
    assert_eq!(Primitive::Int(-42).flatten(), "-42");
    assert_eq!(Primitive::Int(i64::MIN).flatten(), "-9223372036854775808");
    assert_eq!(Primitive::Int(i64::MAX).flatten(), "9223372036854775807");
}

#[test]
fn primitive_array() {
    assert_eq!(
        PrimitiveArray::Single(Primitive::Str("string".to_string())).flatten(),
        "string"
    );
    assert_eq!(PrimitiveArray::Single(Primitive::Int(10)).flatten(), "10");
    assert_eq!(
        PrimitiveArray::Multiple(vec![Primitive::Int(1), Primitive::Str("two".to_string())])
            .flatten(),
        "1,two"
    );
    assert_eq!(PrimitiveArray::Multiple(vec![]).flatten(), "");
    assert_eq!(
        PrimitiveArray::Multiple(vec![Primitive::Bool(true)]).flatten(),
        "true"
    );
}

#[test]
fn terminal_modes() {
    let quiet = Terminal::new(true, false);
    let standard = Terminal::new(false, false);
    let verbose = Terminal::new(false, true);

    assert_eq!(quiet.print_above(Mode::Standard, "m".to_string()), None);
    assert_eq!(
        standard.print_above(Mode::Standard, "m".to_string()),
        Some("m".to_string())
    );
    assert_eq!(
        verbose.print_above(Mode::Standard, "m".to_string()),
        Some("m".to_string())
    );
    assert_eq!(standard.print_above(Mode::Verbose, "m".to_string()), None);

    assert_eq!(
        standard.print_between(Mode::Standard, Mode::Verbose, "m".to_string()),
        Some("m".to_string())
    );
    assert_eq!(
        verbose.print_between(Mode::Standard, Mode::Verbose, "m".to_string()),
        None
    );
}

#[test]
fn method_and_version_names() {
    assert_eq!(Method::from_text("query"), Some(Method::QUERY));
    assert_eq!(Method::from_text("send"), None);
    assert_eq!(Method::DELETE.name(), "DELETE");
    assert_eq!(HttpVersion::from_text("HTTP/2.0"), Some(HttpVersion::Http2));
    assert_eq!(HttpVersion::from_text("HTTP/9"), None);
    assert_eq!(HttpVersion::Http11.name(), "HTTP/1.1");
}

#[test]
fn invalid_type_message_names_the_collection() {
    let err = rede::error::Error::InvalidType {
        field: "query_params".to_string(),
        kind: "datetime".to_string(),
    };
    assert_eq!(
        err.message(),
        "values of [query_params] can't be of type datetime"
    );
}
