use rede::body::Body;
use rede::body::FormDataValue;
use rede::placeholders::Placeholders;
use rede::renderer::replace_placeholders;
use rede::renderer::Renderer;
use rede::renderer::ReplaceError;
use rede::request::parse_request;
use rede::resolver::PlaceholderValues;
use rede::resolver::Resolver;
use rede::table::Table;
use rede::value_picker::EnvVarPicker;
use rede::value_picker::Source;
use rede::value_picker::VariablesPicker;

#[test]
fn render() {
    let request = r#"
        [http]
        url = "https://example.com/{{id}}/{{name}}/{{id}}"

        [headers]
        Content-Type = "application/json"
        Authorization = "Bearer {{token}}"

        [query_params]
        page = "{{page}}"
        size = "{{size}}"

        [body]
        raw = """
        {
            "id": {{id}},
            "name": "{{name}} {{last_name}}",
            "tag": "{{NOT_REPLACED}}"
        }
        """
        "#;

    let request = parse_request(request).unwrap();
    let placeholders = Placeholders::from(&request);

    let values: Vec<(String, Option<String>)> = vec![
        ("id", "1"),
        ("name", "test"),
        ("token", "abc"),
        ("page", "1"),
        ("size", "10"),
        ("last_name", "renderer"),
    ]
    .into_iter()
    .map(|(k, v)| (k.to_string(), Some(v.to_string())))
    .collect();
    let values = PlaceholderValues { values };

    let renderer = Renderer::new(&placeholders, values);
    let rendered = renderer.render(request).unwrap();

    assert_eq!(rendered.url, "https://example.com/1/test/1");
    assert_eq!(
        rendered.headers.get("Authorization"),
        Some(&"Bearer abc".to_string())
    );
    assert_eq!(
        rendered
            .query_params
            .iter()
            .find(|(k, _)| k == "page")
            .unwrap()
            .1,
        "1"
    );
    assert_eq!(
        rendered
            .query_params
            .iter()
            .find(|(k, _)| k == "size")
            .unwrap()
            .1,
        "10"
    );
    if let Body::Raw { content, .. } = rendered.body {
        assert!(content.contains(r#""id": 1"#));
        assert!(content.contains(r#""name": "test renderer""#));
        assert!(content.contains("{{NOT_REPLACED}}"));
    } else {
        panic!("body is not raw")
    }
}

#[test]
fn render_form_data() {
    let mut form = Table::new(vec![
        (
            "name".to_string(),
            FormDataValue::Text("{{name}}".to_string()),
        ),
        (
            "file".to_string(),
            FormDataValue::File("{{path}}/file".to_string()),
        ),
    ]);

    rede::renderer::render_form_data(&mut form, "name", "{{name}}", "temp_file");
    rede::renderer::render_form_data(&mut form, "file", "{{path}}", "/tmp");

    assert_eq!(
        form.get("name"),
        Some(&FormDataValue::Text("temp_file".to_string()))
    );
    assert_eq!(
        form.get("file"),
        Some(&FormDataValue::File("/tmp/file".to_string()))
    );
}

#[test]
fn render_form_urlencoded() {
    let mut form = Table::new(vec![
        ("page".to_string(), "{{page}}".to_string()),
        ("order".to_string(), "{{field}}:asc".to_string()),
    ]);

    rede::renderer::render_form_urlencoded(&mut form, "page", "{{page}}", "10");
    rede::renderer::render_form_urlencoded(&mut form, "order", "{{field}}", "id");

    assert_eq!(form.get("page"), Some(&"10".to_string()));
    assert_eq!(form.get("order"), Some(&"id:asc".to_string()));
}

#[test]
fn placeholder_round_trip() {
    let toml = r#"
        [http]
        url = "https://host/{{id}}/a/{{id}}/b/{{id}}"

        [body]
        raw = "payload: {{id}}"
        "#;
    let request = parse_request(toml).unwrap();
    let placeholders = Placeholders::from(&request);
    assert_eq!(placeholders.len(), 1);
    assert_eq!(placeholders.locations("id").unwrap().len(), 2);

    let values = PlaceholderValues {
        values: vec![("id".to_string(), Some("7".to_string()))],
    };
    let renderer = Renderer::new(&placeholders, values);
    let rendered = renderer.render(request).unwrap();
    assert_eq!(rendered.url, "https://host/7/a/7/b/7");
    assert!(matches!(&rendered.body, Body::Raw { content, .. } if content == "payload: 7"));

    let values = PlaceholderValues {
        values: vec![("id".to_string(), Some("7".to_string()))],
    };
    let renderer = Renderer::new(&placeholders, values);
    let again = renderer.render(rendered).unwrap();
    assert_eq!(again.url, "https://host/7/a/7/b/7");
    assert!(matches!(&again.body, Body::Raw { content, .. } if content == "payload: 7"));
}

#[test]
fn unresolved_passthrough() {
    let toml = r#"
        [http]
        url = "https://host/{{known}}/{{silent}}"

        [headers]
        Trace = "{{silent}}"
        "#;
    let request = parse_request(toml).unwrap();
    let placeholders = Placeholders::from(&request);
    let values = PlaceholderValues {
        values: vec![
            ("known".to_string(), Some("yes".to_string())),
            ("silent".to_string(), None),
        ],
    };
    let renderer = Renderer::new(&placeholders, values);
    let rendered = renderer.render(request).unwrap();
    assert_eq!(rendered.url, "https://host/yes/{{silent}}");
    assert_eq!(
        rendered.headers.get("Trace"),
        Some(&"{{silent}}".to_string())
    );
}

#[test]
fn invalid_rendered_header_fails() {
    let toml = r#"
        [http]
        url = "https://host"

        [headers]
        Accept = "{{value}}"
        "#;
    let request = parse_request(toml).unwrap();
    let placeholders = Placeholders::from(&request);
    let values = PlaceholderValues {
        values: vec![("value".to_string(), Some("bad\u{7}value".to_string()))],
    };
    let renderer = Renderer::new(&placeholders, values);
    let err = renderer.render(request).err().unwrap();
    assert!(err.message().contains("rendered header value is invalid"));
}

#[test]
fn end_to_end_scenario() {
    let toml = r#"
        [http]
        url = "https://api.test/{{ver}}/item/{{id}}"

        [variables]
        ver = "v1"
        "#;

    let request = parse_request(toml).unwrap();
    let placeholders = Placeholders::from(&request);
    let mut keys = placeholders.keys();
    keys.sort();
    assert_eq!(keys, vec!["id".to_string(), "ver".to_string()]);
    assert_eq!(
        placeholders.locations("ver").unwrap(),
        &vec![rede::placeholders::Location::Url]
    );
    assert_eq!(
        placeholders.locations("id").unwrap(),
        &vec![rede::placeholders::Location::Url]
    );

    let variables = request.variables.clone();
    let resolver = Resolver::new()
        .add_picker(Source::Env(EnvVarPicker::new(vec![])))
        .add_picker(Source::Variables(VariablesPicker::from(&variables)));
    let values = resolver.resolve(&placeholders);
    assert_eq!(values.get_value("ver"), Some(&"v1".to_string()));
    assert_eq!(values.get_value("id"), None);

    match replace_placeholders(request, &resolver, false) {
        Err(ReplaceError::Unresolved(keys)) => assert_eq!(keys, vec!["id".to_string()]),
        other => panic!("expected an unresolved rejection, got {other:?}"),
    }

    let request = parse_request(toml).unwrap();
    let rendered = replace_placeholders(request, &resolver, true).unwrap();
    assert_eq!(rendered.url, "https://api.test/v1/item/{{id}}");
}

#[test]
fn replace_placeholders_reports_broken_header() {
    let toml = r#"
        [http]
        url = "https://host"

        [headers]
        Accept = "{{value}}"

        [variables]
        value = "with\u0007bell"
        "#;
    let request = parse_request(toml).unwrap();
    let variables = request.variables.clone();
    let resolver = Resolver::new().add_picker(VariablesPicker::from(&variables));
    match replace_placeholders(request, &resolver, false) {
        Err(ReplaceError::Render(e)) => {
            assert!(e.message().contains("rendered header value is invalid"));
        }
        other => panic!("expected a render rejection, got {other:?}"),
    }
}

#[test]
fn repeated_query_keys_all_render() {
    let toml = r#"
        [http]
        url = "https://host"

        [query_params]
        tag = [ "{{v}}", "x-{{v}}" ]
        "#;
    let request = parse_request(toml).unwrap();
    assert_eq!(
        request.query_params,
        vec![
            ("tag".to_string(), "{{v}}".to_string()),
            ("tag".to_string(), "x-{{v}}".to_string()),
        ]
    );
    let placeholders = Placeholders::from(&request);
    let values = PlaceholderValues {
        values: vec![("v".to_string(), Some("1".to_string()))],
    };
    let renderer = Renderer::new(&placeholders, values);
    let rendered = renderer.render(request).unwrap();
    assert_eq!(
        rendered.query_params,
        vec![
            ("tag".to_string(), "1".to_string()),
            ("tag".to_string(), "x-1".to_string()),
        ]
    );
}
