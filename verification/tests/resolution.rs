use rede::placeholders::Location;
use rede::placeholders::Placeholders;
use rede::resolver::PlaceholderValues;
use rede::resolver::Resolver;
use rede::table::Table;
use rede::value_picker::EnvVarPicker;
use rede::value_picker::Source;
use rede::value_picker::ValuePicker;
use rede::value_picker::VariablesPicker;

#[test]
fn get_value() {
    let values = vec![
        ("resolved".to_string(), Some("value".to_string())),
        ("unresolved".to_string(), None),
    ];

    let ph_values = PlaceholderValues { values };
    assert_eq!(ph_values.get_value("resolved"), Some(&"value".to_string()));
    assert_eq!(ph_values.get_value("unresolved"), None);
    assert_eq!(ph_values.get_value("unknown"), None);
}

#[test]
fn placeholder_values_iters() {
    let values = vec![
        ("resolved".to_string(), Some("value".to_string())),
        ("unresolved".to_string(), None),
        ("resolved_too".to_string(), Some("different_value".to_string())),
    ];

    let ph_values = PlaceholderValues { values };
    assert_eq!(ph_values.resolved().len(), 2);
    assert!(ph_values.unresolved().iter().all(|k| k == "unresolved"));
}

#[test]
fn picker_precedence() {
    let first = Table::new(vec![("key".to_string(), "x".to_string())]);
    let second = Table::new(vec![("key".to_string(), "y".to_string())]);

    let mut placeholders = Placeholders::new();
    placeholders.insert("key", Location::Url);

    let resolver = Resolver::new()
        .add_picker(VariablesPicker::from(&first))
        .add_picker(VariablesPicker::from(&second));
    let values = resolver.resolve(&placeholders);
    assert_eq!(values.get_value("key"), Some(&"x".to_string()));
}

#[test]
fn later_picker_answers_when_earlier_passes() {
    let empty = Table::new(vec![]);
    let vars = Table::new(vec![("name".to_string(), "variable".to_string())]);

    let mut placeholders = Placeholders::new();
    placeholders.insert("name", Location::Url);
    placeholders.insert("missing", Location::Url);

    let resolver = Resolver::new()
        .add_picker(VariablesPicker::from(&empty))
        .add_picker(VariablesPicker::from(&vars));
    let values = resolver.resolve(&placeholders);
    assert_eq!(values.get_value("name"), Some(&"variable".to_string()));
    assert_eq!(values.get_value("missing"), None);
    assert!(!values.is_all_resolved());
    assert_eq!(values.unresolved(), vec!["missing".to_string()]);
}

#[test]
fn env_snapshot_picker() {
    let picker = EnvVarPicker::new(vec![("API_TOKEN".to_string(), "token".to_string())]);
    assert_eq!(picker.pick_for("API_TOKEN"), Some("token".to_string()));
    assert_eq!(picker.pick_for("missing"), None);
}

#[test]
fn mixed_sources_resolve_in_order() {
    let vars = Table::new(vec![("name".to_string(), "from-vars".to_string())]);
    let answers = Table::new(vec![("name".to_string(), "from-user".to_string())]);

    let mut placeholders = Placeholders::new();
    placeholders.insert("name", Location::Url);

    let resolver = Resolver::new()
        .add_picker(Source::Env(EnvVarPicker::new(vec![])))
        .add_picker(Source::Answers(answers))
        .add_picker(Source::Variables(VariablesPicker::from(&vars)));
    let values = resolver.resolve(&placeholders);
    assert_eq!(values.get_value("name"), Some(&"from-user".to_string()));
}

#[test]
fn resolution_is_total() {
    let toml = r#"http.url = "{{a}}/{{b}}/{{c}}""#;
    let request = rede::request::parse_request(toml).unwrap();
    let placeholders = Placeholders::from(&request);
    let resolver: Resolver<EnvVarPicker> = Resolver::new();
    let values = resolver.resolve(&placeholders);
    assert_eq!(values.values.len(), placeholders.len());
    assert!(values.resolved().is_empty());
    assert_eq!(values.unresolved().len(), 3);
}
