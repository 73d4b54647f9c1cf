use rede::placeholders::Location;
use rede::placeholders::Placeholders;
use rede::request::parse_request;

#[test]
fn insert() {
    let mut pm = Placeholders::new();
    pm.insert("host", Location::Url);
    pm.insert("id", Location::Url);
    pm.insert("id", Location::Body);
    pm.insert("id", Location::Body);

    assert_eq!(pm.len(), 2);
    assert_eq!(pm.locations("host").unwrap().len(), 1);
    assert_eq!(pm.locations("id").unwrap().len(), 2);
}

#[test]
fn add_all() {
    let mut pm = Placeholders::new();
    pm.insert("two", Location::Url);
    let keys = vec!["one".to_string(), "two".to_string()];
    pm.add_all(&Location::Headers("Header".to_string()), keys);

    assert_eq!(pm.len(), 2);
    assert_eq!(pm.locations("one").unwrap().len(), 1);
    assert_eq!(pm.locations("two").unwrap().len(), 2);
}

#[test]
fn from_request() {
    let toml = r#"
        [http]
        url = "{{host}}/api/game"

        [headers]
        Host = "{{host}}"
        Location = "{{location}}"
        Header = "Value"

        [queryparams]
        genre = "{{genre}}"
        release = "before:{{date}}"

        [body]
        raw = """
        {
            "name": "{{name}}",
            "genre": "{{genre}}",
            "categories": [
                "dreamcast",
                "{{genre}}"
            ]
        }"""
        "#;
    let request = parse_request(toml).unwrap();
    let placeholders = Placeholders::from(&request);

    assert_eq!(placeholders.len(), 5);
    assert_eq!(placeholders.locations("host").unwrap().len(), 2);
    assert_eq!(placeholders.locations("name").unwrap().len(), 1);
    assert_eq!(placeholders.locations("genre").unwrap().len(), 2);
    assert_eq!(placeholders.locations("location").unwrap().len(), 1);
    assert_eq!(placeholders.locations("date").unwrap().len(), 1);

    assert_eq!(
        placeholders.locations("location").unwrap()[0],
        Location::Headers("Location".to_string())
    );
    assert_eq!(
        placeholders.locations("date").unwrap()[0],
        Location::QueryParams("release".to_string())
    );
}

#[test]
fn find_placeholders_charset() {
    let keys = rede::placeholders::find_placeholders("x {{a.b-C_9}} y {{}} {{bad key}} {{ok}}");
    assert_eq!(
        keys,
        vec!["a.b-C_9".to_string(), String::new(), "ok".to_string()]
    );
}

#[test]
fn find_placeholders_unterminated() {
    let keys = rede::placeholders::find_placeholders("{{open {{a}");
    assert!(keys.is_empty());
    let keys = rede::placeholders::find_placeholders("{{{inner}}}");
    assert_eq!(keys, vec!["inner".to_string()]);
}

#[test]
fn repeats_collapse_to_one_location() {
    let toml = r#"http.url = "{{id}}/{{id}}/{{id}}""#;
    let request = parse_request(toml).unwrap();
    let placeholders = Placeholders::from(&request);
    assert_eq!(placeholders.len(), 1);
    assert_eq!(placeholders.locations("id").unwrap().len(), 1);
    assert_eq!(placeholders.locations("id").unwrap()[0], Location::Url);
}

#[test]
fn iter_walks_entries_in_insertion_order() {
    let mut pm = Placeholders::new();
    pm.insert("b", Location::Url);
    pm.insert("a", Location::Body);
    pm.insert("b", Location::Body);

    let entries = pm.iter();
    assert_eq!(entries.len(), 2);
    assert_eq!(entries[0].0, "b");
    assert_eq!(entries[0].1, vec![Location::Url, Location::Body]);
    assert_eq!(entries[1].0, "a");
    assert_eq!(entries[1].1, vec![Location::Body]);
}
