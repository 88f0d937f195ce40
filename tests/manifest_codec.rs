use plugin_registry::manifest::{list_line, parse, serialize, Manifest, ParseError, SubCmdMeta};

fn sub(name: &str, description: &str) -> SubCmdMeta {
    SubCmdMeta { name: name.to_string(), description: description.to_string() }
}

fn greet() -> Manifest {
    Manifest {
        name: "greet".to_string(),
        description: "says hi".to_string(),
        version: "1.0".to_string(),
        commands: vec![sub("hello", "say hello")],
    }
}

#[test]
fn round_trip_with_subcommands() {
    let m = greet();
    assert_eq!(parse(&serialize(&m)), Ok(m));
}

#[test]
fn round_trip_without_subcommands_and_odd_text() {
    let m = Manifest {
        name: "q\"uote\\d".to_string(),
        description: "line\nbreak\ttab \u{e9}\u{1F600}".to_string(),
        version: "".to_string(),
        commands: vec![],
    };
    assert_eq!(parse(&serialize(&m)), Ok(m));
}

#[test]
fn serialized_form_is_pretty_json_in_field_order() {
    let text = String::from_utf8(serialize(&greet())).unwrap();
    let want = "{\n  \"name\": \"greet\",\n  \"description\": \"says hi\",\n  \"version\": \"1.0\",\n  \"commands\": [\n    {\n      \"name\": \"hello\",\n      \"description\": \"say hello\"\n    }\n  ]\n}";
    assert_eq!(text, want);
}

#[test]
fn serialized_empty_commands() {
    let mut m = greet();
    m.commands = vec![];
    let text = String::from_utf8(serialize(&m)).unwrap();
    assert!(text.contains("\"commands\": []"));
}

#[test]
fn missing_commands_default_to_empty() {
    let m = parse(br#"{"name":"a","description":"d","version":"1"}"#).unwrap();
    assert_eq!(m.name, "a");
    assert_eq!(m.description, "d");
    assert_eq!(m.version, "1");
    assert!(m.commands.is_empty());
}

#[test]
fn unknown_fields_are_ignored() {
    let m = parse(br#"{"x": 1.5, "name":"a","description":"d","version":"1","commands":[{"name":"run","description":"r","y":[1,2]}]}"#).unwrap();
    assert_eq!(m.commands, vec![sub("run", "r")]);
}

#[test]
fn malformed_json_is_a_syntax_error() {
    assert_eq!(parse(b"{not json"), Err(ParseError::Syntax));
    assert_eq!(parse(b""), Err(ParseError::Syntax));
    assert_eq!(parse(b"{} trailing"), Err(ParseError::Syntax));
}

#[test]
fn wrong_shape_is_a_shape_error() {
    assert_eq!(parse(b"[]"), Err(ParseError::Shape));
    assert_eq!(parse(br#"{"name":"a","description":"d"}"#), Err(ParseError::Shape));
    assert_eq!(parse(br#"{"name":1,"description":"d","version":"1"}"#), Err(ParseError::Shape));
    assert_eq!(parse(br#"{"name":"a","description":"d","version":"1","commands":null}"#), Err(ParseError::Shape));
    assert_eq!(parse(br#"{"name":"a","description":"d","version":"1","commands":[{"name":"x"}]}"#), Err(ParseError::Shape));
}

#[test]
fn empty_name_is_rejected() {
    assert_eq!(parse(br#"{"name":"","description":"d","version":"1"}"#), Err(ParseError::EmptyName));
}

#[test]
fn repeated_key_keeps_the_last_value() {
    let m = parse(br#"{"name":"a","name":"b","description":"d","version":"1"}"#).unwrap();
    assert_eq!(m.name, "b");
}

#[test]
fn list_line_shows_name_version_description() {
    assert_eq!(list_line(&greet()), "- greet (v1.0) says hi");
}
