use config_patch::error::ConfigPatchError;
use config_patch::format::{parse, serialize, Format};
use config_patch::merge::merge_all;
use config_patch::nulls::nulls_to_text;
use config_patch::value::Value;

fn to_json(v: &Value) -> serde_json::Value {
    match v {
        Value::Null => serde_json::Value::Null,
        Value::Bool(b) => serde_json::Value::Bool(*b),
        Value::Number(n) => serde_json::Value::Number(n.parse().unwrap()),
        Value::String(s) => serde_json::Value::String(s.clone()),
        Value::Array(a) => serde_json::Value::Array(a.iter().map(to_json).collect()),
        Value::Object(m) => {
            serde_json::Value::Object(m.iter().map(|(k, v)| (k.clone(), to_json(v))).collect())
        }
    }
}

fn json(text: &str) -> serde_json::Value {
    serde_json::from_str(text).unwrap()
}

fn doc(text: &str) -> Value {
    parse(text, "doc.json").unwrap()
}

#[test]
fn test_json_roundtrip() {
    let original = doc(r#"{"a": 1, "b": {"c": "hello"}, "d": [1, 2, 3]}"#);
    let serialized = serialize(&original, Format::Json).unwrap();
    let parsed = parse(&serialized, "test.json").unwrap();
    assert_eq!(to_json(&original), to_json(&parsed));
}

#[test]
fn test_yaml_roundtrip() {
    let original = doc(r#"{"a": 1, "b": {"c": "hello"}, "d": [1, 2, 3]}"#);
    let serialized = serialize(&original, Format::Yaml).unwrap();
    let parsed = parse(&serialized, "test.yaml").unwrap();
    assert_eq!(to_json(&original), to_json(&parsed));
}

#[test]
fn test_toml_roundtrip() {
    let original = doc(r#"{"a": 1, "b": {"c": "hello"}, "d": [1, 2, 3]}"#);
    let serialized = serialize(&original, Format::Toml).unwrap();
    let parsed = parse(&serialized, "test.toml").unwrap();
    assert_eq!(to_json(&original), to_json(&parsed));
}

#[test]
fn test_cross_format_json_to_yaml() {
    let original = doc(r#"{"a": 1, "b": "test"}"#);
    let yaml_str = serialize(&original, Format::Yaml).unwrap();
    let parsed = parse(&yaml_str, "test.yaml").unwrap();
    assert_eq!(to_json(&original), to_json(&parsed));
}

#[test]
fn test_cross_format_yaml_to_toml() {
    let original = doc(r#"{"a": 1, "b": {"c": "hello"}}"#);
    let toml_str = serialize(&original, Format::Toml).unwrap();
    let parsed = parse(&toml_str, "test.toml").unwrap();
    assert_eq!(to_json(&original), to_json(&parsed));
}

#[test]
fn test_null_serialization_toml() {
    let value = doc(r#"{"a": null}"#);
    let serialized = serialize(&value, Format::Toml).unwrap();
    assert!(serialized.contains("a = \"null\""));
}

#[test]
fn nulls_become_text_at_every_depth() {
    let v = nulls_to_text(&doc(r#"{"a": null, "b": [null, {"c": null}], "d": 1}"#));
    assert_eq!(
        to_json(&v),
        json(r#"{"a": "null", "b": ["null", {"c": "null"}], "d": 1}"#)
    );
}

#[test]
fn parse_reads_each_format() {
    let y = parse("database:\n  host: localhost\n  port: 5432\n", "c.YML").unwrap();
    assert_eq!(to_json(&y), json(r#"{"database": {"host": "localhost", "port": 5432}}"#));
    let t = parse("[server]\nhost = \"0.0.0.0\"\nratio = 0.5\n", "c.toml").unwrap();
    assert_eq!(to_json(&t), json(r#"{"server": {"host": "0.0.0.0", "ratio": 0.5}}"#));
    let j = parse(r#"[1, -2, 3.25, true, null, "x"]"#, "c.json").unwrap();
    assert_eq!(to_json(&j), json(r#"[1, -2, 3.25, true, null, "x"]"#));
}

#[test]
fn toml_dates_become_text() {
    let t = parse("when = 1979-05-27T07:32:00Z\n", "c.toml").unwrap();
    assert_eq!(to_json(&t), json(r#"{"when": "1979-05-27T07:32:00Z"}"#));
}

#[test]
fn parse_errors_name_the_path() {
    match parse("{not json", "bad.json") {
        Err(ConfigPatchError::ParseError { path, message }) => {
            assert_eq!(path, "bad.json");
            assert!(!message.is_empty());
        }
        other => panic!("expected a parse error, got {:?}", other),
    }
    match parse("a = = 1", "bad.toml") {
        Err(ConfigPatchError::ParseError { path, .. }) => assert_eq!(path, "bad.toml"),
        other => panic!("expected a parse error, got {:?}", other),
    }
    match parse(": : :\n  - [", "bad.yaml") {
        Err(ConfigPatchError::ParseError { path, .. }) => assert_eq!(path, "bad.yaml"),
        other => panic!("expected a parse error, got {:?}", other),
    }
}

#[test]
fn parse_refuses_unknown_formats() {
    match parse("{}", "conf.ini") {
        Err(ConfigPatchError::UnsupportedFormat(m)) => {
            assert_eq!(m, "Unsupported file extension: .ini")
        }
        other => panic!("expected an unsupported format, got {:?}", other),
    }
    match parse("{}", "conf") {
        Err(ConfigPatchError::UnsupportedFormat(m)) => assert_eq!(m, "No file extension found: conf"),
        other => panic!("expected an unsupported format, got {:?}", other),
    }
}

#[test]
fn toml_needs_a_table_at_the_top() {
    match serialize(&doc("[1, 2]"), Format::Toml) {
        Err(ConfigPatchError::WriteError(m)) => assert!(!m.is_empty()),
        other => panic!("expected a write error, got {:?}", other),
    }
}

#[test]
fn json_is_printed_pretty() {
    let text = serialize(&doc(r#"{"a": [1]}"#), Format::Json).unwrap();
    assert_eq!(text, "{\n  \"a\": [\n    1\n  ]\n}");
}

#[test]
fn yaml_three_file_scenario() {
    let base = parse(
        "database:\n  host: localhost\n  port: 5432\n  name: mydb\nlogging:\n  level: info\n",
        "base.yaml",
    )
    .unwrap();
    let new = parse(
        "database:\n  host: db.production.internal\n  port: 5433\nfeatures:\n  - auth\n  - api\n",
        "new.yaml",
    )
    .unwrap();
    let local = parse(
        "database:\n  name: mydb_override\nlogging:\n  level: debug\n",
        "local.yaml",
    )
    .unwrap();
    let merged = merge_all(&[base, new, local], "name");
    let out = serialize(&merged, Format::Yaml).unwrap();
    let back: serde_yaml::Value = serde_yaml::from_str(&out).unwrap();
    assert_eq!(back["database"]["host"].as_str().unwrap(), "db.production.internal");
    assert_eq!(back["database"]["port"].as_i64().unwrap(), 5433);
    assert_eq!(back["database"]["name"].as_str().unwrap(), "mydb_override");
    assert_eq!(back["logging"]["level"].as_str().unwrap(), "debug");
    assert_eq!(back["features"][0].as_str().unwrap(), "auth");
    assert_eq!(back["features"][1].as_str().unwrap(), "api");
}

#[test]
fn toml_three_file_scenario() {
    let base = parse(
        "[server]\nhost = \"localhost\"\nport = 8080\n\n[database]\nurl = \"postgres://localhost/mydb\"\n",
        "base.toml",
    )
    .unwrap();
    let new = parse(
        "[server]\nhost = \"0.0.0.0\"\n\n[cache]\nenabled = true\nttl = 300\n",
        "new.toml",
    )
    .unwrap();
    let local = parse("[server]\nport = 9090\n", "local.toml").unwrap();
    let merged = merge_all(&[base, new, local], "name");
    let out = serialize(&merged, Format::Toml).unwrap();
    let back: toml::Value = toml::from_str(&out).unwrap();
    assert_eq!(back["server"]["host"].as_str().unwrap(), "0.0.0.0");
    assert_eq!(back["server"]["port"].as_integer().unwrap(), 9090);
    assert_eq!(back["database"]["url"].as_str().unwrap(), "postgres://localhost/mydb");
    assert_eq!(back["cache"]["enabled"].as_bool().unwrap(), true);
    assert_eq!(back["cache"]["ttl"].as_integer().unwrap(), 300);
}

#[test]
fn cross_format_three_file_scenario() {
    let base = parse(r#"{"app": "myapp", "version": "1.0"}"#, "base.json").unwrap();
    let new = parse("app:\n  debug: true\n  workers: 4\n", "new.yaml").unwrap();
    let local = parse("[app]\nworkers = 8\n", "local.toml").unwrap();
    let merged = merge_all(&[base, new, local], "name");
    let out = serialize(&merged, Format::Json).unwrap();
    let back = json(&out);
    assert_eq!(back["version"], "1.0");
    assert_eq!(back["app"]["debug"], true);
    assert_eq!(back["app"]["workers"], 8);
}

#[test]
fn json_printing_succeeds_for_parsed_numbers() {
    let v = doc(r#"[1e300, 5e-324, -0.0, 18446744073709551615, -9223372036854775808, 0.1]"#);
    let text = serialize(&v, Format::Json).unwrap();
    let back = parse(&text, "back.json").unwrap();
    assert_eq!(to_json(&back), to_json(&v));
}

#[test]
fn json_printing_fails_for_text_that_is_no_number() {
    let v = Value::Array(vec![Value::Number("twelve".to_string())]);
    match serialize(&v, Format::Json) {
        Err(ConfigPatchError::WriteError(m)) => assert!(!m.is_empty()),
        other => panic!("expected a write error, got {:?}", other),
    }
}

#[test]
fn parsed_objects_hold_each_key_once() {
    match parse(r#"{"a": 1, "a": 2}"#, "dup.json").unwrap() {
        Value::Object(entries) => {
            assert_eq!(entries.len(), 1);
            assert_eq!(entries[0].0, "a");
        }
        other => panic!("expected an object, got {:?}", other),
    }
}

#[test]
fn upper_case_extensions_parse() {
    let v = parse(r#"{"a": 1}"#, "CONFIG.JSON").unwrap();
    assert_eq!(to_json(&v), json(r#"{"a": 1}"#));
}
