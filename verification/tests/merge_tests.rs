use config_patch::merge::{array_key_value, deep_merge, is_null_removal, merge_all};
use config_patch::value::Value;

fn from_json(v: serde_json::Value) -> Value {
    match v {
        serde_json::Value::Null => Value::Null,
        serde_json::Value::Bool(b) => Value::Bool(b),
        serde_json::Value::Number(n) => Value::Number(n.to_string()),
        serde_json::Value::String(s) => Value::String(s),
        serde_json::Value::Array(a) => Value::Array(a.into_iter().map(from_json).collect()),
        serde_json::Value::Object(m) => {
            Value::Object(m.into_iter().map(|(k, v)| (k, from_json(v))).collect())
        }
    }
}

fn to_json(v: &Value) -> serde_json::Value {
    match v {
        Value::Null => serde_json::Value::Null,
        Value::Bool(b) => serde_json::Value::Bool(*b),
        Value::Number(n) => serde_json::Value::Number(n.parse().unwrap()),
        Value::String(s) => serde_json::Value::String(s.clone()),
        Value::Array(a) => serde_json::Value::Array(a.iter().map(to_json).collect()),
        Value::Object(m) => {
            serde_json::Value::Object(m.iter().map(|(k, v)| (k.clone(), to_json(v))).collect())
        }
    }
}

fn doc(text: &str) -> Value {
    from_json(serde_json::from_str(text).unwrap())
}

fn json(text: &str) -> serde_json::Value {
    serde_json::from_str(text).unwrap()
}

#[test]
fn test_merge_nested_objects() {
    let base = doc(r#"{"a": {"b": 1, "c": 2}, "d": 3}"#);
    let overlay = doc(r#"{"a": {"b": 10, "e": 5}}"#);
    let result = deep_merge(base, overlay, "name");
    assert_eq!(to_json(&result), json(r#"{"a": {"b": 10, "c": 2, "e": 5}, "d": 3}"#));
}

#[test]
fn test_scalar_override() {
    let base = doc(r#"{"key": "old"}"#);
    let overlay = doc(r#"{"key": "new"}"#);
    let result = deep_merge(base, overlay, "name");
    assert_eq!(to_json(&result), json(r#"{"key": "new"}"#));
}

#[test]
fn test_type_conflict_overlay_wins() {
    let base = doc(r#"{"key": "string"}"#);
    let overlay = doc(r#"{"key": {"nested": "object"}}"#);
    let result = deep_merge(base, overlay, "name");
    assert_eq!(to_json(&result), json(r#"{"key": {"nested": "object"}}"#));
}

#[test]
fn test_smart_array_merge() {
    let base = doc(r#"{"items": [{"name": "a", "val": 1}, {"name": "b", "val": 2}]}"#);
    let overlay = doc(r#"{"items": [{"name": "a", "val": 10}, {"name": "c", "val": 3}]}"#);
    let result = deep_merge(base, overlay, "name");
    assert_eq!(
        to_json(&result),
        json(
            r#"{"items": [
                {"name": "a", "val": 10},
                {"name": "c", "val": 3},
                {"name": "b", "val": 2}
            ]}"#
        )
    );
}

#[test]
fn test_primitive_array_replace() {
    let base = doc(r#"{"arr": [1, 2, 3]}"#);
    let overlay = doc(r#"{"arr": [4, 5]}"#);
    let result = deep_merge(base, overlay, "name");
    assert_eq!(to_json(&result), json(r#"{"arr": [4, 5]}"#));
}

#[test]
fn test_null_removal() {
    let base = doc(r#"{"a": 1, "b": 2, "c": 3}"#);
    let overlay = doc(r#"{"b": null}"#);
    let result = deep_merge(base, overlay, "name");
    assert_eq!(to_json(&result), json(r#"{"a": 1, "c": 3}"#));
}

#[test]
fn test_three_way_merge() {
    let base = doc(r#"{"a": 1, "b": 2, "c": 3}"#);
    let new = doc(r#"{"a": 10, "d": 4}"#);
    let local = doc(r#"{"b": 20}"#);
    let result = merge_all(&[base, new, local], "name");
    assert_eq!(to_json(&result), json(r#"{"a": 10, "b": 20, "c": 3, "d": 4}"#));
}

#[test]
fn test_empty_inputs() {
    let result = merge_all(&[], "name");
    assert_eq!(to_json(&result), json("{}"));
}

#[test]
fn test_missing_key_field_fallback() {
    let base = doc(r#"{"items": [{"name": "a", "val": 1}, {"val": 2}]}"#);
    let overlay = doc(r#"{"items": [{"name": "a", "val": 10}, {"val": 20}]}"#);
    let result = deep_merge(base, overlay, "name");
    assert_eq!(
        to_json(&result),
        json(
            r#"{"items": [
                {"name": "a", "val": 10},
                {"val": 20},
                {"val": 2}
            ]}"#
        )
    );
}

#[test]
fn test_array_key_numeric() {
    let base = doc(r#"{"items": [{"id": 1, "val": "a"}, {"id": 2, "val": "b"}]}"#);
    let overlay = doc(r#"{"items": [{"id": 1, "val": "updated"}]}"#);
    let result = deep_merge(base, overlay, "id");
    assert_eq!(
        to_json(&result),
        json(
            r#"{"items": [
                {"id": 1, "val": "updated"},
                {"id": 2, "val": "b"}
            ]}"#
        )
    );
}

#[test]
fn merge_all_of_one_document_is_that_document() {
    let result = merge_all(&[doc(r#"{"a": [1, {"b": null}]}"#)], "name");
    assert_eq!(to_json(&result), json(r#"{"a": [1, {"b": null}]}"#));
}

#[test]
fn null_for_absent_key_is_skipped() {
    let result = deep_merge(doc(r#"{"a": 1}"#), doc(r#"{"z": null}"#), "name");
    assert_eq!(to_json(&result), json(r#"{"a": 1}"#));
}

#[test]
fn null_removal_inside_nested_object() {
    let base = doc(r#"{"db": {"host": "h", "debug": true}}"#);
    let overlay = doc(r#"{"db": {"debug": null}}"#);
    let result = deep_merge(base, overlay, "name");
    assert_eq!(to_json(&result), json(r#"{"db": {"host": "h"}}"#));
}

#[test]
fn overlay_wins_at_top_level_and_over_null() {
    assert_eq!(to_json(&deep_merge(doc("[1, 2]"), doc(r#"{"a": 1}"#), "name")), json(r#"{"a": 1}"#));
    assert_eq!(to_json(&deep_merge(doc(r#"{"a": 1}"#), doc("null"), "name")), json("null"));
    assert_eq!(to_json(&deep_merge(doc("1"), doc(r#""x""#), "name")), json(r#""x""#));
}

#[test]
fn matching_by_boolean_key() {
    let base = doc(r#"[{"on": true, "x": 1}, {"on": false, "x": 2}]"#);
    let overlay = doc(r#"[{"on": false, "y": 3}]"#);
    let result = deep_merge(base, overlay, "on");
    assert_eq!(
        to_json(&result),
        json(r#"[{"on": false, "x": 2, "y": 3}, {"on": true, "x": 1}]"#)
    );
}

#[test]
fn duplicate_base_keys_match_the_last_one() {
    let base = doc(r#"[{"name": "a", "v": 1}, {"name": "a", "v": 2}]"#);
    let overlay = doc(r#"[{"name": "a", "w": 9}, {"name": "a", "u": 0}]"#);
    let result = deep_merge(base, overlay, "name");
    assert_eq!(
        to_json(&result),
        json(
            r#"[{"name": "a", "v": 2, "w": 9},
                {"name": "a", "v": 2, "u": 0},
                {"name": "a", "v": 1}]"#
        )
    );
}

#[test]
fn keyed_base_array_with_empty_overlay_is_kept() {
    let result = deep_merge(doc(r#"[{"name": "a"}, 7]"#), doc("[]"), "name");
    assert_eq!(to_json(&result), json(r#"[{"name": "a"}, 7]"#));
}

#[test]
fn array_key_value_reads_strings_numbers_and_booleans() {
    assert_eq!(array_key_value(&doc(r#"{"name": "web"}"#), "name"), Some("web".to_string()));
    assert_eq!(array_key_value(&doc(r#"{"id": 42}"#), "id"), Some("42".to_string()));
    assert_eq!(array_key_value(&doc(r#"{"id": -1.5}"#), "id"), Some("-1.5".to_string()));
    assert_eq!(array_key_value(&doc(r#"{"on": true}"#), "on"), Some("true".to_string()));
    assert_eq!(array_key_value(&doc(r#"{"on": false}"#), "on"), Some("false".to_string()));
    assert_eq!(array_key_value(&doc(r#"{"name": null}"#), "name"), None);
    assert_eq!(array_key_value(&doc(r#"{"name": [1]}"#), "name"), None);
    assert_eq!(array_key_value(&doc(r#"{"other": "x"}"#), "name"), None);
    assert_eq!(array_key_value(&doc(r#""name""#), "name"), None);
}

#[test]
fn null_removal_test_is_exact() {
    assert!(is_null_removal(&Value::Null));
    assert!(!is_null_removal(&Value::Bool(false)));
    assert!(!is_null_removal(&doc("{}")));
}

#[test]
fn copy_is_equal() {
    let v = doc(r#"{"a": [1, {"b": "c"}], "d": null}"#);
    assert_eq!(to_json(&v.clone()), to_json(&v));
}

#[test]
fn readme_container_list_patching() {
    let base = doc(
        r#"{"containers": [
            {"name": "web", "image": "myapp:1.0", "port": 80},
            {"name": "sidecar", "image": "logger:1.0"}]}"#,
    );
    let new = doc(
        r#"{"containers": [
            {"name": "web", "image": "myapp:2.0"},
            {"name": "cache", "image": "redis:7"}]}"#,
    );
    let local = doc(r#"{"containers": [{"name": "web", "port": 8080}]}"#);
    let result = merge_all(&[base, new, local], "name");
    assert_eq!(
        to_json(&result),
        json(
            r#"{"containers": [
                {"name": "web", "image": "myapp:2.0", "port": 8080},
                {"name": "cache", "image": "redis:7"},
                {"name": "sidecar", "image": "logger:1.0"}]}"#
        )
    );
}

#[test]
fn readme_removing_a_key() {
    let base = doc(r#"{"debug": true, "log_level": "info", "metrics": true}"#);
    let local = doc(r#"{"debug": null}"#);
    let result = merge_all(&[base.clone(), base, local], "name");
    assert_eq!(to_json(&result), json(r#"{"log_level": "info", "metrics": true}"#));
}

#[test]
fn json_three_file_scenario() {
    let result = merge_all(
        &[
            doc(r#"{"a": 1, "b": 2, "c": {"x": 10}}"#),
            doc(r#"{"a": 100, "d": 4}"#),
            doc(r#"{"b": 200, "c": {"y": 20}}"#),
        ],
        "name",
    );
    assert_eq!(
        to_json(&result),
        json(r#"{"a": 100, "b": 200, "c": {"x": 10, "y": 20}, "d": 4}"#)
    );
}

#[test]
fn array_key_three_file_scenario() {
    let result = merge_all(
        &[
            doc(r#"{"containers": [{"name": "web", "image": "web:1.0", "port": 80},
                                   {"name": "worker", "image": "worker:1.0"}]}"#),
            doc(r#"{"containers": [{"name": "web", "image": "web:2.0", "env": "production"},
                                   {"name": "cache", "image": "redis:7"}]}"#),
            doc(r#"{"containers": [{"name": "web", "port": 8080}]}"#),
        ],
        "name",
    );
    assert_eq!(
        to_json(&result),
        json(
            r#"{"containers": [
                {"name": "web", "image": "web:2.0", "env": "production", "port": 8080},
                {"name": "cache", "image": "redis:7"},
                {"name": "worker", "image": "worker:1.0"}]}"#
        )
    );
}

#[test]
fn later_source_wins_for_scalars() {
    let result = merge_all(
        &[doc(r#"{"k": 1}"#), doc(r#"{"k": {"x": 1}}"#), doc(r#"{"k": "last"}"#)],
        "name",
    );
    assert_eq!(to_json(&result), json(r#"{"k": "last"}"#));
}

#[test]
fn empty_overlay_keeps_base() {
    let base = doc(r#"{"a": 1, "b": [1, 2], "c": {"d": null}}"#);
    let result = deep_merge(base, doc("{}"), "name");
    assert_eq!(to_json(&result), json(r#"{"a": 1, "b": [1, 2], "c": {"d": null}}"#));
}

#[test]
fn merged_objects_keep_keys_unique() {
    let result = deep_merge(
        doc(r#"{"a": 1, "b": {"x": 1}}"#),
        doc(r#"{"a": 2, "b": {"x": 2, "y": 3}, "c": 4}"#),
        "name",
    );
    match &result {
        Value::Object(entries) => {
            assert_eq!(entries.len(), 3);
            let mut keys: Vec<&String> = entries.iter().map(|(k, _)| k).collect();
            keys.sort();
            keys.dedup();
            assert_eq!(keys.len(), 3);
        }
        other => panic!("expected an object, got {:?}", other),
    }
    assert_eq!(to_json(&result), json(r#"{"a": 2, "b": {"x": 2, "y": 3}, "c": 4}"#));
}

#[test]
fn later_source_null_removes_key() {
    let result = merge_all(
        &[doc(r#"{"a": 1, "b": 2}"#), doc(r#"{"b": 3}"#), doc(r#"{"b": null}"#)],
        "name",
    );
    assert_eq!(to_json(&result), json(r#"{"a": 1}"#));
}

#[test]
fn merge_keeps_entry_positions() {
    let result = deep_merge(
        doc(r#"{"b": 1, "a": 2}"#),
        doc(r#"{"a": 3, "c": 4}"#),
        "name",
    );
    match result {
        Value::Object(entries) => {
            let keys: Vec<&str> = entries.iter().map(|(k, _)| k.as_str()).collect();
            assert_eq!(keys, vec!["a", "b", "c"]);
        }
        other => panic!("expected an object, got {:?}", other),
    }
}

#[test]
fn nested_null_in_new_key_is_removed() {
    let result = deep_merge(doc("{}"), doc(r#"{"a": {"b": null}}"#), "name");
    assert_eq!(to_json(&result), json(r#"{"a": {}}"#));
}

#[test]
fn nested_nulls_removed_where_overlay_wins() {
    let result = deep_merge(
        doc(r#"{"config": "string", "list": [1]}"#),
        doc(r#"{"config": {"x": null, "y": 1}, "list": [{"z": null, "w": 2}, null]}"#),
        "name",
    );
    assert_eq!(
        to_json(&result),
        json(r#"{"config": {"y": 1}, "list": [{"w": 2}, null]}"#)
    );
}

#[test]
fn new_array_item_loses_null_keys() {
    let result = deep_merge(
        doc(r#"[{"name": "a", "v": null}]"#),
        doc(r#"[{"name": "b", "v": null, "u": 1}]"#),
        "name",
    );
    assert_eq!(
        to_json(&result),
        json(r#"[{"name": "b", "u": 1}, {"name": "a", "v": null}]"#)
    );
}
