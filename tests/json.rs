use nosqlite_rust::json::{get_nested_value, json_eq, JsonMap, JsonNumber, JsonValue};
use nosqlite_rust::schema::{kind_name_matches, type_matches, validate_against_structure};

fn text(s: &str) -> JsonValue {
    JsonValue::String(s.to_string())
}

fn number(i: i64) -> JsonValue {
    JsonValue::Number(JsonNumber::from_i64(i))
}

fn map(entries: Vec<(&str, JsonValue)>) -> JsonMap {
    let mut m = JsonMap::new();
    for (k, v) in entries {
        m.insert(k.to_string(), v);
    }
    m
}

fn obj(entries: Vec<(&str, JsonValue)>) -> JsonValue {
    JsonValue::Object(map(entries))
}

#[test]
fn objects_compare_without_regard_to_key_order() {
    let a = obj(vec![("x", number(1)), ("y", text("b"))]);
    let b = obj(vec![("y", text("b")), ("x", number(1))]);
    assert!(json_eq(&a, &b));
    assert_eq!(a, b);
    assert_ne!(a, obj(vec![("x", number(1))]));
    assert_ne!(a, obj(vec![("x", number(1)), ("y", text("c"))]));
}

#[test]
fn kinds_and_numbers_must_match() {
    assert_ne!(number(1), text("1"));
    assert_ne!(number(1), JsonValue::Number(JsonNumber::Float(1.0f64.to_bits())));
    assert_eq!(number(5), JsonValue::Number(JsonNumber::PosInt(5)));
    assert_eq!(number(-5), JsonValue::Number(JsonNumber::NegInt(-5)));
    assert_ne!(JsonValue::Array(vec![number(1), number(2)]), JsonValue::Array(vec![number(2), number(1)]));
    assert_eq!(JsonValue::Null, JsonValue::Null);
    assert_ne!(JsonValue::Bool(true), JsonValue::Bool(false));
}

#[test]
fn insert_replaces_existing_key() {
    let mut m = map(vec![("k", number(1))]);
    m.insert("k".to_string(), number(2));
    assert_eq!(m.len(), 1);
    assert_eq!(m.get("k"), Some(&number(2)));
    assert!(m.contains_key("k"));
    assert!(!m.contains_key("K"));
}

#[test]
fn clone_is_equal() {
    let v = obj(vec![("a", JsonValue::Array(vec![obj(vec![("b", JsonValue::Null)])]))]);
    assert_eq!(v.clone(), v);
}

#[test]
fn nested_paths_follow_objects() {
    let v = obj(vec![("a", obj(vec![("b", obj(vec![("c", number(3))]))])), ("x", number(1))]);
    assert_eq!(get_nested_value(&v, "a.b.c"), Some(&number(3)));
    assert_eq!(get_nested_value(&v, "x"), Some(&number(1)));
    assert_eq!(get_nested_value(&v, "a.b"), Some(&obj(vec![("c", number(3))])));
    assert_eq!(get_nested_value(&v, "a.x"), None);
    assert_eq!(get_nested_value(&v, "x.y"), None);
    assert_eq!(get_nested_value(&text("s"), "x"), None);
}

#[test]
fn validation_checks_every_schema_key() {
    let schema = map(vec![
        ("title", text("string")),
        ("views", text("number")),
        ("meta", obj(vec![("tags", text("array")), ("published", text("boolean"))])),
    ]);
    let doc = map(vec![
        ("title", text("My Post")),
        ("views", number(120)),
        ("meta", obj(vec![("tags", JsonValue::Array(vec![text("rust")])), ("published", JsonValue::Bool(true))])),
        ("extra", JsonValue::Null),
    ]);
    assert!(validate_against_structure(&doc, &schema));
    let missing = map(vec![("title", text("t")), ("views", number(1))]);
    assert!(!validate_against_structure(&missing, &schema));
    let wrong = map(vec![
        ("title", text("t")),
        ("views", text("many")),
        ("meta", obj(vec![("tags", JsonValue::Array(vec![])), ("published", JsonValue::Bool(false))])),
    ]);
    assert!(!validate_against_structure(&wrong, &schema));
    let nested_not_object = map(vec![("title", text("t")), ("views", number(1)), ("meta", text("x"))]);
    assert!(!validate_against_structure(&nested_not_object, &schema));
}

#[test]
fn empty_schema_accepts_any_object() {
    assert!(validate_against_structure(&map(vec![]), &map(vec![])));
    assert!(validate_against_structure(&map(vec![("a", number(1))]), &map(vec![])));
}

#[test]
fn schema_leaf_that_is_not_a_name_or_object_fails() {
    let schema = map(vec![("a", number(1))]);
    assert!(!validate_against_structure(&map(vec![("a", number(1))]), &schema));
}

#[test]
fn type_names_ignore_case() {
    assert!(type_matches("String", &text("x")));
    assert!(type_matches("OBJECT", &obj(vec![])));
    assert!(type_matches("boolean", &JsonValue::Bool(false)));
    assert!(!type_matches("Number", &text("1")));
    assert!(!type_matches("float", &number(1)));
    assert!(kind_name_matches("array", &JsonValue::Array(vec![])));
    assert!(!kind_name_matches("Array", &JsonValue::Array(vec![])));
}
