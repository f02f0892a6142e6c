use nosqlite_rust::document::Document;
use nosqlite_rust::json::{JsonMap, JsonValue};

fn obj(entries: Vec<(&str, JsonValue)>) -> JsonValue {
    let mut m = JsonMap::new();
    for (k, v) in entries {
        m.insert(k.to_string(), v);
    }
    JsonValue::Object(m)
}

#[test]
fn create_document_should_have_fields_filled() {
    let data = obj(vec![("key", JsonValue::String("value".to_string()))]);
    let doc = Document::new(data.clone());

    assert_eq!(doc.data, data);
    assert!(!doc.id.is_empty());
    assert!(doc.created_at != 0);
    assert_eq!(doc.created_at, doc.updated_at);
}

#[test]
fn documents_get_distinct_hyphenated_ids() {
    let a = Document::new(JsonValue::Null);
    let b = Document::new(JsonValue::Null);
    assert_eq!(a.id.len(), 36);
    assert_eq!(a.id.matches('-').count(), 4);
    assert_ne!(a.id, b.id);
}

#[test]
fn update_time_never_goes_below_creation_time() {
    let mut doc = Document::new(JsonValue::Null);
    let created = doc.created_at;
    doc.touch(0);
    assert_eq!(doc.updated_at, created);
    doc.set_data(JsonValue::Bool(true), created + 10);
    assert_eq!(doc.updated_at, created + 10);
    assert_eq!(doc.data, JsonValue::Bool(true));
    assert_eq!(doc.created_at, created);
}

#[test]
fn default_document_holds_null() {
    let doc = Document::default();
    assert_eq!(doc.data, JsonValue::Null);
    assert_eq!(doc.created_at, doc.updated_at);
}
