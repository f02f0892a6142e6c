use nosqlite_rust::collection::Collection;
use nosqlite_rust::error::{NosqliteError, NosqliteErrorHandler};
use nosqlite_rust::json::{JsonMap, JsonNumber, JsonValue};
use tempfile::NamedTempFile;

fn text(s: &str) -> JsonValue {
    JsonValue::String(s.to_string())
}

fn number(i: i64) -> JsonValue {
    JsonValue::Number(JsonNumber::from_i64(i))
}

fn obj(entries: Vec<(&str, JsonValue)>) -> JsonValue {
    let mut m = JsonMap::new();
    for (k, v) in entries {
        m.insert(k.to_string(), v);
    }
    JsonValue::Object(m)
}

fn sample_doc() -> JsonValue {
    obj(vec![("field", text("val"))])
}

fn make_collection() -> Collection {
    Collection::new("test".into(), obj(vec![("field", text("string"))]))
}

fn make_error_handler() -> NosqliteErrorHandler {
    let tmp_log = NamedTempFile::new().unwrap();
    let path = tmp_log
        .path()
        .with_extension("nosqlite")
        .to_string_lossy()
        .to_string();
    NosqliteErrorHandler::new(path)
}

fn make_collection_nested() -> Collection {
    Collection::new(
        "test".into(),
        obj(vec![
            ("field", text("string")),
            ("nested", obj(vec![("field", text("string"))])),
        ]),
    )
}

#[test]
fn collection_create_collection_should_have_fields_filled() {
    let col = make_collection();

    assert_eq!(col.name, "test");
    assert_eq!(col.structure, obj(vec![("field", text("string"))]));
    assert_eq!(col.documents.len(), 0);
}

#[test]
fn collection_create_collection_nested_should_have_fields_filled() {
    let col = make_collection_nested();

    assert_eq!(col.name, "test");
    assert_eq!(
        col.structure,
        obj(vec![
            ("field", text("string")),
            ("nested", obj(vec![("field", text("string"))])),
        ])
    );
    assert_eq!(col.documents.len(), 0);
}

#[test]
fn collection_get_document_should_return_correct_doc() {
    let mut col = make_collection();
    let mut handler = make_error_handler();
    col.add_document(sample_doc(), &mut handler).unwrap();

    let result = col.get_document("field", &text("val"));

    assert!(result.is_some());
    assert_eq!(result.unwrap().data.get("field"), Some(&text("val")));
}

#[test]
fn collection_get_document_nested_return_correct_doc() {
    let mut col = make_collection_nested();
    let mut handler = make_error_handler();
    col.add_document(
        obj(vec![
            ("field", text("val")),
            ("nested", obj(vec![("field", text("nested_val"))])),
        ]),
        &mut handler,
    )
    .unwrap();
    let result = col.get_document("field", &text("val"));

    assert!(result.is_some());
    let nested = result.unwrap().data.get("nested").unwrap();
    assert_eq!(nested.get("field"), Some(&text("nested_val")));
}

#[test]
fn collection_get_document_should_return_none_if_not_found() {
    let col = make_collection();
    let result = col.get_document("does-not-exist", &text("does-not-exist"));
    assert!(result.is_none());
}

#[test]
fn collection_all_documents_should_return_all_docs() {
    let mut col = make_collection();
    let mut handler = make_error_handler();
    col.add_document(sample_doc(), &mut handler).unwrap();
    col.add_document(obj(vec![("field", text("second"))]), &mut handler)
        .unwrap();

    let docs = col.all_documents();
    assert_eq!(docs.len(), 2);
}

#[test]
fn collection_all_documents_should_return_empty_if_none() {
    let col = make_collection();
    let docs = col.all_documents();
    assert!(docs.is_empty());
}

#[test]
fn collection_document_count_should_return_correct_number() {
    let mut col = make_collection();
    let mut handler = make_error_handler();
    col.add_document(sample_doc(), &mut handler).unwrap();
    col.add_document(obj(vec![("field", text("yo"))]), &mut handler)
        .unwrap();

    assert_eq!(col.document_count(), 2);
}

#[test]
fn collection_document_count_should_return_zero_if_none() {
    let col = make_collection();
    assert_eq!(col.document_count(), 0);
}

#[test]
fn collection_add_valid_document_should_succeed() {
    let mut handler = make_error_handler();
    let mut col = make_collection();
    let result = col.add_document(obj(vec![("field", text("hello"))]), &mut handler);
    assert!(result.is_ok());
}

#[test]
fn collection_add_document_with_missing_field_should_fail() {
    let mut col = make_collection();
    let mut handler = make_error_handler();
    let result = col.add_document(obj(vec![("not_field", text("value"))]), &mut handler);
    assert!(result.is_err());
}

#[test]
fn collection_add_document_with_wrong_type_should_fail() {
    let mut col = make_collection();
    let mut handler = make_error_handler();
    let result = col.add_document(obj(vec![("field", number(123))]), &mut handler);
    assert!(result.is_err());
}

#[test]
fn collection_add_document_with_extra_fields_should_succeed() {
    let mut col = make_collection();
    let mut handler = make_error_handler();
    let result = col.add_document(
        obj(vec![("field", text("val")), ("extra", number(123))]),
        &mut handler,
    );
    assert!(result.is_ok());
}

#[test]
fn collection_add_valid_document_nested_should_succeed() {
    let mut col = make_collection_nested();
    let mut handler = make_error_handler();
    let result = col.add_document(
        obj(vec![
            ("field", text("hello")),
            ("nested", obj(vec![("field", text("nested_val"))])),
        ]),
        &mut handler,
    );
    assert!(result.is_ok());
}

#[test]
fn collection_add_document_with_missing_nested_field_should_fail() {
    let mut col = make_collection_nested();
    let mut handler = make_error_handler();
    let result = col.add_document(
        obj(vec![
            ("field", text("value")),
            ("nested", obj(vec![("not_field", text("nested_val"))])),
        ]),
        &mut handler,
    );
    assert!(result.is_err());
}

#[test]
fn collection_add_document_with_wrong_nested_type_should_fail() {
    let mut col = make_collection_nested();
    let mut handler = make_error_handler();
    let result = col.add_document(
        obj(vec![("field", number(123)), ("nested", obj(vec![("field", number(123))]))]),
        &mut handler,
    );
    assert!(result.is_err());
}

#[test]
fn collection_add_document_with_extra_nested_fields_should_succeed() {
    let mut col = make_collection_nested();
    let mut handler = make_error_handler();
    let result = col.add_document(
        obj(vec![
            ("field", text("val")),
            ("nested", obj(vec![("field", text("nested_val")), ("extra", number(123))])),
        ]),
        &mut handler,
    );
    assert!(result.is_ok());
}

#[test]
fn collection_update_existing_document_should_work() {
    let mut col = make_collection();
    let mut handler = make_error_handler();
    col.add_document(obj(vec![("field", text("before"))]), &mut handler)
        .unwrap();
    let id = col.documents[0].id.clone();

    let res = col.update_documents(
        "field",
        &text("before"),
        obj(vec![("field", text("after"))]),
        &mut handler,
    );
    assert!(res.is_ok());
    assert_eq!(col.documents[0].data.get("field"), Some(&text("after")));
    assert_eq!(col.documents[0].id, id);
}

#[test]
fn collection_update_document_with_invalid_structure_should_fail() {
    let mut col = make_collection();
    let mut handler = make_error_handler();
    col.add_document(obj(vec![("field", text("original"))]), &mut handler)
        .unwrap();

    let res = col.update_documents(
        "field",
        &text("original"),
        obj(vec![("wrong_field", text("nope"))]),
        &mut handler,
    );
    assert!(res.is_err());
}

#[test]
fn collection_update_document_field_should_work() {
    let mut col = make_collection();
    let mut handler = make_error_handler();
    col.add_document(obj(vec![("field", text("init"))]), &mut handler)
        .unwrap();
    let res = col.update_documents_field(
        "field",
        &text("init"),
        "field",
        text("changed"),
        &mut handler,
    );
    assert!(res.is_ok());
    assert_eq!(col.documents[0].data.get("field"), Some(&text("changed")));
}

#[test]
fn collection_update_field_on_nonexistent_document_should_fail() {
    let mut col = make_collection();
    let mut handler = make_error_handler();
    let res = col.update_documents_field(
        "wrong-id",
        &text("wrong"),
        "field",
        text("new"),
        &mut handler,
    );
    assert!(res.is_err());
}

#[test]
fn delete_existing_documents_should_succeed() {
    let mut col = make_collection();
    let mut handler = make_error_handler();
    col.add_document(obj(vec![("field", text("ok"))]), &mut handler)
        .unwrap();
    let res = col.delete_documents("field", &text("ok"), &mut handler);
    assert!(res.is_ok());
    assert!(col.documents.is_empty());
}

#[test]
fn collection_delete_nonexistent_documents_should_fail() {
    let mut col = make_collection();
    let mut handler = make_error_handler();
    let res = col.delete_documents("not-found-id", &text("not-found"), &mut handler);
    assert!(res.is_err());
}

#[test]
fn delete_existing_document_should_succeed() {
    let mut col = make_collection();
    let mut handler = make_error_handler();
    col.add_document(obj(vec![("field", text("ok"))]), &mut handler)
        .unwrap();

    let res = col.delete_documents("field", &text("ok"), &mut handler);
    assert!(res.is_ok());
    assert!(col.documents.is_empty());
}

#[test]
fn delete_nonexistent_document_should_fail() {
    let mut col = make_collection();
    let mut handler = make_error_handler();
    let res = col.delete_documents("field", &text("not-found-id"), &mut handler);
    assert!(res.is_err());
}

#[test]
fn add_document_to_non_object_schema_fails_with_structure_error() {
    let mut col = Collection::new("odd".into(), text("not-an-object"));
    let mut handler = make_error_handler();
    let res = col.add_document(obj(vec![("a", number(1))]), &mut handler);
    assert!(matches!(res, Err(NosqliteError::InvalidCollectionStructure(_))));
    assert_eq!(handler.all_errors().len(), 1);
}

#[test]
fn add_non_object_document_fails_with_document_invalid() {
    let mut col = make_collection();
    let mut handler = make_error_handler();
    let res = col.add_document(text("plain"), &mut handler);
    assert!(matches!(res, Err(NosqliteError::DocumentInvalid(_))));
    assert!(col.documents.is_empty());
}

#[test]
fn type_names_are_case_insensitive() {
    let mut col = Collection::new("c".into(), obj(vec![("n", text("NuMbEr"))]));
    let mut handler = make_error_handler();
    assert!(col.add_document(obj(vec![("n", number(5))]), &mut handler).is_ok());
    assert!(col.add_document(obj(vec![("n", text("5"))]), &mut handler).is_err());
}

#[test]
fn unknown_type_name_never_matches() {
    let mut col = Collection::new("c".into(), obj(vec![("n", text("integer"))]));
    let mut handler = make_error_handler();
    let res = col.add_document(obj(vec![("n", number(5))]), &mut handler);
    assert!(matches!(res, Err(NosqliteError::DocumentInvalid(_))));
}

#[test]
fn update_replaces_every_match_and_keeps_others() {
    let mut col = make_collection();
    let mut handler = make_error_handler();
    col.add_document(obj(vec![("field", text("x"))]), &mut handler).unwrap();
    col.add_document(obj(vec![("field", text("y"))]), &mut handler).unwrap();
    col.add_document(obj(vec![("field", text("x")), ("k", number(1))]), &mut handler).unwrap();
    let created = col.documents[2].created_at;
    col.update_documents("field", &text("x"), obj(vec![("field", text("z"))]), &mut handler)
        .unwrap();
    assert_eq!(col.documents[0].data, obj(vec![("field", text("z"))]));
    assert_eq!(col.documents[1].data, obj(vec![("field", text("y"))]));
    assert_eq!(col.documents[2].data, obj(vec![("field", text("z"))]));
    assert_eq!(col.documents[2].created_at, created);
    assert!(col.documents[2].updated_at >= created);
}

#[test]
fn update_with_no_match_fails_with_document_not_found() {
    let mut col = make_collection();
    let mut handler = make_error_handler();
    col.add_document(obj(vec![("field", text("x"))]), &mut handler).unwrap();
    let res = col.update_documents("field", &text("q"), obj(vec![("field", text("z"))]), &mut handler);
    assert!(matches!(res, Err(NosqliteError::DocumentNotFound(_))));
    assert_eq!(col.documents[0].data, obj(vec![("field", text("x"))]));
}

#[test]
fn patch_field_skips_schema_and_adds_new_field() {
    let mut col = make_collection();
    let mut handler = make_error_handler();
    col.add_document(obj(vec![("field", text("x"))]), &mut handler).unwrap();
    col.update_documents_field("field", &text("x"), "field", number(7), &mut handler)
        .unwrap();
    col.update_documents_field("field", &number(7), "other", text("o"), &mut handler)
        .unwrap();
    assert_eq!(
        col.documents[0].data,
        obj(vec![("field", number(7)), ("other", text("o"))])
    );
}

#[test]
fn match_by_nested_path() {
    let mut col = make_collection_nested();
    let mut handler = make_error_handler();
    col.add_document(
        obj(vec![("field", text("a")), ("nested", obj(vec![("field", text("deep"))]))]),
        &mut handler,
    )
    .unwrap();
    let found = col.get_document("nested.field", &text("deep"));
    assert!(found.is_some());
    assert!(col.get_document("nested.other", &text("deep")).is_none());
    col.delete_documents("nested.field", &text("deep"), &mut handler).unwrap();
    assert_eq!(col.document_count(), 0);
}

#[test]
fn get_document_returns_first_match() {
    let mut col = make_collection();
    let mut handler = make_error_handler();
    col.add_document(obj(vec![("field", text("x")), ("n", number(1))]), &mut handler).unwrap();
    col.add_document(obj(vec![("field", text("x")), ("n", number(2))]), &mut handler).unwrap();
    let d = col.get_document("field", &text("x")).unwrap();
    assert_eq!(d.data.get("n"), Some(&number(1)));
}

#[test]
fn failed_delete_leaves_collection_unchanged() {
    let mut col = make_collection();
    let mut handler = make_error_handler();
    col.add_document(obj(vec![("field", text("keep"))]), &mut handler).unwrap();
    let id = col.documents[0].id.clone();
    let res = col.delete_documents("field", &text("gone"), &mut handler);
    assert!(matches!(res, Err(NosqliteError::DocumentNotFound(_))));
    assert_eq!(col.document_count(), 1);
    assert_eq!(col.documents[0].id, id);
    assert_eq!(col.documents[0].data, obj(vec![("field", text("keep"))]));
}

#[test]
fn delete_keeps_order_of_remaining_documents() {
    let mut col = make_collection();
    let mut handler = make_error_handler();
    for v in ["a", "x", "b", "x", "c"] {
        col.add_document(obj(vec![("field", text(v))]), &mut handler).unwrap();
    }
    col.delete_documents("field", &text("x"), &mut handler).unwrap();
    let left: Vec<JsonValue> = col.documents.iter().map(|d| d.data.clone()).collect();
    assert_eq!(
        left,
        vec![
            obj(vec![("field", text("a"))]),
            obj(vec![("field", text("b"))]),
            obj(vec![("field", text("c"))]),
        ]
    );
}
