use nosqlite_rust::collection_service::{
    create_collection, delete_collection, get_collection, get_collection_mut, list_collections,
};
use nosqlite_rust::database::Database;
use nosqlite_rust::error::{NosqliteError, NosqliteErrorHandler};
use nosqlite_rust::json::{JsonMap, JsonValue};
use tempfile::NamedTempFile;

fn text(s: &str) -> JsonValue {
    JsonValue::String(s.to_string())
}

fn obj(entries: Vec<(&str, JsonValue)>) -> JsonValue {
    let mut m = JsonMap::new();
    for (k, v) in entries {
        m.insert(k.to_string(), v);
    }
    JsonValue::Object(m)
}

fn temp_db_path() -> String {
    let tmp = NamedTempFile::new().unwrap();
    tmp.path()
        .with_extension("nosqlite")
        .to_string_lossy()
        .to_string()
}

fn make_handler() -> NosqliteErrorHandler {
    NosqliteErrorHandler::new(temp_db_path())
}

fn make_db() -> Database {
    Database::new(temp_db_path().as_str())
}

#[test]
fn create_and_retrieve_collection_should_succeed() {
    let mut db = make_db();
    let mut handler = make_handler();
    let res = create_collection(&mut db, "users", obj(vec![("name", text("string"))]), &mut handler);
    assert!(res.is_ok());

    let col = get_collection(&db, "users", &mut handler).unwrap();
    assert_eq!(col.name, "users");
}

#[test]
fn create_duplicate_collection_should_fail() {
    let mut db = make_db();
    let mut handler = make_handler();
    create_collection(&mut db, "users", obj(vec![("name", text("string"))]), &mut handler).unwrap();
    let res = create_collection(&mut db, "users", obj(vec![("name", text("string"))]), &mut handler);
    assert!(res.is_err());
}

#[test]
fn delete_existing_collection_should_succeed() {
    let mut db = make_db();
    let mut handler = make_handler();
    create_collection(&mut db, "to_delete", obj(vec![("x", text("string"))]), &mut handler).unwrap();

    let res = delete_collection(&mut db, "to_delete", &mut handler);
    assert!(res.is_ok());

    let lookup = get_collection(&db, "to_delete", &mut handler);
    assert!(lookup.is_err());
}

#[test]
fn delete_nonexistent_collection_should_fail() {
    let mut db = make_db();
    let mut handler = make_handler();
    let res = delete_collection(&mut db, "nope", &mut handler);
    assert!(res.is_err());
}

#[test]
fn get_collection_should_return_correct_reference() {
    let mut db = make_db();
    let mut handler = make_handler();
    create_collection(&mut db, "data", obj(vec![("v", text("string"))]), &mut handler).unwrap();

    let col = get_collection(&db, "data", &mut handler).unwrap();
    assert_eq!(col.name, "data");
}

#[test]
fn get_collection_should_fail_if_missing() {
    let db = make_db();
    let mut handler = make_handler();
    let col = get_collection(&db, "ghost", &mut handler);
    assert!(col.is_err());
}

#[test]
fn get_collection_mut_should_allow_modification() {
    let mut db = make_db();
    let mut handler = make_handler();
    create_collection(&mut db, "mutable", obj(vec![("z", text("string"))]), &mut handler).unwrap();

    let col_mut = get_collection_mut(&mut db, "mutable", &mut handler).unwrap();
    assert_eq!(col_mut.name, "mutable");
    col_mut.documents.clear();
    assert_eq!(col_mut.documents.len(), 0);
}

#[test]
fn get_collection_mut_should_fail_if_missing() {
    let mut db = make_db();
    let mut handler = make_handler();
    let col = get_collection_mut(&mut db, "unknown", &mut handler);
    assert!(col.is_err());
}

#[test]
fn collection_list_collections_should_return_all() {
    let mut db = make_db();
    let mut handler = make_handler();
    create_collection(&mut db, "a", obj(vec![("x", text("string"))]), &mut handler).unwrap();
    create_collection(&mut db, "b", obj(vec![("y", text("string"))]), &mut handler).unwrap();

    let list = list_collections(&db);
    let names: Vec<_> = list.iter().map(|c| c.name.as_str()).collect();
    assert!(names.contains(&"a"));
    assert!(names.contains(&"b"));
    assert_eq!(list.len(), 2);
}

#[test]
fn missing_collection_error_is_logged() {
    let db = make_db();
    let mut handler = make_handler();
    let res = get_collection(&db, "ghost", &mut handler);
    assert!(matches!(res, Err(NosqliteError::CollectionNotFound(_))));
    assert_eq!(handler.all_errors().len(), 1);
}
