use nosqlite_rust::error::{NosqliteError, NosqliteErrorHandler};

#[test]
fn try_or_log_passes_ok_and_records_errors() {
    let mut h = NosqliteErrorHandler::new("store.nosqlite".to_string());
    let ok = h.try_or_log(Ok::<u32, String>(3), NosqliteError::IoError);
    assert_eq!(ok, Ok(3));
    assert!(h.all_errors().is_empty());
    let failed = h.try_or_log(Err::<u32, String>("boom".to_string()), NosqliteError::IoError);
    assert_eq!(failed, Err(NosqliteError::IoError("boom".to_string())));
    assert_eq!(h.all_errors(), &[NosqliteError::IoError("boom".to_string())]);
}

#[test]
fn handler_keeps_its_path_and_history() {
    let mut h = NosqliteErrorHandler::new("dir/store.nosqlite".to_string());
    assert_eq!(h.db_path(), "dir/store.nosqlite");
    h.log_error(NosqliteError::CollectionNameEmpty());
    h.log_error(NosqliteError::DocumentNotFound("name".to_string()));
    assert_eq!(h.all_errors().len(), 2);
    assert_eq!(h.all_errors()[1].kind_name(), "DocumentNotFound");
    assert_eq!(h.all_errors()[1].detail(), "name");
    assert_eq!(h.all_errors()[0].detail(), "");
}

#[test]
fn errors_clone_equal() {
    let e = NosqliteError::EncryptionError("tag".to_string());
    assert_eq!(e.clone(), e);
    assert_eq!(e.kind_name(), "EncryptionError");
}
