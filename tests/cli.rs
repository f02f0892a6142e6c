use nosqlite_rust::cli::{get_db_path, split_flags, CliFlags};

#[test]
fn db_path_defaults_and_gets_extension() {
    assert_eq!(get_db_path(vec![]), "db.nosqlite");
    assert_eq!(get_db_path(vec!["mydb".to_string()]), "mydb.nosqlite");
    assert_eq!(get_db_path(vec!["x.nosqlite".to_string(), "y".to_string()]), "x.nosqlite");
    assert_eq!(get_db_path(vec!["notes.db".to_string()]), "notes.db.nosqlite");
}

#[test]
fn flags_are_separated_from_arguments() {
    let args = vec!["-t".to_string(), "data".to_string(), "--timing".to_string(), "--other".to_string()];
    let (flags, rest) = split_flags(&args);
    assert_eq!(flags, vec![CliFlags::Timing, CliFlags::Timing]);
    assert_eq!(rest, vec!["data".to_string(), "--other".to_string()]);
    assert_eq!(CliFlags::from_arg("--timing"), Some(CliFlags::Timing));
    assert_eq!(CliFlags::from_arg("-T"), None);
}
