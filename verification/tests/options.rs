use std::path::PathBuf;
use zarrs_sqlite::{
    latest_version, Error, Existence, IoErrorKind, OpenMode, Options, StoreMode, Timestamp,
    DEFAULT_CREATED_BY, MEMORY_PATH,
};

fn local() -> Options {
    Options::new_local(PathBuf::from("test.zarrdb"))
}

fn fails_with(options: &Options, is_file: bool, kind: IoErrorKind, text: &str) {
    match options.check_existence(is_file) {
        Err(Error::Io { kind: k, message }) => {
            assert_eq!(k, kind);
            assert_eq!(message, text);
        }
        other => panic!("{other:?}"),
    }
}

fn found(options: &Options, is_file: bool) -> Existence {
    options.check_existence(is_file).unwrap()
}

#[test]
fn nothing_is_created_unasked() {
    fails_with(&local(), false, IoErrorKind::NotFound, "File does not exist");
    fails_with(&local().write(), false, IoErrorKind::NotFound, "File does not exist");
    fails_with(&local().truncate(), false, IoErrorKind::NotFound, "File does not exist");
    fails_with(
        &Options::new_memory(),
        false,
        IoErrorKind::NotFound,
        "In-memory database does not exist",
    );
    fails_with(
        &Options::new_memory().truncate(),
        true,
        IoErrorKind::NotFound,
        "In-memory database does not exist",
    );
}

#[test]
fn databases_are_created() {
    let new = Existence { remove: false, init: true };
    assert_eq!(found(&local().create(), false), new);
    assert_eq!(found(&local().exclusive(), false), new);
    assert_eq!(found(&local().create().truncate(), false), new);
    assert_eq!(found(&Options::new_memory().create(), false), new);
    assert_eq!(found(&Options::new_memory().create(), true), new);
}

#[test]
fn existing_databases_are_opened() {
    let old = Existence { remove: false, init: false };
    assert_eq!(found(&local(), true), old);
    assert_eq!(found(&local().write(), true), old);
    assert_eq!(found(&local().create(), true), old);
}

#[test]
fn existing_databases_are_truncated() {
    let anew = Existence { remove: true, init: true };
    assert_eq!(found(&local().truncate(), true), anew);
    assert_eq!(found(&local().create().truncate(), true), anew);
    assert_eq!(found(&local().exclusive().truncate(), true), anew);
}

#[test]
fn exclusive_databases_must_be_new() {
    fails_with(
        &local().exclusive(),
        true,
        IoErrorKind::AlreadyExists,
        "File already exists",
    );
}

#[test]
fn stores_are_read_only_by_default() {
    let read = StoreMode { write: false, update_timestamp_on_write: false };
    let write = StoreMode { write: true, update_timestamp_on_write: false };
    assert_eq!(local().store_mode(), read);
    assert_eq!(Options::new_memory().store_mode(), read);
    assert_eq!(local().created_by("x".to_string()).store_mode(), read);
    assert_eq!(local().write().store_mode(), write);
    assert_eq!(local().create().store_mode(), write);
    assert_eq!(local().exclusive().store_mode(), write);
    assert_eq!(local().truncate().store_mode(), write);
    assert_eq!(
        local().update_timestamp_on_write().store_mode(),
        StoreMode { write: false, update_timestamp_on_write: true }
    );
}

#[test]
fn creation_is_asked_for() {
    assert!(local().create().may_create());
    assert!(local().exclusive().may_create());
    assert!(!local().may_create());
    assert!(!local().write().truncate().may_create());
}

#[test]
fn open_modes() {
    assert_eq!(local().open_mode(), OpenMode::ReadOnly);
    assert_eq!(local().write().open_mode(), OpenMode::ReadWrite);
    assert_eq!(local().create().open_mode(), OpenMode::ReadWriteCreate);
    assert_eq!(local().truncate().open_mode(), OpenMode::ReadWriteCreate);
    assert_eq!(local().exclusive().open_mode(), OpenMode::ReadWriteCreate);
}

#[test]
fn database_names() {
    assert_eq!(Options::new_memory().database_name(None, "").unwrap(), MEMORY_PATH);
    assert_eq!(MEMORY_PATH, ":memory:");
    assert_eq!(
        local().database_name(Some("test.zarrdb".to_string()), "").unwrap(),
        "test.zarrdb"
    );
    match local().database_name(None, "te?t") {
        Err(Error::General(text)) => assert_eq!(text, "Path is not valid UTF-8: te?t"),
        other => panic!("{other:?}"),
    }
}

#[test]
fn creators() {
    let at = Timestamp::from_nanosecond(5).unwrap();
    let metadata = local().metadata_at(at);
    assert_eq!(metadata.created_by.as_deref(), Some(DEFAULT_CREATED_BY));
    assert_eq!(DEFAULT_CREATED_BY, "zarrs_sqlite v0.1.0");
    assert_eq!(metadata.created_at, at);
    assert_eq!(metadata.modified_at, Some(at));
    assert_eq!(metadata.sqlitestore_version, latest_version());
    let named = local().created_by("me".to_string()).make_metadata();
    assert_eq!(named.created_by.as_deref(), Some("me"));
}

#[test]
fn options_can_be_copied() {
    let options = local().exclusive().created_by("me".to_string());
    let copy = options.clone();
    assert_eq!(copy.path(), options.path());
    assert_eq!(copy.path().as_ref().unwrap(), &PathBuf::from("test.zarrdb"));
    assert_eq!(copy.store_mode(), options.store_mode());
    assert_eq!(copy.make_metadata().created_by, options.make_metadata().created_by);
    assert!(copy.check_existence(true).is_err());
    assert_eq!(Options::new_memory().clone().path(), &None);
}
