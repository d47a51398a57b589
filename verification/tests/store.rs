use rusqlite::types::Value as Sql;
use rusqlite::{params_from_iter, Connection, OptionalExtension};
use zarrs_sqlite::keys::{ByteRange, StoreKey, StoreKeysPrefixes, StorePrefix};
use zarrs_sqlite::statement::{Statement, Value};
use zarrs_sqlite::store::DirEntry;
use zarrs_sqlite::{
    latest_version, queries, store, Metadata, Options, StorageError, StoreMode, TextMap, Timestamp,
    APPLICATION_ID,
};

/// A store on a database in memory.
struct Memory {
    conn: Connection,
    mode: StoreMode,
}

fn params(statement: &Statement) -> Vec<Sql> {
    statement
        .params
        .iter()
        .map(|value| match value {
            Value::Text(text) => Sql::Text(text.clone()),
            Value::Blob(bytes) => Sql::Blob(bytes.to_vec()),
        })
        .collect()
}

fn run(conn: &Connection, statements: &[Statement]) {
    for statement in statements {
        if statement.batch {
            assert!(statement.params.is_empty());
            conn.execute_batch(&statement.sql).unwrap();
        } else {
            conn.execute(&statement.sql, params_from_iter(params(statement)))
                .unwrap();
        }
    }
}

fn pairs(conn: &Connection, statement: &Statement) -> Vec<(String, String)> {
    let mut prepared = conn.prepare(&statement.sql).unwrap();
    let rows = prepared
        .query_map(params_from_iter(params(statement)), |r| Ok((r.get(0)?, r.get(1)?)))
        .unwrap();
    rows.map(|row| row.unwrap()).collect()
}

fn texts(conn: &Connection, statement: &Statement) -> Vec<String> {
    let mut prepared = conn.prepare(&statement.sql).unwrap();
    let rows = prepared
        .query_map(params_from_iter(params(statement)), |r| r.get(0))
        .unwrap();
    rows.map(|row| row.unwrap()).collect()
}

fn one<T: rusqlite::types::FromSql>(conn: &Connection, statement: &Statement) -> Option<T> {
    conn.query_one(&statement.sql, params_from_iter(params(statement)), |r| r.get(0))
        .optional()
        .unwrap()
}

impl Memory {
    fn new(options: &Options) -> Self {
        let found = options.check_existence(false).unwrap();
        let conn = Connection::open_in_memory().unwrap();
        run(&conn, &store::open(options, found.init));
        Memory { conn, mode: options.store_mode() }
    }

    fn created() -> Self {
        Memory::new(&Options::new_memory().create())
    }

    fn reopened(self, options: &Options) -> Self {
        run(&self.conn, &store::open(options, false));
        Memory { conn: self.conn, mode: options.store_mode() }
    }

    fn set(&self, key: &StoreKey, value: &[u8]) {
        run(&self.conn, &self.mode.set(key, value).unwrap());
    }

    fn get(&self, key: &StoreKey) -> Option<Vec<u8>> {
        one(&self.conn, &store::get(key))
    }

    fn get_partial(&self, key: &StoreKey, range: ByteRange) -> Option<Vec<u8>> {
        one(&self.conn, &store::get_partial(key, range))
    }

    fn size(&self, key: &StoreKey) -> Option<u64> {
        store::size_from_row(one(&self.conn, &store::size_key(key)))
    }

    fn list_prefix(&self, prefix: &str) -> Vec<String> {
        let statement = store::list_prefix(&StorePrefix::new(prefix).unwrap());
        let mut keys: Vec<String> = store::store_keys(&texts(&self.conn, &statement))
            .iter()
            .map(|key| key.as_str().to_string())
            .collect();
        keys.sort();
        keys
    }

    fn list_dir(&self, prefix: &str) -> (Vec<String>, Vec<String>) {
        let statement = store::list_dir(&StorePrefix::new(prefix).unwrap());
        let StoreKeysPrefixes { keys, prefixes } =
            store::store_keys_prefixes(&pairs(&self.conn, &statement));
        let mut keys: Vec<String> = keys.iter().map(|k| k.as_str().to_string()).collect();
        keys.sort();
        let mut prefixes: Vec<String> = prefixes.iter().map(|p| p.as_str().to_string()).collect();
        prefixes.sort();
        (keys, prefixes)
    }

    fn metadata_rows(&self) -> Vec<(String, String)> {
        pairs(&self.conn, &Statement::plain(queries::read_metadata_query()))
    }

    fn metadata(&self) -> Metadata {
        Metadata::from_rows(&self.metadata_rows()).unwrap()
    }

    fn put_metadata(&self, key: &str, value: &str) {
        let (sql, params) = queries::insert_unknown_metadata_query(key, value);
        self.conn.execute(sql, params).unwrap();
    }
}

fn key(text: &str) -> StoreKey {
    StoreKey::new(text).unwrap()
}

fn prefix(text: &str) -> StorePrefix {
    StorePrefix::new(text).unwrap()
}

#[test]
fn rusqlite_store_roundtrip_bytes() {
    let store = Memory::created();

    let key = StoreKey::new("test_key").unwrap();
    let data = b"Hello, world!";
    store.set(&key, data);

    let read_data = store.get(&key).unwrap();
    assert_eq!(data, &read_data[..]);
}

#[test]
fn rusqlite_store_partial_bytes() {
    let store = Memory::created();

    let key = StoreKey::new("test_key").unwrap();
    let data = b"Hello, world!";
    store.set(&key, data);

    let test_partial_read = |br: ByteRange, expected: &[u8]| {
        let read = store.get_partial(&key, br).unwrap();
        assert_eq!(expected, &read[..]);
    };

    test_partial_read(ByteRange::FromStart(0, Some(5)), &data[0..5]);
    test_partial_read(ByteRange::FromStart(8, None), &data[8..]);
    test_partial_read(ByteRange::FromStart(8, Some(3)), &data[8..11]);
    test_partial_read(ByteRange::Suffix(6), &data[data.len() - 6..]);
}

#[test]
fn rusqlite_store_list_keys() {
    let store = Memory::created();

    let keys = ["a", "a/b", "a/c/d"];
    let data = b"Hello, world!";
    for k in keys {
        store.set(&StoreKey::new(k).unwrap(), data);
    }

    assert_eq!(store.list_prefix(""), keys);

    let (children, prefixes) = store.list_dir("a/");
    assert_eq!(children, ["a/b"]);
    assert_eq!(prefixes, ["a/c/"]);

    assert_eq!(store.list_prefix("a/"), ["a/b", "a/c/d"]);
}

#[test]
fn metadata_of_a_created_store_can_be_read() {
    let store = Memory::created();
    let meta = store.metadata();
    assert_eq!(meta.sqlitestore_version, latest_version());
    assert_eq!(meta.created_by.as_deref(), Some("zarrs_sqlite v0.1.0"));
    assert_eq!(meta.modified_at, Some(meta.created_at));
    assert_eq!(meta.unknown.len(), 0);
    let id: u32 = store
        .conn
        .query_one("PRAGMA application_id;", [], |r| r.get(0))
        .unwrap();
    assert_eq!(id, APPLICATION_ID);
}

#[test]
fn a_store_created_later_has_a_later_time() {
    let options = Options::new_memory().create();
    let first = Memory::new(&options).metadata();
    let second = Memory::new(&options).metadata();
    assert!(second.created_at > first.created_at);
}

#[test]
fn a_recreated_store_names_its_own_creator() {
    let options = Options::new_memory().create();
    let first = Memory::new(&options.clone().created_by("first".to_string()));
    assert_eq!(first.metadata().created_by.as_deref(), Some("first"));
    let second = Memory::new(&options.created_by("second".to_string()));
    assert_eq!(second.metadata().created_by.as_deref(), Some("second"));
}

#[test]
fn the_creator_of_an_existing_store_stays() {
    let options = Options::new_memory().create().created_by("first".to_string());
    let store = Memory::new(&options).reopened(&options.created_by("second".to_string()));
    assert_eq!(store.metadata().created_by.as_deref(), Some("first"));
}

#[test]
fn opening_at_a_given_time() {
    let at = Timestamp::from_nanosecond(1_500_000_000_000_000_000).unwrap();
    let options = Options::new_memory().create();
    let conn = Connection::open_in_memory().unwrap();
    run(&conn, &store::open_at(&options, true, at));
    let store = Memory { conn, mode: options.store_mode() };
    assert_eq!(store.metadata().created_at, at);
    assert_eq!(store.metadata().modified_at, Some(at));
    assert_eq!(store.list_prefix(""), [""; 0]);
}

#[test]
fn opening_for_writing_records_the_modification() {
    let at = Timestamp::from_nanosecond(0).unwrap();
    let options = Options::new_memory().create();
    let conn = Connection::open_in_memory().unwrap();
    run(&conn, &store::open_at(&options, true, at));
    let store = Memory { conn, mode: options.store_mode() };

    let store = store.reopened(&Options::new_memory());
    assert_eq!(store.metadata().modified_at, Some(at));

    let store = store.reopened(&Options::new_memory().write().update_timestamp_on_write());
    assert_eq!(store.metadata().modified_at, Some(at));

    let store = store.reopened(&Options::new_memory().write());
    let touched = store.metadata();
    assert!(touched.modified_at.unwrap() > at);
    assert_eq!(touched.created_at, at);
}

#[test]
fn changes_are_recorded_if_asked_for() {
    let at = Timestamp::from_nanosecond(0).unwrap();
    for (each, change) in [(false, 0), (false, 1), (false, 2), (true, 0), (true, 1), (true, 2)] {
        let mut options = Options::new_memory().create();
        if each {
            options = options.update_timestamp_on_write();
        }
        let conn = Connection::open_in_memory().unwrap();
        run(&conn, &store::open_at(&options, true, at));
        let store = Memory { conn, mode: options.store_mode() };
        let statements = match change {
            0 => store.mode.set(&key("a"), b"1"),
            1 => store.mode.erase(&key("a")),
            _ => store.mode.erase_prefix(&prefix("a/")),
        };
        run(&store.conn, &statements.unwrap());
        assert_eq!(store.metadata().modified_at.unwrap() > at, each);
    }
}

#[test]
fn stores_that_are_only_read_refuse_changes() {
    let mode = Options::new_memory().store_mode();
    assert!(matches!(mode.set(&key("a"), b"1"), Err(StorageError::ReadOnly)));
    assert!(matches!(mode.erase(&key("a")), Err(StorageError::ReadOnly)));
    assert!(matches!(mode.erase_prefix(&prefix("a/")), Err(StorageError::ReadOnly)));
    assert!(matches!(mode.set_partial(), StorageError::ReadOnly));
    assert!(matches!(mode.set_partial_many(), StorageError::ReadOnly));
    assert!(mode.checkpoint().is_none());
    assert!(mode.update_modified_at().is_empty());
    assert!(store::open(&Options::new_memory(), false).is_empty());
}

#[test]
fn partial_writes_are_unsupported() {
    let mode = Options::new_memory().write().store_mode();
    match mode.set_partial() {
        StorageError::Unsupported(text) => assert_eq!(text, "set_partial is unsupported"),
        other => panic!("{other:?}"),
    }
    match mode.set_partial_many() {
        StorageError::Unsupported(text) => assert_eq!(text, "set_partial_many is unsupported"),
        other => panic!("{other:?}"),
    }
}

#[test]
fn maintenance_statements() {
    let store = Memory::created();
    let checkpoint = store.mode.checkpoint().unwrap();
    assert_eq!(checkpoint.sql, "PRAGMA wal_checkpoint(TRUNCATE);");
    assert_eq!(store::vacuum().sql, "VACUUM;");
    run(&store.conn, &[store::vacuum()]);
}

#[test]
fn set_overwrites_and_erase_removes() {
    let store = Memory::created();
    let (a, b) = (key("a"), key("b"));
    assert_eq!(store.get(&a), None);
    assert_eq!(store.size(&a), None);
    store.set(&a, b"one");
    store.set(&b, b"");
    store.set(&a, b"two!");
    assert_eq!(store.get(&a).unwrap(), b"two!");
    assert_eq!(store.get(&b).unwrap(), b"");
    assert_eq!(store.size(&a), Some(4));
    assert_eq!(store.size(&b), Some(0));
    run(&store.conn, &store.mode.erase(&a).unwrap());
    assert_eq!(store.get(&a), None);
    assert_eq!(store.get(&b).unwrap(), b"");
    run(&store.conn, &store.mode.erase(&a).unwrap());
    assert_eq!(store.list_prefix(""), ["b"]);
}

#[test]
fn ranges_at_the_edges_of_a_value() {
    let store = Memory::created();
    let k = key("k");
    store.set(&k, b"abc");
    let read = |range| store.get_partial(&k, range).unwrap();
    assert_eq!(read(ByteRange::FromStart(0, None)), b"abc");
    assert_eq!(read(ByteRange::FromStart(3, None)), b"");
    assert_eq!(read(ByteRange::FromStart(1, Some(0))), b"");
    assert_eq!(read(ByteRange::FromStart(2, Some(9))), b"c");
    assert_eq!(read(ByteRange::FromStart(9, Some(1))), b"");
    assert_eq!(read(ByteRange::Suffix(3)), b"abc");
    assert_eq!(read(ByteRange::Suffix(4)), b"abc");
    assert_eq!(read(ByteRange::Suffix(0)), b"");
    assert_eq!(read(ByteRange::Suffix(1_000_000_000)), b"abc");
    assert_eq!(read(ByteRange::Suffix(1_000_000_001)), b"ab");
    assert_eq!(read(ByteRange::Suffix(2_000_000_000)), b"");
    assert_eq!(store.get_partial(&key("other"), ByteRange::Suffix(1)), None);
}

#[test]
fn several_ranges_are_read_at_once() {
    let store = Memory::created();
    let k = key("k");
    store.set(&k, b"Hello, world!");
    let ranges = [ByteRange::Suffix(1), ByteRange::FromStart(0, Some(2))];
    let statement = store::get_partial_many(&k, &ranges).unwrap();
    let read: Vec<Vec<u8>> = store
        .conn
        .query_row(&statement.sql, params_from_iter(params(&statement)), |r| {
            Ok((0..ranges.len()).map(|i| r.get(i).unwrap()).collect())
        })
        .unwrap();
    assert_eq!(read, [b"!".to_vec(), b"He".to_vec()]);
    assert!(store::get_partial_many(&k, &[]).is_none());
}

#[test]
fn prefixes_select_what_stands_below_them() {
    let store = Memory::created();
    for k in ["a", "a/b", "a/b/c", "a/b0", "a0", "a-b", "ab/c", "a/\u{10FFFF}", "é/x", "b/c/d/e"] {
        store.set(&key(k), b"v");
    }
    assert_eq!(store.list_prefix("a/"), ["a/b", "a/b/c", "a/b0", "a/\u{10FFFF}"]);
    assert_eq!(store.list_prefix("a/b/"), ["a/b/c"]);
    assert_eq!(store.list_prefix("é/"), ["é/x"]);
    assert_eq!(store.list_prefix("none/"), [""; 0]);
    assert_eq!(
        store.list_dir("a/"),
        (
            vec!["a/b".to_string(), "a/b0".to_string(), "a/\u{10FFFF}".to_string()],
            vec!["a/b/".to_string()]
        )
    );
    assert_eq!(
        store.list_dir(""),
        (
            vec!["a".to_string(), "a-b".to_string(), "a0".to_string()],
            ["a/", "ab/", "b/", "é/"].map(String::from).to_vec()
        )
    );
    assert_eq!(store.list_dir("b/"), (vec![], vec!["b/c/".to_string()]));
}

#[test]
fn erasing_a_prefix() {
    let store = Memory::created();
    for k in ["1/2", "1/2/3", "1", "10", "2/1/2", "1-2"] {
        store.set(&key(k), b"v");
    }
    run(&store.conn, &store.mode.erase_prefix(&prefix("1/")).unwrap());
    assert_eq!(store.list_prefix(""), ["1", "1-2", "10", "2/1/2"]);
    run(&store.conn, &store.mode.erase_prefix(&prefix("")).unwrap());
    assert_eq!(store.list_prefix(""), [""; 0]);
}

#[test]
fn erasing_a_prefix_takes_it_literally() {
    let store = Memory::created();
    for k in ["a/b", "A/b", "x_/1", "xy/1", "%/1", "b/a/c", "é/1", "n\0/1", "n/1"] {
        store.set(&key(k), b"v");
    }
    let erase = |p: &str| {
        run(&store.conn, &store.mode.erase_prefix(&prefix(p)).unwrap());
        assert_eq!(store.list_prefix(p), [""; 0]);
    };
    erase("a/");
    assert_eq!(store.list_prefix(""), ["%/1", "A/b", "b/a/c", "n\0/1", "n/1", "x_/1", "xy/1", "é/1"]);
    erase("x_/");
    erase("%/");
    erase("é/");
    assert_eq!(store.list_prefix(""), ["A/b", "b/a/c", "n\0/1", "n/1", "xy/1"]);
    erase("n\0/");
    assert_eq!(store.list_prefix(""), ["A/b", "b/a/c", "n/1", "xy/1"]);
    erase("");
    assert_eq!(store.list_prefix(""), [""; 0]);
}

#[test]
fn the_root_is_listed_in_order() {
    let store = Memory::created();
    for k in ["b/2", "c", "a/1", "b/1", "a", "a-", "a0", "é"] {
        store.set(&key(k), b"v");
    }
    let rows = pairs(&store.conn, &store::list_dir(&prefix("")));
    let expected = [
        ("k", "a"),
        ("k", "a-"),
        ("p", "a/"),
        ("k", "a0"),
        ("p", "b/"),
        ("k", "c"),
        ("k", "é"),
    ];
    assert_eq!(rows, expected.map(|(t, p)| (t.to_string(), p.to_string())));
}

#[test]
fn writing_metadata_keeps_unknown_entries() {
    let store = Memory::created();
    store.put_metadata("custom", "kept");
    store.put_metadata("both", "old");
    let mut metadata = store.metadata();
    let mut unknown = TextMap::new();
    unknown.insert("both".to_string(), "new".to_string());
    unknown.insert("added".to_string(), "too".to_string());
    metadata.unknown = unknown;
    metadata.compatible_flags = "y,x".parse().unwrap();
    metadata.created_by = None;
    metadata.created_at = Timestamp::from_nanosecond(7).unwrap();
    metadata.modified_at = Timestamp::from_nanosecond(8);
    let statements = store::write_metadata(&metadata);
    assert_eq!(statements.len(), 5);
    run(&store.conn, &statements);
    let read = store.metadata();
    assert_eq!(read.unknown.get("custom"), Some("kept"));
    assert_eq!(read.unknown.get("both"), Some("new"));
    assert_eq!(read.unknown.get("added"), Some("too"));
    assert_eq!(read.compatible_flags.iter(), vec!["x", "y"]);
    assert_eq!(read.created_by.as_deref(), Some("zarrs_sqlite v0.1.0"));
    assert_eq!(read.created_at.as_nanosecond(), 7);
    assert_eq!(read.modified_at.unwrap().as_nanosecond(), 8);
}

#[test]
fn metadata_without_a_modification_was_modified_when_created() {
    let store = Memory::created();
    store.conn.execute("DELETE FROM zarr_sqlitestore_metadata;", []).unwrap();
    let mut metadata = Options::new_memory().metadata_at(Timestamp::from_nanosecond(7).unwrap());
    metadata.modified_at = None;
    run(&store.conn, &store::write_metadata(&metadata));
    assert_eq!(store.metadata_rows().len(), 5);
    assert_eq!(store.metadata().modified_at, Timestamp::from_nanosecond(7));
}

#[test]
fn rows_that_are_no_keys_are_ignored() {
    let rows = ["a", "/a", "b/c", "b/", "", "x//y"].map(String::from).to_vec();
    let keys = store::store_keys(&rows);
    let shown: Vec<&str> = keys.iter().map(|k| k.as_str()).collect();
    assert_eq!(shown, ["a", "b/c", ""]);
}

#[test]
fn directory_rows_are_told_apart_by_type() {
    let rows: Vec<(String, String)> = [
        ("p", "x/"),
        ("k", "a"),
        ("q", "a"),
        ("k", "a/"),
        ("p", "b"),
        ("", "c"),
        ("p", "y/z/"),
        ("k", "b/c"),
    ]
    .map(|(t, p)| (t.to_string(), p.to_string()))
    .to_vec();
    let listing = store::store_keys_prefixes(&rows);
    let keys: Vec<&str> = listing.keys.iter().map(|k| k.as_str()).collect();
    let prefixes: Vec<&str> = listing.prefixes.iter().map(|p| p.as_str()).collect();
    assert_eq!(keys, ["a", "b/c"]);
    assert_eq!(prefixes, ["x/", "y/z/"]);
}

#[test]
fn directory_entries() {
    assert!(matches!(store::dir_entry("k", "a/b"), DirEntry::Key(k) if k.as_str() == "a/b"));
    assert!(matches!(store::dir_entry("p", "a/"), DirEntry::Prefix(p) if p.as_str() == "a/"));
    assert!(matches!(store::dir_entry("k", "a/"), DirEntry::InvalidKey));
    assert!(matches!(store::dir_entry("p", "a"), DirEntry::InvalidPrefix));
    assert!(matches!(store::dir_entry("K", "a"), DirEntry::UnknownType));
}

#[test]
fn metadata_that_was_read_is_read_again() {
    let rows: Vec<(String, String)> = [
        ("sqlitestore_version", "1.4"),
        ("compatible_flags", "b,,a,b"),
        ("created_time", "2024-05-06T09:08:09+02:00"),
        ("custom", "kept"),
    ]
    .map(|(k, v)| (k.to_string(), v.to_string()))
    .to_vec();
    let read = Metadata::from_rows(&rows).unwrap();
    let store = Memory::created();
    store.conn.execute("DELETE FROM zarr_sqlitestore_metadata;", []).unwrap();
    run(&store.conn, &store::write_metadata(&read));
    let again = store.metadata();
    assert_eq!(again.sqlitestore_version, read.sqlitestore_version);
    assert_eq!(again.compatible_flags.iter(), vec!["a", "b"]);
    assert_eq!(again.created_at, read.created_at);
    assert_eq!(again.modified_at, read.modified_at);
    assert_eq!(again.created_by, None);
    assert_eq!(again.unknown, read.unknown);
}

#[test]
fn sizes() {
    assert_eq!(store::size_from_row(None), None);
    assert_eq!(store::size_from_row(Some(0)), Some(0));
    assert_eq!(store::size_from_row(Some(i64::MAX)), Some(i64::MAX as u64));
    assert_eq!(store::size_from_row(Some(-1)), Some(u64::MAX));
    let store = Memory::created();
    let total = store::size_prefix(&prefix(""));
    assert_eq!(one::<i64>(&store.conn, &total), Some(0));
    store.set(&key("a/b"), b"1");
    store.set(&key("a/b"), b"12345");
    store.set(&key("c"), b"67");
    let size: i64 = store.conn.query_row(&total.sql, [], |r| r.get(0)).unwrap();
    assert_eq!(size, 7);
    let below = |p: &str| one::<i64>(&store.conn, &store::size_prefix(&prefix(p)));
    assert_eq!(below("a/"), Some(5));
    store.set(&key("a/c/d"), b"123");
    store.set(&key("a0"), b"1234567890");
    assert_eq!(below("a/"), Some(8));
    assert_eq!(below("a/c/"), Some(3));
    assert_eq!(below("none/"), Some(0));
    assert_eq!(below(""), Some(20));
}

#[test]
fn erasing_undoes_setting() {
    let store = Memory::created();
    store.set(&key("a"), b"1");
    store.set(&key("b"), b"2");
    run(&store.conn, &store.mode.erase(&key("b")).unwrap());
    assert_eq!(store.list_prefix(""), ["a"]);
    assert_eq!(store.get(&key("a")).unwrap(), b"1");
}

#[test]
fn the_database_sorts_by_code_point() {
    let store = Memory::created();
    let ascending = ["", "/", "0", "a", "a/", "a/b", "a0", "é", "\u{7FF}", "\u{800}", "\u{FFFD}", "\u{10000}"];
    for (i, a) in ascending.iter().enumerate() {
        for (j, b) in ascending.iter().enumerate() {
            let less: bool = store
                .conn
                .query_one("SELECT ?1 < ?2;", (a, b), |r| r.get(0))
                .unwrap();
            assert_eq!(less, i < j, "{a:?} < {b:?}");
        }
    }
    let flags: zarrs_sqlite::Flags = "\u{10000},a0,\u{FFFD},é,a,\u{800},a/".parse().unwrap();
    assert_eq!(
        flags.iter(),
        vec!["a", "a/", "a0", "é", "\u{800}", "\u{FFFD}", "\u{10000}"]
    );
}
