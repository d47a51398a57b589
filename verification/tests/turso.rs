use futures::executor::block_on;
use turso::{Builder, Connection, Row};
use zarrs_sqlite::keys::{ByteRange, StoreKey, StorePrefix};
use zarrs_sqlite::statement::{Statement, Value};
use zarrs_sqlite::{latest_version, queries, store, Metadata, Options, StoreMode};

/// A store on a database in memory.
struct Memory {
    conn: Connection,
    mode: StoreMode,
}

fn params(statement: &Statement) -> Vec<turso::Value> {
    statement
        .params
        .iter()
        .map(|value| match value {
            Value::Text(text) => turso::Value::Text(text.clone()),
            Value::Blob(bytes) => turso::Value::Blob(bytes.to_vec()),
        })
        .collect()
}

fn text(row: &Row, i: usize) -> String {
    row.get_value(i).unwrap().as_text().unwrap().clone()
}

impl Memory {
    fn created() -> Self {
        let options = Options::new_memory().create();
        let found = options.check_existence(false).unwrap();
        let name = options.database_name(None, "").unwrap();
        let database = block_on(Builder::new_local(&name).build()).unwrap();
        let memory = Memory {
            conn: database.connect().unwrap(),
            mode: options.store_mode(),
        };
        memory.run(&store::open(&options, found.init));
        memory
    }

    fn run(&self, statements: &[Statement]) {
        for statement in statements {
            if statement.batch {
                block_on(self.conn.execute_batch(&statement.sql)).unwrap();
            } else {
                block_on(self.conn.execute(&statement.sql, params(statement))).unwrap();
            }
        }
    }

    fn rows(&self, statement: &Statement) -> Vec<Row> {
        let mut rows = block_on(self.conn.query(&statement.sql, params(statement))).unwrap();
        let mut all = Vec::new();
        while let Some(row) = block_on(rows.next()).unwrap() {
            all.push(row);
        }
        all
    }

    fn bytes(&self, statement: &Statement) -> Option<Vec<u8>> {
        self.rows(statement)
            .first()
            .map(|row| row.get_value(0).unwrap().as_blob().unwrap().clone())
    }
}

#[test]
fn turso_store_read_metadata() {
    let store = Memory::created();
    let rows: Vec<(String, String)> = store
        .rows(&Statement::plain(queries::read_metadata_query()))
        .iter()
        .map(|row| (text(row, 0), text(row, 1)))
        .collect();
    let meta = Metadata::from_rows(&rows).unwrap();
    assert_eq!(meta.sqlitestore_version, latest_version());
}

#[test]
fn turso_store_roundtrip_bytes() {
    let store = Memory::created();

    let key = StoreKey::new("test_key").unwrap();
    let data = b"Hello, world!";
    store.run(&store.mode.set(&key, data).unwrap());

    let read_data = store.bytes(&store::get(&key)).unwrap();
    assert_eq!(data, &read_data[..]);
}

#[test]
fn turso_store_partial_bytes() {
    let store = Memory::created();

    let key = StoreKey::new("test_key").unwrap();
    let data = b"Hello, world!";
    store.run(&store.mode.set(&key, data).unwrap());

    let test_partial_read = |br: ByteRange, expected: &[u8]| {
        let read = store.bytes(&store::get_partial(&key, br)).unwrap();
        assert_eq!(expected, &read[..]);
    };

    test_partial_read(ByteRange::FromStart(0, Some(5)), &data[0..5]);
    test_partial_read(ByteRange::FromStart(8, None), &data[8..]);
    test_partial_read(ByteRange::FromStart(8, Some(3)), &data[8..11]);
    test_partial_read(ByteRange::Suffix(6), &data[data.len() - 6..]);
}

#[test]
fn turso_store_list_keys() {
    let store = Memory::created();

    let keys = ["a", "a/b", "a/c/d"];
    let data = b"Hello, world!";
    for k in keys {
        store.run(&store.mode.set(&StoreKey::new(k).unwrap(), data).unwrap());
    }

    let list = |prefix: &str| -> Vec<String> {
        let statement = store::list_prefix(&StorePrefix::new(prefix).unwrap());
        let rows: Vec<String> = store.rows(&statement).iter().map(|row| text(row, 0)).collect();
        let mut keys: Vec<String> = store::store_keys(&rows)
            .iter()
            .map(|key| key.as_str().to_string())
            .collect();
        keys.sort();
        keys
    };
    assert_eq!(list(""), keys);

    let statement = store::list_dir(&StorePrefix::new("a/").unwrap());
    let rows: Vec<(String, String)> = store
        .rows(&statement)
        .iter()
        .map(|row| (text(row, 0), text(row, 1)))
        .collect();
    let children = store::store_keys_prefixes(&rows);
    let child_keys: Vec<&str> = children.keys.iter().map(|k| k.as_str()).collect();
    let child_prefixes: Vec<&str> = children.prefixes.iter().map(|p| p.as_str()).collect();
    assert_eq!(child_keys, ["a/b"]);
    assert_eq!(child_prefixes, ["a/c/"]);

    assert_eq!(list("a/"), ["a/b", "a/c/d"]);
}

#[test]
fn sizes_and_erasure() {
    let store = Memory::created();
    let number = |prefix: &str| -> i64 {
        let statement = store::size_prefix(&StorePrefix::new(prefix).unwrap());
        *store.rows(&statement)[0].get_value(0).unwrap().as_integer().unwrap()
    };
    assert_eq!(number(""), 0);
    for k in ["a/b", "A/b", "a/c/d", "x_/1", "xy/1"] {
        let key = StoreKey::new(k).unwrap();
        store.run(&store.mode.set(&key, b"12345").unwrap());
    }
    assert_eq!(number(""), 25);
    assert_eq!(number("a/"), 10);
    assert_eq!(number("none/"), 0);
    let erase = |prefix: &str| {
        let prefix = StorePrefix::new(prefix).unwrap();
        store.run(&store.mode.erase_prefix(&prefix).unwrap());
    };
    erase("a/");
    assert_eq!((number("a/"), number("A/"), number("")), (0, 5, 15));
    erase("x_/");
    assert_eq!((number("xy/"), number("")), (5, 10));
    erase("");
    assert_eq!(number(""), 0);
}

#[test]
fn suffixes() {
    let store = Memory::created();
    let key = StoreKey::new("k").unwrap();
    store.run(&store.mode.set(&key, b"abc").unwrap());
    let read = |n: u64| store.bytes(&store::get_partial(&key, ByteRange::Suffix(n))).unwrap();
    assert_eq!(read(0), b"");
    assert_eq!(read(2), b"bc");
    assert_eq!(read(4), b"abc");
}
