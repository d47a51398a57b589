use zarrs_sqlite::keys::{ByteRange, StoreKey, StorePrefix};
use zarrs_sqlite::{queries, Metadata, Options, Timestamp, Version, APPLICATION_ID};

fn key(text: &str) -> StoreKey {
    StoreKey::new(text).unwrap()
}

fn prefix(text: &str) -> StorePrefix {
    StorePrefix::new(text).unwrap()
}

fn metadata() -> Metadata {
    let mut metadata = Options::new_memory()
        .created_by("me".to_string())
        .metadata_at(Timestamp::from_nanosecond(0).unwrap());
    metadata.sqlitestore_version = Version::new(2, 7);
    metadata.compatible_flags = "b,a".parse().unwrap();
    metadata
}

#[test]
fn schema() {
    assert_eq!(APPLICATION_ID, 0x10b50760);
    assert_eq!(
        queries::set_application_id_pragma(),
        "PRAGMA application_id = 0x10b50760;"
    );
    assert_eq!(
        queries::create_schema_queries(),
        format!(
            "BEGIN;\n{}\n{}\n{}\nCOMMIT;",
            queries::set_application_id_pragma(),
            queries::create_metadata_table_query(),
            queries::create_zarr_table_query()
        )
    );
    assert!(queries::create_metadata_table_query()
        .starts_with("CREATE TABLE zarr_sqlitestore_metadata("));
    assert!(queries::create_zarr_table_query().contains("v BLOB NOT NULL"));
}

#[test]
fn partial_support() {
    assert!(queries::SUPPORTS_GET_PARTIAL);
    assert!(!queries::SUPPORTS_SET_PARTIAL);
}

#[test]
fn metadata_queries() {
    let metadata = metadata();
    let (sql, params) = queries::insert_core_metadata_query(&metadata);
    assert!(sql.contains("('incompatible_flags', ?3)"));
    assert_eq!(params, ["2.7".to_string(), "a,b".to_string(), "".to_string()]);
    let (sql, params) = queries::maybe_insert_created_by_query(&metadata).unwrap();
    assert!(sql.starts_with("INSERT INTO zarr_sqlitestore_metadata(k, v) VALUES(?1, ?2)\n"));
    assert_eq!(params, ("created_by", "me"));
    let (sql, params) = queries::insert_created_time_query(&metadata);
    assert!(sql.contains("VALUES('created_time', ?1)"));
    assert_eq!(params, ("1970-01-01T00:00:00Z".to_string(),));
    let (sql, params) = queries::maybe_insert_modified_at_query(&metadata).unwrap();
    assert!(sql.contains("VALUES('modified_at', ?1)"));
    assert_eq!(params, ("1970-01-01T00:00:00Z".to_string(),));
    let (sql, params) = queries::insert_unknown_metadata_query("k", "v");
    assert!(sql.ends_with("ON CONFLICT(k) DO UPDATE SET v = excluded.v;"));
    assert_eq!(params, ("k", "v"));
    assert_eq!(
        queries::read_metadata_query(),
        "SELECT k, v FROM zarr_sqlitestore_metadata;"
    );
    assert!(queries::update_modified_at_query().contains("'modified_at'"));
}

#[test]
fn metadata_queries_of_what_is_not_there() {
    let mut metadata = metadata();
    metadata.created_by = None;
    metadata.modified_at = None;
    assert_eq!(queries::maybe_insert_created_by_query(&metadata), None);
    assert_eq!(queries::maybe_insert_modified_at_query(&metadata), None);
}

#[test]
fn prefix_queries() {
    let (sql, (lower, upper)) = queries::list_prefix_query(&prefix("a/b/")).unwrap();
    assert_eq!(sql, "SELECT k FROM zarr WHERE k > ?1 AND k < ?2;");
    assert_eq!((lower.as_str(), upper.as_str()), ("a/b/", "a/b0"));
    let (sql, (lower, upper)) = queries::list_dir_query(&prefix("é/")).unwrap();
    assert!(sql.starts_with("WITH matches AS ("));
    assert_eq!((lower.as_str(), upper.as_str()), ("é/", "é0"));
    let (sql, (lower, upper)) = queries::size_prefix_query(&prefix("a/")).unwrap();
    assert_eq!(
        sql,
        "SELECT coalesce(sum(length(v)), 0) FROM zarr WHERE k > ?1 AND k < ?2;"
    );
    assert_eq!((lower.as_str(), upper.as_str()), ("a/", "a0"));
    assert_eq!(queries::list_prefix_query(&prefix("")), None);
    assert_eq!(queries::list_dir_query(&prefix("")), None);
    assert_eq!(queries::size_prefix_query(&prefix("")), None);
    assert_eq!(queries::list_all_query(), "SELECT k FROM zarr;");
    assert_eq!(queries::size_total_query(), "SELECT coalesce(sum(length(v)), 0) FROM zarr;");
    assert!(queries::list_dir_root_query().ends_with("ORDER BY path;"));
}

#[test]
fn key_queries() {
    let k = key("a/b");
    assert_eq!(queries::get_query(&k), ("SELECT v FROM zarr WHERE k = ?;", ("a/b",)));
    assert_eq!(
        queries::get_size_query(&k),
        ("SELECT length(v) FROM zarr WHERE k = ? LIMIT 1;", ("a/b",))
    );
    let (sql, params) = queries::set_query(&k, b"xy");
    assert_eq!(
        sql,
        "INSERT INTO zarr(k, v) VALUES(?1, ?2) ON CONFLICT (k) DO UPDATE SET v = excluded.v;"
    );
    assert_eq!(params, ("a/b", &b"xy"[..]));
    assert_eq!(queries::erase_query(&k), ("DELETE FROM zarr WHERE k = ?;", ("a/b",)));
    assert_eq!(
        queries::erase_prefix_query(&prefix("a/")),
        ("DELETE FROM zarr WHERE instr(k, ?1) = 1;", ("a/".to_string(),))
    );
    assert_eq!(queries::erase_prefix_query(&prefix("")).1, ("".to_string(),));
}

#[test]
fn partial_queries() {
    let k = key("k");
    let text = |range| queries::get_partial_query(&k, range).0;
    assert_eq!(
        text(ByteRange::FromStart(0, Some(5))),
        "SELECT substr(v, 1, 5) FROM zarr WHERE k = ? LIMIT 1;"
    );
    assert_eq!(
        text(ByteRange::FromStart(8, None)),
        "SELECT substr(v, 9) FROM zarr WHERE k = ? LIMIT 1;"
    );
    assert_eq!(
        text(ByteRange::Suffix(6)),
        "SELECT substr(v, -6) FROM zarr WHERE k = ? LIMIT 1;"
    );
    assert_eq!(
        text(ByteRange::Suffix(0)),
        "SELECT substr(v, 1, 0) FROM zarr WHERE k = ? LIMIT 1;"
    );
    assert_eq!(
        text(ByteRange::FromStart(u64::MAX - 1, Some(u64::MAX))),
        "SELECT substr(v, 18446744073709551615, 18446744073709551615) FROM zarr WHERE k = ? LIMIT 1;"
    );
    assert_eq!(queries::get_partial_query(&k, ByteRange::Suffix(1)).1, ("k",));
}

#[test]
fn partial_many_queries() {
    let k = key("k");
    assert_eq!(queries::get_partial_many_query(&k, &[]), None);
    let (sql, params, count) =
        queries::get_partial_many_query(&k, &[ByteRange::Suffix(3)]).unwrap();
    assert_eq!(sql, "SELECT substr(v, -3) FROM zarr WHERE k = ? LIMIT 1;");
    assert_eq!(params, ("k",));
    assert_eq!(count, 1);
    let ranges = [
        ByteRange::FromStart(0, Some(1)),
        ByteRange::FromStart(10, None),
        ByteRange::Suffix(2),
    ];
    let (sql, _, count) = queries::get_partial_many_query(&k, &ranges).unwrap();
    assert_eq!(
        sql,
        "SELECT substr(v, 1, 1), substr(v, 11), substr(v, -2) FROM zarr WHERE k = ? LIMIT 1;"
    );
    assert_eq!(count, 3);
}
