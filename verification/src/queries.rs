//! The SQL statements of the store, and their parameters.

use vstd::prelude::*;
use vstd::string::StringExecFns;
use crate::flags::flags_text;
use crate::keys::{is_store_prefix, ByteRange, StoreKey, StorePrefix};
use crate::metadata::SqliteStoreMetadata;
use crate::numeral::{decimal, hexadecimal, push_decimal, push_hexadecimal};
use crate::text::{chars_of, text_of};
use crate::timestamp::{instant_text, read_instant};
use crate::version::version_text;

verus! {

/// The application id of the databases that hold a store.
pub const APPLICATION_ID: u32 = 0x10b50760;

pub const SUPPORTS_GET_PARTIAL: bool = true;

pub const SUPPORTS_SET_PARTIAL: bool = false;

pub const CREATE_METADATA_TABLE_SQL: &'static str = "CREATE TABLE zarr_sqlitestore_metadata(
        k TEXT PRIMARY KEY NOT NULL,
        v TEXT NOT NULL
    );";

pub const CREATE_ZARR_TABLE_SQL: &'static str = "CREATE TABLE zarr (
        k TEXT PRIMARY KEY NOT NULL,
        v BLOB NOT NULL
    );";

pub const UPDATE_MODIFIED_AT_SQL: &'static str = "INSERT INTO zarr_sqlitestore_metadata(k, v) VALUES ('modified_at', strftime('%Y-%m-%dT%H:%M:%fZ', 'now', 'utc', 'subsec')) ON CONFLICT(k)
    DO UPDATE SET v = excluded.v;;";

pub const READ_METADATA_SQL: &'static str = "SELECT k, v FROM zarr_sqlitestore_metadata;";

pub const INSERT_UNKNOWN_METADATA_SQL: &'static str = "INSERT INTO zarr_sqlitestore_metadata(k, v) VALUES(?1, ?2) ON CONFLICT(k) DO UPDATE SET v = excluded.v;";

pub const INSERT_CORE_METADATA_SQL: &'static str = "INSERT INTO zarr_sqlitestore_metadata (k, v) VALUES
                ('sqlitestore_version', ?1),
                ('compatible_flags', ?2),
                ('incompatible_flags', ?3)
            ON CONFLICT(k) DO UPDATE SET v=excluded.v;";

pub const INSERT_METADATA_KV_SQL: &'static str = "INSERT INTO zarr_sqlitestore_metadata(k, v) VALUES(?1, ?2)
            ON CONFLICT DO UPDATE SET v=excluded.v;";

pub const INSERT_CREATED_TIME_SQL: &'static str = "INSERT INTO zarr_sqlitestore_metadata(k, v) VALUES('created_time', ?1)
            ON CONFLICT DO UPDATE SET v=excluded.v;";

pub const INSERT_MODIFIED_AT_SQL: &'static str = "INSERT INTO zarr_sqlitestore_metadata(k, v) VALUES('modified_at', ?1)
            ON CONFLICT DO UPDATE SET v=excluded.v;";

pub const LIST_PREFIX_SQL: &'static str = "SELECT k FROM zarr WHERE k > ?1 AND k < ?2;";

pub const LIST_DIR_ROOT_SQL: &'static str = "SELECT
        'k' AS type,
        k AS path
    FROM zarr
    WHERE instr(k, '/') = 0

    UNION

    SELECT DISTINCT
        'p' AS type,
        substr(k, 1, instr(k, '/')) AS path
    FROM zarr
    WHERE instr(k, '/') > 0

    ORDER BY path;";

pub const LIST_DIR_SQL: &'static str = "WITH matches AS (
        SELECT
            k,
            substr(k, length(?1) + 1) AS rest
        FROM zarr
        WHERE k > ?1
          AND k < ?2
    )
    SELECT
        'k' AS type,
        k AS path
    FROM matches
    WHERE instr(rest, '/') = 0

    UNION

    SELECT DISTINCT
        'p' AS type,
        ?1 || substr(rest, 1, instr(rest, '/')) AS path
    FROM matches
    WHERE instr(rest, '/') > 0;";

pub const GET_SQL: &'static str = "SELECT v FROM zarr WHERE k = ?;";

pub const GET_SIZE_SQL: &'static str = "SELECT length(v) FROM zarr WHERE k = ? LIMIT 1;";

pub const LIST_ALL_SQL: &'static str = "SELECT k FROM zarr;";

pub const SIZE_PREFIX_SQL: &'static str = "SELECT coalesce(sum(length(v)), 0) FROM zarr WHERE k > ?1 AND k < ?2;";

pub const SIZE_TOTAL_SQL: &'static str = "SELECT coalesce(sum(length(v)), 0) FROM zarr;";

pub const SET_SQL: &'static str = "INSERT INTO zarr(k, v) VALUES(?1, ?2) ON CONFLICT (k) DO UPDATE SET v = excluded.v;";

pub const ERASE_SQL: &'static str = "DELETE FROM zarr WHERE k = ?;";

pub const ERASE_PREFIX_SQL: &'static str = "DELETE FROM zarr WHERE instr(k, ?1) = 1;";

/// The statement that marks a database as holding a store.
pub open spec fn application_id_pragma() -> Seq<char> {
    "PRAGMA application_id = 0x"@ + hexadecimal(APPLICATION_ID as nat) + ";"@
}

/// The batch that sets up a new database: the mark and the two tables, in one transaction.
pub open spec fn schema_batch() -> Seq<char> {
    "BEGIN;\n"@ + application_id_pragma() + "\n"@ + CREATE_METADATA_TABLE_SQL@ + "\n"@
        + CREATE_ZARR_TABLE_SQL@ + "\nCOMMIT;"@
}

pub fn set_application_id_pragma() -> (sql: String)
    ensures
        sql@ == application_id_pragma(),
{
    let mut sql = "PRAGMA application_id = 0x".to_owned();
    push_hexadecimal(&mut sql, APPLICATION_ID);
    sql.append(";");
    sql
}

pub fn create_metadata_table_query() -> (sql: &'static str)
    ensures
        sql@ == CREATE_METADATA_TABLE_SQL@,
{
    CREATE_METADATA_TABLE_SQL
}

pub fn create_zarr_table_query() -> (sql: &'static str)
    ensures
        sql@ == CREATE_ZARR_TABLE_SQL@,
{
    CREATE_ZARR_TABLE_SQL
}

pub fn create_schema_queries() -> (sql: String)
    ensures
        sql@ == schema_batch(),
{
    let mut sql = "BEGIN;\n".to_owned();
    sql.append(set_application_id_pragma().as_str());
    sql.append("\n");
    sql.append(create_metadata_table_query());
    sql.append("\n");
    sql.append(create_zarr_table_query());
    sql.append("\nCOMMIT;");
    sql
}

pub fn update_modified_at_query() -> (sql: &'static str)
    ensures
        sql@ == UPDATE_MODIFIED_AT_SQL@,
{
    UPDATE_MODIFIED_AT_SQL
}

pub fn read_metadata_query() -> (sql: &'static str)
    ensures
        sql@ == READ_METADATA_SQL@,
{
    READ_METADATA_SQL
}

pub fn insert_unknown_metadata_query<'a>(k: &'a str, v: &'a str) -> (query: (
    &'static str,
    (&'a str, &'a str),
))
    ensures
        query.0@ == INSERT_UNKNOWN_METADATA_SQL@,
        query.1.0@ == k@,
        query.1.1@ == v@,
{
    (INSERT_UNKNOWN_METADATA_SQL, (k, v))
}

pub fn insert_core_metadata_query(metadata: &SqliteStoreMetadata) -> (query: (
    &'static str,
    [String; 3],
))
    ensures
        query.0@ == INSERT_CORE_METADATA_SQL@,
        query.1@[0]@ == version_text(metadata@.sqlitestore_version),
        query.1@[1]@ == flags_text(metadata@.compatible_flags),
        query.1@[2]@ == flags_text(metadata@.incompatible_flags),
{
    (
        INSERT_CORE_METADATA_SQL,
        [
            metadata.sqlitestore_version.to_string(),
            metadata.compatible_flags.to_string(),
            metadata.incompatible_flags.to_string(),
        ],
    )
}

fn maybe_insert_metadata_kv_query<'a>(k: &'a str, v: Option<&'a str>) -> (query: Option<
    (&'static str, (&'a str, &'a str)),
>)
    ensures
        query is Some <==> v is Some,
        query matches Some(query) ==> {
            &&& query.0@ == INSERT_METADATA_KV_SQL@
            &&& query.1.0@ == k@
            &&& query.1.1@ == v->0@
        },
{
    match v {
        Some(v) => Some((INSERT_METADATA_KV_SQL, (k, v))),
        None => None,
    }
}

/// None if the metadata names no creator.
pub fn maybe_insert_created_by_query(metadata: &SqliteStoreMetadata) -> (query: Option<
    (&'static str, (&str, &str)),
>)
    ensures
        query is Some <==> metadata@.created_by is Some,
        query matches Some(query) ==> {
            &&& query.0@ == INSERT_METADATA_KV_SQL@
            &&& query.1.0@ == "created_by"@
            &&& Some(query.1.1@) == metadata@.created_by
        },
{
    let created_by = match &metadata.created_by {
        Some(created_by) => Some(created_by.as_str()),
        None => None,
    };
    maybe_insert_metadata_kv_query("created_by", created_by)
}

/// Records when the store was created.
pub fn insert_created_time_query(metadata: &SqliteStoreMetadata) -> (query: (
    &'static str,
    (String,),
))
    ensures
        query.0@ == INSERT_CREATED_TIME_SQL@,
        query.1.0@ == instant_text(metadata@.created_at),
        read_instant(query.1.0@) == Some(metadata@.created_at),
{
    (INSERT_CREATED_TIME_SQL, (metadata.created_at.to_string(),))
}

/// None if the metadata has no time of modification.
pub fn maybe_insert_modified_at_query(metadata: &SqliteStoreMetadata) -> (query: Option<
    (&'static str, (String,)),
>)
    ensures
        query is Some <==> metadata@.modified_at is Some,
        query matches Some(query) ==> {
            &&& query.0@ == INSERT_MODIFIED_AT_SQL@
            &&& query.1.0@ == instant_text(metadata@.modified_at->0)
            &&& read_instant(query.1.0@) == metadata@.modified_at
        },
{
    match &metadata.modified_at {
        Some(modified_at) => Some((INSERT_MODIFIED_AT_SQL, (modified_at.to_string(),))),
        None => None,
    }
}

/// The text that ends the range of the keys below a prefix: the prefix with its last character, a
/// slash, replaced by `0`, which comes next after the slash.
pub open spec fn upper_text(prefix: Seq<char>) -> Seq<char> {
    prefix.drop_last().push('0')
}

/// If the store prefix is not the root (empty), returns a string that is the prefix with the trailing `/` replaced by `0`.
///
/// Used in descendant-listing queries.
fn prefix_upper(prefix: &StorePrefix) -> (upper: Option<String>)
    ensures
        match upper {
            Some(upper) => prefix@.len() > 0 && upper@ == upper_text(prefix@),
            None => prefix@.len() == 0,
        },
        is_store_prefix(prefix@),
{
    let chars = chars_of(prefix.as_str());
    if chars.len() == 0 {
        return None;
    }
    let mut upper = text_of(&chars, 0, chars.len() - 1);
    upper.push('0');
    assert(upper@ =~= upper_text(prefix@));
    Some(upper)
}

/// Returns None if root.
pub fn list_prefix_query(prefix: &StorePrefix) -> (query: Option<(&'static str, (String, String))>)
    ensures
        query is None <==> prefix@.len() == 0,
        query matches Some(query) ==> {
            &&& query.0@ == LIST_PREFIX_SQL@
            &&& query.1.0@ == prefix@
            &&& query.1.1@ == upper_text(prefix@)
        },
{
    match prefix_upper(prefix) {
        Some(upper) => Some((LIST_PREFIX_SQL, (prefix.as_str().to_owned(), upper))),
        None => None,
    }
}

/// Query for list_dir on the root of the store (empty prefix).
///
/// Query returns 2 columns: `type` (either `'k'` for key or `'p'` for prefix) and `path` (which will end with `/` for prefixes).
pub fn list_dir_root_query() -> (sql: &'static str)
    ensures
        sql@ == LIST_DIR_ROOT_SQL@,
{
    LIST_DIR_ROOT_SQL
}

/// Query for list_dir.
///
/// Query returns 2 columns: `type` (either `'k'` for key or `'p'` for prefix) and `path` (which will end with `/` for prefixes).
pub fn list_dir_query(prefix: &StorePrefix) -> (query: Option<(&'static str, (String, String))>)
    ensures
        query is None <==> prefix@.len() == 0,
        query matches Some(query) ==> {
            &&& query.0@ == LIST_DIR_SQL@
            &&& query.1.0@ == prefix@
            &&& query.1.1@ == upper_text(prefix@)
        },
{
    match prefix_upper(prefix) {
        Some(upper) => Some((LIST_DIR_SQL, (prefix.as_str().to_owned(), upper))),
        None => None,
    }
}

/// Returns rows with 1 blob column.
pub fn get_query(k: &StoreKey) -> (query: (&'static str, (&str,)))
    ensures
        query.0@ == GET_SQL@,
        query.1.0@ == k@,
{
    (GET_SQL, (k.as_str(),))
}

/// Whether the first byte of a range has a position: positions are counted from one.
pub open spec fn is_countable(range: ByteRange) -> bool {
    match range {
        ByteRange::FromStart(offset, _) => offset < u64::MAX,
        ByteRange::Suffix(_) => true,
    }
}

/// The SQL expression for the bytes of the column `name` in a range. Positions are counted from one,
/// or from the end if they are negative; an empty suffix has no position from the end.
pub open spec fn substr_text(name: Seq<char>, range: ByteRange) -> Seq<char> {
    match range {
        ByteRange::FromStart(offset, Some(length)) => "substr("@ + name + ", "@ + decimal(
            (offset + 1) as nat,
        ) + ", "@ + decimal(length as nat) + ")"@,
        ByteRange::FromStart(offset, None) => "substr("@ + name + ", "@ + decimal(
            (offset + 1) as nat,
        ) + ")"@,
        ByteRange::Suffix(length) => if length == 0 {
            "substr("@ + name + ", 1, 0)"@
        } else {
            "substr("@ + name + ", -"@ + decimal(length as nat) + ")"@
        },
    }
}

/// The expressions for several ranges, separated by commas.
pub open spec fn substrs_text(name: Seq<char>, ranges: Seq<ByteRange>) -> Seq<char>
    decreases ranges.len(),
{
    if ranges.len() == 0 {
        Seq::empty()
    } else if ranges.len() == 1 {
        substr_text(name, ranges[0])
    } else {
        substrs_text(name, ranges.drop_last()) + ", "@ + substr_text(name, ranges.last())
    }
}

/// The statement that reads the given columns of the value of a key.
pub open spec fn select_text(columns: Seq<char>) -> Seq<char> {
    "SELECT "@ + columns + " FROM zarr WHERE k = ? LIMIT 1;"@
}

/// Appends the SQL expression for the bytes of a column in a range.
fn write_substr(s: &mut String, name: &str, range: ByteRange)
    requires
        is_countable(range),
    ensures
        final(s)@ == old(s)@ + substr_text(name@, range),
{
    match range {
        ByteRange::FromStart(offset, length) => {
            s.append("substr(");
            s.append(name);
            s.append(", ");
            push_decimal(s, offset + 1);
            match length {
                Some(length) => {
                    s.append(", ");
                    push_decimal(s, length);
                },
                None => {},
            }
            s.append(")");
        },
        ByteRange::Suffix(length) => {
            s.append("substr(");
            s.append(name);
            if length == 0 {
                s.append(", 1, 0)");
            } else {
                s.append(", -");
                push_decimal(s, length);
                s.append(")");
            }
        },
    }
    assert(s@ =~= old(s)@ + substr_text(name@, range));
}

/// Appends the SQL expressions for several ranges, and returns how many there are.
fn write_substrs(s: &mut String, name: &str, byte_ranges: &[ByteRange]) -> (count: usize)
    requires
        forall|i: int| 0 <= i < byte_ranges@.len() ==> is_countable(#[trigger] byte_ranges@[i]),
    ensures
        count == byte_ranges@.len(),
        final(s)@ == old(s)@ + substrs_text(name@, byte_ranges@),
{
    let ghost ranges = byte_ranges@;
    let mut count: usize = 0;
    assert(ranges.take(0) =~= Seq::<ByteRange>::empty());
    assert(s@ =~= old(s)@ + substrs_text(name@, ranges.take(0)));
    while count < byte_ranges.len()
        invariant
            ranges == byte_ranges@,
            count <= ranges.len(),
            forall|i: int| 0 <= i < ranges.len() ==> is_countable(#[trigger] ranges[i]),
            s@ == old(s)@ + substrs_text(name@, ranges.take(count as int)),
        decreases ranges.len() - count,
    {
        let ghost done = ranges.take(count as int);
        let ghost more = ranges.take(count + 1);
        assert(more.drop_last() =~= done);
        assert(more.last() == ranges[count as int]);
        if count > 0 {
            s.append(", ");
        }
        write_substr(s, name, byte_ranges[count]);
        count = count + 1;
        assert(s@ =~= old(s)@ + substrs_text(name@, more));
    }
    assert(ranges.take(ranges.len() as int) =~= ranges);
    count
}

/// Returns 0-1 rows with 1 blob column.
pub fn get_partial_query(key: &StoreKey, byte_range: ByteRange) -> (query: (String, (&str,)))
    requires
        is_countable(byte_range),
    ensures
        query.0@ == select_text(substr_text("v"@, byte_range)),
        query.1.0@ == key@,
{
    let mut s = "SELECT ".to_owned();
    write_substr(&mut s, "v", byte_range);
    s.append(" FROM zarr WHERE k = ? LIMIT 1;");
    (s, (key.as_str(),))
}

/// Returns 0-1 rows with N blob columns. None if there are no ranges.
pub fn get_partial_many_query<'a>(key: &'a StoreKey, byte_ranges: &[ByteRange]) -> (query: Option<
    (String, (&'a str,), usize),
>)
    requires
        forall|i: int| 0 <= i < byte_ranges@.len() ==> is_countable(#[trigger] byte_ranges@[i]),
    ensures
        query is None <==> byte_ranges@.len() == 0,
        query matches Some(query) ==> {
            &&& query.0@ == select_text(substrs_text("v"@, byte_ranges@))
            &&& query.1.0@ == key@
            &&& query.2 == byte_ranges@.len()
        },
{
    let mut s = "SELECT ".to_owned();
    let count = write_substrs(&mut s, "v", byte_ranges);
    if count == 0 {
        return None;
    }
    s.append(" FROM zarr WHERE k = ? LIMIT 1;");
    Some((s, (key.as_str(),), count))
}

/// Returns 0-1 rows with 1 integer column.
pub fn get_size_query(k: &StoreKey) -> (query: (&'static str, (&str,)))
    ensures
        query.0@ == GET_SIZE_SQL@,
        query.1.0@ == k@,
{
    (GET_SIZE_SQL, (k.as_str(),))
}

/// Returns rows with 1 string column.
pub fn list_all_query() -> (sql: &'static str)
    ensures
        sql@ == LIST_ALL_SQL@,
{
    LIST_ALL_SQL
}

/// Returns 1 row with 1 integer column. None if root.
pub fn size_prefix_query(prefix: &StorePrefix) -> (query: Option<(&'static str, (String, String))>)
    ensures
        query is None <==> prefix@.len() == 0,
        query matches Some(query) ==> {
            &&& query.0@ == SIZE_PREFIX_SQL@
            &&& query.1.0@ == prefix@
            &&& query.1.1@ == upper_text(prefix@)
        },
{
    match prefix_upper(prefix) {
        Some(upper) => Some((SIZE_PREFIX_SQL, (prefix.as_str().to_owned(), upper))),
        None => None,
    }
}

/// Returns 1 row with 1 integer column.
pub fn size_total_query() -> (sql: &'static str)
    ensures
        sql@ == SIZE_TOTAL_SQL@,
{
    SIZE_TOTAL_SQL
}

pub fn set_query<'a>(key: &'a StoreKey, value: &'a [u8]) -> (query: (
    &'static str,
    (&'a str, &'a [u8]),
))
    ensures
        query.0@ == SET_SQL@,
        query.1.0@ == key@,
        query.1.1@ == value@,
{
    (SET_SQL, (key.as_str(), value))
}

pub fn erase_query(key: &StoreKey) -> (query: (&'static str, (&str,)))
    ensures
        query.0@ == ERASE_SQL@,
        query.1.0@ == key@,
{
    (ERASE_SQL, (key.as_str(),))
}

/// Deletes the keys that start with the prefix.
pub fn erase_prefix_query(prefix: &StorePrefix) -> (query: (&'static str, (String,)))
    ensures
        query.0@ == ERASE_PREFIX_SQL@,
        query.1.0@ == prefix@,
{
    (ERASE_PREFIX_SQL, (prefix.as_str().to_owned(),))
}

} // verus!
