//! What the statements mean: a model of the two tables of a store.
//!
//! The metadata table maps text to text, the `zarr` table maps text to bytes; `k` is the primary key
//! of both. For each statement of [`crate::queries`] this module says which change it makes or
//! which rows it selects, and proves what follows for the store.

use vstd::prelude::*;
use crate::keys::{is_store_prefix, ByteRange};
use crate::expressions::{call_of, is_engine_call, read_calls};
use crate::numeral::hexadecimal;
use crate::queries::{
    schema_batch, upper_text, APPLICATION_ID, ERASE_PREFIX_SQL, ERASE_SQL, INSERT_CORE_METADATA_SQL,
    INSERT_CREATED_TIME_SQL, INSERT_METADATA_KV_SQL, INSERT_MODIFIED_AT_SQL,
    INSERT_UNKNOWN_METADATA_SQL, LIST_ALL_SQL, LIST_DIR_ROOT_SQL, LIST_DIR_SQL, LIST_PREFIX_SQL,
    SET_SQL, SIZE_PREFIX_SQL, SIZE_TOTAL_SQL, UPDATE_MODIFIED_AT_SQL,
};
use crate::sorted::{
    in_order, lemma_has_place, lemma_in_order, lemma_in_order_of_finite, lemma_insert_ascending,
};
use crate::statement::StatementView;
use crate::text::{lt_at, text_lt};

verus! {

/// The contents of a database that holds a store.
#[verifier::ext_equal]
pub struct Tables {
    pub application_id: u32,
    pub metadata: Map<Seq<char>, Seq<char>>,
    pub zarr: Map<Seq<char>, Seq<u8>>,
}

impl Tables {
    /// A new database, before its tables are created.
    pub open spec fn blank() -> Tables {
        Tables { application_id: 0, metadata: Map::empty(), zarr: Map::empty() }
    }

    /// A new database, just after its tables were created.
    pub open spec fn created() -> Tables {
        Tables { application_id: 0x10b50760, metadata: Map::empty(), zarr: Map::empty() }
    }

    /// Gives an entry of the metadata table a value.
    pub open spec fn with_entry(self, key: Seq<char>, value: Seq<char>) -> Tables {
        Tables { metadata: self.metadata.insert(key, value), ..self }
    }
}

/// Whether a statement has the given text and as many parameters as given, all of them texts.
pub open spec fn is_statement(statement: StatementView, sql: Seq<char>, parameters: nat) -> bool {
    &&& statement.sql == sql
    &&& !statement.batch
    &&& statement.params.len() == parameters
    &&& forall|i: int| 0 <= i < parameters ==> (#[trigger] statement.params[i]) is Text
}

/// A parameter that is a text.
pub open spec fn text_param(statement: StatementView, i: int) -> Seq<char> {
    statement.params[i]->Text_0
}

/// The change that a statement makes. `now` is the present time as the engine writes it. There is no
/// result if the statement fails, or if it is none whose effect is known.
///
/// An `INSERT` with an `ON CONFLICT .. DO UPDATE` clause puts the row in the place of the one that
/// has the same key. The batch that creates the tables is a transaction, and fails where they exist
/// already.
pub open spec fn execute(tables: Tables, statement: StatementView, now: Seq<char>) -> Option<
    Tables,
> {
    if statement.batch {
        if statement.sql == schema_text() && statement.params.len() == 0 && tables
            == Tables::blank() {
            Some(Tables::created())
        } else {
            None
        }
    } else if is_statement(
        statement,
        "INSERT INTO zarr_sqlitestore_metadata(k, v) VALUES(?1, ?2) ON CONFLICT(k) DO UPDATE SET v = excluded.v;"@,
        2,
    ) || is_statement(
        statement,
        "INSERT INTO zarr_sqlitestore_metadata(k, v) VALUES(?1, ?2)\n            ON CONFLICT DO UPDATE SET v=excluded.v;"@,
        2,
    ) {
        Some(tables.with_entry(text_param(statement, 0), text_param(statement, 1)))
    } else if is_statement(
        statement,
        "INSERT INTO zarr_sqlitestore_metadata (k, v) VALUES\n                ('sqlitestore_version', ?1),\n                ('compatible_flags', ?2),\n                ('incompatible_flags', ?3)\n            ON CONFLICT(k) DO UPDATE SET v=excluded.v;"@,
        3,
    ) {
        Some(
            tables.with_entry("sqlitestore_version"@, text_param(statement, 0)).with_entry(
                "compatible_flags"@,
                text_param(statement, 1),
            ).with_entry("incompatible_flags"@, text_param(statement, 2)),
        )
    } else if is_statement(
        statement,
        "INSERT INTO zarr_sqlitestore_metadata(k, v) VALUES('created_time', ?1)\n            ON CONFLICT DO UPDATE SET v=excluded.v;"@,
        1,
    ) {
        Some(tables.with_entry("created_time"@, text_param(statement, 0)))
    } else if is_statement(
        statement,
        "INSERT INTO zarr_sqlitestore_metadata(k, v) VALUES('modified_at', ?1)\n            ON CONFLICT DO UPDATE SET v=excluded.v;"@,
        1,
    ) {
        Some(tables.with_entry("modified_at"@, text_param(statement, 0)))
    } else if is_statement(
        statement,
        "INSERT INTO zarr_sqlitestore_metadata(k, v) VALUES ('modified_at', strftime('%Y-%m-%dT%H:%M:%fZ', 'now', 'utc', 'subsec')) ON CONFLICT(k)\n    DO UPDATE SET v = excluded.v;;"@,
        0,
    ) {
        Some(tables.with_entry("modified_at"@, now))
    } else if statement.sql
        == "INSERT INTO zarr(k, v) VALUES(?1, ?2) ON CONFLICT (k) DO UPDATE SET v = excluded.v;"@
        && statement.params.len() == 2 && statement.params[0] is Text
        && statement.params[1] is Blob {
        Some(
            Tables {
                zarr: tables.zarr.insert(text_param(statement, 0), statement.params[1]->Blob_0),
                ..tables
            },
        )
    } else if is_statement(statement, "DELETE FROM zarr WHERE k = ?;"@, 1) {
        Some(Tables { zarr: tables.zarr.remove(text_param(statement, 0)), ..tables })
    } else if is_statement(statement, "DELETE FROM zarr WHERE instr(k, ?1) = 1;"@, 1) {
        Some(
            Tables {
                zarr: Map::new(
                    |key: Seq<char>|
                        tables.zarr.contains_key(key) && instr(key, text_param(statement, 0)) != 1,
                    |key: Seq<char>| tables.zarr[key],
                ),
                ..tables
            },
        )
    } else {
        None
    }
}

/// The batch that marks a database and creates its tables.
pub open spec fn schema_text() -> Seq<char> {
    "BEGIN;\nPRAGMA application_id = 0x10b50760;\nCREATE TABLE zarr_sqlitestore_metadata(\n        k TEXT PRIMARY KEY NOT NULL,\n        v TEXT NOT NULL\n    );\nCREATE TABLE zarr (\n        k TEXT PRIMARY KEY NOT NULL,\n        v BLOB NOT NULL\n    );\nCOMMIT;"@
}

/// The change that several statements make, one after the other.
pub open spec fn execute_all(
    tables: Tables,
    statements: Seq<StatementView>,
    now: Seq<char>,
) -> Option<Tables>
    decreases statements.len(),
{
    if statements.len() == 0 {
        Some(tables)
    } else {
        match execute_all(tables, statements.drop_last(), now) {
            Some(between) => execute(between, statements.last(), now),
            None => None,
        }
    }
}

/// SQL's `instr(text, pattern)`: the position of the first occurrence of the pattern, counted from
/// one; zero if there is none.
pub open spec fn instr(text: Seq<char>, pattern: Seq<char>) -> int
    decreases text.len(),
{
    if pattern.is_prefix_of(text) {
        1
    } else if text.len() == 0 {
        0
    } else if instr(text.skip(1), pattern) == 0 {
        0
    } else {
        instr(text.skip(1), pattern) + 1
    }
}

/// The batch for a new database is put together as expected.
pub proof fn lemma_schema_batch()
    ensures
        schema_batch() == schema_text(),
{
    reveal_strlit("PRAGMA application_id = 0x");
    reveal_strlit(";");
    reveal_strlit("BEGIN;\n");
    reveal_strlit("\n");
    reveal_strlit("\nCOMMIT;");
    reveal_strlit(
        "CREATE TABLE zarr_sqlitestore_metadata(\n        k TEXT PRIMARY KEY NOT NULL,\n        v TEXT NOT NULL\n    );",
    );
    reveal_strlit(
        "CREATE TABLE zarr (\n        k TEXT PRIMARY KEY NOT NULL,\n        v BLOB NOT NULL\n    );",
    );
    reveal_strlit(
        "BEGIN;\nPRAGMA application_id = 0x10b50760;\nCREATE TABLE zarr_sqlitestore_metadata(\n        k TEXT PRIMARY KEY NOT NULL,\n        v TEXT NOT NULL\n    );\nCREATE TABLE zarr (\n        k TEXT PRIMARY KEY NOT NULL,\n        v BLOB NOT NULL\n    );\nCOMMIT;",
    );
    reveal_with_fuel(hexadecimal, 9);
    assert(hexadecimal(APPLICATION_ID as nat) =~= seq!['1', '0', 'b', '5', '0', '7', '6', '0']);
    assert(schema_batch() =~= schema_text());
}

/// The texts of the statements that change a database are all different: they differ in length, or
/// in how they start.
pub proof fn lemma_statements_distinct()
    ensures
        schema_batch() == schema_text(),
        schema_batch().len() > 0 && schema_batch()[0] == 'B',
        INSERT_UNKNOWN_METADATA_SQL@.len() == 103 && INSERT_UNKNOWN_METADATA_SQL@[0] == 'I',
        INSERT_METADATA_KV_SQL@.len() == 110 && INSERT_METADATA_KV_SQL@[0] == 'I',
        INSERT_CORE_METADATA_SQL@.len() == 236 && INSERT_CORE_METADATA_SQL@[0] == 'I',
        INSERT_CREATED_TIME_SQL@.len() == 122 && INSERT_CREATED_TIME_SQL@[0] == 'I',
        INSERT_MODIFIED_AT_SQL@.len() == 121 && INSERT_MODIFIED_AT_SQL@[0] == 'I',
        UPDATE_MODIFIED_AT_SQL@.len() == 172 && UPDATE_MODIFIED_AT_SQL@[0] == 'I',
        SET_SQL@.len() == 83 && SET_SQL@[0] == 'I',
        ERASE_SQL@.len() == 29 && ERASE_SQL@[0] == 'D',
        ERASE_PREFIX_SQL@.len() == 40 && ERASE_PREFIX_SQL@[0] == 'D',
{
    lemma_schema_batch();
    reveal_strlit(
        "BEGIN;\nPRAGMA application_id = 0x10b50760;\nCREATE TABLE zarr_sqlitestore_metadata(\n        k TEXT PRIMARY KEY NOT NULL,\n        v TEXT NOT NULL\n    );\nCREATE TABLE zarr (\n        k TEXT PRIMARY KEY NOT NULL,\n        v BLOB NOT NULL\n    );\nCOMMIT;",
    );
    reveal_strlit(
        "INSERT INTO zarr_sqlitestore_metadata(k, v) VALUES(?1, ?2) ON CONFLICT(k) DO UPDATE SET v = excluded.v;",
    );
    reveal_strlit(
        "INSERT INTO zarr_sqlitestore_metadata(k, v) VALUES(?1, ?2)\n            ON CONFLICT DO UPDATE SET v=excluded.v;",
    );
    reveal_strlit(
        "INSERT INTO zarr_sqlitestore_metadata (k, v) VALUES\n                ('sqlitestore_version', ?1),\n                ('compatible_flags', ?2),\n                ('incompatible_flags', ?3)\n            ON CONFLICT(k) DO UPDATE SET v=excluded.v;",
    );
    reveal_strlit(
        "INSERT INTO zarr_sqlitestore_metadata(k, v) VALUES('created_time', ?1)\n            ON CONFLICT DO UPDATE SET v=excluded.v;",
    );
    reveal_strlit(
        "INSERT INTO zarr_sqlitestore_metadata(k, v) VALUES('modified_at', ?1)\n            ON CONFLICT DO UPDATE SET v=excluded.v;",
    );
    reveal_strlit(
        "INSERT INTO zarr_sqlitestore_metadata(k, v) VALUES ('modified_at', strftime('%Y-%m-%dT%H:%M:%fZ', 'now', 'utc', 'subsec')) ON CONFLICT(k)\n    DO UPDATE SET v = excluded.v;;",
    );
    reveal_strlit(
        "INSERT INTO zarr(k, v) VALUES(?1, ?2) ON CONFLICT (k) DO UPDATE SET v = excluded.v;",
    );
    reveal_strlit(
        "DELETE FROM zarr WHERE k = ?;",
    );
    reveal_strlit(
        "DELETE FROM zarr WHERE instr(k, ?1) = 1;",
    );
}

/// Keys that SQL's `k > lower AND k < upper` selects.
pub open spec fn keys_between(
    zarr: Map<Seq<char>, Seq<u8>>,
    lower: Seq<char>,
    upper: Seq<char>,
) -> Set<Seq<char>> {
    zarr.dom().filter(|key: Seq<char>| text_lt(lower, key) && text_lt(key, upper))
}

/// Whether `key` stands below `prefix`: it starts with the prefix, and goes on.
pub open spec fn is_below(prefix: Seq<char>, key: Seq<char>) -> bool {
    prefix.is_prefix_of(key) && prefix.len() < key.len()
}

/// The keys between a prefix and its upper text are the keys below the prefix.
pub proof fn law_prefix_range(prefix: Seq<char>, key: Seq<char>)
    requires
        is_store_prefix(prefix),
        prefix.len() > 0,
    ensures
        text_lt(prefix, key) && text_lt(key, upper_text(prefix)) <==> is_below(prefix, key),
{
    let upper = upper_text(prefix);
    let end = prefix.len() - 1;
    assert(forall|i: int| 0 <= i < end ==> upper[i] == prefix[i]);
    assert(upper[end] as int == prefix[end] as int + 1);
    if is_below(prefix, key) {
        assert(forall|i: int| 0 <= i < prefix.len() ==> key[i] == prefix[i]) by {
            assert(prefix =~= key.subrange(0, prefix.len() as int));
        }
        assert(lt_at(prefix, key, prefix.len() as int));
        assert(lt_at(key, upper, end));
    }
    if text_lt(prefix, key) && text_lt(key, upper) {
        let n = choose|n: int| lt_at(prefix, key, n);
        let m = choose|m: int| lt_at(key, upper, m);
        if m < end {
            assert(upper[m] == prefix[m]);
            if n < m {
                assert(key[n] == upper[n]);
            }
            assert(false);
        }
        if n < end {
            assert(key[n] == upper[n]);
            assert(false);
        }
        assert(prefix =~= key.subrange(0, prefix.len() as int));
    }
}

/// Listing a prefix selects every key of the store below it, and no other.
pub proof fn law_list_prefix(zarr: Map<Seq<char>, Seq<u8>>, prefix: Seq<char>)
    requires
        is_store_prefix(prefix),
        prefix.len() > 0,
    ensures
        keys_between(zarr, prefix, upper_text(prefix)) == zarr.dom().filter(
            |key: Seq<char>| is_below(prefix, key),
        ),
{
    assert forall|key: Seq<char>|
        text_lt(prefix, key) && text_lt(key, upper_text(prefix)) <==> is_below(prefix, key) by {
        law_prefix_range(prefix, key);
    }
    assert(keys_between(zarr, prefix, upper_text(prefix)) =~= zarr.dom().filter(
        |key: Seq<char>| is_below(prefix, key),
    ));
}

/// A position is found first of all just where the text starts with the pattern.
pub proof fn lemma_instr_start(text: Seq<char>, pattern: Seq<char>)
    ensures
        instr(text, pattern) >= 0,
        instr(text, pattern) == 1 <==> pattern.is_prefix_of(text),
    decreases text.len(),
{
    if text.len() > 0 {
        lemma_instr_start(text.skip(1), pattern);
    }
}

/// The pattern that is a single character.
pub open spec fn one(c: char) -> Seq<char> {
    seq![c]
}

/// A text starts with a character if it is its first.
proof fn lemma_one_is_prefix(text: Seq<char>, c: char)
    ensures
        one(c).is_prefix_of(text) <==> text.len() > 0 && text[0] == c,
{
    if text.len() > 0 && text[0] == c {
        assert(one(c) =~= text.subrange(0, 1));
    }
    if one(c).is_prefix_of(text) {
        assert(text.subrange(0, 1)[0] == text[0]);
    }
}

/// `instr` finds the first occurrence of a character.
pub proof fn lemma_instr(text: Seq<char>, c: char)
    ensures
        instr(text, one(c)) == 0 <==> !text.contains(c),
        0 <= instr(text, one(c)) <= text.len(),
        instr(text, one(c)) > 0 ==> text[instr(text, one(c)) - 1] == c,
        forall|i: int| 0 <= i < instr(text, one(c)) - 1 ==> text[i] != c,
    decreases text.len(),
{
    lemma_one_is_prefix(text, c);
    if text.len() > 0 {
        let rest = text.skip(1);
        lemma_instr(rest, c);
        if text[0] != c {
            assert(forall|i: int| 0 < i < text.len() ==> text[i] == rest[i - 1]);
            if text.contains(c) {
                let i = choose|i: int| 0 <= i < text.len() && text[i] == c;
                assert(rest[i - 1] == c);
            }
            if rest.contains(c) {
                let i = choose|i: int| 0 <= i < rest.len() && rest[i] == c;
                assert(text[i + 1] == c);
            }
        }
    }
}

/// What SQL's `length` and `substr` see of a text: it ends for them at the first NUL character.
pub open spec fn seen(text: Seq<char>) -> Seq<char> {
    if instr(text, one('\0')) == 0 {
        text
    } else {
        text.take(instr(text, one('\0')) - 1)
    }
}

/// SQL's `substr(text, n + 1)`.
pub open spec fn text_after(text: Seq<char>, n: int) -> Seq<char> {
    if n <= seen(text).len() {
        seen(text).skip(n)
    } else {
        Seq::empty()
    }
}

/// SQL's `substr(text, 1, n)`.
pub open spec fn text_up_to(text: Seq<char>, n: int) -> Seq<char> {
    if n <= seen(text).len() {
        seen(text).take(n)
    } else {
        seen(text)
    }
}

/// A row of a directory listing: its type, `k` for a key and `p` for a prefix, and its path.
pub type DirRow = (Seq<char>, Seq<char>);

/// The rows that the statement for listing a directory selects, given a prefix and its upper text.
pub open spec fn dir_rows(
    zarr: Map<Seq<char>, Seq<u8>>,
    prefix: Seq<char>,
    upper: Seq<char>,
) -> Set<DirRow> {
    keys_between(zarr, prefix, upper).map(|key: Seq<char>| dir_row(prefix, key))
}

/// The row that a key contributes to the listing of a prefix. The part of the key after the prefix
/// is its `rest`. If the rest has no slash, the row has type `k`; any other has type `p`, and names
/// the prefix and the rest up to its first slash.
pub open spec fn dir_row(prefix: Seq<char>, key: Seq<char>) -> DirRow {
    let rest = text_after(key, seen(prefix).len() as int);
    if instr(rest, one('/')) == 0 {
        ("k"@, key)
    } else {
        ("p"@, prefix + text_up_to(rest, instr(rest, one('/'))))
    }
}

/// The rows that the statement for listing the root selects.
pub open spec fn dir_root_rows(zarr: Map<Seq<char>, Seq<u8>>) -> Set<DirRow> {
    zarr.dom().map(|key: Seq<char>| dir_root_row(key))
}

/// The row that a key contributes to the listing of the root: the key itself, or the key up to its
/// first slash.
pub open spec fn dir_root_row(key: Seq<char>) -> DirRow {
    if instr(key, one('/')) == 0 {
        ("k"@, key)
    } else {
        ("p"@, text_up_to(key, instr(key, one('/'))))
    }
}

/// Whether SQL sees every slash of a key: none comes after a NUL character.
pub open spec fn slashes_seen(key: Seq<char>) -> bool {
    forall|i: int, j: int|
        0 <= i < j < key.len() && #[trigger] key[i] == '\0' ==> #[trigger] key[j] != '/'
}

/// Whether SQL sees every slash of every key.
pub open spec fn keys_seen(zarr: Map<Seq<char>, Seq<u8>>) -> bool {
    forall|key: Seq<char>| #[trigger] zarr.contains_key(key) ==> slashes_seen(key)
}

/// The row of a key all of whose slashes are seen.
pub open spec fn plain_row(prefix: Seq<char>, key: Seq<char>) -> DirRow {
    let rest = key.skip(prefix.len() as int);
    if instr(rest, one('/')) == 0 {
        ("k"@, key)
    } else {
        ("p"@, prefix + rest.take(instr(rest, one('/'))))
    }
}

/// The rows that the given keys contribute to the listing of a prefix, if all their slashes are seen.
pub open spec fn rows_of_keys(keys: Set<Seq<char>>, prefix: Seq<char>) -> Set<DirRow> {
    keys.map(|key: Seq<char>| plain_row(prefix, key))
}

/// A position is the first of a character if the character stands there and not before.
proof fn lemma_instr_unique(text: Seq<char>, c: char, n: int)
    requires
        0 < n <= text.len(),
        text[n - 1] == c,
        forall|i: int| 0 <= i < n - 1 ==> text[i] != c,
    ensures
        instr(text, one(c)) == n,
{
    lemma_instr(text, c);
    assert(text.contains(c));
    let m = instr(text, one(c));
    if m < n {
        assert(text[m - 1] == c);
    } else if n < m {
        assert(text[n - 1] != c);
    }
}

/// What is seen of a text that goes up to a slash is all of it, if no slash comes after a NUL.
proof fn lemma_seen_up_to(key: Seq<char>, n: int)
    requires
        slashes_seen(key),
        0 <= n <= key.len(),
        n > 0 ==> key[n - 1] == '/',
    ensures
        n <= seen(key).len(),
        seen(key).take(n) == key.take(n),
        seen(key.take(n)) == key.take(n),
        forall|i: int| 0 <= i < n ==> key[i] != '\0',
{
    lemma_instr(key, '\0');
    lemma_instr(key.take(n), '\0');
    assert forall|i: int| 0 <= i < n implies key[i] != '\0' by {
        if key[i] == '\0' && i < n - 1 {
            assert(key[n - 1] != '/');
        }
    }
    if key.take(n).contains('\0') {
        let i = choose|i: int| 0 <= i < n && key.take(n)[i] == '\0';
        assert(key[i] == '\0');
    }
    assert(seen(key).take(n) =~= key.take(n));
}

/// Where all slashes are seen, the statements see the keys as they are.
proof fn lemma_plain_row(prefix: Seq<char>, key: Seq<char>)
    requires
        slashes_seen(key),
        prefix.is_prefix_of(key),
        prefix.len() > 0 ==> prefix.last() == '/',
    ensures
        dir_row(prefix, key) == plain_row(prefix, key),
        prefix.len() == 0 ==> dir_root_row(key) == plain_row(prefix, key),
{
    let start = prefix.len() as int;
    let rest = key.skip(start);
    assert(prefix =~= key.take(start)) by {
        assert(prefix =~= key.subrange(0, start));
    }
    lemma_seen_up_to(key, start);
    assert(seen(prefix) == prefix);
    let whole = seen(key);
    let part = text_after(key, start);
    assert(part == whole.skip(start));
    lemma_instr(key, '\0');
    assert(forall|i: int| 0 <= i < whole.len() ==> whole[i] == key[i]);
    assert(forall|i: int| 0 <= i < part.len() ==> part[i] == key[start + i]);
    lemma_instr(rest, '/');
    lemma_instr(part, '/');
    let at = instr(rest, one('/'));
    if at > 0 {
        let n = start + at;
        assert(key[n - 1] == '/');
        lemma_seen_up_to(key, n);
        assert(at <= part.len());
        assert(part[at - 1] == '/');
        assert forall|i: int| 0 <= i < at - 1 implies part[i] != '/' by {
            assert(rest[i] != '/');
        }
        lemma_instr_unique(part, '/', at);
        lemma_instr(part, '\0');
        if part.contains('\0') {
            let i = choose|i: int| 0 <= i < part.len() && part[i] == '\0';
            assert(key[start + i] == '\0');
            assert(whole[start + i] != '\0') by {
                lemma_seen_has_no_nul(key);
            }
        }
        assert(seen(part) == part);
        assert(part.take(at) =~= rest.take(at));
        if start == 0 {
            assert(rest =~= key);
            assert(prefix + rest.take(at) =~= key.take(at));
        }
    } else {
        if part.contains('/') {
            let i = choose|i: int| 0 <= i < part.len() && part[i] == '/';
            assert(rest[i] == '/');
        }
        if start == 0 {
            assert(rest =~= key);
        }
    }
}

/// What is seen holds no NUL.
proof fn lemma_seen_has_no_nul(text: Seq<char>)
    ensures
        forall|i: int| 0 <= i < seen(text).len() ==> seen(text)[i] != '\0',
{
    lemma_instr(text, '\0');
    if instr(text, one('\0')) == 0 {
        assert forall|i: int| 0 <= i < text.len() implies text[i] != '\0' by {
            if text[i] == '\0' {
                assert(text.contains('\0'));
            }
        }
    }
}

/// Whether a key stands directly below a prefix: it is below, with no further slash.
pub open spec fn is_child_key(prefix: Seq<char>, key: Seq<char>) -> bool {
    is_below(prefix, key) && !key.skip(prefix.len() as int).contains('/')
}

/// Whether a path is a prefix directly below another: it goes on up to one further slash.
pub open spec fn is_child_prefix(prefix: Seq<char>, path: Seq<char>) -> bool {
    &&& is_below(prefix, path)
    &&& path.last() == '/'
    &&& !path.subrange(prefix.len() as int, path.len() - 1).contains('/')
}

/// The rows of keys, one by one.
proof fn lemma_rows_of_keys_contains(keys: Set<Seq<char>>, prefix: Seq<char>, row: DirRow)
    ensures
        rows_of_keys(keys, prefix).contains(row) <==> exists|key: Seq<char>| #[trigger]
            keys.contains(key) && row == plain_row(prefix, key),
{
    let f = |key: Seq<char>| plain_row(prefix, key);
    if exists|key: Seq<char>| #[trigger] keys.contains(key) && row == plain_row(prefix, key) {
        let key = choose|key: Seq<char>| #[trigger]
            keys.contains(key) && row == plain_row(prefix, key);
        assert(keys.map(f).contains(f(key)));
    }
}

/// What a key that starts with a prefix contributes to the listing.
proof fn lemma_dir_row(prefix: Seq<char>, key: Seq<char>)
    requires
        prefix.is_prefix_of(key),
    ensures
        !key.skip(prefix.len() as int).contains('/') ==> plain_row(prefix, key) == ("k"@, key),
        key.skip(prefix.len() as int).contains('/') ==> {
            &&& plain_row(prefix, key).0 == "p"@
            &&& is_child_prefix(prefix, plain_row(prefix, key).1)
            &&& plain_row(prefix, key).1.is_prefix_of(key)
        },
        forall|path: Seq<char>|
            is_child_prefix(prefix, path) && #[trigger] path.is_prefix_of(key) ==> plain_row(prefix, key)
                == ("p"@, path),
{
    let start = prefix.len() as int;
    let rest = key.skip(start);
    let at = instr(rest, one('/'));
    lemma_instr(rest, '/');
    assert(prefix =~= key.subrange(0, start));
    if at > 0 {
        let path = prefix + rest.take(at);
        assert(path =~= key.subrange(0, start + at));
        assert(path.last() == rest[at - 1]);
        let name = path.subrange(start, path.len() - 1);
        if name.contains('/') {
            let i = choose|i: int| 0 <= i < name.len() && name[i] == '/';
            assert(rest[i] == '/');
        }
        assert(path.subrange(0, start) =~= prefix);
    }
    assert forall|path: Seq<char>|
        is_child_prefix(prefix, path) && #[trigger] path.is_prefix_of(key) implies plain_row(
        prefix,
        key,
    ) == ("p"@, path) by {
        let end = path.len() - 1 - start;
        assert(path =~= key.subrange(0, path.len() as int));
        assert(rest[end] == key[path.len() - 1]);
        assert(rest.contains('/'));
        let name = path.subrange(start, path.len() - 1);
        if at - 1 < end {
            assert(name[at - 1] == rest[at - 1]);
            assert(name.contains('/'));
        }
        assert(at - 1 == end);
        assert(prefix + rest.take(at) =~= path);
    }
}

/// Listing keys that start with a prefix gives those that go on without a slash, and the prefixes
/// directly below it under which there is a key.
proof fn lemma_rows_of_keys(keys: Set<Seq<char>>, prefix: Seq<char>)
    requires
        forall|key: Seq<char>| #[trigger] keys.contains(key) ==> prefix.is_prefix_of(key),
    ensures
        forall|key: Seq<char>| #[trigger]
            rows_of_keys(keys, prefix).contains(("k"@, key)) <==> keys.contains(key) && !key.skip(
                prefix.len() as int,
            ).contains('/'),
        forall|path: Seq<char>| #[trigger]
            rows_of_keys(keys, prefix).contains(("p"@, path)) <==> is_child_prefix(prefix, path)
                && exists|key: Seq<char>| #[trigger] keys.contains(key) && path.is_prefix_of(key),
        forall|row: DirRow| #[trigger]
            rows_of_keys(keys, prefix).contains(row) ==> row.0 == "k"@ || row.0 == "p"@,
{
    reveal_strlit("k");
    reveal_strlit("p");
    assert("k"@[0] != "p"@[0]);
    let rows = rows_of_keys(keys, prefix);
    assert forall|row: DirRow| #[trigger] rows.contains(row) <==> exists|from: Seq<char>| #[trigger]
        keys.contains(from) && row == plain_row(prefix, from) by {
        lemma_rows_of_keys_contains(keys, prefix, row);
    }
    assert forall|key: Seq<char>| #[trigger] rows.contains(("k"@, key)) <==> keys.contains(key)
        && !key.skip(prefix.len() as int).contains('/') by {
        if rows.contains(("k"@, key)) {
            let from = choose|from: Seq<char>| #[trigger]
                keys.contains(from) && ("k"@, key) == plain_row(prefix, from);
            lemma_dir_row(prefix, from);
        }
        if keys.contains(key) {
            lemma_dir_row(prefix, key);
        }
    }
    assert forall|path: Seq<char>| #[trigger] rows.contains(("p"@, path)) <==> is_child_prefix(
        prefix,
        path,
    ) && exists|key: Seq<char>| #[trigger] keys.contains(key) && path.is_prefix_of(key) by {
        if rows.contains(("p"@, path)) {
            let from = choose|from: Seq<char>| #[trigger]
                keys.contains(from) && ("p"@, path) == plain_row(prefix, from);
            lemma_dir_row(prefix, from);
        }
        if is_child_prefix(prefix, path) && exists|key: Seq<char>| #[trigger]
            keys.contains(key) && path.is_prefix_of(key) {
            let key = choose|key: Seq<char>| #[trigger]
                keys.contains(key) && path.is_prefix_of(key);
            lemma_dir_row(prefix, key);
        }
    }
    assert forall|row: DirRow| #[trigger] rows.contains(row) implies row.0 == "k"@ || row.0
        == "p"@ by {
        let from = choose|from: Seq<char>| #[trigger]
            keys.contains(from) && row == plain_row(prefix, from);
        lemma_dir_row(prefix, from);
    }
}

/// Listing a directory selects the keys of the store directly below the prefix and the prefixes
/// directly below it under which the store has a key, and nothing else. Every slash of the keys is to
/// be seen.
pub proof fn law_list_dir(zarr: Map<Seq<char>, Seq<u8>>, prefix: Seq<char>)
    requires
        keys_seen(zarr),
        is_store_prefix(prefix),
        prefix.len() > 0,
    ensures
        forall|key: Seq<char>| #[trigger]
            dir_rows(zarr, prefix, upper_text(prefix)).contains(("k"@, key)) <==> zarr.contains_key(
                key,
            ) && is_child_key(prefix, key),
        forall|path: Seq<char>| #[trigger]
            dir_rows(zarr, prefix, upper_text(prefix)).contains(("p"@, path)) <==> is_child_prefix(
                prefix,
                path,
            ) && exists|key: Seq<char>| #[trigger]
                zarr.contains_key(key) && path.is_prefix_of(key),
        forall|row: DirRow| #[trigger]
            dir_rows(zarr, prefix, upper_text(prefix)).contains(row) ==> row.0 == "k"@ || row.0
                == "p"@,
{
    let keys = keys_between(zarr, prefix, upper_text(prefix));
    law_list_prefix(zarr, prefix);
    assert forall|key: Seq<char>| #[trigger] keys.contains(key) <==> zarr.contains_key(key)
        && is_below(prefix, key) by {
    }
    lemma_rows_of_keys(keys, prefix);
    assert(dir_rows(zarr, prefix, upper_text(prefix)) =~= rows_of_keys(keys, prefix)) by {
        assert forall|key: Seq<char>| #[trigger] keys.contains(key) implies dir_row(prefix, key)
            == plain_row(prefix, key) by {
            assert(slashes_seen(key));
            lemma_plain_row(prefix, key);
        }
        lemma_map_agree(
            keys,
            |key: Seq<char>| dir_row(prefix, key),
            |key: Seq<char>| plain_row(prefix, key),
        );
    }
    assert forall|path: Seq<char>|
        is_child_prefix(prefix, path) implies ((exists|key: Seq<char>| #[trigger]
        keys.contains(key) && path.is_prefix_of(key)) <==> (exists|key: Seq<char>| #[trigger]
        zarr.contains_key(key) && path.is_prefix_of(key))) by {
        if exists|key: Seq<char>| #[trigger] keys.contains(key) && path.is_prefix_of(key) {
            let key = choose|key: Seq<char>| #[trigger]
                keys.contains(key) && path.is_prefix_of(key);
            assert(zarr.contains_key(key));
        }
        if exists|key: Seq<char>| #[trigger] zarr.contains_key(key) && path.is_prefix_of(key) {
            let key = choose|key: Seq<char>| #[trigger]
                zarr.contains_key(key) && path.is_prefix_of(key);
            lemma_prefix_transitive(prefix, path, key);
            assert(keys.contains(key));
        }
    }
}

/// Listing the root selects the keys without a slash, and for every other key the prefix up to its
/// first slash. Every slash of the keys is to be seen.
pub proof fn law_list_dir_root(zarr: Map<Seq<char>, Seq<u8>>)
    requires
        keys_seen(zarr),
    ensures
        forall|key: Seq<char>| #[trigger]
            dir_root_rows(zarr).contains(("k"@, key)) <==> zarr.contains_key(key) && !key.contains(
                '/',
            ),
        forall|path: Seq<char>| #[trigger]
            dir_root_rows(zarr).contains(("p"@, path)) <==> is_child_prefix(Seq::empty(), path)
                && exists|key: Seq<char>| #[trigger]
                zarr.contains_key(key) && path.is_prefix_of(key),
        forall|row: DirRow| #[trigger]
            dir_root_rows(zarr).contains(row) ==> row.0 == "k"@ || row.0 == "p"@,
{
    assert forall|key: Seq<char>| #[trigger] zarr.dom().contains(key) implies Seq::<
        char,
    >::empty().is_prefix_of(key) by {
        assert(Seq::<char>::empty() =~= key.subrange(0, 0));
    }
    assert forall|key: Seq<char>| #[trigger] zarr.dom().contains(key) implies key.skip(0) == key by {
        assert(key.skip(0) =~= key);
    }
    lemma_rows_of_keys(zarr.dom(), Seq::empty());
    assert(dir_root_rows(zarr) =~= rows_of_keys(zarr.dom(), Seq::empty())) by {
        assert forall|key: Seq<char>| #[trigger] zarr.dom().contains(key) implies dir_root_row(key)
            == plain_row(Seq::empty(), key) by {
            assert(zarr.contains_key(key));
            lemma_plain_row(Seq::empty(), key);
        }
        lemma_map_agree(
            zarr.dom(),
            |key: Seq<char>| dir_root_row(key),
            |key: Seq<char>| plain_row(Seq::empty(), key),
        );
    }
    assert forall|path: Seq<char>| #[trigger] is_child_prefix(Seq::empty(), path) implies ((exists|
        key: Seq<char>,
    | #[trigger]
        zarr.dom().contains(key) && path.is_prefix_of(key)) <==> (exists|key: Seq<char>| #[trigger]
        zarr.contains_key(key) && path.is_prefix_of(key))) by {
        if exists|key: Seq<char>| #[trigger] zarr.contains_key(key) && path.is_prefix_of(key) {
            let key = choose|key: Seq<char>| #[trigger]
                zarr.contains_key(key) && path.is_prefix_of(key);
            assert(zarr.dom().contains(key));
        }
    }
}

/// Functions that agree on a set give the same images.
proof fn lemma_map_agree(
    keys: Set<Seq<char>>,
    f: spec_fn(Seq<char>) -> DirRow,
    g: spec_fn(Seq<char>) -> DirRow,
)
    requires
        forall|key: Seq<char>| #[trigger] keys.contains(key) ==> f(key) == g(key),
    ensures
        keys.map(f) == keys.map(g),
{
    assert(keys.map(f) =~= keys.map(g));
}

/// What starts with a text that starts with a prefix starts with the prefix.
proof fn lemma_prefix_transitive(prefix: Seq<char>, path: Seq<char>, key: Seq<char>)
    requires
        is_below(prefix, path),
        path.is_prefix_of(key),
    ensures
        is_below(prefix, key),
{
    assert(key.subrange(0, prefix.len() as int) =~= path.subrange(0, prefix.len() as int));
}

/// The greatest number of bytes that a value can have, which is also the length that `substr` takes
/// where none is given.
pub const LENGTH_LIMIT: u64 = 1_000_000_000;

/// SQL's `substr(value, start, length)` on bytes, for a length that is not negative. Positions are
/// counted from one, or from the end if `start` is negative. A start that lies before the first byte
/// shortens the length by as much.
pub open spec fn substr(value: Seq<u8>, start: int, length: Option<int>) -> Seq<u8> {
    let size = value.len() as int;
    let wanted: int = match length {
        Some(length) => length,
        None => LENGTH_LIMIT as int,
    };
    let from = if start > 0 {
        start - 1
    } else if start < 0 && size + start > 0 {
        size + start
    } else {
        0
    };
    let count = if start < 0 && size + start < 0 {
        wanted + size + start
    } else if start == 0 {
        wanted - 1
    } else {
        wanted
    };
    if from >= size || count <= 0 {
        Seq::empty()
    } else if from + count < size {
        value.subrange(from, from + count)
    } else {
        value.skip(from)
    }
}

/// The column that the expression for a byte range selects from a value.
pub open spec fn range_column(value: Seq<u8>, range: ByteRange) -> Seq<u8> {
    substr(value, call_of(range).start, call_of(range).length)
}

/// A byte range that lies within a value selects the bytes of the range.
pub proof fn law_partial_read(value: Seq<u8>, range: ByteRange)
    requires
        value.len() <= LENGTH_LIMIT,
        range.fits(value.len()),
    ensures
        range_column(value, range) == range.bytes_of(value),
{
    assert(range_column(value, range) =~= range.bytes_of(value));
}

/// A byte range that reaches out of a value selects the part of it that lies within, as long as its
/// numbers are integers to the engine. A suffix may be no longer than the longest value.
pub proof fn law_partial_read_clips(value: Seq<u8>, offset: u64, length: u64)
    requires
        value.len() <= LENGTH_LIMIT,
        offset < i64::MAX,
        length <= i64::MAX,
    ensures
        offset <= value.len() < offset + length ==> range_column(
            value,
            ByteRange::FromStart(offset, Some(length)),
        ) == value.skip(offset as int),
        offset > value.len() ==> range_column(value, ByteRange::FromStart(offset, Some(length)))
            == Seq::<u8>::empty() && range_column(value, ByteRange::FromStart(offset, None))
            == Seq::<u8>::empty(),
        value.len() < length <= LENGTH_LIMIT ==> range_column(value, ByteRange::Suffix(length))
            == value,
{
    assert(value.skip(0) =~= value);
    assert(value.skip(value.len() as int) =~= Seq::<u8>::empty());
}

/// The keys that a listing statement selects. There is no result for a statement that is none.
pub open spec fn selected_keys(tables: Tables, statement: StatementView) -> Option<Set<Seq<char>>> {
    if is_statement(statement, "SELECT k FROM zarr;"@, 0) {
        Some(tables.zarr.dom())
    } else if is_statement(statement, "SELECT k FROM zarr WHERE k > ?1 AND k < ?2;"@, 2) {
        Some(keys_between(tables.zarr, text_param(statement, 0), text_param(statement, 1)))
    } else {
        None
    }
}

/// The rows that a directory listing selects. There is no result for a statement that is none.
pub open spec fn selected_dir(tables: Tables, statement: StatementView) -> Option<Set<DirRow>> {
    if is_statement(statement, root_listing_text(), 0) {
        Some(dir_root_rows(tables.zarr))
    } else if is_statement(statement, dir_listing_text(), 2) {
        Some(dir_rows(tables.zarr, text_param(statement, 0), text_param(statement, 1)))
    } else {
        None
    }
}

/// The listing of the root: the keys without a slash, and the others up to their first slash.
pub open spec fn root_listing_text() -> Seq<char> {
    "SELECT\n        'k' AS type,\n        k AS path\n    FROM zarr\n    WHERE instr(k, '/') = 0\n\n    UNION\n\n    SELECT DISTINCT\n        'p' AS type,\n        substr(k, 1, instr(k, '/')) AS path\n    FROM zarr\n    WHERE instr(k, '/') > 0\n\n    ORDER BY path;"@
}

/// The listing of a prefix other than the root.
pub open spec fn dir_listing_text() -> Seq<char> {
    "WITH matches AS (\n        SELECT\n            k,\n            substr(k, length(?1) + 1) AS rest\n        FROM zarr\n        WHERE k > ?1\n          AND k < ?2\n    )\n    SELECT\n        'k' AS type,\n        k AS path\n    FROM matches\n    WHERE instr(rest, '/') = 0\n\n    UNION\n\n    SELECT DISTINCT\n        'p' AS type,\n        ?1 || substr(rest, 1, instr(rest, '/')) AS path\n    FROM matches\n    WHERE instr(rest, '/') > 0;"@
}

/// The entries that the statement for reading the metadata selects. There is no result for a statement
/// that is none.
pub open spec fn selected_metadata(tables: Tables, statement: StatementView) -> Option<
    Map<Seq<char>, Seq<char>>,
> {
    if is_statement(statement, "SELECT k, v FROM zarr_sqlitestore_metadata;"@, 0) {
        Some(tables.metadata)
    } else {
        None
    }
}

/// Whether `rows` may be what a listing statement gives: the keys that it selects, each once.
pub open spec fn is_key_listing(
    tables: Tables,
    statement: StatementView,
    rows: Seq<Seq<char>>,
) -> bool {
    &&& rows.no_duplicates()
    &&& selected_keys(tables, statement) == Some(rows.to_set())
}

/// Whether no path sorts after that of a later row.
pub open spec fn ordered_by_path(rows: Seq<DirRow>) -> bool {
    forall|i: int, j: int| 0 <= i < j < rows.len() ==> !#[trigger] text_lt(rows[j].1, rows[i].1)
}

/// Whether `rows` may be what a directory listing gives: the rows that it selects, each once, as a
/// `UNION` has them. The rows of the root are ordered by path.
pub open spec fn is_dir_listing(
    tables: Tables,
    statement: StatementView,
    rows: Seq<DirRow>,
) -> bool {
    &&& rows.no_duplicates()
    &&& selected_dir(tables, statement) == Some(rows.to_set())
    &&& statement.sql == root_listing_text() ==> ordered_by_path(rows)
}

/// The value of a key, if it has one.
pub open spec fn value_of(tables: Tables, key: Seq<char>) -> Option<Seq<u8>> {
    if tables.zarr.contains_key(key) {
        Some(tables.zarr[key])
    } else {
        None
    }
}

/// The value that the statement for getting a key selects, if the key has one. There is no result for
/// a statement that is none.
pub open spec fn selected_value(tables: Tables, statement: StatementView) -> Option<
    Option<Seq<u8>>,
> {
    if is_statement(statement, "SELECT v FROM zarr WHERE k = ?;"@, 1) {
        Some(value_of(tables, text_param(statement, 0)))
    } else {
        None
    }
}

/// The number that the statement for the size of a key selects, if the key has a value. There is no
/// result for a statement that is none.
pub open spec fn selected_size(tables: Tables, statement: StatementView) -> Option<Option<nat>> {
    if is_statement(statement, "SELECT length(v) FROM zarr WHERE k = ? LIMIT 1;"@, 1) {
        match value_of(tables, text_param(statement, 0)) {
            Some(value) => Some(Some(value.len())),
            None => Some(None),
        }
    } else {
        None
    }
}

/// The number of bytes in the values of the given keys.
pub open spec fn sizes_sum(zarr: Map<Seq<char>, Seq<u8>>, keys: Seq<Seq<char>>) -> nat
    decreases keys.len(),
{
    if keys.len() == 0 {
        0
    } else {
        sizes_sum(zarr, keys.drop_last()) + zarr[keys.last()].len()
    }
}

/// The number of bytes in all values.
pub open spec fn total_size(zarr: Map<Seq<char>, Seq<u8>>) -> nat {
    sizes_sum(zarr, in_order(zarr.dom()))
}

/// The number that a statement for the size of a store or of a prefix selects. The sum over no rows is
/// zero. There is no result for a statement that is neither.
pub open spec fn selected_total(tables: Tables, statement: StatementView) -> Option<nat> {
    if is_statement(statement, "SELECT coalesce(sum(length(v)), 0) FROM zarr;"@, 0) {
        Some(total_size(tables.zarr))
    } else if is_statement(
        statement,
        "SELECT coalesce(sum(length(v)), 0) FROM zarr WHERE k > ?1 AND k < ?2;"@,
        2,
    ) {
        Some(
            sizes_sum(
                tables.zarr,
                in_order(
                    keys_between(tables.zarr, text_param(statement, 0), text_param(statement, 1)),
                ),
            ),
        )
    } else {
        None
    }
}

/// One more key adds the size of its value, wherever it stands.
proof fn lemma_sizes_insert(
    zarr: Map<Seq<char>, Seq<u8>>,
    keys: Seq<Seq<char>>,
    index: int,
    key: Seq<char>,
)
    requires
        0 <= index <= keys.len(),
    ensures
        sizes_sum(zarr, keys.insert(index, key)) == sizes_sum(zarr, keys) + zarr[key].len(),
    decreases keys.len(),
{
    let more = keys.insert(index, key);
    if index == keys.len() {
        assert(more.drop_last() =~= keys);
        assert(more.last() == key);
    } else {
        assert(more.drop_last() =~= keys.drop_last().insert(index, key));
        assert(more.last() == keys.last());
        lemma_sizes_insert(zarr, keys.drop_last(), index, key);
    }
}

/// The sum depends on the values of the given keys alone.
proof fn lemma_sizes_agree(
    a: Map<Seq<char>, Seq<u8>>,
    b: Map<Seq<char>, Seq<u8>>,
    keys: Seq<Seq<char>>,
)
    requires
        forall|i: int| 0 <= i < keys.len() ==> a[#[trigger] keys[i]] == b[keys[i]],
    ensures
        sizes_sum(a, keys) == sizes_sum(b, keys),
    decreases keys.len(),
{
    if keys.len() > 0 {
        let init = keys.drop_last();
        assert forall|i: int| 0 <= i < init.len() implies a[#[trigger] init[i]] == b[init[i]] by {
            assert(init[i] == keys[i]);
        }
        lemma_sizes_agree(a, b, init);
        assert(keys.last() == keys[keys.len() - 1]);
    }
}

/// A new key adds the size of its value to the size of the store.
proof fn lemma_total_insert(zarr: Map<Seq<char>, Seq<u8>>, key: Seq<char>, value: Seq<u8>)
    requires
        zarr.dom().finite(),
        !zarr.contains_key(key),
    ensures
        total_size(zarr.insert(key, value)) == total_size(zarr) + value.len(),
{
    let keys = in_order(zarr.dom());
    let after = zarr.insert(key, value);
    lemma_in_order_of_finite(zarr.dom());
    if keys.contains(key) {
        assert(keys.to_set().contains(key));
    }
    let index = lemma_has_place(keys, key);
    lemma_insert_ascending(keys, index, key);
    assert(keys.insert(index, key).to_set() =~= after.dom());
    lemma_in_order(keys.insert(index, key));
    lemma_sizes_insert(after, keys, index, key);
    assert forall|i: int| 0 <= i < keys.len() implies after[#[trigger] keys[i]] == zarr[keys[i]] by {
        assert(keys.to_set().contains(keys[i]));
    }
    lemma_sizes_agree(after, zarr, keys);
}

/// Setting a key changes the size of the store by the difference between the sizes of the value it
/// gets and of the one it had. Erasing a key takes the size of its value away.
pub proof fn law_total_size(zarr: Map<Seq<char>, Seq<u8>>, key: Seq<char>, value: Seq<u8>)
    requires
        zarr.dom().finite(),
    ensures
        total_size(Map::empty()) == 0,
        zarr.contains_key(key) ==> total_size(zarr) == total_size(zarr.remove(key))
            + zarr[key].len(),
        zarr.contains_key(key) ==> total_size(zarr.insert(key, value)) + zarr[key].len()
            == total_size(zarr) + value.len(),
        !zarr.contains_key(key) ==> total_size(zarr.insert(key, value)) == total_size(zarr)
            + value.len(),
{
    let none = Seq::<Seq<char>>::empty();
    assert(none.to_set() =~= Map::<Seq<char>, Seq<u8>>::empty().dom());
    lemma_in_order(none);
    let without = zarr.remove(key);
    lemma_total_insert(without, key, value);
    assert(without.insert(key, value) =~= zarr.insert(key, value));
    if zarr.contains_key(key) {
        lemma_total_insert(without, key, zarr[key]);
        assert(without.insert(key, zarr[key]) =~= zarr);
    } else {
        assert(without =~= zarr);
    }
}

/// The columns that a statement for parts of a value selects, if the key has one: one for each call in
/// the text, in their order. There is no result for a statement whose columns are not calls of
/// `substr`, nor for one that computes a column from numbers that are no integers to the engine.
pub open spec fn selected_parts(tables: Tables, statement: StatementView) -> Option<
    Option<Seq<Seq<u8>>>,
> {
    match read_calls(statement.sql) {
        Some(calls) => if is_statement(statement, statement.sql, 1) {
            match value_of(tables, text_param(statement, 0)) {
                Some(value) => if forall|i: int|
                    0 <= i < calls.len() ==> is_engine_call(#[trigger] calls[i]) {
                    Some(
                        Some(
                            Seq::new(
                                calls.len(),
                                |i: int| substr(value, calls[i].start, calls[i].length),
                            ),
                        ),
                    )
                } else {
                    None
                },
                None => Some(None),
            }
        } else {
            None
        },
        None => None,
    }
}

/// The texts of the statements for listings and sizes are all different.
pub proof fn lemma_listings_distinct()
    ensures
        LIST_ALL_SQL@.len() == 19,
        LIST_PREFIX_SQL@.len() == 43,
        LIST_DIR_ROOT_SQL@.len() == 246,
        LIST_DIR_SQL@.len() == 415,
        SIZE_TOTAL_SQL@.len() == 45,
        SIZE_PREFIX_SQL@.len() == 69,
{
    reveal_strlit(
        "SELECT k FROM zarr;",
    );
    reveal_strlit(
        "SELECT k FROM zarr WHERE k > ?1 AND k < ?2;",
    );
    reveal_strlit(
        "SELECT\n        'k' AS type,\n        k AS path\n    FROM zarr\n    WHERE instr(k, '/') = 0\n\n    UNION\n\n    SELECT DISTINCT\n        'p' AS type,\n        substr(k, 1, instr(k, '/')) AS path\n    FROM zarr\n    WHERE instr(k, '/') > 0\n\n    ORDER BY path;",
    );
    reveal_strlit(
        "WITH matches AS (\n        SELECT\n            k,\n            substr(k, length(?1) + 1) AS rest\n        FROM zarr\n        WHERE k > ?1\n          AND k < ?2\n    )\n    SELECT\n        'k' AS type,\n        k AS path\n    FROM matches\n    WHERE instr(rest, '/') = 0\n\n    UNION\n\n    SELECT DISTINCT\n        'p' AS type,\n        ?1 || substr(rest, 1, instr(rest, '/')) AS path\n    FROM matches\n    WHERE instr(rest, '/') > 0;",
    );
    reveal_strlit(
        "SELECT coalesce(sum(length(v)), 0) FROM zarr;",
    );
    reveal_strlit(
        "SELECT coalesce(sum(length(v)), 0) FROM zarr WHERE k > ?1 AND k < ?2;",
    );
}

} // verus!
