//! What a store asks of its database, and what it makes of the rows that come back.
//!
//! A store is driven by plans: an operation becomes the statements to execute, in order, or the
//! error to report without executing anything.

use vstd::prelude::*;
use crate::error::{StorageError, StorageErrorView};
use crate::flags::flags_text;
use crate::keys::{
    is_store_key, is_store_prefix, ByteRange, StoreKey, StoreKeysPrefixes, StorePrefix,
};
use crate::laws::{is_new_store, law_new_store};
use crate::metadata::{fresh_metadata, MetadataView, SqliteStoreMetadata};
use crate::metadata_table::{row_views, Row};
use crate::options::{creator, Options, OptionsView, StoreMode};
use crate::queries::{
    create_schema_queries, erase_prefix_query, erase_query, get_partial_many_query,
    get_partial_query, get_query, get_size_query, insert_core_metadata_query,
    insert_created_time_query, insert_unknown_metadata_query, is_countable, list_all_query,
    list_dir_query, list_dir_root_query, list_prefix_query, maybe_insert_created_by_query,
    maybe_insert_modified_at_query, schema_batch, select_text, set_query, size_prefix_query,
    size_total_query, substrs_text, update_modified_at_query, upper_text, ERASE_PREFIX_SQL,
    ERASE_SQL, GET_SIZE_SQL, GET_SQL, INSERT_CORE_METADATA_SQL, INSERT_CREATED_TIME_SQL,
    INSERT_METADATA_KV_SQL, INSERT_MODIFIED_AT_SQL, INSERT_UNKNOWN_METADATA_SQL, LIST_ALL_SQL,
    LIST_DIR_ROOT_SQL, LIST_DIR_SQL, LIST_PREFIX_SQL, SET_SQL, SIZE_PREFIX_SQL, SIZE_TOTAL_SQL,
    UPDATE_MODIFIED_AT_SQL,
};
use crate::sorted::in_order;
use crate::statement::{
    plain, statement_views, value_views, with_text, with_texts, Statement, StatementView, Value,
    ValueView,
};
use crate::tables::{execute_all, Tables};
use crate::text::{text_eq, views};
use crate::timestamp::{in_range, instant_text, read_instant, Timestamp};
use crate::version::version_text;

verus! {

/// Writes the log to the database file and truncates it.
pub const CHECKPOINT_SQL: &'static str = "PRAGMA wal_checkpoint(TRUNCATE);";

/// Defragments the database file.
pub const VACUUM_SQL: &'static str = "VACUUM;";

/// Sets up the tables of a new database.
pub open spec fn schema_statement() -> StatementView {
    StatementView { sql: schema_batch(), batch: true, params: Seq::empty() }
}

/// Records that the store was modified now.
pub open spec fn touch_statement() -> StatementView {
    plain(UPDATE_MODIFIED_AT_SQL@)
}

/// Gives a key a value.
pub open spec fn set_statement(key: Seq<char>, value: Seq<u8>) -> StatementView {
    StatementView {
        sql: SET_SQL@,
        batch: false,
        params: seq![ValueView::Text(key), ValueView::Blob(value)],
    }
}

/// Removes a key.
pub open spec fn erase_statement(key: Seq<char>) -> StatementView {
    with_text(ERASE_SQL@, key)
}

/// Removes the keys that start with a prefix.
pub open spec fn erase_prefix_statement(prefix: Seq<char>) -> StatementView {
    with_text(ERASE_PREFIX_SQL@, prefix)
}

/// Selects the value of a key.
pub open spec fn get_statement(key: Seq<char>) -> StatementView {
    with_text(GET_SQL@, key)
}

/// Selects the size of the value of a key.
pub open spec fn get_size_statement(key: Seq<char>) -> StatementView {
    with_text(GET_SIZE_SQL@, key)
}

/// Selects parts of the value of a key, each in a column of its own.
pub open spec fn get_parts_statement(key: Seq<char>, ranges: Seq<ByteRange>) -> StatementView {
    with_text(select_text(substrs_text("v"@, ranges)), key)
}

/// Selects the keys below a prefix, or every key if the prefix is the root.
pub open spec fn list_prefix_statement(prefix: Seq<char>) -> StatementView {
    if prefix.len() == 0 {
        plain(LIST_ALL_SQL@)
    } else {
        with_texts(LIST_PREFIX_SQL@, prefix, upper_text(prefix))
    }
}

/// Selects what stands directly below a prefix.
pub open spec fn list_dir_statement(prefix: Seq<char>) -> StatementView {
    if prefix.len() == 0 {
        plain(LIST_DIR_ROOT_SQL@)
    } else {
        with_texts(LIST_DIR_SQL@, prefix, upper_text(prefix))
    }
}

/// Selects the size of a prefix, or of the whole store if the prefix is the root.
pub open spec fn size_prefix_statement(prefix: Seq<char>) -> StatementView {
    if prefix.len() == 0 {
        plain(SIZE_TOTAL_SQL@)
    } else {
        with_texts(SIZE_PREFIX_SQL@, prefix, upper_text(prefix))
    }
}

/// Writes the version and the flags.
pub open spec fn core_statement(metadata: MetadataView) -> StatementView {
    StatementView {
        sql: INSERT_CORE_METADATA_SQL@,
        batch: false,
        params: seq![
            ValueView::Text(version_text(metadata.sqlitestore_version)),
            ValueView::Text(flags_text(metadata.compatible_flags)),
            ValueView::Text(flags_text(metadata.incompatible_flags)),
        ],
    }
}

/// Writes the unknown entries with the given keys.
pub open spec fn unknown_statements(
    unknown: Map<Seq<char>, Seq<char>>,
    keys: Seq<Seq<char>>,
) -> Seq<StatementView> {
    keys.map_values(
        |key: Seq<char>| with_texts(INSERT_UNKNOWN_METADATA_SQL@, key, unknown[key]),
    )
}

/// Names the creator, if there is one.
pub open spec fn created_by_statements(metadata: MetadataView) -> Seq<StatementView> {
    match metadata.created_by {
        Some(created_by) => seq![with_texts(INSERT_METADATA_KV_SQL@, "created_by"@, created_by)],
        None => Seq::empty(),
    }
}

/// Records when the store was created.
pub open spec fn created_time_statement(metadata: MetadataView) -> StatementView {
    with_text(INSERT_CREATED_TIME_SQL@, instant_text(metadata.created_at))
}

/// Records when the store was last modified, if that is known.
pub open spec fn modified_at_statements(metadata: MetadataView) -> Seq<StatementView> {
    match metadata.modified_at {
        Some(modified_at) => seq![with_text(INSERT_MODIFIED_AT_SQL@, instant_text(modified_at))],
        None => Seq::empty(),
    }
}

/// Writes the metadata: the unknown entries in ascending order of their keys, and then the known
/// ones.
pub open spec fn metadata_statements(metadata: MetadataView) -> Seq<StatementView> {
    unknown_statements(metadata.unknown, in_order(metadata.unknown.dom())).push(
        core_statement(metadata),
    ) + created_by_statements(metadata).push(created_time_statement(metadata))
        + modified_at_statements(metadata)
}

/// Whether the times in the metadata are read back from how they are written.
pub open spec fn times_readable(metadata: MetadataView) -> bool {
    &&& read_instant(instant_text(metadata.created_at)) == Some(metadata.created_at)
    &&& metadata.modified_at matches Some(at) ==> read_instant(instant_text(at)) == Some(at)
}

/// Overwrites the metadata of a store. Unknown entries that the store already has stay, known ones
/// are overwritten.
pub fn write_metadata(metadata: &SqliteStoreMetadata) -> (statements: Vec<Statement<'static>>)
    ensures
        statement_views(statements@) == metadata_statements(metadata@),
        times_readable(metadata@),
        metadata@.unknown.dom().finite(),
{
    let ghost m = metadata@;
    let unknown = &metadata.unknown;
    let ghost keys = in_order(m.unknown.dom());
    let mut statements: Vec<Statement<'static>> = Vec::new();
    let count = unknown.len();
    proof {
        assert(statement_views(statements@) =~= unknown_statements(m.unknown, keys.take(0)));
    }
    let mut i: usize = 0;
    while i < count
        invariant
            i <= count,
            count == keys.len(),
            count == m.unknown.dom().len(),
            keys == in_order(m.unknown.dom()),
            m.unknown == unknown@,
            statement_views(statements@) == unknown_statements(m.unknown, keys.take(i as int)),
        decreases count - i,
    {
        let (k, v) = unknown.entry(i);
        let (sql, params) = insert_unknown_metadata_query(k, v);
        let ghost before = statement_views(statements@);
        statements.push(Statement::with_texts(sql, params.0, params.1));
        i = i + 1;
        proof {
            assert(statement_views(statements@) =~= before.push(
                with_texts(INSERT_UNKNOWN_METADATA_SQL@, keys[i - 1], m.unknown[keys[i - 1]]),
            ));
            assert(statement_views(statements@) =~= unknown_statements(
                m.unknown,
                keys.take(i as int),
            ));
        }
    }
    assert(keys.take(keys.len() as int) =~= keys);
    let ghost unknown_part = statement_views(statements@);
    let (sql, params) = insert_core_metadata_query(metadata);
    statements.push(Statement::with_three_texts(sql, &params));
    let ghost core_part = statement_views(statements@);
    assert(core_part =~= unknown_part.push(core_statement(m)));
    match maybe_insert_created_by_query(metadata) {
        Some((sql, params)) => {
            statements.push(Statement::with_texts(sql, params.0, params.1));
        },
        None => {},
    }
    let ghost named_part = statement_views(statements@);
    assert(named_part =~= core_part + created_by_statements(m));
    let (sql, params) = insert_created_time_query(metadata);
    statements.push(Statement::with_text(sql, params.0.as_str()));
    let ghost timed_part = statement_views(statements@);
    assert(timed_part =~= core_part + created_by_statements(m).push(created_time_statement(m)));
    match maybe_insert_modified_at_query(metadata) {
        Some((sql, params)) => {
            statements.push(Statement::with_text(sql, params.0.as_str()));
        },
        None => {},
    }
    assert(statement_views(statements@) =~= timed_part + modified_at_statements(m));
    statements
}

/// The statements with which a store starts. A new store gets its tables and its metadata; the
/// modification of any other is recorded, unless the store is only read, or records each change by
/// itself.
pub open spec fn opening_statements(
    mode: StoreMode,
    init: bool,
    metadata: MetadataView,
) -> Seq<StatementView> {
    if init {
        seq![schema_statement()] + metadata_statements(metadata)
    } else if mode.write && !mode.update_timestamp_on_write {
        seq![touch_statement()]
    } else {
        Seq::empty()
    }
}

/// The statements with which a store that is opened at the given time starts. `init` says whether
/// the database is new; then they make it an empty store.
pub fn open_at(options: &Options, init: bool, now: Timestamp) -> (statements: Vec<
    Statement<'static>,
>)
    ensures
        statement_views(statements@) == opening_statements(
            mode_of(options@),
            init,
            fresh_metadata(Some(creator(options@)), now@),
        ),
        init ==> read_instant(instant_text(now@)) == Some(now@),
        init ==> forall|time: Seq<char>|
            (#[trigger] execute_all(
                Tables::blank(),
                statement_views(statements@),
                time,
            )) matches Some(after) && is_new_store(
                after,
                fresh_metadata(Some(creator(options@)), now@),
            ),
{
    let mode = options.store_mode();
    if init {
        let mut statements: Vec<Statement<'static>> = Vec::new();
        statements.push(Statement::batch(create_schema_queries()));
        let metadata = options.metadata_at(now);
        let mut rest = write_metadata(&metadata);
        let ghost rest_views = statement_views(rest@);
        statements.append(&mut rest);
        proof {
            assert(statement_views(statements@) =~= seq![schema_statement()] + rest_views);
            assert forall|time: Seq<char>|
                (#[trigger] execute_all(
                    Tables::blank(),
                    statement_views(statements@),
                    time,
                )) matches Some(after) && is_new_store(after, metadata@) by {
                law_new_store(mode, creator(options@), now@, time);
            }
        }
        statements
    } else if mode.write && !mode.update_timestamp_on_write {
        mode.update_modified_at()
    } else {
        let statements: Vec<Statement<'static>> = Vec::new();
        assert(statement_views(statements@) =~= Seq::empty());
        statements
    }
}

/// The statements with which a store that is opened now starts. `init` says whether the database is
/// new.
pub fn open(options: &Options, init: bool) -> (statements: Vec<Statement<'static>>)
    ensures
        exists|now: i128|
            in_range(now) && statement_views(statements@) == #[trigger] opening_statements(
                mode_of(options@),
                init,
                fresh_metadata(Some(creator(options@)), now),
            ) && (init ==> read_instant(instant_text(now)) == Some(now)),
{
    open_at(options, init, Timestamp::now())
}

/// How a store that was opened with the given options may be used.
pub open spec fn mode_of(options: OptionsView) -> StoreMode {
    StoreMode {
        write: options.write,
        update_timestamp_on_write: options.update_timestamp_on_write,
    }
}

/// The statements for a change: the change itself, and the record of the modification if each
/// change is recorded.
pub open spec fn change_statements(mode: StoreMode, change: StatementView) -> Seq<StatementView> {
    if mode.update_timestamp_on_write {
        seq![change, touch_statement()]
    } else {
        seq![change]
    }
}

impl StoreMode {
    /// Records that the store was modified now. A store that is only read is not touched.
    pub fn update_modified_at(self) -> (statements: Vec<Statement<'static>>)
        ensures
            statement_views(statements@) == (if self.write {
                seq![touch_statement()]
            } else {
                Seq::empty()
            }),
    {
        let mut statements: Vec<Statement<'static>> = Vec::new();
        if self.write {
            statements.push(Statement::plain(update_modified_at_query()));
            assert(statement_views(statements@) =~= seq![touch_statement()]);
        } else {
            assert(statement_views(statements@) =~= Seq::empty());
        }
        statements
    }

    /// Plans a change of the data.
    fn change<'a>(self, change: Statement<'a>) -> (result: Result<Vec<Statement<'a>>, StorageError>)
        ensures
            match result {
                Ok(statements) => self.write && statement_views(statements@) == change_statements(
                    self,
                    change@,
                ),
                Err(error) => !self.write && error@ == StorageErrorView::ReadOnly,
            },
    {
        if !self.write {
            return Err(StorageError::ReadOnly);
        }
        let mut statements: Vec<Statement<'a>> = Vec::new();
        statements.push(change);
        if self.update_timestamp_on_write {
            let mut touch: Vec<Statement<'a>> = self.update_modified_at();
            let ghost touch_views = statement_views(touch@);
            statements.append(&mut touch);
            assert(statement_views(statements@) =~= seq![change@] + touch_views);
            assert(statement_views(statements@) =~= change_statements(self, change@));
        } else {
            assert(statement_views(statements@) =~= change_statements(self, change@));
        }
        Ok(statements)
    }

    /// Gives a key a value.
    pub fn set<'a>(self, key: &StoreKey, value: &'a [u8]) -> (result: Result<
        Vec<Statement<'a>>,
        StorageError,
    >)
        ensures
            match result {
                Ok(statements) => self.write && statement_views(statements@) == change_statements(
                    self,
                    set_statement(key@, value@),
                ),
                Err(error) => !self.write && error@ == StorageErrorView::ReadOnly,
            },
    {
        let (sql, params) = set_query(key, value);
        let mut values: Vec<Value<'a>> = Vec::new();
        values.push(Value::Text(params.0.to_owned()));
        values.push(Value::Blob(value));
        assert(value_views(values@) =~= seq![ValueView::Text(key@), ValueView::Blob(value@)]);
        self.change(Statement::new(sql, values))
    }

    /// Partial writes are refused: by a store that is only read as such, by any other as
    /// unsupported.
    pub fn set_partial(self) -> (error: StorageError)
        ensures
            error@ == (if self.write {
                StorageErrorView::Unsupported("set_partial is unsupported"@)
            } else {
                StorageErrorView::ReadOnly
            }),
    {
        if !self.write {
            StorageError::ReadOnly
        } else {
            StorageError::Unsupported("set_partial is unsupported".to_owned())
        }
    }

    /// Partial writes are refused: by a store that is only read as such, by any other as
    /// unsupported.
    pub fn set_partial_many(self) -> (error: StorageError)
        ensures
            error@ == (if self.write {
                StorageErrorView::Unsupported("set_partial_many is unsupported"@)
            } else {
                StorageErrorView::ReadOnly
            }),
    {
        if !self.write {
            StorageError::ReadOnly
        } else {
            StorageError::Unsupported("set_partial_many is unsupported".to_owned())
        }
    }

    /// Removes a key.
    pub fn erase(self, key: &StoreKey) -> (result: Result<Vec<Statement<'static>>, StorageError>)
        ensures
            match result {
                Ok(statements) => self.write && statement_views(statements@) == change_statements(
                    self,
                    erase_statement(key@),
                ),
                Err(error) => !self.write && error@ == StorageErrorView::ReadOnly,
            },
    {
        let (sql, params) = erase_query(key);
        self.change(Statement::with_text(sql, params.0))
    }

    /// Removes the keys that start with a prefix.
    pub fn erase_prefix(self, prefix: &StorePrefix) -> (result: Result<
        Vec<Statement<'static>>,
        StorageError,
    >)
        ensures
            match result {
                Ok(statements) => self.write && statement_views(statements@) == change_statements(
                    self,
                    erase_prefix_statement(prefix@),
                ),
                Err(error) => !self.write && error@ == StorageErrorView::ReadOnly,
            },
    {
        let (sql, params) = erase_prefix_query(prefix);
        self.change(Statement::with_text(sql, params.0.as_str()))
    }

    /// Writes the write-ahead log to the database and truncates it. None if the store is only read.
    pub fn checkpoint(self) -> (statement: Option<Statement<'static>>)
        ensures
            match statement {
                Some(statement) => self.write && statement@ == plain(CHECKPOINT_SQL@),
                None => !self.write,
            },
    {
        if !self.write {
            return None;
        }
        Some(Statement::plain(CHECKPOINT_SQL))
    }
}

/// Defragments the database file.
pub fn vacuum() -> (statement: Statement<'static>)
    ensures
        statement@ == plain(VACUUM_SQL@),
{
    Statement::plain(VACUUM_SQL)
}

/// Selects the value of a key.
pub fn get(key: &StoreKey) -> (statement: Statement<'static>)
    ensures
        statement@ == get_statement(key@),
{
    let (sql, params) = get_query(key);
    Statement::with_text(sql, params.0)
}

/// Selects a part of the value of a key.
pub fn get_partial(key: &StoreKey, byte_range: ByteRange) -> (statement: Statement<'static>)
    requires
        is_countable(byte_range),
    ensures
        statement@ == get_parts_statement(key@, seq![byte_range]),
{
    let (sql, params) = get_partial_query(key, byte_range);
    Statement::with_text(sql.as_str(), params.0)
}

/// Selects parts of the value of a key, each in a column of its own. None if there are no parts: then
/// there is nothing to select.
pub fn get_partial_many(key: &StoreKey, byte_ranges: &[ByteRange]) -> (statement: Option<
    Statement<'static>,
>)
    requires
        forall|i: int| 0 <= i < byte_ranges@.len() ==> is_countable(#[trigger] byte_ranges@[i]),
    ensures
        match statement {
            Some(statement) => {
                &&& byte_ranges@.len() > 0
                &&& statement@ == get_parts_statement(key@, byte_ranges@)
            },
            None => byte_ranges@.len() == 0,
        },
{
    match get_partial_many_query(key, byte_ranges) {
        Some((sql, params, _)) => Some(Statement::with_text(sql.as_str(), params.0)),
        None => None,
    }
}

/// Selects the size of the value of a key.
pub fn size_key(key: &StoreKey) -> (statement: Statement<'static>)
    ensures
        statement@ == get_size_statement(key@),
{
    let (sql, params) = get_size_query(key);
    Statement::with_text(sql, params.0)
}

/// Selects the keys below a prefix, or every key if the prefix is the root.
pub fn list_prefix(prefix: &StorePrefix) -> (statement: Statement<'static>)
    ensures
        statement@ == list_prefix_statement(prefix@),
{
    match list_prefix_query(prefix) {
        Some((sql, params)) => Statement::with_texts(sql, params.0.as_str(), params.1.as_str()),
        None => Statement::plain(list_all_query()),
    }
}

/// Selects what stands directly below a prefix.
pub fn list_dir(prefix: &StorePrefix) -> (statement: Statement<'static>)
    ensures
        statement@ == list_dir_statement(prefix@),
{
    match list_dir_query(prefix) {
        Some((sql, params)) => Statement::with_texts(sql, params.0.as_str(), params.1.as_str()),
        None => Statement::plain(list_dir_root_query()),
    }
}

/// Selects the size of a prefix, or of the whole store if the prefix is the root.
pub fn size_prefix(prefix: &StorePrefix) -> (statement: Statement<'static>)
    ensures
        statement@ == size_prefix_statement(prefix@),
{
    match size_prefix_query(prefix) {
        Some((sql, params)) => Statement::with_texts(sql, params.0.as_str(), params.1.as_str()),
        None => Statement::plain(size_total_query()),
    }
}

/// The texts of keys.
pub open spec fn key_views(keys: Seq<StoreKey>) -> Seq<Seq<char>> {
    keys.map_values(|key: StoreKey| key@)
}

/// The texts of prefixes.
pub open spec fn prefix_views(prefixes: Seq<StorePrefix>) -> Seq<Seq<char>> {
    prefixes.map_values(|prefix: StorePrefix| prefix@)
}

/// The texts that can be keys.
pub open spec fn valid_keys(texts: Seq<Seq<char>>) -> Seq<Seq<char>> {
    texts.filter(|text: Seq<char>| is_store_key(text))
}

/// The keys in the rows of a listing. A text that cannot be a key is ignored.
pub fn store_keys(rows: &Vec<String>) -> (keys: Vec<StoreKey>)
    ensures
        key_views(keys@) == valid_keys(views(rows@)),
{
    let ghost all = views(rows@);
    let mut keys: Vec<StoreKey> = Vec::new();
    let mut i: usize = 0;
    proof {
        reveal(Seq::filter);
        assert(key_views(keys@) =~= valid_keys(all.take(0)));
    }
    while i < rows.len()
        invariant
            all == views(rows@),
            i <= rows@.len(),
            key_views(keys@) == valid_keys(all.take(i as int)),
        decreases rows@.len() - i,
    {
        let ghost before = key_views(keys@);
        let ghost more = all.take(i + 1);
        proof {
            reveal(Seq::filter);
            assert(more.drop_last() =~= all.take(i as int));
            assert(more.last() == rows@[i as int]@);
        }
        match StoreKey::new(rows[i].as_str()) {
            Some(key) => {
                keys.push(key);
                assert(key_views(keys@) =~= before.push(rows@[i as int]@));
            },
            None => {},
        }
        i = i + 1;
    }
    assert(all.take(all.len() as int) =~= all);
    keys
}

/// The paths in the rows of a directory listing that have the given type.
pub open spec fn dir_paths(rows: Seq<Row>, valid: spec_fn(Row) -> bool) -> Seq<Seq<char>> {
    rows.filter(valid).map_values(|row: Row| row.1)
}

/// The rows of a directory listing that name a key.
pub open spec fn names_key() -> spec_fn(Row) -> bool {
    |row: Row| row.0 == "k"@ && is_store_key(row.1)
}

/// The rows of a directory listing that name a prefix.
pub open spec fn names_prefix() -> spec_fn(Row) -> bool {
    |row: Row| row.0 == "p"@ && is_store_prefix(row.1)
}

/// What a row of a directory listing names.
#[derive(Debug)]
pub enum DirEntry {
    Key(StoreKey),
    Prefix(StorePrefix),
    /// The path cannot be a key, though the row is of that type.
    InvalidKey,
    /// The path cannot be a prefix, though the row is of that type.
    InvalidPrefix,
    /// The row is of a type that is not known.
    UnknownType,
}

/// The two types of rows are different.
proof fn lemma_types_differ()
    ensures
        "k"@ != "p"@,
{
    reveal_strlit("k");
    reveal_strlit("p");
    assert("k"@[0] != "p"@[0]);
}

/// Reads a row of a directory listing: its type, `k` for a key or `p` for a prefix, and its path.
pub fn dir_entry(kind: &str, path: &str) -> (entry: DirEntry)
    ensures
        match entry {
            DirEntry::Key(key) => names_key()((kind@, path@)) && key@ == path@,
            DirEntry::Prefix(prefix) => names_prefix()((kind@, path@)) && prefix@ == path@,
            DirEntry::InvalidKey => kind@ == "k"@ && !is_store_key(path@),
            DirEntry::InvalidPrefix => kind@ == "p"@ && !is_store_prefix(path@),
            DirEntry::UnknownType => kind@ != "k"@ && kind@ != "p"@,
        },
{
    if text_eq(kind, "k") {
        match StoreKey::new(path) {
            Some(key) => DirEntry::Key(key),
            None => DirEntry::InvalidKey,
        }
    } else if text_eq(kind, "p") {
        match StorePrefix::new(path) {
            Some(prefix) => DirEntry::Prefix(prefix),
            None => DirEntry::InvalidPrefix,
        }
    } else {
        DirEntry::UnknownType
    }
}

/// The keys and prefixes in the rows of a directory listing. Rows of an unknown type, and paths that
/// cannot be what the row says, are ignored.
pub fn store_keys_prefixes(rows: &Vec<(String, String)>) -> (listing: StoreKeysPrefixes)
    ensures
        key_views(listing.keys@) == dir_paths(row_views(rows@), names_key()),
        prefix_views(listing.prefixes@) == dir_paths(row_views(rows@), names_prefix()),
{
    let ghost all = row_views(rows@);
    let mut keys: Vec<StoreKey> = Vec::new();
    let mut prefixes: Vec<StorePrefix> = Vec::new();
    let mut i: usize = 0;
    proof {
        reveal(Seq::filter);
        assert(key_views(keys@) =~= dir_paths(all.take(0), names_key()));
        assert(prefix_views(prefixes@) =~= dir_paths(all.take(0), names_prefix()));
    }
    while i < rows.len()
        invariant
            all == row_views(rows@),
            i <= rows@.len(),
            key_views(keys@) == dir_paths(all.take(i as int), names_key()),
            prefix_views(prefixes@) == dir_paths(all.take(i as int), names_prefix()),
        decreases rows@.len() - i,
    {
        let kind = rows[i].0.as_str();
        let path = rows[i].1.as_str();
        let ghost row = all[i as int];
        let ghost done = all.take(i as int);
        let ghost more = all.take(i + 1);
        let ghost keys_before = key_views(keys@);
        let ghost prefixes_before = prefix_views(prefixes@);
        proof {
            lemma_types_differ();
            lemma_dir_paths_push(done, row, names_key());
            lemma_dir_paths_push(done, row, names_prefix());
            assert(more =~= done.push(row));
            assert(row == (kind@, path@));
        }
        match dir_entry(kind, path) {
            DirEntry::Key(key) => {
                keys.push(key);
                assert(key_views(keys@) =~= keys_before.push(path@));
            },
            DirEntry::Prefix(prefix) => {
                prefixes.push(prefix);
                assert(prefix_views(prefixes@) =~= prefixes_before.push(path@));
            },
            DirEntry::InvalidKey => {},
            DirEntry::InvalidPrefix => {},
            DirEntry::UnknownType => {},
        }
        i = i + 1;
    }
    assert(all.take(all.len() as int) =~= all);
    StoreKeysPrefixes { keys, prefixes }
}

/// One more row adds its path, if it is valid.
pub proof fn lemma_dir_paths_push(rows: Seq<Row>, row: Row, valid: spec_fn(Row) -> bool)
    ensures
        dir_paths(rows.push(row), valid) == (if valid(row) {
            dir_paths(rows, valid).push(row.1)
        } else {
            dir_paths(rows, valid)
        }),
{
    reveal(Seq::filter);
    assert(rows.push(row).drop_last() =~= rows);
    assert(dir_paths(rows.push(row), valid) =~= if valid(row) {
        dir_paths(rows, valid).push(row.1)
    } else {
        dir_paths(rows, valid)
    });
}

/// The size in a row, which the engine counts in signed integers.
pub fn size_from_row(size: Option<i64>) -> (result: Option<u64>)
    ensures
        match size {
            Some(size) => result == Some((size as int % 0x1_0000_0000_0000_0000) as u64),
            None => result is None,
        },
        size matches Some(size) ==> size >= 0 ==> result == Some(size as u64),
{
    match size {
        Some(size) => {
            let unsigned: u64 = #[verifier::truncate] (size as u64);
            proof {
                assert(size >= 0 ==> unsigned == size);
                assert(size < 0 ==> (size as u64) == size + 0x1_0000_0000_0000_0000) by (bit_vector);
            }
            Some(unsigned)
        },
        None => None,
    }
}

/// The texts of a listing are kept in their order if they can be keys, and left out if they cannot.
pub proof fn law_valid_keys(texts: Seq<Seq<char>>, text: Seq<char>)
    ensures
        valid_keys(Seq::empty()).len() == 0,
        valid_keys(texts.push(text)) == (if is_store_key(text) {
            valid_keys(texts).push(text)
        } else {
            valid_keys(texts)
        }),
{
    reveal(Seq::filter);
    assert(texts.push(text).drop_last() =~= texts);
}

/// The paths of a directory listing are kept in their order: those of rows of type `k` that can be keys
/// as keys, those of rows of type `p` that can be prefixes as prefixes. Every other row is left out.
pub proof fn law_dir_paths(rows: Seq<Row>, row: Row)
    ensures
        dir_paths(Seq::empty(), names_key()).len() == 0,
        dir_paths(Seq::empty(), names_prefix()).len() == 0,
        dir_paths(rows.push(row), names_key()) == (if row.0 == "k"@ && is_store_key(row.1) {
            dir_paths(rows, names_key()).push(row.1)
        } else {
            dir_paths(rows, names_key())
        }),
        dir_paths(rows.push(row), names_prefix()) == (if row.0 == "p"@ && is_store_prefix(row.1) {
            dir_paths(rows, names_prefix()).push(row.1)
        } else {
            dir_paths(rows, names_prefix())
        }),
{
    reveal(Seq::filter);
    lemma_dir_paths_push(rows, row, names_key());
    lemma_dir_paths_push(rows, row, names_prefix());
}

/// The texts of keys and prefixes are those of each, in their order.
pub proof fn law_listing_views(keys: Seq<StoreKey>, prefixes: Seq<StorePrefix>)
    ensures
        key_views(keys).len() == keys.len(),
        forall|i: int| 0 <= i < keys.len() ==> #[trigger] key_views(keys)[i] == keys[i]@,
        prefix_views(prefixes).len() == prefixes.len(),
        forall|i: int|
            0 <= i < prefixes.len() ==> #[trigger] prefix_views(prefixes)[i] == prefixes[i]@,
{
}

/// A store may be written to, and records each change, as the options say.
pub proof fn law_mode(options: OptionsView)
    ensures
        mode_of(options).write == options.write,
        mode_of(options).update_timestamp_on_write == options.update_timestamp_on_write,
{
}

} // verus!
