//! What the operations of a store do, from their arguments to what becomes of the database.

use vstd::prelude::*;
use crate::error::StorageError;
use crate::flags::flags_text;
use crate::keys::{is_store_key, is_store_prefix, ByteRange, StoreKey, StorePrefix};
use crate::laws::{
    keys_valid, law_erase, law_erase_prefix, law_get, law_get_parts, law_get_parts_of_nothing,
    law_list_dir_selects, law_list_prefix_selects, law_prefix_size, law_reopened_store, law_set,
    law_touch, law_write_metadata, lemma_execute_one,
};
use crate::metadata::{fresh_metadata, law_metadata_view, SqliteStoreMetadata};
use crate::metadata_laws::{law_new_store_entries, law_written_entry};
use crate::metadata_table::lookup;
use crate::options::{creator, Options, StoreMode};
use crate::sorted::in_order;
use crate::statement::{statement_views, Statement};
use crate::store::{
    dir_entry, get, get_partial, get_partial_many, key_views, law_listing_views, law_valid_keys,
    list_dir, list_prefix, mode_of, open_at, size_from_row, size_key, size_prefix, store_keys,
    vacuum, write_metadata, DirEntry,
};
use crate::tables::{
    execute_all, keys_seen, selected_dir, selected_keys, selected_parts, selected_size,
    selected_total, selected_value, sizes_sum, Tables, LENGTH_LIMIT,
};
use crate::text::{law_views, views};
use crate::timestamp::{instant_text, Timestamp};
use crate::version::version_text;

verus! {

/// Setting a key gives it the value and leaves every other key as it is. The modification is recorded
/// if the store records each change. A store that is only read refuses.
pub proof fn law_set_operation(
    mode: StoreMode,
    key: StoreKey,
    value: &[u8],
    result: Result<Vec<Statement<'_>>, StorageError>,
    tables: Tables,
    now: Seq<char>,
)
    requires
        call_ensures(StoreMode::set, (mode, &key, value), result),
    ensures
        result is Ok <==> mode.write,
        result matches Err(error) ==> error is ReadOnly,
        result matches Ok(statements) ==> execute_all(tables, statement_views(statements@), now)
            == Some(
            Tables {
                application_id: tables.application_id,
                zarr: tables.zarr.insert(key@, value@),
                metadata: if mode.update_timestamp_on_write {
                    tables.metadata.insert("modified_at"@, now)
                } else {
                    tables.metadata
                },
            },
        ),
{
    law_set(mode, tables, key@, value@, now);
}

/// Erasing a key removes it and leaves every other key as it is. The modification is recorded if the
/// store records each change. A store that is only read refuses.
pub proof fn law_erase_operation(
    mode: StoreMode,
    key: StoreKey,
    result: Result<Vec<Statement<'static>>, StorageError>,
    tables: Tables,
    now: Seq<char>,
)
    requires
        call_ensures(StoreMode::erase, (mode, &key), result),
    ensures
        result is Ok <==> mode.write,
        result matches Err(error) ==> error is ReadOnly,
        result matches Ok(statements) ==> execute_all(tables, statement_views(statements@), now)
            == Some(
            Tables {
                application_id: tables.application_id,
                zarr: tables.zarr.remove(key@),
                metadata: if mode.update_timestamp_on_write {
                    tables.metadata.insert("modified_at"@, now)
                } else {
                    tables.metadata
                },
            },
        ),
{
    law_erase(mode, tables, key@, now);
}

/// Erasing a prefix removes the keys that start with it and leaves every other key as it is. The
/// modification is recorded if the store records each change. A store that is only read refuses.
pub proof fn law_erase_prefix_operation(
    mode: StoreMode,
    prefix: StorePrefix,
    result: Result<Vec<Statement<'static>>, StorageError>,
    tables: Tables,
    now: Seq<char>,
)
    requires
        call_ensures(StoreMode::erase_prefix, (mode, &prefix), result),
    ensures
        result is Ok <==> mode.write,
        result matches Err(error) ==> error is ReadOnly,
        result matches Ok(statements) ==> (execute_all(
            tables,
            statement_views(statements@),
            now,
        ) matches Some(after) && {
            &&& after.application_id == tables.application_id
            &&& after.metadata == if mode.update_timestamp_on_write {
                tables.metadata.insert("modified_at"@, now)
            } else {
                tables.metadata
            }
            &&& forall|key: Seq<char>| #[trigger]
                after.zarr.contains_key(key) <==> tables.zarr.contains_key(key)
                    && !prefix@.is_prefix_of(key)
            &&& forall|key: Seq<char>| #[trigger]
                after.zarr.contains_key(key) ==> after.zarr[key] == tables.zarr[key]
        }),
{
    law_erase_prefix(mode, tables, prefix@, now);
}

/// Recording a modification sets the time of the last modification, unless the store is only read.
pub proof fn law_update_modified_at_operation(
    mode: StoreMode,
    statements: Vec<Statement<'static>>,
    tables: Tables,
    now: Seq<char>,
)
    requires
        call_ensures(StoreMode::update_modified_at, (mode,), statements),
    ensures
        execute_all(tables, statement_views(statements@), now) == Some(
            if mode.write {
                Tables { metadata: tables.metadata.insert("modified_at"@, now), ..tables }
            } else {
                tables
            },
        ),
        statements@.len() == if mode.write {
            1nat
        } else {
            0
        },
{
    assert(statement_views(statements@).len() == statements@.len());
    if mode.write {
        law_touch(tables, now);
        lemma_execute_one(tables, statement_views(statements@)[0], now);
        assert(statement_views(statements@) =~= seq![statement_views(statements@)[0]]);
    }
}

/// Getting a key gives its value, if it has one.
pub proof fn law_get_operation(key: StoreKey, statement: Statement<'static>, tables: Tables)
    requires
        call_ensures(get, (&key,), statement),
    ensures
        selected_value(tables, statement@) == Some(
            if tables.zarr.contains_key(key@) {
                Some(tables.zarr[key@])
            } else {
                None
            },
        ),
{
    law_get(tables, key@);
}

/// The size of a key is the number of bytes of its value, if it has one.
pub proof fn law_size_key_operation(key: StoreKey, statement: Statement<'static>, tables: Tables)
    requires
        call_ensures(size_key, (&key,), statement),
    ensures
        selected_size(tables, statement@) == Some(
            if tables.zarr.contains_key(key@) {
                Some(tables.zarr[key@].len())
            } else {
                None
            },
        ),
{
    law_get(tables, key@);
}

/// Getting parts of a value gives, for each range in its turn, the bytes that the range names. There is
/// nothing to select just if there are no ranges.
pub proof fn law_get_partial_many_operation(
    key: StoreKey,
    ranges: &[ByteRange],
    statement: Option<Statement<'static>>,
    tables: Tables,
)
    requires
        call_ensures(get_partial_many, (&key, ranges), statement),
        tables.zarr.contains_key(key@),
        tables.zarr[key@].len() <= LENGTH_LIMIT,
        forall|i: int|
            0 <= i < ranges@.len() ==> (match #[trigger] ranges@[i] {
                ByteRange::FromStart(offset, Some(length)) => offset + length
                    <= tables.zarr[key@].len(),
                ByteRange::FromStart(offset, None) => offset <= tables.zarr[key@].len(),
                ByteRange::Suffix(length) => length <= tables.zarr[key@].len(),
            }),
    ensures
        statement is None <==> ranges@.len() == 0,
        statement matches Some(statement) ==> (selected_parts(tables, statement@) matches Some(
            Some(parts),
        ) && {
            let value = tables.zarr[key@];
            &&& parts.len() == ranges@.len()
            &&& forall|i: int|
                0 <= i < ranges@.len() ==> #[trigger] parts[i] == (match ranges@[i] {
                    ByteRange::FromStart(offset, Some(length)) => value.subrange(
                        offset as int,
                        offset + length,
                    ),
                    ByteRange::FromStart(offset, None) => value.subrange(
                        offset as int,
                        value.len() as int,
                    ),
                    ByteRange::Suffix(length) => value.subrange(
                        value.len() - length,
                        value.len() as int,
                    ),
                })
        }),
{
    if ranges@.len() > 0 {
        law_get_parts(tables, key@, ranges@);
    }
}

/// Getting parts of the value of a key that has none gives nothing.
pub proof fn law_get_nothing_operation(
    key: StoreKey,
    range: ByteRange,
    ranges: &[ByteRange],
    one: Statement<'static>,
    many: Option<Statement<'static>>,
    tables: Tables,
)
    requires
        call_ensures(get_partial, (&key, range), one),
        call_ensures(get_partial_many, (&key, ranges), many),
        !tables.zarr.contains_key(key@),
    ensures
        selected_parts(tables, one@) == Some(None::<Seq<Seq<u8>>>),
        many matches Some(many) ==> selected_parts(tables, many@) == Some(None::<Seq<Seq<u8>>>),
{
    law_get_parts_of_nothing(tables, key@, seq![range]);
    if ranges@.len() > 0 {
        law_get_parts_of_nothing(tables, key@, ranges@);
    }
}

/// Getting a part of a value gives the bytes that the range names.
pub proof fn law_get_partial_operation(
    key: StoreKey,
    range: ByteRange,
    statement: Statement<'static>,
    tables: Tables,
)
    requires
        call_ensures(get_partial, (&key, range), statement),
        tables.zarr.contains_key(key@),
        tables.zarr[key@].len() <= LENGTH_LIMIT,
        match range {
            ByteRange::FromStart(offset, Some(length)) => offset + length
                <= tables.zarr[key@].len(),
            ByteRange::FromStart(offset, None) => offset <= tables.zarr[key@].len(),
            ByteRange::Suffix(length) => length <= tables.zarr[key@].len(),
        },
    ensures
        selected_parts(tables, statement@) matches Some(Some(parts)) && {
            let value = tables.zarr[key@];
            &&& parts.len() == 1
            &&& parts[0] == match range {
                ByteRange::FromStart(offset, Some(length)) => value.subrange(
                    offset as int,
                    offset + length,
                ),
                ByteRange::FromStart(offset, None) => value.subrange(
                    offset as int,
                    value.len() as int,
                ),
                ByteRange::Suffix(length) => value.subrange(
                    value.len() - length,
                    value.len() as int,
                ),
            }
        },
{
    law_get_parts(tables, key@, seq![range]);
}

/// Listing a prefix selects the keys of the store that start with it.
pub proof fn law_list_prefix_operation(
    prefix: StorePrefix,
    statement: Statement<'static>,
    tables: Tables,
)
    requires
        call_ensures(list_prefix, (&prefix,), statement),
        is_store_prefix(prefix@),
        keys_valid(tables.zarr),
    ensures
        selected_keys(tables, statement@) == Some(
            tables.zarr.dom().filter(|key: Seq<char>| prefix@.is_prefix_of(key)),
        ),
{
    law_list_prefix_selects(tables, prefix@);
}

/// The size of a prefix is the number of bytes in the values of the keys that start with it.
pub proof fn law_size_prefix_operation(
    prefix: StorePrefix,
    statement: Statement<'static>,
    tables: Tables,
)
    requires
        call_ensures(size_prefix, (&prefix,), statement),
        is_store_prefix(prefix@),
        keys_valid(tables.zarr),
    ensures
        selected_total(tables, statement@) == Some(
            sizes_sum(
                tables.zarr,
                in_order(tables.zarr.dom().filter(|key: Seq<char>| prefix@.is_prefix_of(key))),
            ),
        ),
{
    law_prefix_size(tables, prefix@);
}

/// Listing a directory selects the keys that start with the prefix and go on without a slash, and the
/// paths that start with the prefix, go on up to one further slash, and start a key of the store.
pub proof fn law_list_dir_operation(
    prefix: StorePrefix,
    statement: Statement<'static>,
    tables: Tables,
)
    requires
        call_ensures(list_dir, (&prefix,), statement),
        is_store_prefix(prefix@),
        keys_seen(tables.zarr),
    ensures
        selected_dir(tables, statement@) matches Some(rows) && {
            &&& forall|key: Seq<char>| #[trigger]
                rows.contains(("k"@, key)) <==> {
                    &&& tables.zarr.contains_key(key)
                    &&& prefix@.is_prefix_of(key)
                    &&& prefix@.len() > 0 ==> prefix@.len() < key.len()
                    &&& forall|i: int| prefix@.len() <= i < key.len() ==> key[i] != '/'
                }
            &&& forall|path: Seq<char>| #[trigger]
                rows.contains(("p"@, path)) <==> {
                    &&& prefix@.is_prefix_of(path)
                    &&& prefix@.len() < path.len()
                    &&& path[path.len() - 1] == '/'
                    &&& forall|i: int| prefix@.len() <= i < path.len() - 1 ==> path[i] != '/'
                    &&& exists|key: Seq<char>| #[trigger]
                        tables.zarr.contains_key(key) && path.is_prefix_of(key)
                }
            &&& forall|row: (Seq<char>, Seq<char>)| #[trigger]
                rows.contains(row) ==> row.0 == "k"@ || row.0 == "p"@
        },
{
    law_list_dir_selects(tables, prefix@);
}

/// Opening a new database makes it an empty store with six entries of metadata: the version, no flags
/// of either kind, the creator, and twice the time of opening.
pub proof fn law_create_operation(
    options: Options,
    at: Timestamp,
    statements: Vec<Statement<'static>>,
    now: Seq<char>,
)
    requires
        call_ensures(open_at, (&options, true, at), statements),
    ensures
        execute_all(Tables::blank(), statement_views(statements@), now) == Some(
            Tables {
                application_id: 0x10b50760,
                zarr: Map::empty(),
                metadata: Map::<Seq<char>, Seq<char>>::empty().insert(
                    "sqlitestore_version"@,
                    "1.0"@,
                ).insert("compatible_flags"@, ""@).insert("incompatible_flags"@, ""@).insert(
                    "created_by"@,
                    match options@.created_by {
                        Some(created_by) => created_by,
                        None => "zarrs_sqlite v0.1.0"@,
                    },
                ).insert("created_time"@, instant_text(at@)).insert(
                    "modified_at"@,
                    instant_text(at@),
                ),
            },
        ),
{
    law_new_store_entries(mode_of(options@), creator(options@), at@, now);
}

/// Opening a database that exists keeps all of its data and metadata, but that the time of the last
/// modification is set if the store is opened for writing and does not record each change.
pub proof fn law_reopen_operation(
    options: Options,
    at: Timestamp,
    statements: Vec<Statement<'static>>,
    before: Tables,
    now: Seq<char>,
)
    requires
        call_ensures(open_at, (&options, false, at), statements),
    ensures
        execute_all(before, statement_views(statements@), now) == Some(
            Tables {
                application_id: before.application_id,
                zarr: before.zarr,
                metadata: if options@.write && !options@.update_timestamp_on_write {
                    before.metadata.insert("modified_at"@, now)
                } else {
                    before.metadata
                },
            },
        ),
        statements@.len() <= 1,
{
    let metadata = fresh_metadata(Some(creator(options@)), at@);
    law_reopened_store(mode_of(options@), metadata, before, now);
    assert(statement_views(statements@).len() == statements@.len());
}

/// Writing metadata changes the metadata table alone. A known entry then says what the metadata says, and
/// stays if the metadata says nothing; any other is that of the metadata, or stays.
pub proof fn law_write_metadata_operation(
    metadata: SqliteStoreMetadata,
    statements: Vec<Statement<'static>>,
    tables: Tables,
    now: Seq<char>,
    key: Seq<char>,
)
    requires
        call_ensures(write_metadata, (&metadata,), statements),
    ensures
        execute_all(tables, statement_views(statements@), now) matches Some(after) && {
            &&& after.application_id == tables.application_id
            &&& after.zarr == tables.zarr
            &&& lookup(after.metadata, key) == if key == "sqlitestore_version"@ {
                Some(version_text(metadata.sqlitestore_version))
            } else if key == "compatible_flags"@ {
                Some(flags_text(metadata.compatible_flags@))
            } else if key == "incompatible_flags"@ {
                Some(flags_text(metadata.incompatible_flags@))
            } else if key == "created_by"@ && metadata.created_by is Some {
                Some(metadata.created_by->0@)
            } else if key == "created_time"@ {
                Some(instant_text(metadata.created_at@))
            } else if key == "modified_at"@ && metadata.modified_at is Some {
                Some(instant_text(metadata.modified_at->0@))
            } else if metadata.unknown@.contains_key(key) {
                Some(metadata.unknown@[key])
            } else if tables.metadata.contains_key(key) {
                Some(tables.metadata[key])
            } else {
                None
            }
        },
{
    law_metadata_view(metadata);
    law_write_metadata(tables, metadata@, now);
    law_written_entry(tables.metadata, metadata@, key);
}

/// What a store refuses, and how: a partial write, as unsupported, or as a write if it is only read.
pub proof fn law_partial_writes_refused(mode: StoreMode, one: StorageError, many: StorageError)
    requires
        call_ensures(StoreMode::set_partial, (mode,), one),
        call_ensures(StoreMode::set_partial_many, (mode,), many),
    ensures
        !mode.write ==> one is ReadOnly && many is ReadOnly,
        mode.write ==> (one matches StorageError::Unsupported(text) && text@
            == "set_partial is unsupported"@),
        mode.write ==> (many matches StorageError::Unsupported(text) && text@
            == "set_partial_many is unsupported"@),
{
}

/// The log is written to the database file just if the store may be written to.
pub proof fn law_maintenance(
    mode: StoreMode,
    checkpoint: Option<Statement<'static>>,
    vacuumed: Statement<'static>,
)
    requires
        call_ensures(StoreMode::checkpoint, (mode,), checkpoint),
        call_ensures(vacuum, (), vacuumed),
    ensures
        checkpoint is Some <==> mode.write,
        checkpoint matches Some(statement) ==> statement.sql@
            == "PRAGMA wal_checkpoint(TRUNCATE);"@ && !statement.batch && statement.params@.len()
            == 0,
        vacuumed.sql@ == "VACUUM;"@ && !vacuumed.batch && vacuumed.params@.len() == 0,
{
    if let Some(statement) = checkpoint {
        assert(statement@.params.len() == statement.params@.len());
    }
    assert(vacuumed@.params.len() == vacuumed.params@.len());
}

/// A size is what the engine counts, as long as that is not negative.
pub proof fn law_size_from_row(size: i64, result: Option<u64>, none: Option<u64>)
    requires
        call_ensures(size_from_row, (Some(size),), result),
        call_ensures(size_from_row, (None::<i64>,), none),
    ensures
        none is None,
        result matches Some(bytes) && (bytes == size || bytes == size + 0x1_0000_0000_0000_0000),
{
}

/// One more row of a listing adds one more key at the end, if its text can be a key, and nothing if it
/// cannot.
pub proof fn law_store_keys(
    rows: Vec<String>,
    keys: Vec<StoreKey>,
    more: Vec<String>,
    more_keys: Vec<StoreKey>,
)
    requires
        call_ensures(store_keys, (&rows,), keys),
        call_ensures(store_keys, (&more,), more_keys),
        more@.len() == rows@.len() + 1,
        forall|i: int| 0 <= i < rows@.len() ==> (#[trigger] more@[i])@ == rows@[i]@,
    ensures
        rows@.len() == 0 ==> keys@.len() == 0,
        ({
            let text = more@[rows@.len() as int]@;
            &&& more_keys@.len() == if is_store_key(text) {
                keys@.len() + 1
            } else {
                keys@.len()
            }
            &&& forall|i: int| 0 <= i < keys@.len() ==> (#[trigger] more_keys@[i])@ == keys@[i]@
            &&& is_store_key(text) ==> more_keys@[keys@.len() as int]@ == text
        }),
{
    let text = more@[rows@.len() as int]@;
    assert(views(more@) =~= views(rows@).push(text));
    law_valid_keys(views(rows@), text);
    law_views(rows@);
    law_listing_views(keys@, Seq::empty());
    law_listing_views(more_keys@, Seq::empty());
    if rows@.len() == 0 {
        assert(views(rows@) =~= Seq::empty());
    }
    assert forall|i: int| 0 <= i < keys@.len() implies (#[trigger] more_keys@[i])@ == keys@[i]@ by {
        assert(key_views(more_keys@)[i] == key_views(keys@)[i]);
    }
    if is_store_key(text) {
        assert(key_views(more_keys@)[keys@.len() as int] == text);
    }
}

/// A row of a directory listing names a key if it is of type `k` and its path can be one, and a prefix
/// if it is of type `p` and its path can be one.
pub proof fn law_dir_entry(kind: &str, path: &str, entry: DirEntry)
    requires
        call_ensures(dir_entry, (kind, path), entry),
    ensures
        entry is Key <==> kind@ == "k"@ && is_store_key(path@),
        entry is Prefix <==> kind@ == "p"@ && is_store_prefix(path@),
        entry is InvalidKey <==> kind@ == "k"@ && !is_store_key(path@),
        entry is InvalidPrefix <==> kind@ == "p"@ && !is_store_prefix(path@),
        entry matches DirEntry::Key(key) ==> key@ == path@,
        entry matches DirEntry::Prefix(prefix) ==> prefix@ == path@,
{
    reveal_strlit("k");
    reveal_strlit("p");
    assert("k"@[0] != "p"@[0]);
}

} // verus!
