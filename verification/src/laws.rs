//! What the plans of a store do to its database.

use vstd::prelude::*;
use crate::expressions::{is_engine_range, lemma_read_calls, read_calls};
use crate::flags::{are_plain, flags_text, law_flags_round_trip, law_read_flags_are_plain};
use crate::keys::{is_store_key, is_store_prefix, ByteRange};
use crate::metadata::{
    fresh_metadata, is_known_key, is_readable, lemma_known_keys_distinct, MetadataView,
};
use crate::metadata_table::{
    distinct_keys, first_unreadable, lemma_table_of_distinct, lemma_unreadable_row, lookup,
    table_metadata, table_of, unknown_entries, Row,
};
use crate::options::{OptionsView, StoreMode};
use crate::queries::{upper_text, APPLICATION_ID, INSERT_UNKNOWN_METADATA_SQL, READ_METADATA_SQL};
use crate::sorted::{ascending, in_order, lemma_in_order, lemma_in_order_of_finite};
use crate::statement::{plain, with_texts, StatementView};
use crate::store::{
    change_statements, core_statement, created_by_statements, created_time_statement, dir_paths,
    erase_prefix_statement, erase_statement, get_parts_statement, get_size_statement, get_statement,
    lemma_dir_paths_push, list_dir_statement, list_prefix_statement, metadata_statements, mode_of,
    modified_at_statements, names_key, names_prefix, opening_statements, schema_statement,
    set_statement, size_prefix_statement, times_readable, touch_statement, unknown_statements,
    valid_keys,
};
use crate::tables::{
    execute, execute_all, instr, is_below, is_child_key, is_child_prefix, is_dir_listing,
    is_key_listing, keys_between, keys_seen, law_list_dir, law_list_dir_root, law_list_prefix,
    law_partial_read, law_total_size, lemma_instr_start, lemma_listings_distinct,
    lemma_statements_distinct, range_column, selected_dir, selected_keys, selected_metadata,
    selected_parts, selected_size, selected_total, selected_value, sizes_sum, total_size, value_of,
    Tables, LENGTH_LIMIT,
};
use crate::text::{lemma_text_lt_total, text_lt};
use crate::timestamp::{instant_text, read_instant};
use crate::version::{law_version_round_trip, version_text};

verus! {

/// Executing some statements and then others is executing them all.
pub proof fn lemma_execute_concat(
    tables: Tables,
    a: Seq<StatementView>,
    b: Seq<StatementView>,
    now: Seq<char>,
)
    ensures
        execute_all(tables, a + b, now) == (match execute_all(tables, a, now) {
            Some(between) => execute_all(between, b, now),
            None => None,
        }),
    decreases b.len(),
{
    if b.len() == 0 {
        assert(a + b =~= a);
    } else {
        assert((a + b).drop_last() =~= a + b.drop_last());
        assert((a + b).last() == b.last());
        lemma_execute_concat(tables, a, b.drop_last(), now);
    }
}

/// Executing one statement.
pub proof fn lemma_execute_one(tables: Tables, statement: StatementView, now: Seq<char>)
    ensures
        execute_all(tables, seq![statement], now) == execute(tables, statement, now),
{
    assert(seq![statement].drop_last() =~= Seq::<StatementView>::empty());
    reveal_with_fuel(execute_all, 2);
}

/// The record of a modification in a metadata table.
pub open spec fn touched(metadata: Map<Seq<char>, Seq<char>>, now: Seq<char>) -> Map<
    Seq<char>,
    Seq<char>,
> {
    metadata.insert("modified_at"@, now)
}

/// A change of the data records the modification just if the store records each change, and leaves
/// the rest of the metadata as it is.
pub proof fn law_change_metadata(
    mode: StoreMode,
    tables: Tables,
    change: StatementView,
    now: Seq<char>,
)
    ensures
        execute_all(tables, change_statements(mode, change), now) == (match execute(
            tables,
            change,
            now,
        ) {
            Some(after) => Some(
                if mode.update_timestamp_on_write {
                    Tables { metadata: touched(after.metadata, now), ..after }
                } else {
                    after
                },
            ),
            None => None,
        }),
{
    lemma_statements_distinct();
    lemma_execute_one(tables, change, now);
    if mode.update_timestamp_on_write {
        let both = seq![change, touch_statement()];
        assert(both =~= seq![change] + seq![touch_statement()]);
        lemma_execute_concat(tables, seq![change], seq![touch_statement()], now);
        if let Some(after) = execute(tables, change, now) {
            lemma_execute_one(after, touch_statement(), now);
        }
    }
}

/// The plan of a change is the change alone, or the change and then the one statement that records the
/// modification.
pub proof fn law_change_plan(mode: StoreMode, change: StatementView)
    ensures
        change_statements(mode, change).len() == (if mode.update_timestamp_on_write {
            2
        } else {
            1nat
        }),
        change_statements(mode, change)[0] == change,
        mode.update_timestamp_on_write ==> {
            let record = change_statements(mode, change)[1];
            &&& !record.batch
            &&& record.params.len() == 0
            &&& forall|tables: Tables, now: Seq<char>| #[trigger]
                execute(tables, record, now) == Some(
                    Tables { metadata: tables.metadata.insert("modified_at"@, now), ..tables },
                )
        },
{
    lemma_statements_distinct();
}

/// Recording a modification sets the time of the last modification, and changes nothing else.
pub proof fn law_touch(tables: Tables, now: Seq<char>)
    ensures
        execute(tables, touch_statement(), now) == Some(
            Tables { metadata: tables.metadata.insert("modified_at"@, now), ..tables },
        ),
{
    lemma_statements_distinct();
}

/// After a key was set, it has the value it was given, and every other key has the value it had.
pub proof fn law_set(
    mode: StoreMode,
    tables: Tables,
    key: Seq<char>,
    value: Seq<u8>,
    now: Seq<char>,
)
    ensures
        execute_all(tables, change_statements(mode, set_statement(key, value)), now) == Some(
            Tables {
                zarr: tables.zarr.insert(key, value),
                metadata: if mode.update_timestamp_on_write {
                    touched(tables.metadata, now)
                } else {
                    tables.metadata
                },
                ..tables
            },
        ),
{
    lemma_statements_distinct();
    law_change_metadata(mode, tables, set_statement(key, value), now);
}

/// After a key was erased, it is gone, and every other key has the value it had.
pub proof fn law_erase(mode: StoreMode, tables: Tables, key: Seq<char>, now: Seq<char>)
    ensures
        execute_all(tables, change_statements(mode, erase_statement(key)), now) == Some(
            Tables {
                zarr: tables.zarr.remove(key),
                metadata: if mode.update_timestamp_on_write {
                    touched(tables.metadata, now)
                } else {
                    tables.metadata
                },
                ..tables
            },
        ),
{
    lemma_statements_distinct();
    law_change_metadata(mode, tables, erase_statement(key), now);
}

/// After a prefix was erased, the keys that start with it are gone, and every other key has the value
/// it had.
pub proof fn law_erase_prefix(mode: StoreMode, tables: Tables, prefix: Seq<char>, now: Seq<char>)
    ensures
        execute_all(tables, change_statements(mode, erase_prefix_statement(prefix)), now)
            == Some(
            Tables {
                zarr: without_prefix(tables.zarr, prefix),
                metadata: if mode.update_timestamp_on_write {
                    touched(tables.metadata, now)
                } else {
                    tables.metadata
                },
                ..tables
            },
        ),
        forall|key: Seq<char>| #[trigger]
            without_prefix(tables.zarr, prefix).contains_key(key) <==> tables.zarr.contains_key(key)
                && !prefix.is_prefix_of(key),
        forall|key: Seq<char>| #[trigger]
            without_prefix(tables.zarr, prefix).contains_key(key) ==> without_prefix(
                tables.zarr,
                prefix,
            )[key] == tables.zarr[key],
{
    lemma_statements_distinct();
    law_change_metadata(mode, tables, erase_prefix_statement(prefix), now);
    assert forall|key: Seq<char>| #[trigger] instr(key, prefix) == 1 <==> prefix.is_prefix_of(
        key,
    ) by {
        lemma_instr_start(key, prefix);
    }
    assert(execute(tables, erase_prefix_statement(prefix), now)->0.zarr =~= without_prefix(
        tables.zarr,
        prefix,
    ));
}

/// The values of the keys that do not start with a prefix.
pub open spec fn without_prefix(zarr: Map<Seq<char>, Seq<u8>>, prefix: Seq<char>) -> Map<
    Seq<char>,
    Seq<u8>,
> {
    Map::new(
        |key: Seq<char>| zarr.contains_key(key) && !prefix.is_prefix_of(key),
        |key: Seq<char>| zarr[key],
    )
}

/// After a prefix was erased, nothing is listed of it, and its size is zero. Erasing the root empties
/// the store.
pub proof fn law_list_after_erase_prefix(
    mode: StoreMode,
    tables: Tables,
    prefix: Seq<char>,
    now: Seq<char>,
)
    requires
        is_store_prefix(prefix),
    ensures
        execute_all(tables, change_statements(mode, erase_prefix_statement(prefix)), now) matches Some(
            after,
        ) && {
            &&& selected_keys(after, list_prefix_statement(prefix)) == Some(
                Set::<Seq<char>>::empty(),
            )
            &&& selected_total(after, size_prefix_statement(prefix)) == Some(0nat)
            &&& prefix.len() == 0 ==> after.zarr == Map::<Seq<char>, Seq<u8>>::empty()
        },
{
    let after = execute_all(
        tables,
        change_statements(mode, erase_prefix_statement(prefix)),
        now,
    )->0;
    lemma_listings_distinct();
    law_erase_prefix(mode, tables, prefix, now);
    let none = Seq::<Seq<char>>::empty();
    assert(none.to_set() =~= Set::<Seq<char>>::empty());
    lemma_in_order(none);
    if prefix.len() == 0 {
        assert forall|key: Seq<char>| prefix.is_prefix_of(key) by {
            assert(prefix =~= key.subrange(0, 0));
        }
        assert(after.zarr =~= Map::<Seq<char>, Seq<u8>>::empty());
        assert(after.zarr.dom() =~= Set::<Seq<char>>::empty());
    } else {
        law_list_prefix(after.zarr, prefix);
        assert(keys_between(after.zarr, prefix, upper_text(prefix)) =~= Set::<Seq<char>>::empty());
    }
}

/// Getting a key gives its value, and asking for its size the number of bytes of it, if it has one.
pub proof fn law_get(tables: Tables, key: Seq<char>)
    ensures
        selected_value(tables, get_statement(key)) == Some(
            if tables.zarr.contains_key(key) {
                Some(tables.zarr[key])
            } else {
                None
            },
        ),
        selected_size(tables, get_size_statement(key)) == Some(
            if tables.zarr.contains_key(key) {
                Some(tables.zarr[key].len())
            } else {
                None
            },
        ),
{
}

/// Getting parts of a value gives a column for each range, in their order: the bytes of the value that
/// the range names.
pub proof fn law_get_parts(tables: Tables, key: Seq<char>, ranges: Seq<ByteRange>)
    requires
        ranges.len() > 0,
        tables.zarr.contains_key(key) ==> tables.zarr[key].len() <= LENGTH_LIMIT,
        forall|i: int|
            0 <= i < ranges.len() ==> (match #[trigger] ranges[i] {
                ByteRange::FromStart(offset, Some(length)) => offset + length
                    <= tables.zarr[key].len(),
                ByteRange::FromStart(offset, None) => offset <= tables.zarr[key].len(),
                ByteRange::Suffix(length) => length <= tables.zarr[key].len(),
            }),
        tables.zarr.contains_key(key),
    ensures
        selected_parts(tables, get_parts_statement(key, ranges)) matches Some(Some(parts)) && {
            let value = tables.zarr[key];
            &&& parts.len() == ranges.len()
            &&& forall|i: int|
                0 <= i < ranges.len() ==> #[trigger] parts[i] == (match ranges[i] {
                    ByteRange::FromStart(offset, Some(length)) => value.subrange(
                        offset as int,
                        offset + length,
                    ),
                    ByteRange::FromStart(offset, None) => value.subrange(
                        offset as int,
                        value.len() as int,
                    ),
                    ByteRange::Suffix(length) => value.subrange(
                        value.len() - length,
                        value.len() as int,
                    ),
                })
        },
{
    let value = tables.zarr[key];
    lemma_read_calls(ranges);
    let parts = selected_parts(tables, get_parts_statement(key, ranges))->0->0;
    assert forall|i: int| 0 <= i < ranges.len() implies #[trigger] parts[i] == (match ranges[i] {
        ByteRange::FromStart(offset, Some(length)) => value.subrange(
            offset as int,
            offset + length,
        ),
        ByteRange::FromStart(offset, None) => value.subrange(offset as int, value.len() as int),
        ByteRange::Suffix(length) => value.subrange(value.len() - length, value.len() as int),
    }) by {
        assert(parts[i] == range_column(value, ranges[i]));
        assert(ranges[i].fits(value.len()));
        law_partial_read(value, ranges[i]);
        match ranges[i] {
            ByteRange::FromStart(offset, Some(length)) => {},
            ByteRange::FromStart(offset, None) => {
                assert(value.skip(offset as int) =~= value.subrange(
                    offset as int,
                    value.len() as int,
                ));
            },
            ByteRange::Suffix(length) => {
                assert(value.skip(value.len() - length) =~= value.subrange(
                    value.len() - length,
                    value.len() as int,
                ));
            },
        }
    }
}

/// Getting parts of a value gives for each range the column of its expression, whether the range lies
/// within the value or not.
pub proof fn law_get_any_parts(tables: Tables, key: Seq<char>, ranges: Seq<ByteRange>)
    requires
        ranges.len() > 0,
        forall|i: int| 0 <= i < ranges.len() ==> is_engine_range(#[trigger] ranges[i]),
        tables.zarr.contains_key(key),
    ensures
        selected_parts(tables, get_parts_statement(key, ranges)) == Some(
            Some(
                ranges.map_values(|range: ByteRange| range_column(tables.zarr[key], range)),
            ),
        ),
{
    lemma_read_calls(ranges);
    let parts = selected_parts(tables, get_parts_statement(key, ranges))->0->0;
    assert(parts =~= ranges.map_values(
        |range: ByteRange| range_column(tables.zarr[key], range),
    ));
}

/// Getting parts of the value of a key that has none gives nothing.
pub proof fn law_get_parts_of_nothing(tables: Tables, key: Seq<char>, ranges: Seq<ByteRange>)
    requires
        ranges.len() > 0,
        !tables.zarr.contains_key(key),
    ensures
        selected_parts(tables, get_parts_statement(key, ranges)) == Some(None::<Seq<Seq<u8>>>),
{
    lemma_read_calls(ranges);
}

/// What is read of a key after it was set is the value it was given: whole, in size and in part.
/// Every other key reads as before.
pub proof fn law_read_after_set(
    mode: StoreMode,
    tables: Tables,
    key: Seq<char>,
    value: Seq<u8>,
    other: Seq<char>,
    ranges: Seq<ByteRange>,
    now: Seq<char>,
)
    requires
        other != key,
    ensures
        execute_all(tables, change_statements(mode, set_statement(key, value)), now) matches Some(
            after,
        ) && {
            &&& selected_value(after, get_statement(key)) == Some(Some(value))
            &&& selected_size(after, get_size_statement(key)) == Some(Some(value.len()))
            &&& ranges.len() > 0 && value.len() <= LENGTH_LIMIT && (forall|i: int|
                0 <= i < ranges.len() ==> (#[trigger] ranges[i]).fits(value.len()))
                ==> selected_parts(after, get_parts_statement(key, ranges)) == Some(
                Some(ranges.map_values(|range: ByteRange| range.bytes_of(value))),
            )
            &&& selected_value(after, get_statement(other)) == selected_value(
                tables,
                get_statement(other),
            )
            &&& selected_size(after, get_size_statement(other)) == selected_size(
                tables,
                get_size_statement(other),
            )
            &&& selected_parts(after, get_parts_statement(other, ranges)) == selected_parts(
                tables,
                get_parts_statement(other, ranges),
            )
        },
{
    law_set(mode, tables, key, value, now);
    let after = execute_all(
        tables,
        change_statements(mode, set_statement(key, value)),
        now,
    )->0;
    if ranges.len() > 0 && value.len() <= LENGTH_LIMIT && forall|i: int|
        0 <= i < ranges.len() ==> (#[trigger] ranges[i]).fits(value.len()) {
        lemma_read_calls(ranges);
        let parts = selected_parts(after, get_parts_statement(key, ranges))->0->0;
        assert forall|i: int| 0 <= i < ranges.len() implies #[trigger] parts[i]
            == ranges[i].bytes_of(value) by {
            assert(parts[i] == range_column(value, ranges[i]));
            law_partial_read(value, ranges[i]);
        }
        assert(parts =~= ranges.map_values(|range: ByteRange| range.bytes_of(value)));
    }
    let calls = read_calls(get_parts_statement(other, ranges).sql);
    assert(value_of(after, other) == value_of(tables, other));
}

/// Nothing is read of a key after it was erased. Every other key reads as before.
pub proof fn law_read_after_erase(
    mode: StoreMode,
    tables: Tables,
    key: Seq<char>,
    other: Seq<char>,
    ranges: Seq<ByteRange>,
    now: Seq<char>,
)
    requires
        other != key,
    ensures
        execute_all(tables, change_statements(mode, erase_statement(key)), now) matches Some(after)
            && {
            &&& selected_value(after, get_statement(key)) == Some(None::<Seq<u8>>)
            &&& selected_size(after, get_size_statement(key)) == Some(None::<nat>)
            &&& ranges.len() > 0 ==> selected_parts(after, get_parts_statement(key, ranges))
                == Some(None::<Seq<Seq<u8>>>)
            &&& !(selected_parts(after, get_parts_statement(key, ranges)) matches Some(Some(_)))
            &&& selected_value(after, get_statement(other)) == selected_value(
                tables,
                get_statement(other),
            )
        },
{
    law_erase(mode, tables, key, now);
    if ranges.len() > 0 {
        lemma_read_calls(ranges);
    }
}

/// The size of a store after a key was set differs from what it was before by what the key's value
/// did. A store without keys has size zero.
pub proof fn law_store_size(
    mode: StoreMode,
    tables: Tables,
    key: Seq<char>,
    value: Seq<u8>,
    now: Seq<char>,
)
    requires
        tables.zarr.dom().finite(),
    ensures
        selected_total(tables, size_prefix_statement(Seq::empty())) == Some(
            total_size(tables.zarr),
        ),
        execute_all(tables, change_statements(mode, set_statement(key, value)), now) matches Some(
            after,
        ) && {
            let former = match value_of(tables, key) {
                Some(value) => value.len(),
                None => 0,
            };
            selected_total(after, size_prefix_statement(Seq::empty())) == Some(
                (total_size(tables.zarr) - former + value.len()) as nat,
            )
        },
        tables.zarr.dom().is_empty() ==> selected_total(tables, size_prefix_statement(Seq::empty()))
            == Some(0nat),
{
    law_set(mode, tables, key, value, now);
    law_total_size(tables.zarr, key, value);
    if tables.zarr.dom().is_empty() {
        assert(tables.zarr =~= Map::<Seq<char>, Seq<u8>>::empty());
    }
}

/// Erasing a key that was set undoes the setting, if the key was not there before.
pub proof fn law_erase_undoes_set(
    mode: StoreMode,
    tables: Tables,
    key: Seq<char>,
    value: Seq<u8>,
    now: Seq<char>,
    later: Seq<char>,
)
    requires
        !tables.zarr.contains_key(key),
    ensures
        execute_all(tables, change_statements(mode, set_statement(key, value)), now) matches Some(
            set,
        ) && execute_all(set, change_statements(mode, erase_statement(key)), later) matches Some(
            after,
        ) && after.zarr == tables.zarr,
{
    let set = execute_all(
        tables,
        change_statements(mode, set_statement(key, value)),
        now,
    )->0;
    law_set(mode, tables, key, value, now);
    law_erase(mode, set, key, later);
    assert(tables.zarr.insert(key, value).remove(key) =~= tables.zarr);
}

/// A metadata table after the metadata was written to it: the unknown entries, and over them the
/// known ones.
pub open spec fn written(table: Map<Seq<char>, Seq<char>>, metadata: MetadataView) -> Map<
    Seq<char>,
    Seq<char>,
> {
    let core = table.union_prefer_right(metadata.unknown).insert(
        "sqlitestore_version"@,
        version_text(metadata.sqlitestore_version),
    ).insert("compatible_flags"@, flags_text(metadata.compatible_flags)).insert(
        "incompatible_flags"@,
        flags_text(metadata.incompatible_flags),
    );
    let named = match metadata.created_by {
        Some(created_by) => core.insert("created_by"@, created_by),
        None => core,
    };
    let timed = named.insert("created_time"@, instant_text(metadata.created_at));
    match metadata.modified_at {
        Some(modified_at) => timed.insert("modified_at"@, instant_text(modified_at)),
        None => timed,
    }
}

/// Writing unknown entries puts them into the table, one after the other.
proof fn lemma_write_unknown(
    tables: Tables,
    unknown: Map<Seq<char>, Seq<char>>,
    keys: Seq<Seq<char>>,
    now: Seq<char>,
)
    ensures
        execute_all(tables, unknown_statements(unknown, keys), now) matches Some(after) && {
            &&& after.zarr == tables.zarr
            &&& after.application_id == tables.application_id
            &&& forall|key: Seq<char>| #[trigger]
                after.metadata.contains_key(key) <==> tables.metadata.contains_key(key)
                    || keys.contains(key)
            &&& forall|key: Seq<char>| #[trigger]
                after.metadata.contains_key(key) ==> after.metadata[key] == if keys.contains(key) {
                    unknown[key]
                } else {
                    tables.metadata[key]
                }
        },
    decreases keys.len(),
{
    let statements = unknown_statements(unknown, keys);
    if keys.len() > 0 {
        let fewer = keys.drop_last();
        let last = keys.last();
        lemma_statements_distinct();
        lemma_write_unknown(tables, unknown, fewer, now);
        assert(statements.drop_last() =~= unknown_statements(unknown, fewer));
        assert(statements.last() == with_texts(INSERT_UNKNOWN_METADATA_SQL@, last, unknown[last]));
        assert forall|key: Seq<char>| keys.contains(key) <==> fewer.contains(key) || key == last by {
            if keys.contains(key) {
                let i = choose|i: int| 0 <= i < keys.len() && keys[i] == key;
                if i < fewer.len() {
                    assert(fewer[i] == key);
                }
            }
            if fewer.contains(key) {
                let i = choose|i: int| 0 <= i < fewer.len() && fewer[i] == key;
                assert(keys[i] == key);
            }
            assert(keys[keys.len() - 1] == last);
        }
    }
}

/// Writing the metadata has just the effect of [`written`]: it changes the metadata table alone.
pub proof fn law_write_metadata(tables: Tables, metadata: MetadataView, now: Seq<char>)
    requires
        metadata.unknown.dom().finite(),
    ensures
        execute_all(tables, metadata_statements(metadata), now) == Some(
            Tables { metadata: written(tables.metadata, metadata), ..tables },
        ),
{
    lemma_statements_distinct();
    let keys = in_order(metadata.unknown.dom());
    lemma_in_order_of_finite(metadata.unknown.dom());
    let unknown = unknown_statements(metadata.unknown, keys);
    let core = seq![core_statement(metadata)];
    let named = created_by_statements(metadata);
    let timed = seq![created_time_statement(metadata)];
    let modified = modified_at_statements(metadata);
    assert(metadata_statements(metadata) =~= unknown + core + named + timed + modified);
    let t1 = execute_all(tables, unknown, now)->0;
    lemma_write_unknown(tables, metadata.unknown, keys, now);
    assert forall|key: Seq<char>| keys.contains(key) <==> metadata.unknown.contains_key(key) by {
        assert(keys.to_set().contains(key) <==> metadata.unknown.dom().contains(key));
    }
    assert(t1.metadata =~= tables.metadata.union_prefer_right(metadata.unknown));
    let t2 = execute_all(t1, core, now)->0;
    lemma_execute_concat(tables, unknown, core, now);
    lemma_execute_one(t1, core_statement(metadata), now);
    let t3 = execute_all(t2, named, now)->0;
    lemma_execute_concat(tables, unknown + core, named, now);
    if metadata.created_by is Some {
        lemma_execute_one(t2, named[0], now);
        assert(named =~= seq![named[0]]);
    }
    let t4 = execute_all(t3, timed, now)->0;
    lemma_execute_concat(tables, unknown + core + named, timed, now);
    lemma_execute_one(t3, created_time_statement(metadata), now);
    lemma_execute_concat(tables, unknown + core + named + timed, modified, now);
    if metadata.modified_at is Some {
        lemma_execute_one(t4, modified[0], now);
        assert(modified =~= seq![modified[0]]);
    }
}

/// Writing the metadata overwrites the known entries and the given unknown ones, and deletes
/// nothing.
pub proof fn law_write_keeps_unknown(
    table: Map<Seq<char>, Seq<char>>,
    metadata: MetadataView,
    key: Seq<char>,
)
    ensures
        !is_known_key(key) ==> lookup(written(table, metadata), key) == (
        if metadata.unknown.contains_key(key) {
            Some(metadata.unknown[key])
        } else {
            lookup(table, key)
        }),
        table.contains_key(key) ==> written(table, metadata).contains_key(key),
{
    lemma_known_keys_distinct();
}

/// Whether metadata can be read back from what is written of it: the flags from their text, the
/// times from theirs, and no unknown entry goes by the name of a known one.
pub open spec fn is_storable(metadata: MetadataView) -> bool {
    &&& are_plain(metadata.compatible_flags)
    &&& are_plain(metadata.incompatible_flags)
    &&& times_readable(metadata)
    &&& forall|key: Seq<char>| #[trigger] metadata.unknown.contains_key(key) ==> !is_known_key(key)
}

/// What is read of the metadata after it was written to an empty table is what was written; if
/// there was no time of modification, it is the time of creation.
pub proof fn law_metadata_round_trip(metadata: MetadataView)
    requires
        is_storable(metadata),
    ensures
        ({
            let read = table_metadata(written(Map::empty(), metadata));
            &&& read.missing() is None
            &&& read.metadata() == (MetadataView {
                modified_at: Some(
                    match metadata.modified_at {
                        Some(modified_at) => modified_at,
                        None => metadata.created_at,
                    },
                ),
                ..metadata
            })
        }),
{
    lemma_known_keys_distinct();
    law_flags_round_trip(metadata.compatible_flags);
    law_flags_round_trip(metadata.incompatible_flags);
    law_version_round_trip(metadata.sqlitestore_version);
    let table = written(Map::empty(), metadata);
    assert(unknown_entries(table) =~= metadata.unknown) by {
        assert forall|key: Seq<char>| #[trigger]
            unknown_entries(table).contains_key(key) <==> metadata.unknown.contains_key(key) by {}
    }
}

/// Metadata that was read is read again from what is written of it, as long as its times are.
pub proof fn law_reread_metadata(table: Map<Seq<char>, Seq<char>>)
    requires
        table_metadata(table).missing() is None,
        times_readable(table_metadata(table).metadata()),
    ensures
        is_storable(table_metadata(table).metadata()),
        table_metadata(written(Map::empty(), table_metadata(table).metadata())).missing() is None,
        table_metadata(written(Map::empty(), table_metadata(table).metadata())).metadata()
            == table_metadata(table).metadata(),
{
    let metadata = table_metadata(table).metadata();
    if table.contains_key("compatible_flags"@) {
        law_read_flags_are_plain(table["compatible_flags"@]);
    }
    if table.contains_key("incompatible_flags"@) {
        law_read_flags_are_plain(table["incompatible_flags"@]);
    }
    law_metadata_round_trip(metadata);
}

/// Whether a database holds an empty store with the given metadata.
pub open spec fn is_new_store(tables: Tables, metadata: MetadataView) -> bool {
    &&& tables.application_id == APPLICATION_ID
    &&& tables.zarr == Map::<Seq<char>, Seq<u8>>::empty()
    &&& table_metadata(tables.metadata).missing() is None
    &&& table_metadata(tables.metadata).metadata() == metadata
}

/// A new database holds an empty store, and the metadata that is read of it is that of a store
/// created at the time of its opening by the one whom the options name.
pub proof fn law_new_store(mode: StoreMode, created_by: Seq<char>, at: i128, now: Seq<char>)
    requires
        read_instant(instant_text(at)) == Some(at),
    ensures
        execute_all(
            Tables::blank(),
            opening_statements(mode, true, fresh_metadata(Some(created_by), at)),
            now,
        ) matches Some(after) && is_new_store(after, fresh_metadata(Some(created_by), at)),
{
    let metadata = fresh_metadata(Some(created_by), at);
    lemma_statements_distinct();
    lemma_execute_concat(
        Tables::blank(),
        seq![schema_statement()],
        metadata_statements(metadata),
        now,
    );
    lemma_execute_one(Tables::blank(), schema_statement(), now);
    law_write_metadata(Tables::created(), metadata, now);
    assert(Set::<Seq<char>>::empty().finite());
    law_metadata_round_trip(metadata);
}

/// Whether `rows` are what is selected of a metadata table: each entry once, in any order.
pub open spec fn are_rows_of(rows: Seq<Row>, table: Map<Seq<char>, Seq<char>>) -> bool {
    &&& distinct_keys(rows)
    &&& forall|key: Seq<char>, value: Seq<char>| #[trigger]
        rows.contains((key, value)) <==> lookup(table, key) == Some(value)
}

/// Reading the rows of a metadata table gives what the table says, and fails on a row just if the
/// table has an unreadable entry.
pub proof fn law_read_rows(rows: Seq<Row>, table: Map<Seq<char>, Seq<char>>)
    requires
        are_rows_of(rows, table),
    ensures
        table_of(rows) == table,
        first_unreadable(rows) is None <==> forall|key: Seq<char>| #[trigger]
            table.contains_key(key) ==> is_readable(key, table[key]),
{
    lemma_table_of_distinct(rows);
    assert forall|key: Seq<char>| lookup(table_of(rows), key) == lookup(table, key) by {
        if table.contains_key(key) {
            assert(rows.contains((key, table[key])));
        }
        if table_of(rows).contains_key(key) {
            assert(rows.contains((key, table_of(rows)[key])));
        }
    }
    assert forall|key: Seq<char>| #[trigger] table_of(rows).contains_key(key) <==> table.contains_key(
        key,
    ) by {
        assert(lookup(table_of(rows), key) == lookup(table, key));
    }
    assert forall|key: Seq<char>| #[trigger] table.contains_key(key) implies table_of(rows)[key]
        == table[key] by {
        assert(lookup(table_of(rows), key) == lookup(table, key));
    }
    assert(table_of(rows) =~= table);
    lemma_unreadable_row(rows);
    if first_unreadable(rows) is None {
        assert forall|key: Seq<char>| #[trigger] table.contains_key(key) implies is_readable(
            key,
            table[key],
        ) by {
            assert(rows.contains((key, table[key])));
        }
    }
    if forall|key: Seq<char>| #[trigger]
        table.contains_key(key) ==> is_readable(key, table[key]) {
        assert forall|row: Row| #[trigger] rows.contains(row) implies is_readable(row.0, row.1) by {
            assert(rows.contains((row.0, row.1)));
            assert(lookup(table, row.0) == Some(row.1));
        }
    }
}

/// The metadata of a store can be read as soon as the store was created, and is that of a store
/// created at the time of its opening by the one whom the options name.
pub proof fn law_read_new_store(
    mode: StoreMode,
    created_by: Seq<char>,
    at: i128,
    now: Seq<char>,
    rows: Seq<Row>,
)
    requires
        read_instant(instant_text(at)) == Some(at),
        are_rows_of(
            rows,
            execute_all(
                Tables::blank(),
                opening_statements(mode, true, fresh_metadata(Some(created_by), at)),
                now,
            )->0.metadata,
        ),
    ensures
        first_unreadable(rows) is None,
        table_metadata(table_of(rows)).missing() is None,
        table_metadata(table_of(rows)).metadata() == fresh_metadata(Some(created_by), at),
{
    let metadata = fresh_metadata(Some(created_by), at);
    let after = execute_all(Tables::blank(), opening_statements(mode, true, metadata), now)->0;
    law_new_store(mode, created_by, at, now);
    law_read_rows(rows, after.metadata);
    lemma_known_keys_distinct();
    law_version_round_trip(metadata.sqlitestore_version);
    assert(after.metadata == written(Map::empty(), metadata)) by {
        lemma_statements_distinct();
        lemma_execute_concat(
            Tables::blank(),
            seq![schema_statement()],
            metadata_statements(metadata),
            now,
        );
        lemma_execute_one(Tables::blank(), schema_statement(), now);
        law_write_metadata(Tables::created(), metadata, now);
    }
    assert forall|key: Seq<char>| #[trigger] after.metadata.contains_key(key) implies is_readable(
        key,
        after.metadata[key],
    ) by {
    }
}

/// Opening a database that exists keeps its data, and its metadata but for the time of the last
/// modification. That is set to the time of opening just if the store is opened for writing and does
/// not record each change.
pub proof fn law_reopened_store(
    mode: StoreMode,
    metadata: MetadataView,
    before: Tables,
    now: Seq<char>,
)
    ensures
        execute_all(before, opening_statements(mode, false, metadata), now) == Some(
            Tables {
                metadata: if mode.write && !mode.update_timestamp_on_write {
                    touched(before.metadata, now)
                } else {
                    before.metadata
                },
                ..before
            },
        ),
        opening_statements(mode, false, metadata).len() <= 1,
{
    lemma_statements_distinct();
    lemma_execute_one(before, touch_statement(), now);
}

/// The time of the last modification that is read of a touched store is the time at which it was
/// touched, and the rest of the metadata is what it was.
pub proof fn law_touched_metadata(table: Map<Seq<char>, Seq<char>>, now: Seq<char>)
    requires
        read_instant(now) is Some,
        table_metadata(table).missing() is None,
    ensures
        table_metadata(touched(table, now)).missing() is None,
        table_metadata(touched(table, now)).metadata() == (MetadataView {
            modified_at: read_instant(now),
            ..table_metadata(table).metadata()
        }),
{
    lemma_known_keys_distinct();
    assert(unknown_entries(touched(table, now)) =~= unknown_entries(table));
}

/// Who creates a store is of no account for one that exists.
pub proof fn law_created_by_ignored(mode: StoreMode, a: MetadataView, b: MetadataView)
    ensures
        opening_statements(mode, false, a) == opening_statements(mode, false, b),
{
}

/// A store that is only read starts without executing anything, unless its database is new.
pub proof fn law_read_only_opening(options: OptionsView, metadata: MetadataView)
    requires
        !options.write,
    ensures
        opening_statements(mode_of(options), false, metadata) == Seq::<StatementView>::empty(),
{
}

/// Whether every key in a database can be a key of a store.
pub open spec fn keys_valid(zarr: Map<Seq<char>, Seq<u8>>) -> bool {
    forall|key: Seq<char>| #[trigger] zarr.contains_key(key) ==> is_store_key(key)
}

/// Every key in the database of a store can be a key: that holds of a new store, and every
/// operation keeps it.
pub proof fn law_keys_stay_valid(
    mode: StoreMode,
    tables: Tables,
    metadata: MetadataView,
    key: Seq<char>,
    value: Seq<u8>,
    prefix: Seq<char>,
    now: Seq<char>,
)
    requires
        is_store_key(key),
        metadata.unknown.dom().finite(),
    ensures
        execute_all(Tables::blank(), opening_statements(mode, true, metadata), now) matches Some(
            after,
        ) && keys_valid(after.zarr),
        keys_valid(tables.zarr) ==> (execute_all(
            tables,
            opening_statements(mode, false, metadata),
            now,
        ) matches Some(after) && keys_valid(after.zarr)),
        keys_valid(tables.zarr) ==> (execute_all(
            tables,
            change_statements(mode, set_statement(key, value)),
            now,
        ) matches Some(after) && keys_valid(after.zarr)),
        keys_valid(tables.zarr) ==> (execute_all(
            tables,
            change_statements(mode, erase_statement(key)),
            now,
        ) matches Some(after) && keys_valid(after.zarr)),
        keys_valid(tables.zarr) ==> (execute_all(
            tables,
            change_statements(mode, erase_prefix_statement(prefix)),
            now,
        ) matches Some(after) && keys_valid(after.zarr)),
{
    lemma_statements_distinct();
    lemma_execute_concat(
        Tables::blank(),
        seq![schema_statement()],
        metadata_statements(metadata),
        now,
    );
    lemma_execute_one(Tables::blank(), schema_statement(), now);
    law_write_metadata(Tables::created(), metadata, now);
    law_reopened_store(mode, metadata, tables, now);
    law_set(mode, tables, key, value, now);
    law_erase(mode, tables, key, now);
    law_erase_prefix(mode, tables, prefix, now);
}

/// The keys of a store that start with a prefix.
pub open spec fn keys_under(zarr: Map<Seq<char>, Seq<u8>>, prefix: Seq<char>) -> Set<Seq<char>> {
    zarr.dom().filter(|key: Seq<char>| prefix.is_prefix_of(key))
}

/// Among valid keys, those between a prefix and its upper text are those that start with the prefix.
/// Every key starts with the root.
proof fn lemma_keys_under(zarr: Map<Seq<char>, Seq<u8>>, prefix: Seq<char>)
    requires
        keys_valid(zarr),
        is_store_prefix(prefix),
    ensures
        prefix.len() > 0 ==> keys_between(zarr, prefix, upper_text(prefix)) == keys_under(
            zarr,
            prefix,
        ),
        prefix.len() == 0 ==> zarr.dom() == keys_under(zarr, prefix),
{
    if prefix.len() > 0 {
        law_list_prefix(zarr, prefix);
        assert forall|key: Seq<char>| #[trigger] zarr.contains_key(key) implies is_below(
            prefix,
            key,
        ) == prefix.is_prefix_of(key) by {
            assert(is_store_key(key));
            if prefix.is_prefix_of(key) && prefix.len() == key.len() {
                assert(prefix =~= key.subrange(0, prefix.len() as int));
                assert(key[key.len() - 1] == '/');
            }
        }
        assert(keys_between(zarr, prefix, upper_text(prefix)) =~= keys_under(zarr, prefix));
    } else {
        assert forall|key: Seq<char>| prefix.is_prefix_of(key) by {
            assert(prefix =~= key.subrange(0, 0));
        }
        assert(zarr.dom() =~= keys_under(zarr, prefix));
    }
}

/// Listing a prefix selects the keys of the store that start with it; listing the root selects them
/// all.
pub proof fn law_list_prefix_selects(tables: Tables, prefix: Seq<char>)
    requires
        keys_valid(tables.zarr),
        is_store_prefix(prefix),
    ensures
        selected_keys(tables, list_prefix_statement(prefix)) == Some(
            tables.zarr.dom().filter(|key: Seq<char>| prefix.is_prefix_of(key)),
        ),
{
    lemma_listings_distinct();
    lemma_keys_under(tables.zarr, prefix);
    assert(keys_under(tables.zarr, prefix) == tables.zarr.dom().filter(
        |key: Seq<char>| prefix.is_prefix_of(key),
    ));
}

/// Listing a directory selects a row of type `k` for each key of the store that starts with the prefix
/// and goes on without a slash, and a row of type `p` for each text that starts with the prefix, goes
/// on up to one further slash, and starts a key of the store. Listing the root selects the empty key
/// too, if there is one.
pub proof fn law_list_dir_selects(tables: Tables, prefix: Seq<char>)
    requires
        keys_seen(tables.zarr),
        is_store_prefix(prefix),
    ensures
        selected_dir(tables, list_dir_statement(prefix)) matches Some(rows) && {
            &&& forall|key: Seq<char>| #[trigger]
                rows.contains(("k"@, key)) <==> {
                    &&& tables.zarr.contains_key(key)
                    &&& prefix.is_prefix_of(key)
                    &&& prefix.len() > 0 ==> prefix.len() < key.len()
                    &&& forall|i: int| prefix.len() <= i < key.len() ==> key[i] != '/'
                }
            &&& forall|path: Seq<char>| #[trigger]
                rows.contains(("p"@, path)) <==> {
                    &&& prefix.is_prefix_of(path)
                    &&& prefix.len() < path.len()
                    &&& path[path.len() - 1] == '/'
                    &&& forall|i: int| prefix.len() <= i < path.len() - 1 ==> path[i] != '/'
                    &&& exists|key: Seq<char>| #[trigger]
                        tables.zarr.contains_key(key) && path.is_prefix_of(key)
                }
            &&& forall|row: Row| #[trigger]
                rows.contains(row) ==> row.0 == "k"@ || row.0 == "p"@
        },
{
    lemma_listings_distinct();
    let zarr = tables.zarr;
    if prefix.len() == 0 {
        assert(prefix =~= Seq::<char>::empty());
        law_list_dir_root(zarr);
    } else {
        law_list_dir(zarr, prefix);
    }
    let rows = selected_dir(tables, list_dir_statement(prefix))->0;
    assert forall|key: Seq<char>| #[trigger] rows.contains(("k"@, key)) <==> {
        &&& tables.zarr.contains_key(key)
        &&& prefix.is_prefix_of(key)
        &&& prefix.len() > 0 ==> prefix.len() < key.len()
        &&& forall|i: int| prefix.len() <= i < key.len() ==> key[i] != '/'
    } by {
        let rest = key.skip(prefix.len() as int);
        if prefix.len() == 0 {
            assert(prefix =~= key.subrange(0, 0));
            assert(rest =~= key);
        }
        if prefix.len() <= key.len() {
            if rest.contains('/') {
                let i = choose|i: int| 0 <= i < rest.len() && rest[i] == '/';
                assert(key[prefix.len() + i] == '/');
            } else {
                assert forall|i: int| prefix.len() <= i < key.len() implies key[i] != '/' by {
                    assert(rest[i - prefix.len()] == key[i]);
                }
            }
        }
    }
    assert forall|path: Seq<char>| #[trigger] rows.contains(("p"@, path)) <==> {
        &&& prefix.is_prefix_of(path)
        &&& prefix.len() < path.len()
        &&& path[path.len() - 1] == '/'
        &&& forall|i: int| prefix.len() <= i < path.len() - 1 ==> path[i] != '/'
        &&& exists|key: Seq<char>| #[trigger]
            tables.zarr.contains_key(key) && path.is_prefix_of(key)
    } by {
        if prefix.len() < path.len() {
            let name = path.subrange(prefix.len() as int, path.len() - 1);
            if name.contains('/') {
                let i = choose|i: int| 0 <= i < name.len() && name[i] == '/';
                assert(path[prefix.len() + i] == '/');
            } else {
                assert forall|i: int| prefix.len() <= i < path.len() - 1 implies path[i] != '/' by {
                    assert(name[i - prefix.len()] == path[i]);
                }
            }
        }
    }
}

/// Reading the metadata selects the whole metadata table.
pub proof fn law_read_metadata_selects(tables: Tables)
    ensures
        selected_metadata(tables, plain(READ_METADATA_SQL@)) == Some(tables.metadata),
{
}

/// In a database of valid keys, a listing ignores no row: what is listed of a prefix is every key of
/// the store that starts with it, once.
pub proof fn law_listing_complete(tables: Tables, prefix: Seq<char>, rows: Seq<Seq<char>>)
    requires
        keys_valid(tables.zarr),
        is_store_prefix(prefix),
        is_key_listing(tables, list_prefix_statement(prefix), rows),
    ensures
        valid_keys(rows) == rows,
        valid_keys(rows).no_duplicates(),
        valid_keys(rows).to_set() == keys_under(tables.zarr, prefix),
{
    lemma_listings_distinct();
    let zarr = tables.zarr;
    lemma_keys_under(zarr, prefix);
    assert forall|i: int| 0 <= i < rows.len() implies is_store_key(#[trigger] rows[i]) by {
        assert(rows.to_set().contains(rows[i]));
        assert(zarr.contains_key(rows[i]));
    }
    lemma_all_valid(rows);
}

/// In a database of valid keys, the size of a prefix is the number of bytes in the values of the keys
/// that start with it. The size of the root is that of the store.
pub proof fn law_prefix_size(tables: Tables, prefix: Seq<char>)
    requires
        keys_valid(tables.zarr),
        is_store_prefix(prefix),
    ensures
        selected_total(tables, size_prefix_statement(prefix)) == Some(
            sizes_sum(tables.zarr, in_order(keys_under(tables.zarr, prefix))),
        ),
        prefix.len() == 0 ==> selected_total(tables, size_prefix_statement(prefix)) == Some(
            total_size(tables.zarr),
        ),
{
    lemma_listings_distinct();
    lemma_keys_under(tables.zarr, prefix);
}

/// Where every text can be a key, none is ignored.
proof fn lemma_all_valid(rows: Seq<Seq<char>>)
    requires
        forall|i: int| 0 <= i < rows.len() ==> is_store_key(#[trigger] rows[i]),
    ensures
        valid_keys(rows) == rows,
    decreases rows.len(),
{
    reveal(Seq::filter);
    if rows.len() > 0 {
        lemma_all_valid(rows.drop_last());
        assert(rows.drop_last().push(rows.last()) =~= rows);
    }
}

/// The paths of a listing are those of its valid rows.
proof fn lemma_dir_paths(rows: Seq<Row>, valid: spec_fn(Row) -> bool, path: Seq<char>)
    ensures
        dir_paths(rows, valid).contains(path) <==> exists|row: Row| #[trigger]
            rows.contains(row) && valid(row) && row.1 == path,
    decreases rows.len(),
{
    reveal(Seq::filter);
    if rows.len() > 0 {
        let init = rows.drop_last();
        let last = rows.last();
        assert(init.push(last) =~= rows);
        lemma_dir_paths(init, valid, path);
        lemma_dir_paths_push(init, last, valid);
        let before = dir_paths(init, valid);
        let after = dir_paths(rows, valid);
        assert(rows[rows.len() - 1] == last);
        if after.contains(path) {
            let i = choose|i: int| 0 <= i < after.len() && after[i] == path;
            if i < before.len() {
                assert(before[i] == path);
                let row = choose|row: Row| #[trigger]
                    init.contains(row) && valid(row) && row.1 == path;
                let j = choose|j: int| 0 <= j < init.len() && init[j] == row;
                assert(rows[j] == row);
                assert(rows.contains(row));
            } else {
                assert(rows.contains(last));
            }
        }
        if exists|row: Row| #[trigger] rows.contains(row) && valid(row) && row.1 == path {
            let row = choose|row: Row| #[trigger]
                rows.contains(row) && valid(row) && row.1 == path;
            let j = choose|j: int| 0 <= j < rows.len() && rows[j] == row;
            if j < init.len() {
                assert(init[j] == row);
                assert(init.contains(row));
                let i = choose|i: int| 0 <= i < before.len() && before[i] == path;
                assert(after[i] == path);
            } else {
                assert(after[before.len() as int] == path);
            }
        }
    }
}

/// Listing the root gives each of its rows once, in ascending order of their paths: the keys without a
/// slash, and the prefixes up to the first slash of the others.
pub proof fn law_root_listing(tables: Tables, rows: Seq<Row>)
    requires
        keys_seen(tables.zarr),
        is_dir_listing(tables, list_dir_statement(Seq::empty()), rows),
    ensures
        rows.no_duplicates(),
        paths_ascend(rows),
        forall|key: Seq<char>| #[trigger]
            rows.contains(("k"@, key)) <==> tables.zarr.contains_key(key) && !key.contains('/'),
        forall|path: Seq<char>| #[trigger]
            rows.contains(("p"@, path)) <==> is_child_prefix(Seq::empty(), path) && exists|
                key: Seq<char>,
            | #[trigger]
                tables.zarr.contains_key(key) && path.is_prefix_of(key),
        forall|row: Row| #[trigger] rows.contains(row) ==> row.0 == "k"@ || row.0 == "p"@,
{
    lemma_listings_distinct();
    law_list_dir_root(tables.zarr);
    assert forall|row: Row| #[trigger] rows.contains(row) <==> rows.to_set().contains(row) by {}
    assert forall|i: int, j: int| 0 <= i < j < rows.len() implies #[trigger] text_lt(
        rows[i].1,
        rows[j].1,
    ) by {
        assert(rows.contains(rows[i]) && rows.contains(rows[j]));
        lemma_text_lt_total(rows[i].1, rows[j].1);
        if rows[i].1 == rows[j].1 {
            let path = rows[i].1;
            assert(rows[i] != rows[j]);
            assert(rows[i] == ("k"@, path) || rows[i] == ("p"@, path));
            assert(rows[j] == ("k"@, path) || rows[j] == ("p"@, path));
            assert(rows.contains(("k"@, path)) && rows.contains(("p"@, path)));
            assert(path[path.len() - 1] == '/');
            assert(path.contains('/'));
        }
        assert(!text_lt(rows[j].1, rows[i].1));
    }
}

/// Whether each row has a path that sorts before those of the later rows.
pub open spec fn paths_ascend(rows: Seq<Row>) -> bool {
    forall|i: int, j: int| 0 <= i < j < rows.len() ==> #[trigger] text_lt(rows[i].1, rows[j].1)
}

/// The paths of ascending rows ascend.
proof fn lemma_dir_paths_ascend(rows: Seq<Row>, valid: spec_fn(Row) -> bool)
    requires
        paths_ascend(rows),
    ensures
        ascending(dir_paths(rows, valid)),
    decreases rows.len(),
{
    reveal(Seq::filter);
    if rows.len() > 0 {
        let init = rows.drop_last();
        let last = rows.last();
        assert(paths_ascend(init)) by {
            assert forall|i: int, j: int| 0 <= i < j < init.len() implies #[trigger] text_lt(
                init[i].1,
                init[j].1,
            ) by {
                assert(text_lt(rows[i].1, rows[j].1));
            }
        }
        lemma_dir_paths_ascend(init, valid);
        assert(init.push(last) =~= rows);
        lemma_dir_paths_push(init, last, valid);
        let before = dir_paths(init, valid);
        let after = dir_paths(rows, valid);
        assert forall|i: int, j: int| 0 <= i < j < after.len() implies #[trigger] text_lt(
            after[i],
            after[j],
        ) by {
            if j < before.len() {
                assert(text_lt(before[i], before[j]));
            } else {
                assert(before.contains(before[i]));
                lemma_dir_paths(init, valid, before[i]);
                let row = choose|row: Row| #[trigger]
                    init.contains(row) && valid(row) && row.1 == before[i];
                let n = choose|n: int| 0 <= n < init.len() && init[n] == row;
                assert(text_lt(rows[n].1, rows[rows.len() - 1].1));
            }
        }
    }
}

/// The paths of distinct rows of one type are distinct.
proof fn lemma_dir_paths_distinct(
    rows: Seq<Row>,
    valid: spec_fn(Row) -> bool,
    kind: Seq<char>,
)
    requires
        rows.no_duplicates(),
        forall|row: Row| #[trigger] valid(row) ==> row.0 == kind,
    ensures
        dir_paths(rows, valid).no_duplicates(),
    decreases rows.len(),
{
    reveal(Seq::filter);
    if rows.len() > 0 {
        let init = rows.drop_last();
        let last = rows.last();
        lemma_dir_paths_distinct(init, valid, kind);
        assert(init.push(last) =~= rows);
        lemma_dir_paths_push(init, last, valid);
        let before = dir_paths(init, valid);
        if valid(last) && before.contains(last.1) {
            lemma_dir_paths(init, valid, last.1);
            let row = choose|row: Row| #[trigger]
                init.contains(row) && valid(row) && row.1 == last.1;
            let n = choose|n: int| 0 <= n < init.len() && init[n] == row;
            assert(rows[n] == row);
            assert(row == last);
            assert(rows[n] == rows[rows.len() - 1]);
        }
    }
}

/// In a database of valid keys all of whose slashes are seen, listing a directory gives just the keys
/// directly below the prefix, and the prefixes directly below it under which the store has a key,
/// each once. What is listed of the root ascends.
pub proof fn law_dir_listing(tables: Tables, prefix: Seq<char>, rows: Seq<Row>)
    requires
        keys_valid(tables.zarr),
        keys_seen(tables.zarr),
        is_store_prefix(prefix),
        is_dir_listing(tables, list_dir_statement(prefix), rows),
    ensures
        dir_paths(rows, names_key()).no_duplicates(),
        dir_paths(rows, names_prefix()).no_duplicates(),
        prefix.len() == 0 ==> ascending(dir_paths(rows, names_key())) && ascending(
            dir_paths(rows, names_prefix()),
        ),
        forall|key: Seq<char>| #[trigger]
            dir_paths(rows, names_key()).contains(key) <==> tables.zarr.contains_key(key) && (
            is_child_key(prefix, key) || prefix.len() == 0 && key.len() == 0),
        forall|path: Seq<char>| #[trigger]
            dir_paths(rows, names_prefix()).contains(path) <==> is_child_prefix(prefix, path)
                && exists|key: Seq<char>| #[trigger]
                tables.zarr.contains_key(key) && path.is_prefix_of(key),
{
    lemma_listings_distinct();
    let zarr = tables.zarr;
    let selected = rows.to_set();
    if prefix.len() == 0 {
        assert(prefix =~= Seq::<char>::empty());
        law_list_dir_root(zarr);
        law_root_listing(tables, rows);
        lemma_dir_paths_ascend(rows, names_key());
        lemma_dir_paths_ascend(rows, names_prefix());
    } else {
        law_list_dir(zarr, prefix);
    }
    lemma_dir_paths_distinct(rows, names_key(), "k"@);
    lemma_dir_paths_distinct(rows, names_prefix(), "p"@);
    assert forall|key: Seq<char>| #[trigger]
        dir_paths(rows, names_key()).contains(key) <==> zarr.contains_key(key) && (is_child_key(
            prefix,
            key,
        ) || prefix.len() == 0 && key.len() == 0) by {
        lemma_dir_paths(rows, names_key(), key);
        let row = ("k"@, key);
        assert(rows.contains(row) <==> selected.contains(row));
        if prefix.len() == 0 {
            assert(key.skip(0) =~= key);
            assert(prefix =~= key.subrange(0, 0));
            if key.len() == 0 {
                assert(!key.contains('/'));
            }
        }
        if dir_paths(rows, names_key()).contains(key) {
            let found = choose|found: Row| #[trigger]
                rows.contains(found) && names_key()(found) && found.1 == key;
            assert(found == row);
        }
    }
    assert forall|path: Seq<char>| #[trigger]
        dir_paths(rows, names_prefix()).contains(path) <==> is_child_prefix(prefix, path)
            && exists|key: Seq<char>| #[trigger]
            zarr.contains_key(key) && path.is_prefix_of(key) by {
        lemma_dir_paths(rows, names_prefix(), path);
        let row = ("p"@, path);
        assert(rows.contains(row) <==> selected.contains(row));
        if dir_paths(rows, names_prefix()).contains(path) {
            let found = choose|found: Row| #[trigger]
                rows.contains(found) && names_prefix()(found) && found.1 == path;
            assert(found == row);
        }
        if is_child_prefix(prefix, path) && exists|key: Seq<char>| #[trigger]
            zarr.contains_key(key) && path.is_prefix_of(key) {
            let key = choose|key: Seq<char>| #[trigger]
                zarr.contains_key(key) && path.is_prefix_of(key);
            assert(is_store_key(key));
            assert(path =~= key.subrange(0, path.len() as int));
            assert(path[0] == key[0]);
            assert(is_store_prefix(path));
            assert(names_prefix()(row));
        }
    }
}

} // verus!
