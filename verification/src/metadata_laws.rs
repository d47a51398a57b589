//! What the entries of a metadata table say, and what is written to it, entry by entry.

use vstd::prelude::*;
use crate::error::Error;
use crate::flags::{flags_text, law_read_flags, read_flags};
use crate::laws::{law_write_metadata, lemma_execute_concat, lemma_execute_one, written};
use crate::metadata::{
    fresh_metadata, is_known_key, is_readable, law_metadata_view, lemma_known_keys_distinct,
    BuilderView, MetadataView, SqliteStoreMetadata, SqliteStoreMetadataBuilder,
};
use crate::metadata_table::{
    first_unreadable, law_row_views, lemma_table_insert, lookup, row_views, table_metadata,
    table_of, unknown_entries, Row,
};
use crate::numeral::decimal;
use crate::options::StoreMode;
use crate::sorted::lemma_in_order;
use crate::store::{metadata_statements, opening_statements, schema_statement};
use crate::tables::{execute_all, lemma_statements_distinct, Tables};
use crate::text::{join, split};
use crate::timestamp::{instant_text, read_instant};
use crate::version::{read_version, version_text, Version};

verus! {

/// Metadata can be read from a table just if the table has a version and a time of creation that can
/// be read. If the version is missing it is asked for first.
pub proof fn law_required_entries(table: Map<Seq<char>, Seq<char>>)
    ensures
        table_metadata(table).missing() is None <==> {
            &&& table.contains_key("sqlitestore_version"@)
            &&& read_version(table["sqlitestore_version"@]) is Some
            &&& table.contains_key("created_time"@)
            &&& read_instant(table["created_time"@]) is Some
        },
        !table.contains_key("sqlitestore_version"@) ==> table_metadata(table).missing() == Some(
            "sqlitestore_version"@,
        ),
        table.contains_key("sqlitestore_version"@) && read_version(table["sqlitestore_version"@])
            is Some && !table.contains_key("created_time"@) ==> table_metadata(table).missing()
            == Some("created_time"@),
{
}

/// The version, the creator and the time of creation are those in the entries of their names.
pub proof fn law_read_origin(table: Map<Seq<char>, Seq<char>>)
    requires
        table_metadata(table).missing() is None,
    ensures
        ({
            let metadata = table_metadata(table).metadata();
            &&& Some(metadata.sqlitestore_version) == read_version(table["sqlitestore_version"@])
            &&& Some(metadata.created_at) == read_instant(table["created_time"@])
            &&& metadata.created_by == if table.contains_key("created_by"@) {
                Some(table["created_by"@])
            } else {
                None
            }
        }),
{
}

/// A flag is among the flags that were read just if it is a piece of the text in the entry of their
/// name, and not empty. Without the entry there are none, whatever the other entries are.
pub proof fn law_read_flag(table: Map<Seq<char>, Seq<char>>, flag: Seq<char>)
    requires
        table_metadata(table).missing() is None,
    ensures
        table_metadata(table).metadata().compatible_flags.contains(flag) <==> {
            &&& table.contains_key("compatible_flags"@)
            &&& flag.len() > 0
            &&& split(table["compatible_flags"@], ',').contains(flag)
        },
        table_metadata(table).metadata().incompatible_flags.contains(flag) <==> {
            &&& table.contains_key("incompatible_flags"@)
            &&& flag.len() > 0
            &&& split(table["incompatible_flags"@], ',').contains(flag)
        },
{
    law_read_flags(table["compatible_flags"@], flag);
    law_read_flags(table["incompatible_flags"@], flag);
}

/// The time of the last modification is that in the entry `modified_at`, else that in the entry
/// `modified_time`, else the time of creation.
pub proof fn law_read_modification(table: Map<Seq<char>, Seq<char>>)
    requires
        table_metadata(table).missing() is None,
        table.contains_key("modified_at"@) ==> read_instant(table["modified_at"@]) is Some,
        table.contains_key("modified_time"@) ==> read_instant(table["modified_time"@]) is Some,
    ensures
        table_metadata(table).metadata().modified_at == (if table.contains_key("modified_at"@) {
            read_instant(table["modified_at"@])
        } else if table.contains_key("modified_time"@) {
            read_instant(table["modified_time"@])
        } else {
            read_instant(table["created_time"@])
        }),
{
}

/// Every entry that has no meaning of its own is kept as it is, and no other.
pub proof fn law_read_unknown(table: Map<Seq<char>, Seq<char>>, key: Seq<char>)
    ensures
        table_metadata(table).metadata().unknown.contains_key(key) <==> {
            &&& table.contains_key(key)
            &&& key != "sqlitestore_version"@
            &&& key != "compatible_flags"@
            &&& key != "incompatible_flags"@
            &&& key != "created_by"@
            &&& key != "created_time"@
            &&& key != "modified_at"@
            &&& key != "modified_time"@
        },
        table_metadata(table).metadata().unknown.contains_key(key) ==> table_metadata(
            table,
        ).metadata().unknown[key] == table[key],
{
}

/// The keys that are known, and the entries that cannot be read: a version that is none, and a time
/// that is none.
pub proof fn law_known_entries(key: Seq<char>, value: Seq<char>)
    ensures
        is_known_key(key) <==> {
            ||| key == "sqlitestore_version"@
            ||| key == "compatible_flags"@
            ||| key == "incompatible_flags"@
            ||| key == "created_by"@
            ||| key == "created_time"@
            ||| key == "modified_at"@
            ||| key == "modified_time"@
        },
        is_readable(key, value) <==> {
            &&& key == "sqlitestore_version"@ ==> read_version(value) is Some
            &&& key == "created_time"@ || key == "modified_at"@ || key == "modified_time"@
                ==> read_instant(value) is Some
        },
{
    lemma_known_keys_distinct();
}

/// The row that is reported as unreadable is unreadable, and every row before it can be read. If none
/// is reported, every row can be read.
pub proof fn law_first_unreadable(rows: Seq<Row>)
    ensures
        match first_unreadable(rows) {
            Some(i) => {
                &&& 0 <= i < rows.len()
                &&& !is_readable(rows[i].0, rows[i].1)
                &&& forall|j: int| 0 <= j < i ==> is_readable((#[trigger] rows[j]).0, rows[j].1)
            },
            None => forall|j: int|
                0 <= j < rows.len() ==> is_readable((#[trigger] rows[j]).0, rows[j].1),
        },
    decreases rows.len(),
{
    if rows.len() > 0 {
        let init = rows.drop_last();
        law_first_unreadable(init);
        assert forall|j: int| 0 <= j < init.len() implies init[j] == #[trigger] rows[j] by {}
    }
}

/// The last row with a key gives the table the entry of that key.
pub proof fn law_last_row(rows: Seq<Row>, i: int)
    requires
        0 <= i < rows.len(),
        forall|j: int| i < j < rows.len() ==> (#[trigger] rows[j]).0 != rows[i].0,
    ensures
        table_of(rows).contains_key(rows[i].0),
        table_of(rows)[rows[i].0] == rows[i].1,
    decreases rows.len(),
{
    let init = rows.drop_last();
    if i < init.len() {
        assert(rows[rows.len() - 1].0 != rows[i].0);
        assert forall|j: int| i < j < init.len() implies (#[trigger] init[j]).0 != init[i].0 by {
            assert(rows[j].0 != rows[i].0);
        }
        law_last_row(init, i);
    }
}

/// Only the keys of rows have entries in the table.
pub proof fn law_table_of(rows: Seq<Row>, key: Seq<char>)
    requires
        forall|i: int| 0 <= i < rows.len() ==> (#[trigger] rows[i]).0 != key,
    ensures
        !table_of(rows).contains_key(key),
    decreases rows.len(),
{
    if rows.len() > 0 {
        let init = rows.drop_last();
        assert(rows[rows.len() - 1].0 != key);
        assert forall|i: int| 0 <= i < init.len() implies (#[trigger] init[i]).0 != key by {
            assert(rows[i].0 != key);
        }
        law_table_of(init, key);
    }
}

/// What was read of some entries is what a table of these entries says: a builder starts as the empty
/// table, and one more entry is one more entry of the table.
pub proof fn law_builder_is_table(
    table: Map<Seq<char>, Seq<char>>,
    key: Seq<char>,
    value: Seq<char>,
)
    ensures
        BuilderView::empty() == table_metadata(Map::empty()),
        table_metadata(table).add(key, value) == table_metadata(table.insert(key, value)),
{
    lemma_table_insert(table, key, value);
    assert(unknown_entries(Map::empty()) =~= Map::<Seq<char>, Seq<char>>::empty());
    assert(table_metadata(Map::empty()) =~= BuilderView::empty());
}

/// A store that is created has the version 1.0, no flags and no unknown entries, and was last modified
/// when it was created.
pub proof fn law_fresh_metadata(created_by: Option<Seq<char>>, at: i128)
    ensures
        ({
            let metadata = fresh_metadata(created_by, at);
            &&& metadata.sqlitestore_version == (Version { major: 1, minor: 0 })
            &&& forall|flag: Seq<char>|
                !(#[trigger] metadata.compatible_flags.contains(flag))
                    && !metadata.incompatible_flags.contains(flag)
            &&& metadata.created_by == created_by
            &&& metadata.created_at == at
            &&& metadata.modified_at == Some(at)
            &&& forall|key: Seq<char>| !(#[trigger] metadata.unknown.contains_key(key))
        }),
{
}

/// What an entry of the table is after metadata was written: a known one says what the metadata says,
/// and stays if the metadata says nothing; any other is that of the metadata, or stays.
pub proof fn law_written_entry(
    table: Map<Seq<char>, Seq<char>>,
    metadata: MetadataView,
    key: Seq<char>,
)
    ensures
        lookup(written(table, metadata), key) == (if key == "sqlitestore_version"@ {
            Some(version_text(metadata.sqlitestore_version))
        } else if key == "compatible_flags"@ {
            Some(flags_text(metadata.compatible_flags))
        } else if key == "incompatible_flags"@ {
            Some(flags_text(metadata.incompatible_flags))
        } else if key == "created_by"@ && metadata.created_by is Some {
            metadata.created_by
        } else if key == "created_time"@ {
            Some(instant_text(metadata.created_at))
        } else if key == "modified_at"@ && metadata.modified_at is Some {
            Some(instant_text(metadata.modified_at->0))
        } else if metadata.unknown.contains_key(key) {
            Some(metadata.unknown[key])
        } else if table.contains_key(key) {
            Some(table[key])
        } else {
            None
        }),
{
    lemma_known_keys_distinct();
}

/// The metadata table of a store that was created has six entries: the version `1.0`, no flags of
/// either kind, the creator, and twice the time of creation.
pub proof fn law_new_store_entries(
    mode: StoreMode,
    created_by: Seq<char>,
    at: i128,
    now: Seq<char>,
)
    ensures
        execute_all(
            Tables::blank(),
            opening_statements(mode, true, fresh_metadata(Some(created_by), at)),
            now,
        ) == Some(
            Tables {
                application_id: 0x10b50760,
                zarr: Map::empty(),
                metadata: Map::<Seq<char>, Seq<char>>::empty().insert(
                    "sqlitestore_version"@,
                    "1.0"@,
                ).insert("compatible_flags"@, ""@).insert("incompatible_flags"@, ""@).insert(
                    "created_by"@,
                    created_by,
                ).insert("created_time"@, instant_text(at)).insert(
                    "modified_at"@,
                    instant_text(at),
                ),
            },
        ),
{
    let metadata = fresh_metadata(Some(created_by), at);
    lemma_statements_distinct();
    lemma_execute_concat(
        Tables::blank(),
        seq![schema_statement()],
        metadata_statements(metadata),
        now,
    );
    lemma_execute_one(Tables::blank(), schema_statement(), now);
    assert(Set::<Seq<char>>::empty().finite());
    law_write_metadata(Tables::created(), metadata, now);
    reveal_strlit("1.0");
    reveal_strlit("");
    reveal_with_fuel(decimal, 2);
    assert(version_text(Version { major: 1, minor: 0 }) =~= "1.0"@);
    let none = Seq::<Seq<char>>::empty();
    assert(none.to_set() =~= Set::<Seq<char>>::empty());
    lemma_in_order(none);
    assert(join(none, ',') =~= ""@);
    assert(Map::<Seq<char>, Seq<char>>::empty().union_prefer_right(metadata.unknown) =~= Map::<
        Seq<char>,
        Seq<char>,
    >::empty());
}

/// If every row can be read, every entry of the table can.
proof fn lemma_entries_readable(rows: Seq<Row>, key: Seq<char>)
    requires
        first_unreadable(rows) is None,
        table_of(rows).contains_key(key),
    ensures
        is_readable(key, table_of(rows)[key]),
    decreases rows.len(),
{
    if key != rows.last().0 {
        lemma_entries_readable(rows.drop_last(), key);
    }
}

/// Metadata is read from rows just if every row can be read, and some row has a version and some row a
/// time of creation. Else the first row that cannot be read is reported, or the entry that is missing.
pub proof fn law_from_rows(
    rows: &Vec<(String, String)>,
    result: Result<SqliteStoreMetadata, Error>,
)
    requires
        call_ensures(SqliteStoreMetadata::from_rows, (rows,), result),
    ensures
        ({
            let unreadable = |i: int|
                {
                    let key = rows@[i].0@;
                    let value = rows@[i].1@;
                    ||| key == "sqlitestore_version"@ && read_version(value) is None
                    ||| key == "created_time"@ && read_instant(value) is None
                    ||| key == "modified_at"@ && read_instant(value) is None
                    ||| key == "modified_time"@ && read_instant(value) is None
                };
            let table = table_of(row_views(rows@));
            match result {
                Ok(_) => {
                    &&& forall|i: int| 0 <= i < rows@.len() ==> !(#[trigger] unreadable(i))
                    &&& table.contains_key("sqlitestore_version"@)
                    &&& table.contains_key("created_time"@)
                },
                Err(Error::InvalidMetadata { key, value: Some(value) }) => exists|i: int|
                    {
                        &&& 0 <= i < rows@.len()
                        &&& #[trigger] unreadable(i)
                        &&& key@ == rows@[i].0@
                        &&& value@ == rows@[i].1@
                        &&& forall|j: int| 0 <= j < i ==> !(#[trigger] unreadable(j))
                    },
                Err(Error::InvalidMetadata { key, value: None }) => {
                    &&& forall|i: int| 0 <= i < rows@.len() ==> !(#[trigger] unreadable(i))
                    &&& !table.contains_key(key@)
                    &&& key@ == "sqlitestore_version"@ || key@ == "created_time"@
                        && table.contains_key("sqlitestore_version"@)
                },
                Err(_) => false,
            }
        }),
{
    let all = row_views(rows@);
    let table = table_of(all);
    lemma_known_keys_distinct();
    law_row_views(rows@);
    law_first_unreadable(all);
    law_required_entries(table);
    let unreadable = |i: int|
        {
            let key = rows@[i].0@;
            let value = rows@[i].1@;
            ||| key == "sqlitestore_version"@ && read_version(value) is None
            ||| key == "created_time"@ && read_instant(value) is None
            ||| key == "modified_at"@ && read_instant(value) is None
            ||| key == "modified_time"@ && read_instant(value) is None
        };
    assert forall|i: int| 0 <= i < rows@.len() implies (#[trigger] unreadable(i) <==> !is_readable(
        all[i].0,
        all[i].1,
    )) by {
        law_known_entries(all[i].0, all[i].1);
    }
    if first_unreadable(all) is None {
        if table.contains_key("sqlitestore_version"@) {
            lemma_entries_readable(all, "sqlitestore_version"@);
        }
        if table.contains_key("created_time"@) {
            lemma_entries_readable(all, "created_time"@);
        }
    } else {
        assert(unreadable(first_unreadable(all)->0));
    }
}

/// What was read from rows is what the entries of the table say: the version, the creator and the time
/// of creation, the flags of either kind, the time of the last modification, and the unknown entries.
pub proof fn law_metadata_from_rows(
    rows: &Vec<(String, String)>,
    metadata: SqliteStoreMetadata,
    flag: Seq<char>,
    key: Seq<char>,
)
    requires
        call_ensures(
            SqliteStoreMetadata::from_rows,
            (rows,),
            Ok::<SqliteStoreMetadata, Error>(metadata),
        ),
    ensures
        ({
            let table = table_of(row_views(rows@));
            &&& Some(metadata.sqlitestore_version) == read_version(table["sqlitestore_version"@])
            &&& metadata.compatible_flags@.contains(flag) <==> {
                &&& table.contains_key("compatible_flags"@)
                &&& flag.len() > 0
                &&& split(table["compatible_flags"@], ',').contains(flag)
            }
            &&& metadata.incompatible_flags@.contains(flag) <==> {
                &&& table.contains_key("incompatible_flags"@)
                &&& flag.len() > 0
                &&& split(table["incompatible_flags"@], ',').contains(flag)
            }
            &&& match metadata.created_by {
                Some(created_by) => table.contains_key("created_by"@) && created_by@
                    == table["created_by"@],
                None => !table.contains_key("created_by"@),
            }
            &&& Some(metadata.created_at@) == read_instant(table["created_time"@])
            &&& metadata.modified_at matches Some(at) && Some(at@) == if table.contains_key(
                "modified_at"@,
            ) {
                read_instant(table["modified_at"@])
            } else if table.contains_key("modified_time"@) {
                read_instant(table["modified_time"@])
            } else {
                read_instant(table["created_time"@])
            }
            &&& metadata.unknown@.contains_key(key) <==> {
                &&& table.contains_key(key)
                &&& key != "sqlitestore_version"@
                &&& key != "compatible_flags"@
                &&& key != "incompatible_flags"@
                &&& key != "created_by"@
                &&& key != "created_time"@
                &&& key != "modified_at"@
                &&& key != "modified_time"@
            }
            &&& metadata.unknown@.contains_key(key) ==> metadata.unknown@[key] == table[key]
        }),
{
    let all = row_views(rows@);
    let table = table_of(all);
    lemma_known_keys_distinct();
    if table.contains_key("modified_at"@) {
        lemma_entries_readable(all, "modified_at"@);
    }
    if table.contains_key("modified_time"@) {
        lemma_entries_readable(all, "modified_time"@);
    }
    law_metadata_view(metadata);
    law_required_entries(table);
    law_read_origin(table);
    law_read_flag(table, flag);
    law_read_modification(table);
    law_read_unknown(table, key);
}

/// Metadata is put together just if a version and a time of creation were read. Flags that were not
/// read are none, whatever else was read, and the time of the last modification is the time of creation
/// if none was read.
pub proof fn law_build(
    builder: SqliteStoreMetadataBuilder,
    result: Result<SqliteStoreMetadata, Error>,
)
    requires
        call_ensures(SqliteStoreMetadataBuilder::build, (builder,), result),
    ensures
        result is Ok <==> builder@.version is Some && builder@.created_time is Some,
        match result {
            Ok(metadata) => {
                &&& Some(metadata.sqlitestore_version) == builder@.version
                &&& forall|flag: Seq<char>| #[trigger]
                    metadata.compatible_flags@.contains(flag) <==> builder@.compatible_flags is Some
                        && builder@.compatible_flags->0.contains(flag)
                &&& forall|flag: Seq<char>| #[trigger]
                    metadata.incompatible_flags@.contains(flag) <==> builder@.incompatible_flags
                        is Some && builder@.incompatible_flags->0.contains(flag)
                &&& metadata.created_by is Some <==> builder@.created_by is Some
                &&& metadata.created_by matches Some(created_by) ==> Some(created_by@)
                    == builder@.created_by
                &&& Some(metadata.created_at@) == builder@.created_time
                &&& metadata.modified_at matches Some(at) && {
                    &&& builder@.modified_at is Some ==> Some(at@) == builder@.modified_at
                    &&& builder@.modified_at is None && builder@.modified_time is Some ==> Some(at@)
                        == builder@.modified_time
                    &&& builder@.modified_at is None && builder@.modified_time is None ==> at@
                        == metadata.created_at@
                }
                &&& metadata.unknown@ == builder@.unknown
            },
            Err(Error::InvalidMetadata { key, value }) => {
                &&& value is None
                &&& builder@.version is None ==> key@ == "sqlitestore_version"@
                &&& builder@.version is Some ==> key@ == "created_time"@
            },
            Err(_) => false,
        },
{
    if let Ok(metadata) = result {
        law_metadata_view(metadata);
    }
}

/// One more entry changes what was read of that entry alone.
pub proof fn law_add_entry(before: BuilderView, key: Seq<char>, value: Seq<char>)
    ensures
        ({
            let after = before.add(key, value);
            let known = key == "sqlitestore_version"@ || key == "compatible_flags"@ || key
                == "incompatible_flags"@ || key == "created_by"@ || key == "created_time"@ || key
                == "modified_at"@ || key == "modified_time"@;
            &&& after.version == if key == "sqlitestore_version"@ {
                read_version(value)
            } else {
                before.version
            }
            &&& key != "compatible_flags"@ ==> after.compatible_flags == before.compatible_flags
            &&& key == "compatible_flags"@ ==> (after.compatible_flags matches Some(flags)
                && forall|flag: Seq<char>| #[trigger]
                flags.contains(flag) <==> flag.len() > 0 && split(value, ',').contains(flag))
            &&& key != "incompatible_flags"@ ==> after.incompatible_flags
                == before.incompatible_flags
            &&& key == "incompatible_flags"@ ==> (after.incompatible_flags matches Some(flags)
                && forall|flag: Seq<char>| #[trigger]
                flags.contains(flag) <==> flag.len() > 0 && split(value, ',').contains(flag))
            &&& after.created_by == if key == "created_by"@ {
                Some(value)
            } else {
                before.created_by
            }
            &&& after.created_time == if key == "created_time"@ {
                read_instant(value)
            } else {
                before.created_time
            }
            &&& after.modified_at == if key == "modified_at"@ {
                read_instant(value)
            } else {
                before.modified_at
            }
            &&& after.modified_time == if key == "modified_time"@ {
                read_instant(value)
            } else {
                before.modified_time
            }
            &&& after.unknown == if known {
                before.unknown
            } else {
                before.unknown.insert(key, value)
            }
        }),
{
    lemma_known_keys_distinct();
    assert forall|flag: Seq<char>|
        #![trigger read_flags(value).contains(flag)]
        read_flags(value).contains(flag) <==> flag.len() > 0 && split(value, ',').contains(flag) by {
        law_read_flags(value, flag);
    }
}

} // verus!
