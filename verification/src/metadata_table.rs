//! Reading the metadata of a store from the rows of its metadata table.

use vstd::prelude::*;
use crate::error::{Error, ErrorView};
use crate::flags::read_flags;
use crate::metadata::{
    is_known_key, is_readable, lemma_known_keys_distinct, BuilderView, SqliteStoreMetadata,
};
use crate::timestamp::read_instant;
use crate::version::read_version;

verus! {

/// A row of the metadata table: a key and a value.
pub type Row = (Seq<char>, Seq<char>);

/// The contents of the rows.
pub open spec fn row_views(rows: Seq<(String, String)>) -> Seq<Row> {
    rows.map_values(|row: (String, String)| (row.0@, row.1@))
}

/// The table that results when the rows are put into an empty one, from the first to the last.
pub open spec fn table_of(rows: Seq<Row>) -> Map<Seq<char>, Seq<char>>
    decreases rows.len(),
{
    if rows.len() == 0 {
        Map::empty()
    } else {
        table_of(rows.drop_last()).insert(rows.last().0, rows.last().1)
    }
}

/// The first row with a known key and a value that cannot be read.
pub open spec fn first_unreadable(rows: Seq<Row>) -> Option<int>
    decreases rows.len(),
{
    if rows.len() == 0 {
        None
    } else if first_unreadable(rows.drop_last()) is Some {
        first_unreadable(rows.drop_last())
    } else if !is_readable(rows.last().0, rows.last().1) {
        Some(rows.len() - 1)
    } else {
        None
    }
}

/// The value that a table gives to `key`.
pub open spec fn lookup(table: Map<Seq<char>, Seq<char>>, key: Seq<char>) -> Option<Seq<char>> {
    if table.contains_key(key) {
        Some(table[key])
    } else {
        None
    }
}

/// The instant in the entry `key`.
pub open spec fn lookup_instant(table: Map<Seq<char>, Seq<char>>, key: Seq<char>) -> Option<i128> {
    if table.contains_key(key) {
        read_instant(table[key])
    } else {
        None
    }
}

/// The flags in the entry `key`.
pub open spec fn lookup_flags(table: Map<Seq<char>, Seq<char>>, key: Seq<char>) -> Option<
    Set<Seq<char>>,
> {
    if table.contains_key(key) {
        Some(read_flags(table[key]))
    } else {
        None
    }
}

/// The version in the entry `key`.
pub open spec fn lookup_version(table: Map<Seq<char>, Seq<char>>, key: Seq<char>) -> Option<
    crate::version::Version,
> {
    if table.contains_key(key) {
        read_version(table[key])
    } else {
        None
    }
}

/// The entries of a table whose keys are not known.
pub open spec fn unknown_entries(table: Map<Seq<char>, Seq<char>>) -> Map<Seq<char>, Seq<char>> {
    Map::new(
        |key: Seq<char>| table.contains_key(key) && !is_known_key(key),
        |key: Seq<char>| table[key],
    )
}

/// What a metadata table says, known key by known key.
pub open spec fn table_metadata(table: Map<Seq<char>, Seq<char>>) -> BuilderView {
    BuilderView {
        version: lookup_version(table, "sqlitestore_version"@),
        compatible_flags: lookup_flags(table, "compatible_flags"@),
        incompatible_flags: lookup_flags(table, "incompatible_flags"@),
        created_by: lookup(table, "created_by"@),
        created_time: lookup_instant(table, "created_time"@),
        modified_at: lookup_instant(table, "modified_at"@),
        modified_time: lookup_instant(table, "modified_time"@),
        unknown: unknown_entries(table),
    }
}

/// Putting an entry into the table is adding it to what was read.
pub proof fn lemma_table_insert(
    table: Map<Seq<char>, Seq<char>>,
    key: Seq<char>,
    value: Seq<char>,
)
    ensures
        table_metadata(table.insert(key, value)) == table_metadata(table).add(key, value),
{
    lemma_known_keys_distinct();
    let after = table.insert(key, value);
    if is_known_key(key) {
        assert(unknown_entries(after) =~= unknown_entries(table));
    } else {
        assert(unknown_entries(after) =~= unknown_entries(table).insert(key, value));
    }
    assert(table_metadata(after) =~= table_metadata(table).add(key, value));
}

impl SqliteStoreMetadata {
    /// Reads the metadata from the rows of the metadata table.
    pub fn from_rows(rows: &Vec<(String, String)>) -> (result: Result<Self, Error>)
        ensures
            match result {
                Ok(metadata) => {
                    let read = table_metadata(table_of(row_views(rows@)));
                    &&& first_unreadable(row_views(rows@)) is None
                    &&& read.missing() is None
                    &&& metadata@ == read.metadata()
                },
                Err(error) => match first_unreadable(row_views(rows@)) {
                    Some(i) => error@ == (ErrorView::InvalidMetadata {
                        key: rows@[i].0@,
                        value: Some(rows@[i].1@),
                    }),
                    None => {
                        let read = table_metadata(table_of(row_views(rows@)));
                        &&& read.missing() is Some
                        &&& error@ == (ErrorView::InvalidMetadata {
                            key: read.missing()->0,
                            value: None,
                        })
                    },
                },
            },
    {
        let ghost all = row_views(rows@);
        let mut builder = SqliteStoreMetadata::builder();
        let mut i: usize = 0;
        proof {
            assert(all.take(0) =~= Seq::<Row>::empty());
            assert(unknown_entries(Map::empty()) =~= Map::<Seq<char>, Seq<char>>::empty());
            assert(table_metadata(Map::empty()) =~= BuilderView::empty());
        }
        while i < rows.len()
            invariant
                all == row_views(rows@),
                i <= rows@.len(),
                first_unreadable(all.take(i as int)) is None,
                builder@ == table_metadata(table_of(all.take(i as int))),
            decreases rows@.len() - i,
        {
            let ghost before = all.take(i as int);
            let ghost after = all.take(i + 1);
            assert(after.drop_last() =~= before);
            assert(after.last() == (rows@[i as int].0@, rows@[i as int].1@));
            proof {
                lemma_table_insert(table_of(before), rows@[i as int].0@, rows@[i as int].1@);
            }
            match builder.add_key_value(rows[i].0.as_str(), rows[i].1.as_str()) {
                Ok(_) => {},
                Err(error) => {
                    proof {
                        assert(first_unreadable(after) == Some(i as int));
                        lemma_first_unreadable_stays(all, i + 1);
                    }
                    return Err(error);
                },
            }
            i = i + 1;
        }
        assert(all.take(all.len() as int) =~= all);
        builder.build()
    }
}

/// Further rows do not change which unreadable row comes first.
proof fn lemma_first_unreadable_stays(rows: Seq<Row>, n: int)
    requires
        0 <= n <= rows.len(),
        first_unreadable(rows.take(n)) is Some,
    ensures
        first_unreadable(rows) == first_unreadable(rows.take(n)),
    decreases rows.len(),
{
    if n == rows.len() {
        assert(rows.take(n) =~= rows);
    } else {
        assert(rows.drop_last().take(n) =~= rows.take(n));
        lemma_first_unreadable_stays(rows.drop_last(), n);
    }
}

/// Whether no two rows have the same key, as a primary key ensures.
pub open spec fn distinct_keys(rows: Seq<Row>) -> bool {
    forall|i: int, j: int| 0 <= i < j < rows.len() ==> (#[trigger] rows[i]).0 != (#[trigger] rows[j]).0
}

/// With distinct keys, the table holds exactly the rows.
pub proof fn lemma_table_of_distinct(rows: Seq<Row>)
    requires
        distinct_keys(rows),
    ensures
        forall|key: Seq<char>, value: Seq<char>|
            lookup(table_of(rows), key) == Some(value) <==> #[trigger] rows.contains((key, value)),
    decreases rows.len(),
{
    if rows.len() > 0 {
        let init = rows.drop_last();
        assert(distinct_keys(init)) by {
            assert forall|i: int, j: int| 0 <= i < j < init.len() implies (#[trigger] init[i]).0 != (
            #[trigger] init[j]).0 by {
                assert(rows[i].0 != rows[j].0);
            }
        }
        lemma_table_of_distinct(init);
        assert forall|key: Seq<char>, value: Seq<char>|
            lookup(table_of(rows), key) == Some(value) <==> #[trigger] rows.contains(
                (key, value),
            ) by {
            let last = rows.last();
            assert(lookup(table_of(init), key) == Some(value) <==> init.contains((key, value)));
            if rows.contains((key, value)) {
                let i = choose|i: int| 0 <= i < rows.len() && rows[i] == (key, value);
                if i < init.len() {
                    assert(init[i] == (key, value));
                    assert(rows[i].0 != rows[rows.len() - 1].0);
                }
            }
            if lookup(table_of(rows), key) == Some(value) {
                if key == last.0 {
                    assert(rows[rows.len() - 1] == (key, value));
                } else {
                    let i = choose|i: int| 0 <= i < init.len() && init[i] == (key, value);
                    assert(rows[i] == (key, value));
                }
            }
        }
    } else {
        assert forall|key: Seq<char>, value: Seq<char>|
            lookup(table_of(rows), key) == Some(value) <==> #[trigger] rows.contains(
                (key, value),
            ) by {}
    }
}

/// The rows of a table may come in any order: as long as no key occurs twice, the same rows make
/// the same table, and so the same metadata.
pub proof fn law_row_order(a: Seq<Row>, b: Seq<Row>)
    requires
        distinct_keys(a),
        distinct_keys(b),
        a.to_set() == b.to_set(),
    ensures
        table_of(a) == table_of(b),
        table_metadata(table_of(a)) == table_metadata(table_of(b)),
        first_unreadable(a) is None <==> first_unreadable(b) is None,
{
    lemma_table_of_distinct(a);
    lemma_table_of_distinct(b);
    assert forall|key: Seq<char>| lookup(table_of(a), key) == lookup(table_of(b), key) by {
        if table_of(a).contains_key(key) {
            let row = (key, table_of(a)[key]);
            assert(a.contains(row));
            assert(a.to_set().contains(row));
            assert(b.contains(row));
        }
        if table_of(b).contains_key(key) {
            let row = (key, table_of(b)[key]);
            assert(b.contains(row));
            assert(b.to_set().contains(row));
            assert(a.contains(row));
        }
    }
    assert forall|key: Seq<char>| #[trigger] table_of(a).contains_key(key) <==> table_of(
        b,
    ).contains_key(key) by {
        assert(lookup(table_of(a), key) == lookup(table_of(b), key));
    }
    assert forall|key: Seq<char>| #[trigger] table_of(a).contains_key(key) implies table_of(a)[key]
        == table_of(b)[key] by {
        assert(lookup(table_of(a), key) == lookup(table_of(b), key));
    }
    assert(table_of(a) =~= table_of(b));
    lemma_unreadable_row(a);
    lemma_unreadable_row(b);
    if first_unreadable(a) is None {
        assert forall|row: Row| #[trigger] b.contains(row) implies is_readable(row.0, row.1) by {
            assert(b.to_set().contains(row));
            assert(a.contains(row));
        }
    }
    if first_unreadable(b) is None {
        assert forall|row: Row| #[trigger] a.contains(row) implies is_readable(row.0, row.1) by {
            assert(a.to_set().contains(row));
            assert(b.contains(row));
        }
    }
}

/// There is no unreadable row just if every row is readable.
pub proof fn lemma_unreadable_row(rows: Seq<Row>)
    ensures
        first_unreadable(rows) is None <==> forall|row: Row| #[trigger]
            rows.contains(row) ==> is_readable(row.0, row.1),
    decreases rows.len(),
{
    if rows.len() > 0 {
        let init = rows.drop_last();
        lemma_unreadable_row(init);
        assert forall|row: Row| #[trigger] rows.contains(row) <==> init.contains(row) || row
            == rows.last() by {
            if rows.contains(row) {
                let i = choose|i: int| 0 <= i < rows.len() && rows[i] == row;
                if i < init.len() {
                    assert(init[i] == row);
                }
            }
            if init.contains(row) {
                let i = choose|i: int| 0 <= i < init.len() && init[i] == row;
                assert(rows[i] == row);
            }
            assert(rows[rows.len() - 1] == rows.last());
        }
        if first_unreadable(rows) is None {
            assert forall|row: Row| #[trigger] rows.contains(row) implies is_readable(
                row.0,
                row.1,
            ) by {
                assert(init.contains(row) || row == rows.last());
            }
        } else if first_unreadable(init) is Some {
            let row = choose|row: Row| #[trigger] init.contains(row) && !is_readable(row.0, row.1);
            assert(rows.contains(row));
        } else {
            assert(rows.contains(rows.last()));
        }
    }
}

/// The contents of rows are those of each row, in their order.
pub proof fn law_row_views(rows: Seq<(String, String)>)
    ensures
        row_views(rows).len() == rows.len(),
        forall|i: int|
            0 <= i < rows.len() ==> #[trigger] row_views(rows)[i] == (rows[i].0@, rows[i].1@),
{
}

} // verus!
