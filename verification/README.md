# zarrs_sqlite

An SQLite-based Zarr store for the [zarrs](https://zarrs.dev/) ecosystem, with its logic verified by
[Verus](https://github.com/verus-lang/verus).

## Usage

```rust
use std::path::PathBuf;
use zarrs_sqlite::Options;

// Use new_local(PathBuf::from("path/to/file.zarrdb")) for a file-backed database.
let options = Options::new_memory()
    // Allow (but do not require) creation of new database.
    .create()
    // Allow (but do not require) deleting an existing database.
    .truncate();

// Stores are opened read-only by default, unless `.create()`, `.truncate()`, or `.write()` are used.
```

`RusqliteStore::new(&options)` and `TursoStore::new(&options).await` in `app/` open a store on
libsqlite3 or on the Turso engine. Both implement the storage traits of `zarrs_storage`.

After you've finished writing to a `TursoStore`, use `my_store.checkpoint().await` to write the
contents of the WAL to the main database file.

## Layout

`src/` decides what a store asks of its database, and what it makes of the answers.

- `options`: how a database is to be opened, and what becomes of the file that is there.
- `queries`, `statement`: the SQL statements and their parameters.
- `store`: which statements an operation executes, and how listings are read from rows.
- `metadata`, `metadata_table`, `version`, `flags`, `timestamp`, `text_map`: the metadata of a store.
- `keys`, `types`, `error`: keys, prefixes and byte ranges, checkpoints, errors.
- `text`, `sorted`, `numeral`, `collation`: text, its order, and numerals.
- `tables`: a model of the two tables, and what each statement does to them or selects from them.
- `laws`: what follows for a store, such as that a read gives back what was written, that listings
  are complete, and that metadata is read as it was written.

`app/` opens the databases, executes the statements, and implements the storage traits.

`tests/` runs the library, with statements executed on an in-memory database.

## What is taken on trust

Verification rests on the contracts of a few outside functions, which are stated next to their
wrappers: `jiff` reads, prints and takes timestamps, `zarrs_storage` validates keys and prefixes, and
the standard library formats text for error messages, appends characters and copies paths. The model
in `tables` is a statement of what SQLite does; the proofs in `laws` are about that model.
