//! An SQLite-backed Zarr store.
//!
//! The library decides what a store asks of its database and what it makes of the answers: how a
//! database is opened ([`Options`]), which statements an operation executes ([`store`] and
//! [`queries`]), and how metadata, keys and listings are read from rows. Executing the statements is
//! left to a backend. What they do to the tables is modelled in [`tables`], and [`laws`] and
//! [`operations`] prove what follows for a store.

pub mod collation;
mod error;
pub mod expressions;
mod flags;
pub mod keys;
pub mod laws;
mod metadata;
pub mod metadata_laws;
pub mod metadata_table;
mod numeral;
pub mod operations;
mod options;
pub mod queries;
mod sorted;
pub mod statement;
pub mod store;
pub mod tables;
mod text;
mod text_map;
mod timestamp;
mod types;
mod version;

pub use error::{Error, IoErrorKind, Result, StorageError};
pub use flags::{Flags, FLAG_SEPARATOR};
pub use metadata::{SqliteStoreMetadata, SqliteStoreMetadata as Metadata, SqliteStoreMetadataBuilder};
pub use options::{Existence, OpenMode, Options, StoreMode, DEFAULT_CREATED_BY, MEMORY_PATH};
pub use queries::APPLICATION_ID;
pub use text_map::TextMap;
pub use timestamp::{Timestamp, MAX_NANOSECOND, MIN_NANOSECOND};
pub use types::{CheckpointResult, PageWriteCounts};
pub use version::{earliest_supported_version, latest_version, Version};
