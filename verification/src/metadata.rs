//! The metadata of a store, and how it is read from the entries of the metadata table.
//!
//! The table maps text to text. Seven keys are known: `sqlitestore_version`, `compatible_flags`,
//! `incompatible_flags`, `created_by`, `created_time`, and for the time of the last modification
//! `modified_at` or, if there is none, `modified_time`. Every other entry is kept as it is.

use vstd::prelude::*;
use crate::error::{optional_text, Error, ErrorView};
use crate::flags::{read_flags, Flags};
use crate::text::text_eq;
use crate::text_map::TextMap;
use crate::timestamp::{in_range, read_instant, Timestamp};
use crate::version::{latest_version, read_version, Version};

verus! {

/// The metadata of a store.
#[derive(Debug)]
pub struct SqliteStoreMetadata {
    pub sqlitestore_version: Version,
    pub compatible_flags: Flags,
    pub incompatible_flags: Flags,
    pub created_by: Option<String>,
    pub created_at: Timestamp,
    pub modified_at: Option<Timestamp>,
    /// Any unknown key-value pairs found in the metadata table.
    pub unknown: TextMap,
}

/// The metadata of a store, with its texts as sequences of characters and its times as nanoseconds
/// since the Unix epoch.
#[verifier::ext_equal]
pub struct MetadataView {
    pub sqlitestore_version: Version,
    pub compatible_flags: Set<Seq<char>>,
    pub incompatible_flags: Set<Seq<char>>,
    pub created_by: Option<Seq<char>>,
    pub created_at: i128,
    pub modified_at: Option<i128>,
    pub unknown: Map<Seq<char>, Seq<char>>,
}

/// The instant of an optional timestamp.
pub open spec fn optional_instant(timestamp: Option<Timestamp>) -> Option<i128> {
    match timestamp {
        Some(timestamp) => Some(timestamp@),
        None => None,
    }
}

/// The flags of an optional set of flags.
pub open spec fn optional_flags(flags: Option<Flags>) -> Option<Set<Seq<char>>> {
    match flags {
        Some(flags) => Some(flags@),
        None => None,
    }
}

impl View for SqliteStoreMetadata {
    type V = MetadataView;

    open spec fn view(&self) -> MetadataView {
        MetadataView {
            sqlitestore_version: self.sqlitestore_version,
            compatible_flags: self.compatible_flags@,
            incompatible_flags: self.incompatible_flags@,
            created_by: optional_text(self.created_by),
            created_at: self.created_at@,
            modified_at: optional_instant(self.modified_at),
            unknown: self.unknown@,
        }
    }
}

/// Metadata that is being read, entry by entry.
#[derive(Debug)]
pub struct SqliteStoreMetadataBuilder {
    version: Option<Version>,
    compatible_flags: Option<Flags>,
    incompatible_flags: Option<Flags>,
    created_by: Option<String>,
    created_time: Option<Timestamp>,
    modified_at: Option<Timestamp>,
    modified_time: Option<Timestamp>,
    unknown: TextMap,
}

/// What has been read of the metadata: the known entries that were found, and the unknown ones.
#[verifier::ext_equal]
pub struct BuilderView {
    pub version: Option<Version>,
    pub compatible_flags: Option<Set<Seq<char>>>,
    pub incompatible_flags: Option<Set<Seq<char>>>,
    pub created_by: Option<Seq<char>>,
    pub created_time: Option<i128>,
    pub modified_at: Option<i128>,
    pub modified_time: Option<i128>,
    pub unknown: Map<Seq<char>, Seq<char>>,
}

impl View for SqliteStoreMetadataBuilder {
    type V = BuilderView;

    closed spec fn view(&self) -> BuilderView {
        BuilderView {
            version: self.version,
            compatible_flags: optional_flags(self.compatible_flags),
            incompatible_flags: optional_flags(self.incompatible_flags),
            created_by: optional_text(self.created_by),
            created_time: optional_instant(self.created_time),
            modified_at: optional_instant(self.modified_at),
            modified_time: optional_instant(self.modified_time),
            unknown: self.unknown@,
        }
    }
}

/// Whether the library gives a meaning to the entry `key`.
pub open spec fn is_known_key(key: Seq<char>) -> bool {
    ||| key == "sqlitestore_version"@
    ||| key == "compatible_flags"@
    ||| key == "incompatible_flags"@
    ||| key == "created_by"@
    ||| key == "created_time"@
    ||| key == "modified_at"@
    ||| key == "modified_time"@
}

/// Whether `value` can be read as the value of the entry `key`.
pub open spec fn is_readable(key: Seq<char>, value: Seq<char>) -> bool {
    if key == "sqlitestore_version"@ {
        read_version(value) is Some
    } else if key == "created_time"@ || key == "modified_at"@ || key == "modified_time"@ {
        read_instant(value) is Some
    } else {
        true
    }
}

impl BuilderView {
    /// Nothing has been read.
    pub open spec fn empty() -> BuilderView {
        BuilderView {
            version: None,
            compatible_flags: None,
            incompatible_flags: None,
            created_by: None,
            created_time: None,
            modified_at: None,
            modified_time: None,
            unknown: Map::empty(),
        }
    }

    /// One more entry, which must be readable.
    pub open spec fn add(self, key: Seq<char>, value: Seq<char>) -> BuilderView {
        if key == "sqlitestore_version"@ {
            BuilderView { version: read_version(value), ..self }
        } else if key == "compatible_flags"@ {
            BuilderView { compatible_flags: Some(read_flags(value)), ..self }
        } else if key == "incompatible_flags"@ {
            BuilderView { incompatible_flags: Some(read_flags(value)), ..self }
        } else if key == "created_by"@ {
            BuilderView { created_by: Some(value), ..self }
        } else if key == "created_time"@ {
            BuilderView { created_time: read_instant(value), ..self }
        } else if key == "modified_at"@ {
            BuilderView { modified_at: read_instant(value), ..self }
        } else if key == "modified_time"@ {
            BuilderView { modified_time: read_instant(value), ..self }
        } else {
            BuilderView { unknown: self.unknown.insert(key, value), ..self }
        }
    }

    /// The first of the required entries that was not found.
    pub open spec fn missing(self) -> Option<Seq<char>> {
        if self.version is None {
            Some("sqlitestore_version"@)
        } else if self.created_time is None {
            Some("created_time"@)
        } else {
            None
        }
    }

    /// The metadata, once no required entry is missing. Flags that were not found are empty, and a
    /// store without a time of modification was last modified when it was created.
    pub open spec fn metadata(self) -> MetadataView {
        MetadataView {
            sqlitestore_version: self.version->0,
            compatible_flags: match self.compatible_flags {
                Some(flags) => flags,
                None => Set::empty(),
            },
            incompatible_flags: match self.incompatible_flags {
                Some(flags) => flags,
                None => Set::empty(),
            },
            created_by: self.created_by,
            created_at: self.created_time->0,
            modified_at: if self.modified_at is Some {
                self.modified_at
            } else if self.modified_time is Some {
                self.modified_time
            } else {
                self.created_time
            },
            unknown: self.unknown,
        }
    }
}

impl SqliteStoreMetadataBuilder {
    /// Nothing has been read.
    pub fn new() -> (builder: Self)
        ensures
            builder@ == BuilderView::empty(),
    {
        SqliteStoreMetadataBuilder {
            version: None,
            compatible_flags: None,
            incompatible_flags: None,
            created_by: None,
            created_time: None,
            modified_at: None,
            modified_time: None,
            unknown: TextMap::new(),
        }
    }

    /// Reads one entry of the metadata table. The result is whether its key is known.
    pub fn add_key_value(&mut self, key: &str, value: &str) -> (result: Result<bool, Error>)
        ensures
            match result {
                Ok(known) => {
                    &&& is_readable(key@, value@)
                    &&& known == is_known_key(key@)
                    &&& final(self)@ == old(self)@.add(key@, value@)
                },
                Err(error) => {
                    &&& !is_readable(key@, value@)
                    &&& error@ == (ErrorView::InvalidMetadata { key: key@, value: Some(value@) })
                    &&& final(self)@ == old(self)@
                },
            },
    {
        proof {
            lemma_known_keys_distinct();
        }
        if text_eq(key, "sqlitestore_version") {
            match Version::from_str(value) {
                Ok(version) => {
                    self.version = Some(version);
                },
                Err(_) => {
                    return Err(Error::invalid_metadata(key, Some(value)));
                },
            }
        } else if text_eq(key, "compatible_flags") {
            match Flags::from_str(value) {
                Ok(flags) => {
                    self.compatible_flags = Some(flags);
                },
                Err(_) => {
                    return Err(Error::invalid_metadata(key, Some(value)));
                },
            }
        } else if text_eq(key, "incompatible_flags") {
            match Flags::from_str(value) {
                Ok(flags) => {
                    self.incompatible_flags = Some(flags);
                },
                Err(_) => {
                    return Err(Error::invalid_metadata(key, Some(value)));
                },
            }
        } else if text_eq(key, "created_by") {
            self.created_by = Some(value.to_owned());
        } else if text_eq(key, "created_time") {
            match Timestamp::from_str(value) {
                Ok(timestamp) => {
                    self.created_time = Some(timestamp);
                },
                Err(_) => {
                    return Err(Error::invalid_metadata(key, Some(value)));
                },
            }
        } else if text_eq(key, "modified_at") {
            match Timestamp::from_str(value) {
                Ok(timestamp) => {
                    self.modified_at = Some(timestamp);
                },
                Err(_) => {
                    return Err(Error::invalid_metadata(key, Some(value)));
                },
            }
        } else if text_eq(key, "modified_time") {
            match Timestamp::from_str(value) {
                Ok(timestamp) => {
                    self.modified_time = Some(timestamp);
                },
                Err(_) => {
                    return Err(Error::invalid_metadata(key, Some(value)));
                },
            }
        } else {
            self.unknown.insert(key.to_owned(), value.to_owned());
            return Ok(false);
        }
        Ok(true)
    }

    /// The metadata, unless a required entry is missing.
    pub fn build(self) -> (result: Result<SqliteStoreMetadata, Error>)
        ensures
            match result {
                Ok(metadata) => self@.missing() is None && metadata@ == self@.metadata(),
                Err(error) => {
                    &&& self@.missing() is Some
                    &&& error@ == (ErrorView::InvalidMetadata {
                        key: self@.missing()->0,
                        value: None,
                    })
                },
            },
    {
        let version = match self.version {
            Some(version) => version,
            None => {
                return Err(Error::invalid_metadata("sqlitestore_version", None));
            },
        };
        let created_at = match self.created_time {
            Some(timestamp) => timestamp,
            None => {
                return Err(Error::invalid_metadata("created_time", None));
            },
        };
        let compatible_flags = match self.compatible_flags {
            Some(flags) => flags,
            None => Flags::default(),
        };
        let incompatible_flags = match self.incompatible_flags {
            Some(flags) => flags,
            None => Flags::default(),
        };
        let modified_at = match self.modified_at {
            Some(timestamp) => timestamp,
            None => match self.modified_time {
                Some(timestamp) => timestamp,
                None => created_at,
            },
        };
        Ok(
            SqliteStoreMetadata {
                sqlitestore_version: version,
                compatible_flags,
                incompatible_flags,
                created_by: self.created_by,
                created_at,
                modified_at: Some(modified_at),
                unknown: self.unknown,
            },
        )
    }
}

impl Default for SqliteStoreMetadataBuilder {
    fn default() -> (builder: Self)
        ensures
            builder@ == BuilderView::empty(),
    {
        SqliteStoreMetadataBuilder::new()
    }
}

impl Clone for SqliteStoreMetadataBuilder {
    fn clone(&self) -> (builder: Self)
        ensures
            builder@ == self@,
    {
        SqliteStoreMetadataBuilder {
            version: self.version,
            compatible_flags: copy_of_flags(&self.compatible_flags),
            incompatible_flags: copy_of_flags(&self.incompatible_flags),
            created_by: copy_of_text(&self.created_by),
            created_time: self.created_time,
            modified_at: self.modified_at,
            modified_time: self.modified_time,
            unknown: self.unknown.clone(),
        }
    }
}

/// A copy of an optional text.
fn copy_of_text(text: &Option<String>) -> (copy: Option<String>)
    ensures
        optional_text(copy) == optional_text(*text),
{
    match text {
        Some(text) => Some(text.clone()),
        None => None,
    }
}

/// A copy of an optional set of flags.
fn copy_of_flags(flags: &Option<Flags>) -> (copy: Option<Flags>)
    ensures
        optional_flags(copy) == optional_flags(*flags),
{
    match flags {
        Some(flags) => Some(flags.clone()),
        None => None,
    }
}

/// No two known keys are the same.
pub proof fn lemma_known_keys_distinct()
    ensures
        "sqlitestore_version"@.len() == 19,
        "compatible_flags"@.len() == 16,
        "incompatible_flags"@.len() == 18,
        "created_by"@.len() == 10,
        "created_time"@.len() == 12,
        "modified_at"@.len() == 11,
        "modified_time"@.len() == 13,
{
    reveal_strlit("sqlitestore_version");
    reveal_strlit("compatible_flags");
    reveal_strlit("incompatible_flags");
    reveal_strlit("created_by");
    reveal_strlit("created_time");
    reveal_strlit("modified_at");
    reveal_strlit("modified_time");
}

/// The metadata of a store that is created at the instant `at`: the latest version, no flags, no
/// unknown entries, and no modification since.
pub open spec fn fresh_metadata(created_by: Option<Seq<char>>, at: i128) -> MetadataView {
    MetadataView {
        sqlitestore_version: latest_version(),
        compatible_flags: Set::empty(),
        incompatible_flags: Set::empty(),
        created_by,
        created_at: at,
        modified_at: Some(at),
        unknown: Map::empty(),
    }
}

impl SqliteStoreMetadata {
    /// The metadata of a store that is created at the given time.
    pub fn fresh(created_by: Option<String>, at: Timestamp) -> (metadata: Self)
        ensures
            metadata@ == fresh_metadata(optional_text(created_by), at@),
    {
        SqliteStoreMetadata {
            sqlitestore_version: latest_version(),
            compatible_flags: Flags::default(),
            incompatible_flags: Flags::default(),
            created_by,
            created_at: at,
            modified_at: Some(at),
            unknown: TextMap::new(),
        }
    }

    /// The metadata of a store that is created now, by the program `created_by`.
    pub fn with_created_by(created_by: String) -> (metadata: Self)
        ensures
            metadata@ == fresh_metadata(Some(created_by@), metadata@.created_at),
            in_range(metadata@.created_at),
    {
        SqliteStoreMetadata::fresh(Some(created_by), Timestamp::now())
    }

    /// Starts reading metadata.
    pub fn builder() -> (builder: SqliteStoreMetadataBuilder)
        ensures
            builder@ == BuilderView::empty(),
    {
        SqliteStoreMetadataBuilder::new()
    }
}

impl Clone for SqliteStoreMetadata {
    fn clone(&self) -> (metadata: Self)
        ensures
            metadata@ == self@,
    {
        SqliteStoreMetadata {
            sqlitestore_version: self.sqlitestore_version,
            compatible_flags: self.compatible_flags.clone(),
            incompatible_flags: self.incompatible_flags.clone(),
            created_by: copy_of_text(&self.created_by),
            created_at: self.created_at,
            modified_at: self.modified_at,
            unknown: self.unknown.clone(),
        }
    }
}

impl Default for SqliteStoreMetadata {
    /// The metadata of a store that is created now.
    fn default() -> (metadata: Self)
        ensures
            metadata@ == fresh_metadata(None, metadata@.created_at),
            in_range(metadata@.created_at),
    {
        SqliteStoreMetadata::fresh(None, Timestamp::now())
    }
}

/// What metadata says is what its fields hold.
pub proof fn law_metadata_view(metadata: SqliteStoreMetadata)
    ensures
        metadata@.sqlitestore_version == metadata.sqlitestore_version,
        metadata@.compatible_flags == metadata.compatible_flags@,
        metadata@.incompatible_flags == metadata.incompatible_flags@,
        metadata@.created_by is Some <==> metadata.created_by is Some,
        metadata.created_by matches Some(created_by) ==> metadata@.created_by == Some(created_by@),
        metadata@.created_at == metadata.created_at@,
        metadata@.modified_at is Some <==> metadata.modified_at is Some,
        metadata.modified_at matches Some(at) ==> metadata@.modified_at == Some(at@),
        metadata@.unknown == metadata.unknown@,
{
}

} // verus!
