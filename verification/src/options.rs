//! How a store is to be opened.

use std::path::PathBuf;
use vstd::prelude::*;
use vstd::string::StringExecFns;
use crate::error::{optional_text, Error, ErrorView, IoErrorKind};
use crate::metadata::{fresh_metadata, SqliteStoreMetadata};
use crate::timestamp::{in_range, Timestamp};

verus! {

/// The path of a database file, as the operating system has it.
#[verifier::external_type_specification]
#[verifier::external_body]
pub struct ExPathBuf(PathBuf);

/// `PathBuf`'s `Clone` gives an equal path.
pub assume_specification[ <PathBuf as Clone>::clone ](path: &PathBuf) -> (copy: PathBuf)
    ensures
        copy == *path,
;

/// Who creates a store, unless the options name someone else.
pub const DEFAULT_CREATED_BY: &'static str = "zarrs_sqlite v0.1.0";

/// The name under which an engine opens a database in memory.
pub const MEMORY_PATH: &'static str = ":memory:";

/// Options for opening a store.
#[derive(Debug)]
pub struct Options {
    path: Option<PathBuf>,
    write: bool,
    exclusive: bool,
    create: bool,
    truncate: bool,
    update_timestamp_on_write: bool,
    created_by: Option<String>,
}

/// The options, field by field.
#[verifier::ext_equal]
pub struct OptionsView {
    /// None for a database in memory.
    pub path: Option<PathBuf>,
    /// The store may be written to.
    pub write: bool,
    /// The database file must not exist, unless it is truncated.
    pub exclusive: bool,
    /// The database may be created.
    pub create: bool,
    /// A database file that exists is deleted first.
    pub truncate: bool,
    /// Each change of the data updates the time of modification.
    pub update_timestamp_on_write: bool,
    /// Who creates the store.
    pub created_by: Option<Seq<char>>,
}

impl View for Options {
    type V = OptionsView;

    closed spec fn view(&self) -> OptionsView {
        OptionsView {
            path: self.path,
            write: self.write,
            exclusive: self.exclusive,
            create: self.create,
            truncate: self.truncate,
            update_timestamp_on_write: self.update_timestamp_on_write,
            created_by: optional_text(self.created_by),
        }
    }
}

impl OptionsView {
    /// What opening starts from: the store is only read.
    pub open spec fn read_only(path: Option<PathBuf>) -> OptionsView {
        OptionsView {
            path,
            write: false,
            exclusive: false,
            create: false,
            truncate: false,
            update_timestamp_on_write: false,
            created_by: None,
        }
    }

    /// What creates, truncates or insists on a new file also writes.
    pub open spec fn consistent(self) -> bool {
        &&& self.create ==> self.write
        &&& self.truncate ==> self.write
        &&& self.exclusive ==> self.create
    }
}

/// What is to be done with a database file before the database is opened.
#[derive(Debug, Clone, Copy, PartialEq, Eq, Structural)]
pub struct Existence {
    /// The file is to be deleted.
    pub remove: bool,
    /// The database is new: its tables are to be created.
    pub init: bool,
}

/// How an engine is asked to open a database.
#[derive(Debug, Clone, Copy, PartialEq, Eq, Structural)]
pub enum OpenMode {
    ReadOnly,
    ReadWrite,
    /// The database is created if it does not exist.
    ReadWriteCreate,
}

/// How a store may be used once it is open.
#[derive(Debug, Clone, Copy, PartialEq, Eq, Structural)]
pub struct StoreMode {
    pub write: bool,
    pub update_timestamp_on_write: bool,
}

/// Whether the options allow a database to be opened, and how. `is_file` says whether there is a
/// file at the path; it is of no account for a database in memory.
pub open spec fn existence(options: OptionsView, is_file: bool) -> Result<Existence, ErrorView> {
    if options.path is Some && is_file {
        if options.truncate {
            Ok(Existence { remove: true, init: true })
        } else if options.exclusive {
            Err(
                ErrorView::Io {
                    kind: IoErrorKind::AlreadyExists,
                    message: "File already exists"@,
                },
            )
        } else {
            Ok(Existence { remove: false, init: false })
        }
    } else if options.create {
        Ok(Existence { remove: false, init: true })
    } else {
        Err(
            ErrorView::Io {
                kind: IoErrorKind::NotFound,
                message: if options.path is Some {
                    "File does not exist"@
                } else {
                    "In-memory database does not exist"@
                },
            },
        )
    }
}

impl Options {
    #[verifier::type_invariant]
    pub closed spec fn wf(&self) -> bool {
        self@.consistent()
    }

    /// Create a file-backed database.
    pub fn new_local(path: PathBuf) -> (options: Self)
        ensures
            options@ == OptionsView::read_only(Some(path)),
    {
        Self {
            path: Some(path),
            write: false,
            exclusive: false,
            create: false,
            truncate: false,
            update_timestamp_on_write: false,
            created_by: None,
        }
    }

    /// Create an in-memory database.
    ///
    /// Should always be used with [Self::create()].
    pub fn new_memory() -> (options: Self)
        ensures
            options@ == OptionsView::read_only(None),
    {
        Self {
            path: None,
            write: false,
            exclusive: false,
            create: false,
            truncate: false,
            update_timestamp_on_write: false,
            created_by: None,
        }
    }

    /// Allow writing into an existing, well-formed zarr-SQLite store
    pub fn write(self) -> (options: Self)
        ensures
            options@ == (OptionsView { write: true, ..self@ }),
    {
        proof {
            use_type_invariant(&self);
        }
        Self { write: true, ..self }
    }

    /// Allow creating an SQLite file if it does not exist.
    ///
    /// Implies `write`.
    pub fn create(self) -> (options: Self)
        ensures
            options@ == (OptionsView { create: true, write: true, ..self@ }),
    {
        proof {
            use_type_invariant(&self);
        }
        Self { create: true, ..self.write() }
    }

    /// Fail if the SQLite file already exists.
    ///
    /// Ignored if `truncate` is set.
    /// Implies `create` and `write`.
    pub fn exclusive(self) -> (options: Self)
        ensures
            options@ == (OptionsView { exclusive: true, create: true, write: true, ..self@ }),
    {
        proof {
            use_type_invariant(&self);
        }
        Self { exclusive: true, ..self.create() }
    }

    /// If the SQLite file already exists, delete it first.
    /// Implies `write`, but not `create`.
    pub fn truncate(self) -> (options: Self)
        ensures
            options@ == (OptionsView { truncate: true, write: true, ..self@ }),
    {
        proof {
            use_type_invariant(&self);
        }
        Self { truncate: true, ..self.write() }
    }

    /// Ignored if the database is not newly created by this builder.
    pub fn created_by(self, created_by: String) -> (options: Self)
        ensures
            options@ == (OptionsView { created_by: Some(created_by@), ..self@ }),
    {
        proof {
            use_type_invariant(&self);
        }
        Self { created_by: Some(created_by), ..self }
    }

    /// Update the modified timestamp in the metadata every time the data are mutated.
    ///
    /// By default, the timestamp is only updated when the store is opened for writing.
    pub fn update_timestamp_on_write(self) -> (options: Self)
        ensures
            options@ == (OptionsView { update_timestamp_on_write: true, ..self@ }),
    {
        proof {
            use_type_invariant(&self);
        }
        Self { update_timestamp_on_write: true, ..self }
    }

    /// The path of the database file; None for a database in memory.
    pub fn path(&self) -> (path: &Option<PathBuf>)
        ensures
            *path == self@.path,
    {
        &self.path
    }

    /// Whether the database may be created.
    pub fn may_create(&self) -> (allowed: bool)
        ensures
            allowed == self@.create,
    {
        self.create
    }

    /// Decides, given whether there is a file at the path, what becomes of that file and whether
    /// the database is new, or why it cannot be opened.
    pub fn check_existence(&self, is_file: bool) -> (result: Result<Existence, Error>)
        ensures
            match result {
                Ok(found) => existence(self@, is_file) == Ok::<Existence, ErrorView>(found),
                Err(error) => existence(self@, is_file) == Err::<Existence, ErrorView>(error@),
            },
            self@.consistent(),
    {
        proof {
            use_type_invariant(self);
        }
        match &self.path {
            Some(_) => {
                if is_file {
                    if self.truncate {
                        Ok(Existence { remove: true, init: true })
                    } else if self.exclusive {
                        Err(
                            Error::Io {
                                kind: IoErrorKind::AlreadyExists,
                                message: "File already exists".to_owned(),
                            },
                        )
                    } else {
                        Ok(Existence { remove: false, init: false })
                    }
                } else if !self.create {
                    Err(
                        Error::Io {
                            kind: IoErrorKind::NotFound,
                            message: "File does not exist".to_owned(),
                        },
                    )
                } else {
                    Ok(Existence { remove: false, init: true })
                }
            },
            None => {
                if !self.create {
                    Err(
                        Error::Io {
                            kind: IoErrorKind::NotFound,
                            message: "In-memory database does not exist".to_owned(),
                        },
                    )
                } else {
                    Ok(Existence { remove: false, init: true })
                }
            },
        }
    }

    /// How an engine that distinguishes read and write access is asked to open the database.
    pub fn open_mode(&self) -> (mode: OpenMode)
        ensures
            mode == (if !self@.write {
                OpenMode::ReadOnly
            } else if self@.create || self@.truncate {
                OpenMode::ReadWriteCreate
            } else {
                OpenMode::ReadWrite
            }),
    {
        if self.write {
            if self.create || self.truncate {
                OpenMode::ReadWriteCreate
            } else {
                OpenMode::ReadWrite
            }
        } else {
            OpenMode::ReadOnly
        }
    }

    /// How the store may be used once it is open.
    pub fn store_mode(&self) -> (mode: StoreMode)
        ensures
            mode.write == self@.write,
            mode.update_timestamp_on_write == self@.update_timestamp_on_write,
            self@.consistent(),
    {
        proof {
            use_type_invariant(self);
        }
        StoreMode {
            write: self.write,
            update_timestamp_on_write: self.update_timestamp_on_write,
        }
    }

    /// The name of the database for an engine that takes paths as text. `path_text` is the path as
    /// text, if it is valid UTF-8, and `shown` the path as it is shown to users; both are of no
    /// account for a database in memory.
    pub fn database_name(&self, path_text: Option<String>, shown: &str) -> (result: Result<
        String,
        Error,
    >)
        ensures
            match result {
                Ok(name) => if self@.path is None {
                    name@ == MEMORY_PATH@
                } else {
                    optional_text(path_text) == Some(name@)
                },
                Err(error) => {
                    &&& self@.path is Some
                    &&& path_text is None
                    &&& error@ == ErrorView::General("Path is not valid UTF-8: "@ + shown@)
                },
            },
    {
        match &self.path {
            None => Ok(MEMORY_PATH.to_owned()),
            Some(_) => match path_text {
                Some(name) => Ok(name),
                None => {
                    let mut text = "Path is not valid UTF-8: ".to_owned();
                    text.append(shown);
                    Err(Error::General(text))
                },
            },
        }
    }

    /// The metadata of a store that is created with these options at the given time.
    pub fn metadata_at(&self, at: Timestamp) -> (metadata: SqliteStoreMetadata)
        ensures
            metadata@ == fresh_metadata(Some(creator(self@)), at@),
    {
        let created_by = match &self.created_by {
            Some(created_by) => created_by.clone(),
            None => DEFAULT_CREATED_BY.to_owned(),
        };
        SqliteStoreMetadata::fresh(Some(created_by), at)
    }

    /// The metadata of a store that is created with these options now.
    pub fn make_metadata(&self) -> (metadata: SqliteStoreMetadata)
        ensures
            metadata@ == fresh_metadata(Some(creator(self@)), metadata@.created_at),
            in_range(metadata@.created_at),
    {
        self.metadata_at(Timestamp::now())
    }
}

impl Clone for Options {
    fn clone(&self) -> (options: Self)
        ensures
            options@ == self@,
    {
        proof {
            use_type_invariant(self);
        }
        let path = match &self.path {
            Some(path) => Some(path.clone()),
            None => None,
        };
        let created_by = match &self.created_by {
            Some(created_by) => Some(created_by.clone()),
            None => None,
        };
        Self {
            path,
            write: self.write,
            exclusive: self.exclusive,
            create: self.create,
            truncate: self.truncate,
            update_timestamp_on_write: self.update_timestamp_on_write,
            created_by,
        }
    }
}

/// Who creates a store with the given options.
pub open spec fn creator(options: OptionsView) -> Seq<char> {
    match options.created_by {
        Some(created_by) => created_by,
        None => DEFAULT_CREATED_BY@,
    }
}

/// Opening a database that was not asked to be written changes no file: a database is only created,
/// and a file only deleted, with write access.
pub proof fn law_reading_keeps_files(options: OptionsView, is_file: bool)
    requires
        options.consistent(),
    ensures
        existence(options, is_file) matches Ok(found) ==> {
            &&& found.init ==> options.write
            &&& found.remove ==> options.truncate && options.write && found.init
        },
{
}

/// A database is only created where that is allowed, and only where there is none: either there was
/// no file, or the file is deleted first.
pub proof fn law_creation(options: OptionsView, is_file: bool)
    ensures
        existence(options, is_file) matches Ok(found) ==> {
            let present = options.path is Some && is_file;
            &&& found.init <==> !present || options.truncate
            &&& found.remove <==> present && options.truncate
            &&& found.init && !found.remove ==> options.create
        },
{
}

/// Opening fails just if there is no database and none may be created, or there is one and there
/// must be none.
pub proof fn law_opening_fails(options: OptionsView, is_file: bool)
    ensures
        existence(options, is_file) is Err <==> if options.path is Some && is_file {
            options.exclusive && !options.truncate
        } else {
            !options.create
        },
{
}

/// With `truncate`, `exclusive` is of no account.
pub proof fn law_exclusive_ignored(options: OptionsView, is_file: bool)
    requires
        options.truncate,
    ensures
        existence(options, is_file) == existence(
            OptionsView { exclusive: !options.exclusive, ..options },
            is_file,
        ),
{
}

/// Why opening fails: because the file is there, or because it or the database in memory is not.
pub proof fn law_opening_errors(options: OptionsView, is_file: bool)
    ensures
        existence(options, is_file) matches Err(error) ==> error == if options.path is Some
            && is_file {
            ErrorView::Io { kind: IoErrorKind::AlreadyExists, message: "File already exists"@ }
        } else if options.path is Some {
            ErrorView::Io { kind: IoErrorKind::NotFound, message: "File does not exist"@ }
        } else {
            ErrorView::Io {
                kind: IoErrorKind::NotFound,
                message: "In-memory database does not exist"@,
            }
        },
{
}

/// A store is created by the one whom the options name, or else by the library.
pub proof fn law_creator(options: OptionsView)
    ensures
        options.created_by is Some ==> Some(creator(options)) == options.created_by,
        options.created_by is None ==> creator(options) == "zarrs_sqlite v0.1.0"@,
{
}

/// An engine is asked for write access just if the options allow writing, and to create the database
/// just if it may be created, or is deleted first.
pub proof fn law_open_mode(options: Options, mode: OpenMode)
    requires
        call_ensures(Options::open_mode, (&options,), mode),
    ensures
        mode == OpenMode::ReadOnly <==> !options@.write,
        mode == OpenMode::ReadWriteCreate <==> options@.write && (options@.create
            || options@.truncate),
{
}

/// Options start as those of a store that is only read.
pub proof fn law_first_options(path: PathBuf, local: Options, memory: Options)
    requires
        call_ensures(Options::new_local, (path,), local),
        call_ensures(Options::new_memory, (), memory),
    ensures
        local@.path == Some(path) && memory@.path is None,
        !local@.write && !local@.create && !local@.exclusive && !local@.truncate,
        !memory@.write && !memory@.create && !memory@.exclusive && !memory@.truncate,
        !local@.update_timestamp_on_write && !memory@.update_timestamp_on_write,
        local@.created_by is None && memory@.created_by is None,
{
}

/// Each option adds what it says, and what that needs, and changes nothing else.
pub proof fn law_options(
    options: Options,
    write: Options,
    create: Options,
    exclusive: Options,
    truncate: Options,
    each: Options,
)
    requires
        call_ensures(Options::write, (options,), write),
        call_ensures(Options::create, (options,), create),
        call_ensures(Options::exclusive, (options,), exclusive),
        call_ensures(Options::truncate, (options,), truncate),
        call_ensures(Options::update_timestamp_on_write, (options,), each),
    ensures
        write@ == (OptionsView { write: true, ..options@ }),
        create@ == (OptionsView { write: true, create: true, ..options@ }),
        exclusive@ == (OptionsView { write: true, create: true, exclusive: true, ..options@ }),
        truncate@ == (OptionsView { write: true, truncate: true, ..options@ }),
        each@ == (OptionsView { update_timestamp_on_write: true, ..options@ }),
{
}

/// Naming the creator changes nothing else, and is what a store that is created says of its creator.
pub proof fn law_created_by(options: Options, name: String, named: Options)
    requires
        call_ensures(Options::created_by, (options, name), named),
    ensures
        named@ == (OptionsView { created_by: Some(name@), ..options@ }),
        creator(named@) == name@,
{
}

/// A database in memory goes by the name that engines know it by, one in a file by its path. Only a path
/// that is no text has no name.
pub proof fn law_database_name(
    options: Options,
    path: Option<String>,
    shown: &str,
    result: Result<String, Error>,
)
    requires
        call_ensures(Options::database_name, (&options, path, shown), result),
    ensures
        options@.path is None ==> (result matches Ok(name) && name@ == ":memory:"@),
        options@.path is Some && path is Some ==> (result matches Ok(name) && name@ == path->0@),
        options@.path is Some && path is None ==> (result matches Err(Error::General(text))
            && text@ == "Path is not valid UTF-8: "@ + shown@),
{
}

/// What becomes of a file before a database is opened, for each choice of the options.
pub proof fn law_check_existence(
    options: Options,
    is_file: bool,
    result: Result<Existence, Error>,
)
    requires
        call_ensures(Options::check_existence, (&options, is_file), result),
    ensures
        ({
            let present = options@.path is Some && is_file;
            match result {
                Ok(found) => {
                    &&& found.init == (!present || options@.truncate)
                    &&& found.remove == (present && options@.truncate)
                    &&& present ==> options@.truncate || !options@.exclusive
                    &&& !present ==> options@.create
                },
                Err(Error::Io { kind, message }) => {
                    &&& present ==> options@.exclusive && !options@.truncate && kind
                        == IoErrorKind::AlreadyExists && message@ == "File already exists"@
                    &&& !present ==> !options@.create && kind == IoErrorKind::NotFound && message@
                        == if options@.path is Some {
                        "File does not exist"@
                    } else {
                        "In-memory database does not exist"@
                    }
                },
                Err(_) => false,
            }
        }),
{
    law_creation(options@, is_file);
    law_opening_fails(options@, is_file);
    law_opening_errors(options@, is_file);
}

} // verus!
