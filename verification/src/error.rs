//! The errors of the library, and how the storage interface reports them.

use vstd::prelude::*;
use vstd::string::StringExecFns;

verus! {

pub type Result<T> = std::result::Result<T, Error>;

/// Why a database file could not be opened.
#[derive(Debug, Clone, Copy, PartialEq, Eq, Structural)]
pub enum IoErrorKind {
    NotFound,
    AlreadyExists,
}

#[derive(Debug)]
pub enum Error {
    Io { kind: IoErrorKind, message: String },
    InvalidMetadata { key: String, value: Option<String> },
    InvalidVersion { version: String },
    InvalidTimestamp(String),
    General(String),
}

/// An error with its texts as sequences of characters.
pub enum ErrorView {
    Io { kind: IoErrorKind, message: Seq<char> },
    InvalidMetadata { key: Seq<char>, value: Option<Seq<char>> },
    InvalidVersion { version: Seq<char> },
    InvalidTimestamp(Seq<char>),
    General(Seq<char>),
}

impl View for Error {
    type V = ErrorView;

    open spec fn view(&self) -> ErrorView {
        match *self {
            Error::Io { kind, message } => ErrorView::Io { kind, message: message@ },
            Error::InvalidMetadata { key, value } => ErrorView::InvalidMetadata {
                key: key@,
                value: optional_text(value),
            },
            Error::InvalidVersion { version } => ErrorView::InvalidVersion { version: version@ },
            Error::InvalidTimestamp(text) => ErrorView::InvalidTimestamp(text@),
            Error::General(text) => ErrorView::General(text@),
        }
    }
}

/// The contents of an optional text.
pub open spec fn optional_text(text: Option<String>) -> Option<Seq<char>> {
    match text {
        Some(text) => Some(text@),
        None => None,
    }
}

/// How `{:?}` shows a text: in double quotes, with escapes inside.
pub uninterp spec fn debug_form(text: Seq<char>) -> Seq<char>;

/// Formats a text with `str`'s `Debug`. The result is named [`debug_form`]; which characters are
/// escaped, and how, is not stated.
#[verifier::external_body]
fn debug_text(text: &str) -> (shown: String)
    ensures
        shown@ == debug_form(text@),
{
    format!("{:?}", text)
}

/// How `{:?}` shows an optional text.
pub open spec fn optional_debug_form(text: Option<Seq<char>>) -> Seq<char> {
    match text {
        Some(text) => "Some("@ + debug_form(text) + ")"@,
        None => "None"@,
    }
}

/// The message of an error.
pub open spec fn error_text(error: ErrorView) -> Seq<char> {
    match error {
        ErrorView::Io { kind, message } => message,
        ErrorView::InvalidMetadata { key, value } => "Invalid store metadata: key="@ + key
            + ", value="@ + optional_debug_form(value),
        ErrorView::InvalidVersion { version } => "Invalid {major}.{minor} version: "@ + version,
        ErrorView::InvalidTimestamp(text) => "Invalid timestamp: "@ + text,
        ErrorView::General(text) => text,
    }
}

impl Error {
    pub fn invalid_version(version: &str) -> (error: Self)
        ensures
            error@ == (ErrorView::InvalidVersion { version: version@ }),
    {
        Error::InvalidVersion { version: version.to_owned() }
    }

    pub fn invalid_timestamp(ts: &str) -> (error: Self)
        ensures
            error@ == ErrorView::InvalidTimestamp(ts@),
    {
        Error::InvalidTimestamp(ts.to_owned())
    }

    /// The metadata entry `key` is missing, or has a `value` that cannot be read.
    pub fn invalid_metadata(key: &str, value: Option<&str>) -> (error: Self)
        ensures
            error@ == (ErrorView::InvalidMetadata {
                key: key@,
                value: match value {
                    Some(value) => Some(value@),
                    None => None,
                },
            }),
    {
        let value = match value {
            Some(value) => Some(value.to_owned()),
            None => None,
        };
        Error::InvalidMetadata { key: key.to_owned(), value }
    }

    /// The message of the error.
    pub fn to_string(&self) -> (text: String)
        ensures
            text@ == error_text(self@),
    {
        match self {
            Error::Io { kind: _, message } => message.clone(),
            Error::InvalidMetadata { key, value } => {
                let mut text = "Invalid store metadata: key=".to_owned();
                text.append(key.as_str());
                text.append(", value=");
                match value {
                    Some(value) => {
                        text.append("Some(");
                        text.append(debug_text(value.as_str()).as_str());
                        text.append(")");
                    },
                    None => {
                        text.append("None");
                    },
                }
                assert(text@ =~= error_text(self@));
                text
            },
            Error::InvalidVersion { version } => {
                let mut text = "Invalid {major}.{minor} version: ".to_owned();
                text.append(version.as_str());
                text
            },
            Error::InvalidTimestamp(ts) => {
                let mut text = "Invalid timestamp: ".to_owned();
                text.append(ts.as_str());
                text
            },
            Error::General(text) => text.clone(),
        }
    }
}

/// What a storage operation reports when it fails.
#[derive(Debug)]
pub enum StorageError {
    /// A write was asked of a store that was opened for reading.
    ReadOnly,
    /// The operation is not supported by this kind of store.
    Unsupported(String),
    IOError { kind: IoErrorKind, message: String },
    Other(String),
}

/// A storage error with its texts as sequences of characters.
pub enum StorageErrorView {
    ReadOnly,
    Unsupported(Seq<char>),
    IOError { kind: IoErrorKind, message: Seq<char> },
    Other(Seq<char>),
}

impl View for StorageError {
    type V = StorageErrorView;

    open spec fn view(&self) -> StorageErrorView {
        match *self {
            StorageError::ReadOnly => StorageErrorView::ReadOnly,
            StorageError::Unsupported(text) => StorageErrorView::Unsupported(text@),
            StorageError::IOError { kind, message } => StorageErrorView::IOError {
                kind,
                message: message@,
            },
            StorageError::Other(text) => StorageErrorView::Other(text@),
        }
    }
}

/// I/O errors are passed on, every other error by its message, marked with the library's name.
pub open spec fn storage_error_of(error: ErrorView) -> StorageErrorView {
    match error {
        ErrorView::Io { kind, message } => StorageErrorView::IOError { kind, message },
        _ => StorageErrorView::Other("zarrs_sqlite: "@ + error_text(error)),
    }
}

impl StorageError {
    /// Reports an error of the library through the storage interface.
    pub fn from_error(error: Error) -> (storage_error: Self)
        ensures
            storage_error@ == storage_error_of(error@),
    {
        match error {
            Error::Io { kind, message } => StorageError::IOError { kind, message },
            _ => {
                let mut text = "zarrs_sqlite: ".to_owned();
                text.append(error.to_string().as_str());
                StorageError::Other(text)
            },
        }
    }
}

/// What the message of an error says.
pub proof fn law_error_text(key: Seq<char>, text: Seq<char>)
    ensures
        forall|kind: IoErrorKind|
            #![auto]
            error_text(ErrorView::Io { kind, message: text }) == text,
        error_text(ErrorView::InvalidMetadata { key, value: Some(text) })
            == "Invalid store metadata: key="@ + key + ", value="@ + ("Some("@ + debug_form(text)
            + ")"@),
        error_text(ErrorView::InvalidMetadata { key, value: None })
            == "Invalid store metadata: key="@ + key + ", value="@ + "None"@,
        error_text(ErrorView::InvalidVersion { version: text })
            == "Invalid {major}.{minor} version: "@ + text,
        error_text(ErrorView::InvalidTimestamp(text)) == "Invalid timestamp: "@ + text,
        error_text(ErrorView::General(text)) == text,
{
}

/// I/O errors are reported with their kind and message, every other error by its message after the
/// name of the library.
pub proof fn law_storage_error(error: ErrorView)
    ensures
        match error {
            ErrorView::Io { kind, message } => storage_error_of(error)
                == (StorageErrorView::IOError { kind, message }),
            _ => storage_error_of(error) == StorageErrorView::Other(
                "zarrs_sqlite: "@ + error_text(error),
            ),
        },
{
}

/// What an error says is what its fields hold.
pub proof fn law_error_view(error: Error, storage: StorageError)
    ensures
        match error {
            Error::Io { kind, message } => error@ == (ErrorView::Io { kind, message: message@ }),
            Error::InvalidMetadata { key, value: Some(value) } => error@
                == (ErrorView::InvalidMetadata { key: key@, value: Some(value@) }),
            Error::InvalidMetadata { key, value: None } => error@ == (ErrorView::InvalidMetadata {
                key: key@,
                value: None,
            }),
            Error::InvalidVersion { version } => error@ == (ErrorView::InvalidVersion {
                version: version@,
            }),
            Error::InvalidTimestamp(text) => error@ == ErrorView::InvalidTimestamp(text@),
            Error::General(text) => error@ == ErrorView::General(text@),
        },
        match storage {
            StorageError::ReadOnly => storage@ == StorageErrorView::ReadOnly,
            StorageError::Unsupported(text) => storage@ == StorageErrorView::Unsupported(text@),
            StorageError::IOError { kind, message } => storage@ == (StorageErrorView::IOError {
                kind,
                message: message@,
            }),
            StorageError::Other(text) => storage@ == StorageErrorView::Other(text@),
        },
{
}

} // verus!
