//! Store keys, store prefixes and byte ranges.

use vstd::prelude::*;

verus! {

/// Whether a text can be a key: it neither starts nor ends with a slash, and holds no two slashes
/// in a row.
pub open spec fn is_store_key(text: Seq<char>) -> bool {
    &&& !(text.len() > 0 && text[0] == '/')
    &&& !(text.len() > 0 && text[text.len() - 1] == '/')
    &&& !has_double_slash(text)
}

/// Whether two slashes stand next to each other.
pub open spec fn has_double_slash(text: Seq<char>) -> bool {
    exists|i: int| #![trigger text[i]] 0 <= i < text.len() - 1 && text[i] == '/' && text[i + 1] == '/'
}

/// Whether a text can be a prefix: it is empty, or ends with a slash and does not start with one.
pub open spec fn is_store_prefix(text: Seq<char>) -> bool {
    text.len() == 0 || text[text.len() - 1] == '/' && text[0] != '/'
}

/// Makes a key with `zarrs_storage::StoreKey::new`, which keeps the text as it is and accepts just
/// those that [`is_store_key`] describes.
#[verifier::external_body]
fn zarrs_key(text: &str) -> (key: Option<String>)
    ensures
        key is Some <==> is_store_key(text@),
        key matches Some(key) ==> key@ == text@,
{
    match zarrs_storage::StoreKey::new(text) {
        Ok(key) => Some(key.as_str().to_string()),
        Err(_) => None,
    }
}

/// Makes a prefix with `zarrs_storage::StorePrefix::new`, which keeps the text as it is and accepts
/// just those that [`is_store_prefix`] describes.
#[verifier::external_body]
fn zarrs_prefix(text: &str) -> (prefix: Option<String>)
    ensures
        prefix is Some <==> is_store_prefix(text@),
        prefix matches Some(prefix) ==> prefix@ == text@,
{
    match zarrs_storage::StorePrefix::new(text) {
        Ok(prefix) => Some(prefix.as_str().to_string()),
        Err(_) => None,
    }
}

/// A Zarr abstract store key.
#[derive(Debug, PartialEq, Eq, Hash, PartialOrd, Ord)]
pub struct StoreKey {
    text: String,
}

impl View for StoreKey {
    type V = Seq<char>;

    closed spec fn view(&self) -> Seq<char> {
        self.text@
    }
}

impl StoreKey {
    #[verifier::type_invariant]
    pub closed spec fn wf(&self) -> bool {
        is_store_key(self.text@)
    }

    /// The key with the given text, if that can be a key.
    pub fn new(text: &str) -> (key: Option<Self>)
        ensures
            match key {
                Some(key) => is_store_key(text@) && key@ == text@,
                None => !is_store_key(text@),
            },
    {
        match zarrs_key(text) {
            Some(text) => Some(StoreKey { text }),
            None => None,
        }
    }

    /// The text of the key.
    pub fn as_str(&self) -> (text: &str)
        ensures
            text@ == self@,
            is_store_key(text@),
    {
        proof {
            use_type_invariant(self);
        }
        self.text.as_str()
    }
}

/// A Zarr abstract store prefix.
#[derive(Debug, PartialEq, Eq, Hash, PartialOrd, Ord)]
pub struct StorePrefix {
    text: String,
}

impl View for StorePrefix {
    type V = Seq<char>;

    closed spec fn view(&self) -> Seq<char> {
        self.text@
    }
}

impl StorePrefix {
    #[verifier::type_invariant]
    pub closed spec fn wf(&self) -> bool {
        is_store_prefix(self.text@)
    }

    /// The prefix with the given text, if that can be a prefix.
    pub fn new(text: &str) -> (prefix: Option<Self>)
        ensures
            match prefix {
                Some(prefix) => is_store_prefix(text@) && prefix@ == text@,
                None => !is_store_prefix(text@),
            },
    {
        match zarrs_prefix(text) {
            Some(text) => Some(StorePrefix { text }),
            None => None,
        }
    }

    /// The text of the prefix.
    pub fn as_str(&self) -> (text: &str)
        ensures
            text@ == self@,
            is_store_prefix(text@),
    {
        proof {
            use_type_invariant(self);
        }
        self.text.as_str()
    }
}

/// A byte range of a value.
#[derive(Debug, Clone, Copy, PartialEq, Eq, Structural)]
pub enum ByteRange {
    /// A byte range from the start: an offset, and a length. Without a length it reaches to the end
    /// of the value.
    FromStart(u64, Option<u64>),
    /// The last bytes of the value, as many as given.
    Suffix(u64),
}

impl ByteRange {
    /// Whether the range lies within a value of `size` bytes.
    pub open spec fn fits(self, size: nat) -> bool {
        match self {
            ByteRange::FromStart(offset, Some(length)) => offset + length <= size,
            ByteRange::FromStart(offset, None) => offset <= size,
            ByteRange::Suffix(length) => length <= size,
        }
    }

    /// The bytes of `value` in the range, which must fit.
    pub open spec fn bytes_of(self, value: Seq<u8>) -> Seq<u8> {
        match self {
            ByteRange::FromStart(offset, Some(length)) => value.subrange(
                offset as int,
                offset + length,
            ),
            ByteRange::FromStart(offset, None) => value.skip(offset as int),
            ByteRange::Suffix(length) => value.skip(value.len() - length),
        }
    }
}

/// The keys and prefixes that stand directly below a prefix.
#[derive(Debug)]
pub struct StoreKeysPrefixes {
    pub keys: Vec<StoreKey>,
    pub prefixes: Vec<StorePrefix>,
}

} // verus!
