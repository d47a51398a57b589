//! The `major.minor` version of the store format.

use vstd::prelude::*;
use vstd::std_specs::convert::FromSpecImpl;
use crate::error::{Error, ErrorView};
use crate::numeral::{
    decimal, digits_value, is_digit, lemma_decimal_round_trip, lemma_decimal_value, parse_u64,
    push_decimal, read_u64,
};
use crate::text::{join, lemma_split_join, split, split_text, views};

verus! {

/// Semver-style major.minor version number.
#[derive(Debug, Clone, PartialEq, Eq, Hash, PartialOrd, Ord, Copy, Structural)]
pub struct Version {
    pub major: u64,
    pub minor: u64,
}

/// The oldest version of the format that can be read.
#[verifier::allow_in_spec]
pub fn earliest_supported_version() -> Version
    returns
        (Version { major: 1, minor: 0 }),
{
    Version { major: 1, minor: 0 }
}

/// The version of the format that new stores are written in.
#[verifier::allow_in_spec]
pub fn latest_version() -> Version
    returns
        (Version { major: 1, minor: 0 }),
{
    Version { major: 1, minor: 0 }
}

/// How a version is written.
pub open spec fn version_text(version: Version) -> Seq<char> {
    decimal(version.major as nat).push('.') + decimal(version.minor as nat)
}

/// Reads a version: two unsigned integers with one dot between them.
pub open spec fn read_version(text: Seq<char>) -> Option<Version> {
    let pieces = split(text, '.');
    if pieces.len() == 2 {
        match (read_u64(pieces[0]), read_u64(pieces[1])) {
            (Some(major), Some(minor)) => Some(Version { major, minor }),
            _ => None,
        }
    } else {
        None
    }
}

impl Version {
    pub fn new(major: u64, minor: u64) -> (version: Self)
        ensures
            version == (Version { major, minor }),
    {
        Version { major, minor }
    }

    /// Whether the major versions are the same and this version's minor version is greater than or equal to the other version's.
    ///
    /// i.e. this version's reader SHOULD be able to read data by the other version's writer.
    pub fn minor_compatible(&self, other: &Version) -> (compatible: bool)
        ensures
            compatible == self.reads_fully(*other),
    {
        self.major_compatible(other) && self.minor >= other.minor
    }

    /// Whether the major versions are the same.
    ///
    /// i.e. this version's reader SHOULD be able to at least partially read data by the other version's writer.
    pub fn major_compatible(&self, other: &Version) -> (compatible: bool)
        ensures
            compatible == self.reads_partly(*other),
    {
        self.major == other.major
    }

    /// A reader of this version can read what a writer of `other` wrote.
    pub open spec fn reads_fully(self, other: Version) -> bool {
        self.major == other.major && self.minor >= other.minor
    }

    /// A reader of this version can read at least part of what a writer of `other` wrote.
    pub open spec fn reads_partly(self, other: Version) -> bool {
        self.major == other.major
    }

    /// The version as `major.minor`.
    pub fn to_string(&self) -> (text: String)
        ensures
            text@ == version_text(*self),
    {
        let mut text = String::new();
        push_decimal(&mut text, self.major);
        text.push('.');
        push_decimal(&mut text, self.minor);
        assert(text@ =~= version_text(*self));
        text
    }

    /// Reads a version from `major.minor`.
    pub fn from_str(s: &str) -> (result: Result<Self, Error>)
        ensures
            match result {
                Ok(version) => read_version(s@) == Some(version),
                Err(error) => read_version(s@) is None && error@ == (ErrorView::InvalidVersion {
                    version: s@,
                }),
            },
    {
        let pieces = split_text(s, '.');
        let ghost texts = views(pieces@);
        assert(texts.len() == pieces@.len());
        if pieces.len() != 2 {
            return Err(Error::invalid_version(s));
        }
        assert(texts[0] == pieces@[0]@ && texts[1] == pieces@[1]@);
        match (parse_u64(pieces[0].as_str()), parse_u64(pieces[1].as_str())) {
            (Some(major), Some(minor)) => Ok(Version { major, minor }),
            _ => Err(Error::invalid_version(s)),
        }
    }
}

impl std::str::FromStr for Version {
    type Err = Error;

    fn from_str(s: &str) -> (result: Result<Self, Error>)
        ensures
            match result {
                Ok(version) => read_version(s@) == Some(version),
                Err(error) => read_version(s@) is None && error@ == (ErrorView::InvalidVersion {
                    version: s@,
                }),
            },
    {
        Version::from_str(s)
    }
}

impl From<(u64, u64)> for Version {
    fn from(parts: (u64, u64)) -> (version: Self) {
        Version { major: parts.0, minor: parts.1 }
    }
}

impl FromSpecImpl<(u64, u64)> for Version {
    open spec fn obeys_from_spec() -> bool {
        true
    }

    open spec fn from_spec(parts: (u64, u64)) -> Self {
        Version { major: parts.0, minor: parts.1 }
    }
}

impl Default for Version {
    fn default() -> (version: Self)
        ensures
            version == latest_version(),
    {
        latest_version()
    }
}

/// Numerals hold no dots.
proof fn lemma_decimal_without_dot(n: nat)
    ensures
        !decimal(n).contains('.'),
{
    lemma_decimal_value(n);
    if decimal(n).contains('.') {
        let i = choose|i: int| 0 <= i < decimal(n).len() && decimal(n)[i] == '.';
        assert(is_digit(decimal(n)[i]));
    }
}

/// Reading the text of a version gives the version back.
pub proof fn law_version_round_trip(version: Version)
    ensures
        read_version(version_text(version)) == Some(version),
{
    let major = decimal(version.major as nat);
    let minor = decimal(version.minor as nat);
    let pieces = seq![major, minor];
    lemma_decimal_without_dot(version.major as nat);
    lemma_decimal_without_dot(version.minor as nat);
    lemma_decimal_round_trip(version.major);
    lemma_decimal_round_trip(version.minor);
    lemma_split_join(pieces, '.');
    assert(pieces.drop_last() =~= seq![major]);
    assert(join(pieces.drop_last(), '.') == major);
    assert(join(pieces, '.') =~= version_text(version));
}

/// Two versions with the same text are the same version.
pub proof fn law_version_text_injective(a: Version, b: Version)
    requires
        version_text(a) == version_text(b),
    ensures
        a == b,
{
    law_version_round_trip(a);
    law_version_round_trip(b);
}

/// Reading fully is a partial order on versions: every version reads its own data, what reads a
/// reader's data reads what that reader reads, and two versions that read each other are the same.
/// What can be read fully can be read in part.
pub proof fn law_compatibility_order(a: Version, b: Version, c: Version)
    ensures
        a.reads_fully(a),
        a.reads_fully(b) && b.reads_fully(c) ==> a.reads_fully(c),
        a.reads_fully(b) && b.reads_fully(a) ==> a == b,
        a.reads_fully(b) ==> a.reads_partly(b),
        a.reads_partly(b) ==> a.reads_fully(b) || b.reads_fully(a),
{
}

/// A version is written as its two numbers with a dot between them.
pub proof fn law_version_text(version: Version)
    ensures
        split(version_text(version), '.') == seq![
            decimal(version.major as nat),
            decimal(version.minor as nat),
        ],
        digits_value(decimal(version.major as nat)) == version.major,
        digits_value(decimal(version.minor as nat)) == version.minor,
{
    let pieces = seq![decimal(version.major as nat), decimal(version.minor as nat)];
    lemma_decimal_without_dot(version.major as nat);
    lemma_decimal_without_dot(version.minor as nat);
    lemma_decimal_value(version.major as nat);
    lemma_decimal_value(version.minor as nat);
    assert(join(pieces, '.') =~= version_text(version)) by {
        assert(pieces.drop_last() =~= seq![decimal(version.major as nat)]);
        reveal_with_fuel(join, 3);
    }
    lemma_split_join(pieces, '.');
}

/// A version is read just from a text with one dot, with an unsigned integer on either side of it.
pub proof fn law_read_version(text: Seq<char>, version: Version)
    ensures
        read_version(text) == Some(version) <==> {
            &&& split(text, '.').len() == 2
            &&& read_u64(split(text, '.')[0]) == Some(version.major)
            &&& read_u64(split(text, '.')[1]) == Some(version.minor)
        },
{
}

/// A version reads another's data fully if it has the same major number and no smaller minor one, and
/// in part if it has the same major number.
pub proof fn law_compatibility(a: Version, b: Version)
    ensures
        a.reads_fully(b) <==> a.major == b.major && a.minor >= b.minor,
        a.reads_partly(b) <==> a.major == b.major,
{
}

/// The versions that the library supports.
pub proof fn law_supported_versions()
    ensures
        earliest_supported_version().major == 1 && earliest_supported_version().minor == 0,
        latest_version().major == 1 && latest_version().minor == 0,
{
}

} // verus!
