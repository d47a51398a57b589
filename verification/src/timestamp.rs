//! Instants in time, as nanoseconds since the Unix epoch.

use vstd::prelude::*;
use crate::error::{Error, ErrorView};

verus! {

/// The earliest instant, in nanoseconds since the Unix epoch: `-009999-01-02T01:59:59Z`.
pub const MIN_NANOSECOND: i128 = -377_705_023_201_000_000_000;

/// The latest instant, in nanoseconds since the Unix epoch: `9999-12-30T22:00:00.999999999Z`.
pub const MAX_NANOSECOND: i128 = 253_402_207_200_999_999_999;

/// Whether an instant can be represented.
pub open spec fn in_range(nanosecond: i128) -> bool {
    MIN_NANOSECOND <= nanosecond <= MAX_NANOSECOND
}

/// The instant that a text denotes, if it denotes one: a date, a time and an offset from UTC, as in
/// ISO 8601.
pub uninterp spec fn read_instant(text: Seq<char>) -> Option<i128>;

/// How an instant is written: in UTC, with as many fractional digits as it needs.
pub uninterp spec fn instant_text(nanosecond: i128) -> Seq<char>;

/// Reads a timestamp with `jiff::Timestamp`'s `FromStr`. The result is named [`read_instant`]; an
/// instant that was read lies within the range of `jiff::Timestamp`.
#[verifier::external_body]
fn jiff_parse(text: &str) -> (result: Option<i128>)
    ensures
        result == read_instant(text@),
        result matches Some(nanosecond) ==> in_range(nanosecond),
{
    match text.parse::<jiff::Timestamp>() {
        Ok(timestamp) => Some(timestamp.as_nanosecond()),
        Err(_) => None,
    }
}

/// Writes a timestamp with `jiff::Timestamp`'s `Display`. The result is named [`instant_text`], and
/// is read back as the same instant: the printer writes every fractional digit that is not a
/// trailing zero, and the parser accepts what the printer writes.
#[verifier::external_body]
fn jiff_print(nanosecond: i128) -> (text: String)
    requires
        in_range(nanosecond),
    ensures
        text@ == instant_text(nanosecond),
        read_instant(text@) == Some(nanosecond),
{
    jiff::Timestamp::from_nanosecond(nanosecond).unwrap().to_string()
}

/// Asks the system clock, with `jiff::Timestamp::now`, which panics if the clock is set to a time
/// out of range. Nothing is stated of the time but that it can be represented.
#[verifier::external_body]
fn jiff_now() -> (nanosecond: i128)
    ensures
        in_range(nanosecond),
{
    jiff::Timestamp::now().as_nanosecond()
}

/// An instant in time.
#[derive(Debug, Clone, Copy, PartialEq, Eq, Hash, PartialOrd, Ord, Structural)]
pub struct Timestamp {
    nanosecond: i128,
}

impl View for Timestamp {
    type V = i128;

    closed spec fn view(&self) -> i128 {
        self.nanosecond
    }
}

impl Timestamp {
    /// A timestamp can be represented as a date and a time.
    #[verifier::type_invariant]
    pub closed spec fn wf(&self) -> bool {
        in_range(self.nanosecond)
    }

    /// The instant at `nanosecond` nanoseconds since the Unix epoch, if it is in range.
    pub fn from_nanosecond(nanosecond: i128) -> (result: Option<Self>)
        ensures
            match result {
                Some(timestamp) => in_range(nanosecond) && timestamp@ == nanosecond,
                None => !in_range(nanosecond),
            },
    {
        if MIN_NANOSECOND <= nanosecond && nanosecond <= MAX_NANOSECOND {
            Some(Timestamp { nanosecond })
        } else {
            None
        }
    }

    /// Nanoseconds since the Unix epoch.
    pub fn as_nanosecond(&self) -> (nanosecond: i128)
        ensures
            nanosecond == self@,
            in_range(nanosecond),
    {
        proof {
            use_type_invariant(self);
        }
        self.nanosecond
    }

    /// The present time.
    pub fn now() -> (timestamp: Self)
        ensures
            in_range(timestamp@),
    {
        Timestamp { nanosecond: jiff_now() }
    }

    /// Reads a timestamp.
    pub fn from_str(s: &str) -> (result: Result<Self, Error>)
        ensures
            match result {
                Ok(timestamp) => read_instant(s@) == Some(timestamp@) && in_range(timestamp@),
                Err(error) => read_instant(s@) is None && error@ == ErrorView::InvalidTimestamp(s@),
            },
    {
        match jiff_parse(s) {
            Some(nanosecond) => Ok(Timestamp { nanosecond }),
            None => Err(Error::invalid_timestamp(s)),
        }
    }

    /// The timestamp in UTC. Reading it gives the timestamp back.
    pub fn to_string(&self) -> (text: String)
        ensures
            text@ == instant_text(self@),
            read_instant(text@) == Some(self@),
    {
        proof {
            use_type_invariant(self);
        }
        jiff_print(self.nanosecond)
    }
}

impl std::str::FromStr for Timestamp {
    type Err = Error;

    fn from_str(s: &str) -> (result: Result<Self, Error>)
        ensures
            match result {
                Ok(timestamp) => read_instant(s@) == Some(timestamp@) && in_range(timestamp@),
                Err(error) => read_instant(s@) is None && error@ == ErrorView::InvalidTimestamp(s@),
            },
    {
        Timestamp::from_str(s)
    }
}

/// The instants that can be represented lie between the second day of the year -9999 and the last but
/// one of the year 9999.
pub proof fn law_range(nanosecond: i128)
    ensures
        in_range(nanosecond) <==> -377_705_023_201_000_000_000 <= nanosecond
            <= 253_402_207_200_999_999_999,
{
}

} // verus!
