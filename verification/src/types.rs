//! What a checkpoint of the write-ahead log reports.

use vstd::prelude::*;

verus! {

/// Information about a checkpoint operation.
#[derive(Debug, Clone, Copy, PartialEq, Eq, Structural)]
pub struct CheckpointResult {
    /// True if the checkpoint operation could not complete because another connection was busy.
    pub busy: bool,
    /// None if the database is not in WAL mode.
    pub pages_written: Option<PageWriteCounts>,
}

/// How many pages were written to the WAL and to the database.
#[derive(Debug, Clone, Copy, PartialEq, Eq, Structural)]
pub struct PageWriteCounts {
    pub to_wal: u64,
    pub to_db: u64,
}

impl CheckpointResult {
    /// Reads the three integer columns of a `wal_checkpoint` row.
    pub fn new(busy_int: i64, to_wal: i64, to_db: i64) -> (result: Self)
        ensures
            result.busy == (busy_int != 0),
            result.pages_written is Some <==> to_wal >= 0 && to_db >= 0,
            result.pages_written matches Some(pages) ==> pages.to_wal == to_wal && pages.to_db
                == to_db,
    {
        Self { busy: busy_int != 0, pages_written: PageWriteCounts::maybe_new(to_wal, to_db) }
    }

    /// Whether the database that was checkpointed is in WAL mode.
    pub fn wal_mode(&self) -> (result: bool)
        ensures
            result == (self.pages_written is Some),
    {
        self.pages_written.is_some()
    }
}

impl PageWriteCounts {
    /// The counts, or None where the engine reports a negative count, as it does outside of WAL
    /// mode.
    pub fn maybe_new(to_wal: i64, to_db: i64) -> (result: Option<Self>)
        ensures
            result is Some <==> to_wal >= 0 && to_db >= 0,
            result matches Some(pages) ==> pages.to_wal == to_wal && pages.to_db == to_db,
    {
        if to_wal < 0 || to_db < 0 {
            None
        } else {
            Some(Self { to_wal: to_wal as u64, to_db: to_db as u64 })
        }
    }
}

/// A checkpoint reports the pages it wrote just if neither count is negative, and that it was blocked
/// just if the engine gives a number other than zero for that.
pub proof fn law_checkpoint_result(busy: i64, to_wal: i64, to_db: i64, result: CheckpointResult)
    requires
        call_ensures(CheckpointResult::new, (busy, to_wal, to_db), result),
    ensures
        result.busy <==> busy != 0,
        match result.pages_written {
            Some(pages) => pages.to_wal == to_wal && pages.to_db == to_db,
            None => to_wal < 0 || to_db < 0,
        },
{
}

} // verus!
