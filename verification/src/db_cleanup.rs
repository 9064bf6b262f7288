//! The removal of expired rows from a database, in batches.
use vstd::prelude::*;

verus! {

/// How many rows are removed at once by the periodic cleanup.
pub const PERIODIC_CLEANUP_BATCH: i64 = 5000;

/// How many rows are removed at once by the cleanup at the start.
pub const STARTUP_CLEANUP_BATCH: i64 = 50000;

/// How long the periodic cleanup goes on, in nanoseconds.
pub const DEFAULT_CLEANUP_TIME_BUDGET: u128 = 25_000_000;

/// Where a database is stored.
#[derive(Debug, Clone, Copy, PartialEq, Eq, Structural)]
pub enum StorageMode {
    Local,
    Nfs,
}

/// How a cleanup ended.
#[derive(Debug, Clone, Copy, PartialEq, Eq, Structural)]
pub enum CleanupResult {
    /// All expired rows were removed.
    Complete,
    /// The time was up; more expired rows are likely.
    TimeBudgetExceeded,
    /// The cleanup was called off.
    Discarded,
}

/// A cleanup in progress.
#[derive(Debug, Clone, Copy, PartialEq, Eq, Structural)]
pub struct Cleanup {
    /// How many rows are removed at once.
    pub batch_size: i64,
    /// How long the cleanup may go on, in nanoseconds; without it, until it is complete or called
    /// off.
    pub time_budget: Option<u128>,
}

impl Cleanup {
    /// Whether the cleanup ends before the next batch: only if it was called off.
    pub fn before_batch(&self, discarded: bool) -> (r: Option<CleanupResult>)
        ensures
            r == if discarded {
                Some(CleanupResult::Discarded)
            } else {
                None
            },
    {
        if discarded {
            Some(CleanupResult::Discarded)
        } else {
            None
        }
    }

    /// Whether the cleanup ends after a batch that removed so many rows, when so many nanoseconds
    /// have passed. A batch that is not full was the last one; else the time counts.
    pub open spec fn ends_after(self, deleted: usize, elapsed: u128) -> Option<CleanupResult> {
        if (deleted as i64) < self.batch_size {
            Some(CleanupResult::Complete)
        } else if self.time_budget matches Some(b) && elapsed >= b {
            Some(CleanupResult::TimeBudgetExceeded)
        } else {
            None
        }
    }

    /// Whether the cleanup ends after a batch.
    pub fn after_batch(&self, deleted: usize, elapsed: u128) -> (r: Option<CleanupResult>)
        ensures
            r == self.ends_after(deleted, elapsed),
    {
        if (#[verifier::truncate] (deleted as i64)) < self.batch_size {
            return Some(CleanupResult::Complete);
        }
        match self.time_budget {
            Some(budget) => if elapsed >= budget {
                Some(CleanupResult::TimeBudgetExceeded)
            } else {
                None
            },
            None => None,
        }
    }
}

/// Without a time budget a cleanup goes on while batches are full.
pub proof fn law_no_budget_goes_on(cleanup: Cleanup, deleted: usize, elapsed: u128)
    requires
        cleanup.time_budget is None,
        cleanup.batch_size <= deleted <= i64::MAX,
    ensures
        cleanup.ends_after(deleted, elapsed) is None,
{
}

/// How long a connection waits for a lock.
pub const BUSY_TIMEOUT_SECS: u64 = 2;

/// The settings of a connection that writes.
pub open spec fn shared_settings() -> Seq<char> {
    "PRAGMA mmap_size = 0;\n         PRAGMA cache_size = -8000;\n         PRAGMA temp_store = MEMORY;\n         PRAGMA page_size = 4096;\n         PRAGMA journal_size_limit = 6291456;"@
}

/// The settings of a connection that writes, for where the database is stored.
pub open spec fn mode_settings(mode: StorageMode) -> Seq<char> {
    match mode {
        StorageMode::Local => "PRAGMA journal_mode = WAL;\n                 PRAGMA synchronous = NORMAL;\n                 PRAGMA wal_autocheckpoint = 1000;"@,
        StorageMode::Nfs => "PRAGMA journal_mode = DELETE;\n                 PRAGMA synchronous = FULL;"@,
    }
}

/// The two groups of settings of a connection that writes, in the order in which they are made.
pub fn writer_settings(mode: StorageMode) -> (r: (&'static str, &'static str))
    ensures
        r.0@ == shared_settings(),
        r.1@ == mode_settings(mode),
{
    let shared = "PRAGMA mmap_size = 0;\n         PRAGMA cache_size = -8000;\n         PRAGMA temp_store = MEMORY;\n         PRAGMA page_size = 4096;\n         PRAGMA journal_size_limit = 6291456;";
    match mode {
        StorageMode::Local => (
            shared,
            "PRAGMA journal_mode = WAL;\n                 PRAGMA synchronous = NORMAL;\n                 PRAGMA wal_autocheckpoint = 1000;",
        ),
        StorageMode::Nfs => (
            shared,
            "PRAGMA journal_mode = DELETE;\n                 PRAGMA synchronous = FULL;",
        ),
    }
}

/// A batch that is not full is the last; after a full one the cleanup ends only when its time is
/// up.
pub proof fn law_batches_until_time_is_up(
    cleanup: Cleanup,
    deleted: usize,
    elapsed: u128,
    r: Option<CleanupResult>,
)
    requires
        call_ensures(Cleanup::after_batch, (&cleanup, deleted, elapsed), r),
        deleted <= i64::MAX,
    ensures
        deleted < cleanup.batch_size ==> r == Some(CleanupResult::Complete),
        deleted >= cleanup.batch_size && cleanup.time_budget is None ==> r is None,
        deleted >= cleanup.batch_size ==> (cleanup.time_budget matches Some(b) ==> r == if elapsed
            < b {
            None
        } else {
            Some(CleanupResult::TimeBudgetExceeded)
        }),
{
}

/// A cleanup that is called off ends before the next batch, and no other does.
pub proof fn law_called_off(cleanup: Cleanup, discarded: bool, r: Option<CleanupResult>)
    requires
        call_ensures(Cleanup::before_batch, (&cleanup, discarded), r),
    ensures
        r is Some <==> discarded,
        r is Some ==> r == Some(CleanupResult::Discarded),
{
}

/// Where a database is stored on the machine itself it has a write-ahead log; where it is on
/// another one it has none, and every write is waited for. The other settings are the same.
pub proof fn law_settings_for_where_it_is_stored(
    local: (&'static str, &'static str),
    remote: (&'static str, &'static str),
)
    requires
        call_ensures(writer_settings, (StorageMode::Local,), local),
        call_ensures(writer_settings, (StorageMode::Nfs,), remote),
    ensures
        local.0@ == remote.0@,
        local.1@
            == "PRAGMA journal_mode = WAL;\n                 PRAGMA synchronous = NORMAL;\n                 PRAGMA wal_autocheckpoint = 1000;"@,
        remote.1@ == "PRAGMA journal_mode = DELETE;\n                 PRAGMA synchronous = FULL;"@,
{
}

} // verus!
