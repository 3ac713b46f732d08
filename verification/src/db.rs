//! The site's database: its schema, and the clock that stamps its rows.
use std::time::{Duration, SystemTime, SystemTimeError};
use vstd::prelude::*;

verus! {

// ── time ───────────────────────────────────────────────────

/// `std::time::SystemTime`, a reading of the clock.
#[verifier::external_type_specification]
#[verifier::external_body]
pub struct ExSystemTime(SystemTime);

/// `std::time::SystemTimeError`, which says that a reading lies before another.
#[verifier::external_type_specification]
#[verifier::external_body]
pub struct ExSystemTimeError(SystemTimeError);

/// `SystemTime::now` reads the machine's clock.  Nothing is claimed of what it shows.
pub assume_specification [SystemTime::now]() -> SystemTime;

/// `Duration::as_secs` gives the whole seconds of a span.  Nothing is claimed of the number.
pub assume_specification [Duration::as_secs](d: &Duration) -> u64;

/// Calls `SystemTime::duration_since` with the Unix epoch.  Nothing is claimed of the span,
/// nor of whether there is one: a clock may be set before the epoch.
#[verifier::external_body]
fn since_epoch(time: SystemTime) -> (r: Result<Duration, SystemTimeError>) {
    time.duration_since(SystemTime::UNIX_EPOCH)
}

/// The seconds that the clock shows, zero where it shows none.
pub fn seconds_or_zero(shown: Option<u64>) -> (r: u64)
    ensures
        r == (match shown {
            Some(s) => s,
            None => 0,
        }),
{
    match shown {
        Some(s) => s,
        None => 0,
    }
}

/// The clock may show `seconds`: they are the whole seconds of the span from the Unix epoch to
/// some reading of the clock, or zero where the reading lies before the epoch.
pub closed spec fn clock_may_show(seconds: u64) -> bool {
    exists|reading: SystemTime, span: Result<Duration, SystemTimeError>|
        #![trigger call_ensures(since_epoch, (reading,), span)]
        {
            &&& call_ensures(SystemTime::now, (), reading)
            &&& call_ensures(since_epoch, (reading,), span)
            &&& match span {
                Ok(d) => call_ensures(Duration::as_secs, (&d,), seconds),
                Err(_) => seconds == 0,
            }
        }
}

/// The seconds since the Unix epoch, zero where the clock is set before it.  Which of the
/// numbers that the clock may show it is rests on the machine, so no contract speaks of it.
pub fn unix_now() -> (r: u64)
    ensures
        clock_may_show(r),
{
    let reading = SystemTime::now();
    let span = since_epoch(reading);
    let shown = match span {
        Ok(d) => Some(d.as_secs()),
        Err(_) => None,
    };
    seconds_or_zero(shown)
}

// ── schema ─────────────────────────────────────────────────

/// The version of the schema.
pub const SCHEMA_VERSION: i32 = 1;

/// The tables of the first version.
pub const SCHEMA_V1: &'static str = "
CREATE TABLE IF NOT EXISTS snippets (
    id          TEXT PRIMARY KEY,
    is_type     INTEGER NOT NULL,
    content     TEXT NOT NULL,
    target      TEXT NOT NULL,
    created_at  INTEGER NOT NULL
);

CREATE TABLE IF NOT EXISTS cache (
    key_hash    TEXT PRIMARY KEY,
    types_json  BLOB NOT NULL,
    last_used   INTEGER NOT NULL
);
CREATE INDEX IF NOT EXISTS cache_last_used_idx ON cache(last_used);

CREATE TABLE IF NOT EXISTS stats_counter (
    key         TEXT PRIMARY KEY,
    value       INTEGER NOT NULL
);

CREATE TABLE IF NOT EXISTS stats_by_target (
    target      TEXT PRIMARY KEY,
    count       INTEGER NOT NULL
);
";

/// What brings a database up to date: statements to run, and the version it has then.
pub struct Migration {
    pub batch: &'static str,
    pub version: i32,
}

/// What a database of the given version needs, if anything.
pub fn migrate(current: i32) -> (r: Option<Migration>)
    ensures
        match r {
            Some(m) => current < SCHEMA_VERSION && m.batch@ == SCHEMA_V1@ && m.version
                == SCHEMA_VERSION,
            None => current >= SCHEMA_VERSION,
        },
{
    if current < SCHEMA_VERSION {
        Some(Migration { batch: SCHEMA_V1, version: SCHEMA_VERSION })
    } else {
        None
    }
}

/// How many rows a count showed; none where the count failed.
pub fn row_count(shown: Option<i64>) -> (r: usize)
    ensures
        match shown {
            Some(n) => r == n as usize && (0 <= n <= usize::MAX ==> r == n),
            None => r == 0,
        },
{
    match shown {
        Some(n) => n as usize,
        None => 0,
    }
}

/// The version of a database once it is up to date.
pub open spec fn migrated(current: i32) -> i32 {
    if current < SCHEMA_VERSION {
        SCHEMA_VERSION
    } else {
        current
    }
}

/// A database that is up to date needs nothing more.
pub proof fn law_migration_is_idempotent(current: i32)
    ensures
        migrated(current) >= SCHEMA_VERSION,
        migrated(migrated(current)) == migrated(current),
{
}

/// A database is brought to the first version once, by the statements that make its tables, and one
/// that is there needs none.
pub proof fn law_databases_are_migrated_once(current: i32, r: Option<Migration>)
    requires
        call_ensures(migrate, (current,), r),
    ensures
        r is Some <==> current < 1,
        r matches Some(m) ==> m.version == 1 && m.batch@ == SCHEMA_V1@ && forall|again: Option<
            Migration,
        >| #[trigger] call_ensures(migrate, (m.version,), again) ==> again is None,
{
}

/// A count is what the database showed, and nothing where it showed nothing.
pub proof fn law_counts_are_what_was_shown(shown: Option<i64>, r: usize)
    requires
        shown matches Some(n) ==> 0 <= n <= usize::MAX,
        call_ensures(row_count, (shown,), r),
    ensures
        shown matches Some(n) ==> r == n,
        shown is None ==> r == 0,
{
}

/// The seconds are those that were shown, and none where none were.
pub proof fn law_seconds_or_zero(s: u64, some: u64, none: u64)
    requires
        call_ensures(seconds_or_zero, (Some(s),), some),
        call_ensures(seconds_or_zero, (None,), none),
    ensures
        some == s,
        none == 0,
{
}

} // verus!
