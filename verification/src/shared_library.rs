//! The shapes of a snippet library that is pulled from a team.
use std::time::SystemTime;
use vstd::prelude::*;

verus! {

#[derive(Debug, Clone)]
pub struct TeamSnippet {
    /// Where absent, the id is derived from the title.
    pub id: Option<String>,
    pub title: String,
    pub body: String,
    pub tags: Vec<String>,
    /// Empty for the library's root.
    pub folder: Option<String>,
}

#[derive(Debug, Clone)]
pub struct TeamLibrary {
    pub version: u32,
    pub snippets: Vec<TeamSnippet>,
}

/// How the last sync went.
#[derive(Debug, Clone)]
pub struct SyncStatus {
    pub fetched_at_unix: Option<i64>,
    pub snippet_count: usize,
    pub last_error: Option<String>,
}

/// Seconds to wait for a library to be read.
pub const FETCH_READ_TIMEOUT_SECS: u64 = 30;

/// Seconds to wait for a connection.
pub const FETCH_CONNECT_TIMEOUT_SECS: u64 = 10;

#[verifier::external_type_specification]
#[verifier::external_body]
pub struct ExSystemTime(SystemTime);

/// The whole seconds from 1970 to a system time; none where it lies before.
pub uninterp spec fn epoch_seconds(t: SystemTime) -> Option<u64>;

/// `SystemTime::duration_since` the epoch, in whole seconds, with none for its
/// error: the result depends on the time given alone.
#[verifier::external_body]
fn seconds_since_epoch(t: SystemTime) -> (r: Option<u64>)
    ensures
        r == epoch_seconds(t),
{
    t.duration_since(SystemTime::UNIX_EPOCH).ok().map(|d| d.as_secs())
}

/// A count of seconds since 1970 as a signed time; zero before that.
pub open spec fn unix_time(since_epoch: Option<u64>) -> i64 {
    match since_epoch {
        Some(s) => s as i64,
        None => 0,
    }
}

/// A count of seconds since 1970 as a signed time; zero before that.
pub fn unix_seconds(since_epoch: Option<u64>) -> (r: i64)
    ensures
        r == unix_time(since_epoch),
{
    match since_epoch {
        Some(s) => s as i64,
        None => 0,
    }
}

/// A system time in seconds since 1970; a clock set before that counts as zero.
pub fn system_time_to_unix(t: SystemTime) -> (r: i64)
    ensures
        r == unix_time(epoch_seconds(t)),
{
    unix_seconds(seconds_since_epoch(t))
}

} // verus!
