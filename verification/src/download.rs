//! The retry policy of downloads: each download is tried a few times, with
//! a growing pause between tries.

use vstd::prelude::*;

use crate::text::{push_str, string_of};

verus! {

/// How many times a download is tried.
pub const ATTEMPTS: u8 = 3;

/// What follows a try.
#[derive(Clone, Copy, Debug, PartialEq, Eq, Structural)]
pub enum DownloadStep {
    /// The download is valid: move it into place.
    Persist,
    /// Wait this many seconds, then try again.
    RetryAfter(u64),
    /// Every try failed: report the last failure.
    GiveUp,
}

/// What follows try number `attempt` (counted from 1), given whether it
/// downloaded a valid file.
pub fn after_attempt(attempt: u8, succeeded: bool) -> (step: DownloadStep)
    requires
        1 <= attempt <= ATTEMPTS,
    ensures
        succeeded ==> step == DownloadStep::Persist,
        !succeeded && attempt < ATTEMPTS ==> step == DownloadStep::RetryAfter(attempt as u64),
        !succeeded && attempt == ATTEMPTS ==> step == DownloadStep::GiveUp,
{
    if succeeded {
        DownloadStep::Persist
    } else if attempt < ATTEMPTS {
        DownloadStep::RetryAfter(attempt as u64)
    } else {
        DownloadStep::GiveUp
    }
}

/// The context added to the last failure of a download.
pub fn failure_context(url: &str) -> (s: String)
    ensures
        s@ == "failed to download "@ + url@,
{
    let mut out: Vec<char> = Vec::new();
    push_str(&mut out, "failed to download ");
    push_str(&mut out, url);
    string_of(&out)
}

} // verus!
