//! The outcome of one search invocation.

use vstd::prelude::*;

verus! {

/// What a finished search invocation amounted to.
#[derive(Debug, Clone, Copy, PartialEq, Eq, Structural)]
#[non_exhaustive]
pub enum SearchStatus {
    /// Matches were found; stdout holds them.
    Found,
    /// The glob matched no files: stderr was not empty or the tool failed.
    NoFilesFound,
    /// Files were searched but nothing matched.
    NoMatchesFound,
    /// No search has run yet.
    NotSearched,
}

/// The headline text for each outcome.
pub open spec fn status_text(s: SearchStatus) -> Seq<char> {
    match s {
        SearchStatus::Found => "Found matches:"@,
        SearchStatus::NoFilesFound => "No files found, make sure your glob pattern is correct."@,
        SearchStatus::NoMatchesFound => "No matches for your search term has been found"@,
        SearchStatus::NotSearched => "The search has not been run"@,
    }
}

/// How exit status and captured streams classify the outcome: stderr output
/// or a failure exit means the glob matched no files; otherwise an empty
/// stdout means no matches, and a nonempty one means matches were found.
pub open spec fn status_of(exit_success: bool, stderr_empty: bool, stdout_empty: bool)
    -> SearchStatus {
    if !exit_success || !stderr_empty {
        SearchStatus::NoFilesFound
    } else if stdout_empty {
        SearchStatus::NoMatchesFound
    } else {
        SearchStatus::Found
    }
}

impl SearchStatus {
    /// The headline describing this outcome.
    pub fn get_status_string(&self) -> (r: String)
        ensures
            r@ == status_text(*self),
    {
        match self {
            SearchStatus::Found => "Found matches:".to_owned(),
            SearchStatus::NoFilesFound => "No files found, make sure your glob pattern is correct.".to_owned(),
            SearchStatus::NoMatchesFound => "No matches for your search term has been found".to_owned(),
            SearchStatus::NotSearched => "The search has not been run".to_owned(),
        }
    }

    /// A fresh status: nothing searched yet.
    pub fn new() -> (r: SearchStatus)
        ensures
            r == SearchStatus::NotSearched,
    {
        SearchStatus::NotSearched
    }

    /// Classifies a finished invocation handed over as plain values.
    pub fn from_outcome(exit_success: bool, stderr_empty: bool, stdout_empty: bool) -> (r:
        SearchStatus)
        ensures
            r == status_of(exit_success, stderr_empty, stdout_empty),
    {
        if !exit_success || !stderr_empty {
            SearchStatus::NoFilesFound
        } else if stdout_empty {
            SearchStatus::NoMatchesFound
        } else {
            SearchStatus::Found
        }
    }
}

} // verus!
