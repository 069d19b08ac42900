//! What can go wrong reading a repository, and how it reads on the page.

use vstd::prelude::*;
use crate::text::concat;

verus! {

/// Why a file could not be read.
#[derive(Debug)]
pub enum FetchError {
    /// There is no such file; what was asked for.
    NotFound(String),
    /// Anything else, in words.
    Other(String),
}

/// What a [`FetchError`] says.
pub enum FetchFailure {
    NotFound(Seq<char>),
    Other(Seq<char>),
}

impl View for FetchError {
    type V = FetchFailure;

    open spec fn view(&self) -> FetchFailure {
        match self {
            FetchError::NotFound(what) => FetchFailure::NotFound(what@),
            FetchError::Other(what) => FetchFailure::Other(what@),
        }
    }
}

/// Why a repository could not be read.
#[derive(Debug)]
pub enum RepoError {
    /// One of its files could not be.
    FileSystem(FetchError),
    /// What it holds makes no sense; the error in its own words.
    Other(String),
}

/// How a [`FetchError`] reads.
pub open spec fn fetch_error_text(e: FetchFailure) -> Seq<char> {
    match e {
        FetchFailure::NotFound(what) => "not found: "@ + what,
        FetchFailure::Other(what) => "error: "@ + what,
    }
}

/// A [`FetchError`] as a human-readable string.
pub fn fmt_fs_err(e: &FetchError) -> (r: String)
    ensures
        r@ == fetch_error_text(e@),
{
    match e {
        FetchError::NotFound(what) => concat("not found: ", what.as_str()),
        FetchError::Other(what) => concat("error: ", what.as_str()),
    }
}

/// A [`RepoError`] as a human-readable string.
pub fn fmt_git_err(e: &RepoError) -> (r: String)
    ensures
        r@ == (match e {
            RepoError::FileSystem(inner) => fetch_error_text(inner@),
            RepoError::Other(words) => words@,
        }),
{
    match e {
        RepoError::FileSystem(inner) => fmt_fs_err(inner),
        RepoError::Other(words) => words.clone(),
    }
}

} // verus!
