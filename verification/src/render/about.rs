//! The about page: the repository, what is cached of it, and loading a bundle
//! into the cache.

use vstd::prelude::*;
use crate::number;
use crate::number::decimal_text;
use crate::pace;
use crate::pace::Pace;
use crate::render::query;
use crate::render::query::{head_branch_name, RefTarget};
use crate::render::snapshot;
use crate::render::snapshot::{progress_bar, ProgressBar};
use crate::text::{concat, concat3};

verus! {

/// The repository, as the about page shows it.
pub struct AboutRepo {
    pub clone_url: String,
    pub head_branch: String,
    pub branch_count: usize,
    pub tag_count: usize,
}

/// The repository's half of the about page. `head` is what HEAD points at,
/// where that could be read.
pub fn about_repo(
    clone_url: &str,
    head: Option<&RefTarget>,
    branch_count: usize,
    tag_count: usize,
) -> (r: AboutRepo)
    ensures
        r.clone_url@ == clone_url@,
        r.head_branch@ == (match head {
            Some(target) => match query::branch_of(*target) {
                Some(branch) => branch,
                None => "(detached)"@,
            },
            None => "(detached)"@,
        }),
        r.branch_count == branch_count,
        r.tag_count == tag_count,
{
    let branch = match head {
        Some(target) => head_branch_name(target),
        None => None,
    };
    AboutRepo {
        clone_url: clone_url.to_string(),
        head_branch: match branch {
            Some(name) => name,
            None => "(detached)".to_string(),
        },
        branch_count,
        tag_count,
    }
}

/// What the page says is cached.
pub fn cached_line(objects: usize, size_mb: &str) -> (r: String)
    ensures
        r@ == number::decimal(objects as nat) + " ("@ + size_mb@ + " MB) "@,
{
    let head = concat3(decimal_text(objects as u64).as_str(), " (", size_mb);
    concat(head.as_str(), " MB) ")
}

/// How far an import of a bundle has got.
pub enum ImportState {
    /// No bundle has been picked yet, or the page has just loaded.
    Idle,
    /// The file is being read into memory, before any of it is understood.
    Reading,
    /// Objects are going into the cache: how many of the bundle's, out of how
    /// many it holds.
    Storing { done: usize, total: usize },
    /// Finished: what the bundle turned out to hold.
    Done { objects: usize, refs: usize },
    /// The file wasn't a bundle, or stopped being readable partway through.
    Failed(String),
}

/// Whether an import tells the page of this step: on the budget of wall time,
/// and at the last object in any case.
pub fn import_step(pace: &mut Pace, done: usize, total: usize, now: u64) -> (r: Option<
    ImportState,
>)
    ensures
        (r is Some) == (done == total || pace::due_at(old(pace).last, now)),
        r matches Some(state) ==> state == (ImportState::Storing { done, total }),
        final(pace).last == (if r is Some {
            now
        } else {
            old(pace).last
        }),
{
    if done == total || pace.is_due(now) {
        pace.last = now;
        Some(ImportState::Storing { done, total })
    } else {
        None
    }
}

/// What stands under the file picker.
pub enum ImportStatus {
    /// Nothing.
    Blank,
    /// A line.
    Note(String),
    /// A bar that fills.
    Bar(ProgressBar),
    /// A line that says what went wrong.
    Error(String),
}

/// `n` and the word for it.
pub open spec fn counted(n: nat, word: Seq<char>) -> Seq<char> {
    number::decimal(n) + " "@ + word + (if n == 1 {
        ""@
    } else {
        "s"@
    })
}

fn counted_text(n: usize, word: &str) -> (r: String)
    ensures
        r@ == counted(n as nat, word@),
{
    let head = concat3(decimal_text(n as u64).as_str(), " ", word);
    concat(
        head.as_str(),
        if n == 1 {
            ""
        } else {
            "s"
        },
    )
}

/// What the import is doing, under the file picker: nothing at all before a
/// file is chosen, a bar while one is being stored, and what came out of it
/// after.
pub fn import_status(state: &ImportState) -> (r: ImportStatus)
    ensures
        match *state {
            ImportState::Idle => r is Blank,
            ImportState::Reading => r matches ImportStatus::Note(t) && t@
                == "reading the file\u{2026}"@,
            ImportState::Storing { done, total } => r matches ImportStatus::Bar(b)
                && snapshot::bar_shows(b, "storing objects"@, done, total),
            ImportState::Done { objects, refs } => r matches ImportStatus::Note(t) && t@
                == "imported "@ + counted(objects as nat, "object"@) + " from "@ + counted(
                refs as nat,
                "ref"@,
            ) + "."@,
            ImportState::Failed(error) => r matches ImportStatus::Error(t) && t@
                == "That bundle didn't load: "@ + error@,
        },
{
    match state {
        ImportState::Idle => ImportStatus::Blank,
        ImportState::Reading => ImportStatus::Note("reading the file\u{2026}".to_string()),
        ImportState::Storing { done, total } => ImportStatus::Bar(
            progress_bar("storing objects", *done, *total),
        ),
        ImportState::Done { objects, refs } => {
            let head = concat3("imported ", counted_text(*objects, "object").as_str(), " from ");
            ImportStatus::Note(
                concat3(head.as_str(), counted_text(*refs, "ref").as_str(), "."),
            )
        },
        ImportState::Failed(error) => ImportStatus::Error(
            concat("That bundle didn't load: ", error.as_str()),
        ),
    }
}

/// Only a single one is told in the singular.
pub proof fn only_one_is_singular(n: nat, word: Seq<char>)
    ensures
        counted(1, word) == number::decimal(1) + seq![' '] + word,
        n != 1 ==> counted(n, word) == number::decimal(n) + seq![' '] + word + seq!['s'],
{
    reveal_strlit(" ");
    reveal_strlit("");
    reveal_strlit("s");
    assert(" "@ =~= seq![' ']);
    assert("s"@ =~= seq!['s']);
    let one = number::decimal(1) + " "@ + word;
    assert(one + ""@ =~= one);
}

} // verus!
