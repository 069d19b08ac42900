//! The log: pages of commits.

use vstd::prelude::*;
use crate::render::commits_table::{CommitRow, ExpandMsg};
use crate::render::query;
use crate::render::query::{apply_decorations, Decorations};
use crate::route;
use crate::route::log_url;
use crate::route::query as url_query;

verus! {

/// How many commits a page of the log shows.
pub const PAGE_SIZE: usize = 50;

/// The path that a log is limited to; none, for an empty one.
pub fn path_filter(path: &str) -> (r: Option<&str>)
    ensures
        match r {
            Some(p) => p@ == path@ && path@.len() > 0,
            None => path@.len() == 0,
        },
{
    if path.is_empty() {
        None
    } else {
        Some(path)
    }
}

/// Where the page of newer commits begins.
pub open spec fn newer_offset(offset: int) -> int {
    if offset < PAGE_SIZE {
        0
    } else {
        offset - PAGE_SIZE
    }
}

/// A page of the log.
pub struct LogProps {
    pub commits: Vec<CommitRow>,
    pub prev_url: Option<String>,
    pub next_url: Option<String>,
    pub expand: ExpandMsg,
}

/// The page of newer commits; none on the first page.
pub fn newer_url(path: &str, offset: usize, head: Option<&str>, showmsg: bool) -> (r: Option<
    String,
>)
    ensures
        match r {
            Some(url) => offset > 0 && url@ == route::log_hash(
                path@,
                newer_offset(offset as int),
                url_query::opt_str(head),
                showmsg,
            ),
            None => offset == 0,
        },
{
    if offset > 0 {
        let at: usize = if offset < PAGE_SIZE {
            0
        } else {
            offset - PAGE_SIZE
        };
        Some(log_url(path, at, head, showmsg))
    } else {
        None
    }
}

/// The page of older commits, where the walk found that there is one.
pub fn older_url(
    path: &str,
    offset: usize,
    head: Option<&str>,
    showmsg: bool,
    has_next: bool,
) -> (r: Option<String>)
    requires
        has_next ==> offset + PAGE_SIZE <= usize::MAX,
    ensures
        match r {
            Some(url) => has_next && url@ == route::log_hash(
                path@,
                offset + PAGE_SIZE,
                url_query::opt_str(head),
                showmsg,
            ),
            None => !has_next,
        },
{
    if has_next {
        Some(log_url(path, offset + PAGE_SIZE, head, showmsg))
    } else {
        None
    }
}

/// The beginning of a page whose walk is still going, with the labels that are
/// known. It leads to no other page: whether there is an older one isn't known
/// until the walk has finished, and to offer the newer one before that would be
/// misleading.
pub fn loading_page(
    rows: Vec<CommitRow>,
    labels: &Decorations,
    path: &str,
    offset: usize,
    head: Option<&str>,
    showmsg: bool,
) -> (r: LogProps)
    requires
        query::unique(labels@),
    ensures
        r.commits@.len() == rows@.len(),
        forall|i: int|
            0 <= i < rows@.len() ==> query::decorated(rows@[i], #[trigger] r.commits@[i], labels@),
        r.prev_url is None,
        r.next_url is None,
        r.expand.expanded == showmsg,
        r.expand.toggle_url@ == route::log_hash(
            path@,
            offset as int,
            url_query::opt_str(head),
            !showmsg,
        ),
{
    let mut commits = rows;
    apply_decorations(&mut commits, labels);
    LogProps {
        commits,
        prev_url: None,
        next_url: None,
        expand: ExpandMsg::new(showmsg, log_url(path, offset, head, !showmsg)),
    }
}

/// The complete page, with the labels that are known. `has_next` is whether the
/// walk found an older one.
pub fn log_page(
    rows: Vec<CommitRow>,
    labels: &Decorations,
    path: &str,
    offset: usize,
    head: Option<&str>,
    showmsg: bool,
    has_next: bool,
) -> (r: LogProps)
    requires
        query::unique(labels@),
        has_next ==> offset + PAGE_SIZE <= usize::MAX,
    ensures
        r.commits@.len() == rows@.len(),
        forall|i: int|
            0 <= i < rows@.len() ==> query::decorated(rows@[i], #[trigger] r.commits@[i], labels@),
        match r.prev_url {
            Some(url) => offset > 0 && url@ == route::log_hash(
                path@,
                newer_offset(offset as int),
                url_query::opt_str(head),
                showmsg,
            ),
            None => offset == 0,
        },
        match r.next_url {
            Some(url) => has_next && url@ == route::log_hash(
                path@,
                offset + PAGE_SIZE,
                url_query::opt_str(head),
                showmsg,
            ),
            None => !has_next,
        },
        r.expand.expanded == showmsg,
        r.expand.toggle_url@ == route::log_hash(
            path@,
            offset as int,
            url_query::opt_str(head),
            !showmsg,
        ),
{
    LogProps {
        prev_url: newer_url(path, offset, head, showmsg),
        next_url: older_url(path, offset, head, showmsg, has_next),
        ..loading_page(rows, labels, path, offset, head, showmsg)
    }
}

/// Going to the older page and back to the newer one returns to where it
/// began.
pub proof fn pages_turn_back(offset: int)
    requires
        offset >= 0,
    ensures
        newer_offset(offset + PAGE_SIZE) == offset,
{
}

/// The newer page begins fifty commits earlier, and never before the first.
pub proof fn pages_are_fifty_commits(offset: int)
    requires
        offset >= 0,
    ensures
        PAGE_SIZE == 50,
        newer_offset(offset) == offset - 50 || (offset < 50 && newer_offset(offset) == 0),
        newer_offset(offset) >= 0,
{
}

} // verus!
