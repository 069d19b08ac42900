//! The page of tags.

use vstd::prelude::*;
use crate::order;
use crate::render::refs_table::{sort_by_age, ByAge, RefRow};

verus! {

/// Every tag.
pub struct RefsTagsProps {
    pub tags: Vec<RefRow>,
    /// The page lists every tag, so there are never more.
    pub more_tags: bool,
    /// The repository's name, which the tags' archives are named after.
    pub repo_name: String,
}

/// Every tag, the most recent first.
pub fn build_refs_tags(tags: Vec<RefRow>, repo_name: &str) -> (r: RefsTagsProps)
    ensures
        order::sorts::<RefRow, ByAge>(tags@, r.tags@),
        !r.more_tags,
        r.repo_name@ == repo_name@,
{
    let mut tags = tags;
    sort_by_age(&mut tags);
    RefsTagsProps { tags, more_tags: false, repo_name: repo_name.to_string() }
}

} // verus!
