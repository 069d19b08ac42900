//! The page of all refs.

use vstd::prelude::*;
use crate::order;
use crate::render::refs_table::{sort_by_age, ByAge, RefRow};

verus! {

/// Every branch and every tag.
pub struct RefsAllProps {
    pub branches: Vec<RefRow>,
    pub tags: Vec<RefRow>,
    /// The page lists every ref, so there are never more.
    pub more_branches: bool,
    pub more_tags: bool,
}

/// Every branch and every tag, the most recent first.
pub fn build_refs_all(branches: Vec<RefRow>, tags: Vec<RefRow>) -> (r: RefsAllProps)
    ensures
        order::sorts::<RefRow, ByAge>(branches@, r.branches@),
        order::sorts::<RefRow, ByAge>(tags@, r.tags@),
        !r.more_branches,
        !r.more_tags,
{
    let mut branches = branches;
    let mut tags = tags;
    sort_by_age(&mut branches);
    sort_by_age(&mut tags);
    RefsAllProps { branches, tags, more_branches: false, more_tags: false }
}

} // verus!
