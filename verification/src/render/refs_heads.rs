//! The page of branches.

use vstd::prelude::*;
use crate::render::refs_table::RefRow;

verus! {

/// Every branch.
pub struct RefsHeadsProps {
    pub branches: Vec<RefRow>,
    /// The page lists every branch, so there are never more.
    pub more_branches: bool,
}

/// Every branch, in the order of the listing.
pub fn build_refs_heads(branches: Vec<RefRow>) -> (r: RefsHeadsProps)
    ensures
        r.branches == branches,
        !r.more_branches,
{
    RefsHeadsProps { branches, more_branches: false }
}

} // verus!
