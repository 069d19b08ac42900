//! The branch and tag listings: one table shape, filled either from a ref
//! walk that has finished or from one still streaming rows in.

use vstd::prelude::*;
use crate::order::{sort, Order};
use crate::order;
use crate::render::snapshot;
use crate::render::snapshot::snapshot_file_name;
use crate::render::time::Age;
use crate::route;
use crate::route::{snapshot_url, tag_url, tree_url, SnapshotFormat};

verus! {

/// A branch or tag, as a row of a table.
pub struct RefRow {
    pub name: String,
    /// The ref's commit; `None` while it is still being fetched. The summary
    /// lists the names immediately and backfills these columns.
    pub meta: Option<RefMeta>,
}

pub struct RefMeta {
    pub message: String,
    pub author: String,
    pub age: Age,
}

/// A row's sort key: the seconds since its commit, none while it is pending.
pub open spec fn age_key(row: RefRow) -> u64 {
    match row.meta {
        Some(meta) => meta.age.secs,
        None => 0,
    }
}

impl RefRow {
    /// A name-only row whose commit hasn't loaded yet.
    pub fn pending(name: String) -> (r: Self)
        ensures
            r.name@ == name@,
            r.meta is None,
    {
        RefRow { name, meta: None }
    }

    /// Recency sort key; a pending row sorts as most recent.
    pub fn age_secs(&self) -> (r: u64)
        ensures
            r == age_key(*self),
    {
        match &self.meta {
            Some(meta) => meta.age.secs,
            None => 0,
        }
    }

    /// Where a branch's row leads: its tree.
    pub fn branch_href(&self) -> (r: String)
        ensures
            r@ == route::tree_hash(Seq::empty(), Some(self.name@), false),
    {
        proof {
            reveal_strlit("");
            assert(""@ =~= Seq::<char>::empty());
        }
        tree_url("", Some(self.name.as_str()), false)
    }

    /// Where a tag's row leads: its page.
    pub fn tag_href(&self) -> (r: String)
        ensures
            r@ == route::tag_hash(self.name@),
    {
        tag_url(self.name.as_str())
    }

    /// A tag's archive: where it is, and what the file is called. It depends
    /// on the name alone, so there is nothing to wait for.
    pub fn snapshot_link(&self, repo_name: &str) -> (r: (String, String))
        ensures
            r.0@ == route::snapshot_hash(self.name@),
            r.1@ == snapshot::file_name(repo_name@, self.name@, SnapshotFormat::TarGz),
    {
        (
            snapshot_url(self.name.as_str()),
            snapshot_file_name(repo_name, self.name.as_str(), SnapshotFormat::TarGz),
        )
    }
}

/// Rows by the age of their commits, the most recent first.
pub struct ByAge;

impl Order<RefRow> for ByAge {
    open spec fn ranks_up_to(a: RefRow, b: RefRow) -> bool {
        age_key(a) <= age_key(b)
    }

    proof fn total(a: RefRow, b: RefRow) {
    }

    proof fn transitive(a: RefRow, b: RefRow, c: RefRow) {
    }

    fn check(a: &RefRow, b: &RefRow) -> (r: bool) {
        a.age_secs() <= b.age_secs()
    }
}

/// Sort rows by the age of their commits, the most recent first.
pub fn sort_by_age(rows: &mut Vec<RefRow>)
    ensures
        order::sorts::<RefRow, ByAge>(old(rows)@, final(rows)@),
{
    sort::<RefRow, ByAge>(rows);
}

/// Sorted rows go from the most recent commit to the least; a row whose commit is
/// not known goes first.
pub proof fn recent_rows_go_first(s: Seq<RefRow>, sorted: Seq<RefRow>, i: int, j: int)
    requires
        order::sorts::<RefRow, ByAge>(s, sorted),
        0 <= i < j < sorted.len(),
    ensures
        (sorted[i].meta matches Some(a) ==> (sorted[j].meta matches Some(b) ==> a.age.secs
            <= b.age.secs)),
        (sorted[i].meta matches Some(a) ==> sorted[j].meta is None ==> a.age.secs == 0),
        sorted.to_multiset() == s.to_multiset(),
{
    order::sorting_keeps_what_there_is::<RefRow, ByAge>(s, sorted);
    assert(ByAge::ranks_up_to(sorted[i], sorted[j]));
}

} // verus!
