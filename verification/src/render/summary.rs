//! The summary: the clone URL, the first branches and tags, and the most
//! recent commits.

use vstd::prelude::*;
use crate::order;
use crate::order::{sort, Order};
use crate::render::commits_table::CommitRow;
use crate::render::query;
use crate::render::query::{apply_decorations, Decorations, RefEntry};
use crate::render::refs_table::RefRow;
use crate::route::query as url_query;
use crate::text;
use crate::text::{concat, text_eq, text_le};

verus! {

/// How many branches, and how many tags, the summary lists.
pub const LISTED: usize = 10;

/// How many commits the summary lists.
pub const RECENT: usize = 10;

/// Refs by name.
pub struct ByName;

impl Order<(String, RefEntry)> for ByName {
    open spec fn ranks_up_to(a: (String, RefEntry), b: (String, RefEntry)) -> bool {
        text::sorts_up_to(a.0@, b.0@)
    }

    proof fn total(a: (String, RefEntry), b: (String, RefEntry)) {
        text::lemma_sorts_total(a.0@, b.0@);
    }

    proof fn transitive(a: (String, RefEntry), b: (String, RefEntry), c: (String, RefEntry)) {
        text::lemma_sorts_transitive(a.0@, b.0@, c.0@);
    }

    fn check(a: &(String, RefEntry), b: &(String, RefEntry)) -> (r: bool) {
        text_le(a.0.as_str(), b.0.as_str())
    }
}

/// Refs by name, the last first.
pub struct ByNameBackwards;

impl Order<(String, RefEntry)> for ByNameBackwards {
    open spec fn ranks_up_to(a: (String, RefEntry), b: (String, RefEntry)) -> bool {
        text::sorts_up_to(b.0@, a.0@)
    }

    proof fn total(a: (String, RefEntry), b: (String, RefEntry)) {
        text::lemma_sorts_total(a.0@, b.0@);
    }

    proof fn transitive(a: (String, RefEntry), b: (String, RefEntry), c: (String, RefEntry)) {
        text::lemma_sorts_transitive(c.0@, b.0@, a.0@);
    }

    fn check(a: &(String, RefEntry), b: &(String, RefEntry)) -> (r: bool) {
        text_le(b.0.as_str(), a.0.as_str())
    }
}

/// The branches that are not the one named `head`, in their order.
pub open spec fn others(branches: Seq<(String, RefEntry)>, head: Option<Seq<char>>) -> Seq<
    (String, RefEntry),
>
    decreases branches.len(),
{
    if branches.len() == 0 {
        branches
    } else if head == Some(branches.last().0@) {
        others(branches.drop_last(), head)
    } else {
        others(branches.drop_last(), head).push(branches.last())
    }
}

/// The branch named `head`; the last of them, should there be more.
pub open spec fn primary(branches: Seq<(String, RefEntry)>, head: Option<Seq<char>>) -> Seq<
    (String, RefEntry),
>
    decreases branches.len(),
{
    if branches.len() == 0 {
        branches
    } else if head == Some(branches.last().0@) {
        seq![branches.last()]
    } else {
        primary(branches.drop_last(), head)
    }
}

/// `s`, or as much of it as `limit` allows.
pub open spec fn up_to<T>(s: Seq<T>, limit: int) -> Seq<T> {
    if s.len() <= limit {
        s
    } else {
        s.take(limit)
    }
}

/// The refs that the summary lists.
pub struct ListedRefs {
    pub branches: Vec<(String, RefEntry)>,
    /// Whether there are branches that are not listed.
    pub more_branches: bool,
    pub tags: Vec<(String, RefEntry)>,
    /// Whether there are tags that are not listed.
    pub more_tags: bool,
}

proof fn lemma_primary(branches: Seq<(String, RefEntry)>, head: Option<Seq<char>>)
    ensures
        primary(branches, head).len() <= 1,
    decreases branches.len(),
{
    if branches.len() > 0 {
        lemma_primary(branches.drop_last(), head);
    }
}

/// Choose the refs that the summary lists. HEAD's branch goes first, and the
/// other branches follow by name; tags go by name, the last first. There are at
/// most ten of each.
pub fn list_refs(
    head: Option<&str>,
    branches: &Vec<(String, RefEntry)>,
    tags: &Vec<(String, RefEntry)>,
) -> (r: ListedRefs)
    ensures
        ({
            let named = url_query::opt_str(head);
            let first = primary(branches@, named);
            let rest = others(branches@, named);
            let limit = LISTED - first.len();
            &&& r.more_branches == (rest.len() > limit)
            &&& exists|sorted: Seq<(String, RefEntry)>|
                #![trigger order::sorts::<(String, RefEntry), ByName>(rest, sorted)]
                order::sorts::<(String, RefEntry), ByName>(rest, sorted) && r.branches@ == first
                    + up_to(sorted, limit)
        }),
        r.more_tags == (tags@.len() > LISTED),
        exists|sorted: Seq<(String, RefEntry)>|
            #![trigger order::sorts::<(String, RefEntry), ByNameBackwards>(tags@, sorted)]
            order::sorts::<(String, RefEntry), ByNameBackwards>(tags@, sorted) && r.tags@
                == up_to(sorted, LISTED as int),
        r.branches@.len() <= LISTED,
        r.tags@.len() <= LISTED,
{
    let ghost named = url_query::opt_str(head);
    let mut first: Vec<(String, RefEntry)> = Vec::new();
    let mut rest: Vec<(String, RefEntry)> = Vec::new();
    let mut i: usize = 0;
    proof {
        assert(first@ =~= primary(branches@.take(0), named));
        assert(rest@ =~= others(branches@.take(0), named));
    }
    while i < branches.len()
        invariant
            i <= branches@.len(),
            named == url_query::opt_str(head),
            first@ == primary(branches@.take(i as int), named),
            rest@ == others(branches@.take(i as int), named),
        decreases branches@.len() - i,
    {
        let ghost now = branches@.take(i + 1);
        proof {
            assert(now.drop_last() =~= branches@.take(i as int));
            assert(now.last() == branches@[i as int]);
        }
        let branch: (String, RefEntry) = (branches[i].0.clone(), branches[i].1);
        let is_head = match head {
            Some(h) => text_eq(h, branches[i].0.as_str()),
            None => false,
        };
        if is_head {
            first = Vec::new();
            first.push(branch);
            assert(first@ =~= seq![branches@[i as int]]);
        } else {
            rest.push(branch);
        }
        i = i + 1;
    }
    proof {
        assert(branches@.take(i as int) =~= branches@);
        lemma_primary(branches@, named);
    }
    sort::<(String, RefEntry), ByName>(&mut rest);
    let ghost sorted = rest@;
    let limit: usize = LISTED - first.len();
    let more_branches = rest.len() > limit;
    if more_branches {
        rest.truncate(limit);
    }
    first.append(&mut rest);
    let mut listed_tags: Vec<(String, RefEntry)> = Vec::new();
    let mut j: usize = 0;
    while j < tags.len()
        invariant
            j <= tags@.len(),
            listed_tags@ == tags@.take(j as int),
        decreases tags@.len() - j,
    {
        listed_tags.push((tags[j].0.clone(), tags[j].1));
        assert(listed_tags@ =~= tags@.take(j + 1));
        j = j + 1;
    }
    assert(tags@.take(j as int) =~= tags@);
    sort::<(String, RefEntry), ByNameBackwards>(&mut listed_tags);
    let ghost sorted_tags = listed_tags@;
    let more_tags = listed_tags.len() > LISTED;
    if more_tags {
        listed_tags.truncate(LISTED);
    }
    proof {
        assert(first@ =~= primary(branches@, named) + up_to(sorted, limit as int));
        assert(listed_tags@ =~= up_to(sorted_tags, LISTED as int));
        assert(order::sorts::<(String, RefEntry), ByName>(others(branches@, named), sorted));
        assert(order::sorts::<(String, RefEntry), ByNameBackwards>(tags@, sorted_tags));
    }
    ListedRefs { branches: first, more_branches, tags: listed_tags, more_tags }
}

/// The summary, as far as it is known.
pub struct SummaryProps {
    /// The names are known up front: the rows are there at once, and their
    /// commits are filled in from the top down as they resolve.
    pub branches: Vec<RefRow>,
    pub more_branches: bool,
    pub tags: Vec<RefRow>,
    pub more_tags: bool,
    /// Recent commits have no list up front: `None` until the first row
    /// arrives.
    pub commits: Option<Vec<CommitRow>>,
    pub clone_url: String,
}

/// Rows that show names alone.
pub open spec fn only_names(rows: Seq<RefRow>, refs: Seq<(String, RefEntry)>) -> bool {
    &&& rows.len() == refs.len()
    &&& forall|i: int|
        0 <= i < rows.len() ==> (#[trigger] rows[i]).name@ == refs[i].0@ && rows[i].meta is None
}

fn pending_rows(refs: &Vec<(String, RefEntry)>) -> (r: Vec<RefRow>)
    ensures
        only_names(r@, refs@),
{
    let mut rows: Vec<RefRow> = Vec::new();
    let mut i: usize = 0;
    while i < refs.len()
        invariant
            i <= refs@.len(),
            rows@.len() == i,
            forall|j: int|
                0 <= j < i ==> (#[trigger] rows@[j]).name@ == refs@[j].0@ && rows@[j].meta is None,
        decreases refs@.len() - i,
    {
        rows.push(RefRow::pending(refs[i].0.clone()));
        i = i + 1;
    }
    rows
}

impl SummaryProps {
    /// The summary before any commit has been read: the names alone.
    pub fn skeleton(refs: &ListedRefs, clone_url: &str) -> (r: Self)
        ensures
            only_names(r.branches@, refs.branches@),
            r.more_branches == refs.more_branches,
            only_names(r.tags@, refs.tags@),
            r.more_tags == refs.more_tags,
            r.commits is None,
            r.clone_url@ == clone_url@,
    {
        SummaryProps {
            branches: pending_rows(&refs.branches),
            more_branches: refs.more_branches,
            tags: pending_rows(&refs.tags),
            more_tags: refs.more_tags,
            commits: None,
            clone_url: clone_url.to_string(),
        }
    }

    /// The commit of branch `i` has been read.
    pub fn fill_branch(&mut self, i: usize, row: RefRow)
        requires
            i < old(self).branches@.len(),
        ensures
            final(self).branches@ == old(self).branches@.update(i as int, row),
            final(self).more_branches == old(self).more_branches,
            final(self).tags == old(self).tags,
            final(self).more_tags == old(self).more_tags,
            final(self).commits == old(self).commits,
            final(self).clone_url == old(self).clone_url,
    {
        self.branches.set(i, row);
    }

    /// The commit of tag `i` has been read.
    pub fn fill_tag(&mut self, i: usize, row: RefRow)
        requires
            i < old(self).tags@.len(),
        ensures
            final(self).tags@ == old(self).tags@.update(i as int, row),
            final(self).branches == old(self).branches,
            final(self).more_branches == old(self).more_branches,
            final(self).more_tags == old(self).more_tags,
            final(self).commits == old(self).commits,
            final(self).clone_url == old(self).clone_url,
    {
        self.tags.set(i, row);
    }

    /// The walk has got this far.
    pub fn fill_commits(&mut self, rows: Vec<CommitRow>)
        ensures
            final(self).commits == Some(rows),
            final(self).branches == old(self).branches,
            final(self).more_branches == old(self).more_branches,
            final(self).tags == old(self).tags,
            final(self).more_tags == old(self).more_tags,
            final(self).clone_url == old(self).clone_url,
    {
        self.commits = Some(rows);
    }

    /// The labels are known.
    pub fn decorate(&mut self, map: &Decorations)
        requires
            query::unique(map@),
        ensures
            match old(self).commits {
                Some(was) => final(self).commits matches Some(now) && now@.len() == was@.len()
                    && forall|i: int|
                    0 <= i < now@.len() ==> query::decorated(was@[i], #[trigger] now@[i], map@),
                None => final(self).commits is None,
            },
            final(self).branches == old(self).branches,
            final(self).more_branches == old(self).more_branches,
            final(self).tags == old(self).tags,
            final(self).more_tags == old(self).more_tags,
            final(self).clone_url == old(self).clone_url,
    {
        let mut commits: Option<Vec<CommitRow>> = None;
        std::mem::swap(&mut commits, &mut self.commits);
        if let Some(mut rows) = commits {
            apply_decorations(&mut rows, map);
            self.commits = Some(rows);
        }
    }

    /// The line that clones the repository.
    pub fn clone_line(&self) -> (r: String)
        ensures
            r@ == "git clone "@ + self.clone_url@,
    {
        concat("git clone ", self.clone_url.as_str())
    }
}

proof fn lemma_counts(branches: Seq<(String, RefEntry)>, head: Option<Seq<char>>)
    requires
        forall|i: int, j: int|
            0 <= i < j < branches.len() ==> (#[trigger] branches[i]).0@ != (
            #[trigger] branches[j]).0@,
    ensures
        others(branches, head).len() + primary(branches, head).len() == branches.len(),
    decreases branches.len(),
{
    if branches.len() > 0 {
        let before = branches.drop_last();
        lemma_counts(before, head);
        if head == Some(branches.last().0@) {
            assert forall|i: int| 0 <= i < before.len() implies head != Some(
                (#[trigger] before[i]).0@,
            ) by {
                assert(branches[i].0@ != branches[branches.len() - 1].0@);
            }
            lemma_all_others(before, head);
        }
    }
}

proof fn lemma_all_others(branches: Seq<(String, RefEntry)>, head: Option<Seq<char>>)
    requires
        forall|i: int| 0 <= i < branches.len() ==> head != Some((#[trigger] branches[i]).0@),
    ensures
        others(branches, head).len() == branches.len(),
        primary(branches, head).len() == 0,
    decreases branches.len(),
{
    if branches.len() > 0 {
        let before = branches.drop_last();
        assert(head != Some(branches[branches.len() - 1].0@));
        assert forall|i: int| 0 <= i < before.len() implies head != Some(
            (#[trigger] before[i]).0@,
        ) by {
            assert(before[i] == branches[i]);
        }
        lemma_all_others(before, head);
    }
}

/// Where no two branches share a name, "more" is said exactly where fewer
/// branches are listed than there are.
pub proof fn more_means_more(
    branches: Seq<(String, RefEntry)>,
    head: Option<Seq<char>>,
    sorted: Seq<(String, RefEntry)>,
)
    requires
        forall|i: int, j: int|
            0 <= i < j < branches.len() ==> (#[trigger] branches[i]).0@ != (
            #[trigger] branches[j]).0@,
        order::sorts::<(String, RefEntry), ByName>(others(branches, head), sorted),
    ensures
        ({
            let first = primary(branches, head);
            let limit = LISTED - first.len();
            let listed = first + up_to(sorted, limit);
            &&& (others(branches, head).len() > limit) == (listed.len() < branches.len())
            &&& listed.len() <= LISTED
        }),
{
    lemma_counts(branches, head);
    lemma_primary(branches, head);
}

/// HEAD's branch is taken out of the others, and none else is.
pub proof fn only_heads_branch_is_set_apart(
    a: Seq<(String, RefEntry)>,
    b: Seq<(String, RefEntry)>,
    one: (String, RefEntry),
    head: Option<Seq<char>>,
)
    ensures
        others(a + b, head) == others(a, head) + others(b, head),
        others(seq![one], head) == (if head is Some && head->0 == one.0@ {
            Seq::<(String, RefEntry)>::empty()
        } else {
            seq![one]
        }),
        head is Some && head->0 == one.0@ && others(b, head) == b ==> primary(a.push(one) + b, head)
            == seq![one],
        others(b, head) == b ==> primary(b, head).len() == 0,
    decreases b.len(),
{
    assert(seq![one].drop_last() =~= Seq::empty());
    assert(others(Seq::<(String, RefEntry)>::empty(), head) =~= Seq::empty());
    assert(others(seq![one], head) =~= (if head is Some && head->0 == one.0@ {
        Seq::<(String, RefEntry)>::empty()
    } else {
        seq![one]
    }));
    if b.len() == 0 {
        assert(a + b =~= a);
        assert(others(a, head) + others(b, head) =~= others(a, head));
        assert(a.push(one) + b =~= a.push(one));
    } else {
        let c = b.drop_last();
        assert((a + b).drop_last() =~= a + c);
        assert((a.push(one) + b).drop_last() =~= a.push(one) + c);
        only_heads_branch_is_set_apart(a, c, one, head);
        assert(others(a + b, head) =~= others(a, head) + others(b, head));
        lemma_no_more_others(c, head);
        if others(b, head) == b {
            assert(others(b, head).len() == b.len());
            if head == Some(b.last().0@) {
                assert(others(c, head).len() < b.len());
                assert(false);
            }
            assert(others(b, head).drop_last() =~= others(c, head));
            assert(b.drop_last() =~= c);
            assert((a.push(one) + b).last() == b.last());
        }
    }
}

proof fn lemma_no_more_others(branches: Seq<(String, RefEntry)>, head: Option<Seq<char>>)
    ensures
        others(branches, head).len() <= branches.len(),
    decreases branches.len(),
{
    if branches.len() > 0 {
        lemma_no_more_others(branches.drop_last(), head);
    }
}

/// A list shows its first entries, as many as fit: at most ten.
pub proof fn lists_show_their_first_entries(s: Seq<(String, RefEntry)>, limit: int)
    requires
        limit >= 0,
    ensures
        LISTED == 10,
        up_to(s, limit).is_prefix_of(s),
        up_to(s, limit).len() == s.len() || up_to(s, limit).len() == limit < s.len(),
{
    let t = up_to(s, limit);
    assert(t =~= s.subrange(0, t.len() as int));
}

/// Branches are sorted by name and tags by name backwards, character by character.
pub proof fn refs_are_sorted_by_name(
    s: Seq<(String, RefEntry)>,
    sorted: Seq<(String, RefEntry)>,
    i: int,
    j: int,
    common: Seq<char>,
    a: Seq<char>,
    b: Seq<char>,
)
    requires
        0 <= i < j < sorted.len(),
        sorted[i].0@ == common + a,
        sorted[j].0@ == common + b,
        a.len() > 0,
        b.len() > 0,
        a[0] != b[0],
    ensures
        order::sorts::<(String, RefEntry), ByName>(s, sorted) ==> (a[0] as int) < (b[0] as int)
            && sorted.to_multiset() == s.to_multiset(),
        order::sorts::<(String, RefEntry), ByNameBackwards>(s, sorted) ==> (a[0] as int) > (
        b[0] as int) && sorted.to_multiset() == s.to_multiset(),
{
    text::texts_sort_by_their_first_difference(common, a, b);
    text::texts_sort_by_their_first_difference(common, b, a);
    if order::sorts::<(String, RefEntry), ByName>(s, sorted) {
        order::sorting_keeps_what_there_is::<(String, RefEntry), ByName>(s, sorted);
        assert(ByName::ranks_up_to(sorted[i], sorted[j]));
    }
    if order::sorts::<(String, RefEntry), ByNameBackwards>(s, sorted) {
        order::sorting_keeps_what_there_is::<(String, RefEntry), ByNameBackwards>(s, sorted);
        assert(ByNameBackwards::ranks_up_to(sorted[i], sorted[j]));
    }
}

} // verus!
