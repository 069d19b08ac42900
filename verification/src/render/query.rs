//! Reading the repository for a listing: refs into rows, commits into rows,
//! and the labels that decorate them.

use vstd::prelude::*;
use crate::object;
use crate::object::ObjectId;
use crate::number;
use crate::number::decimal_text;
use crate::render::commits_table;
use crate::render::commits_table::{short_hash, CommitRow, RefLabel, RefLabelKind};
use crate::render::refs_table::{RefMeta, RefRow};
use crate::render::time::{Age, Moment};
use crate::text;
use crate::text::{
    concat3,
    find_char,
    has_suffix,
    trim_start_of,
    trimmed_end,
    without_prefix,
};
use crate::utf8;
use crate::utf8::lossy_text;

verus! {

/// The first line of `s`: up to its first line feed, and the carriage return
/// in front of that is part of the line's end.
pub open spec fn first_line(s: Seq<char>) -> Seq<char> {
    let line = text::before(s, '\n');
    if s.contains('\n') && line.len() > 0 && line.last() == '\r' {
        line.drop_last()
    } else {
        line
    }
}

/// The subject of a commit message.
pub open spec fn subject(message: Seq<char>) -> Seq<char> {
    first_line(text::trim_space_end(message))
}

/// Everything after a commit message's subject line.
pub open spec fn body(message: Seq<char>) -> Seq<char> {
    text::trim_space_end(text::trim_start(text::after(message, '\n'), '\n'))
}

/// The subject of a commit message that has been read as text.
pub fn subject_of(message: &str) -> (r: String)
    ensures
        r@ == subject(message@),
{
    let trimmed = trimmed_end(message);
    proof {
        text::lemma_first_index(trimmed@, '\n');
    }
    match find_char(trimmed, '\n') {
        Some(at) => {
            let line = trimmed.substring_char(0, at);
            proof {
                assert(line@ =~= text::before(trimmed@, '\n'));
                reveal_strlit("\r");
                assert("\r"@.len() == 1 && "\r"@[0] == '\r');
                if line@.len() > 0 {
                    assert(line@.subrange(line@.len() - 1, line@.len() as int)[0] == line@.last());
                    assert("\r"@.is_suffix_of(line@) <==> line@.last() == '\r') by {
                        if line@.last() == '\r' {
                            assert("\r"@ =~= line@.subrange(line@.len() - 1, line@.len() as int));
                        }
                    }
                }
            }
            if has_suffix(line, "\r") {
                let shorter = line.substring_char(0, line.unicode_len() - 1);
                proof {
                    assert(shorter@ =~= line@.drop_last());
                }
                shorter.to_string()
            } else {
                line.to_string()
            }
        },
        None => {
            proof {
                assert(text::before(trimmed@, '\n') =~= trimmed@);
            }
            trimmed.to_string()
        },
    }
}

/// Everything after the subject line of a commit message that has been read as
/// text.
pub fn body_of(message: &str) -> (r: String)
    ensures
        r@ == body(message@),
{
    proof {
        text::lemma_first_index(message@, '\n');
    }
    match find_char(message, '\n') {
        Some(at) => {
            let len: usize = message.unicode_len();
            let rest = message.substring_char(at + 1, len);
            proof {
                assert(rest@ =~= text::after(message@, '\n'));
            }
            trimmed_end(trim_start_of(rest, '\n')).to_string()
        },
        None => {
            proof {
                assert(body(message@) =~= Seq::empty());
            }
            String::new()
        },
    }
}

/// A commit message's subject.
pub fn commit_first_line(message: &[u8]) -> (r: String)
    ensures
        r@ == subject(utf8::lossy(message@)),
{
    subject_of(lossy_text(message).as_str())
}

/// Everything after a commit message's subject line.
pub fn commit_body(message: &[u8]) -> (r: String)
    ensures
        r@ == body(utf8::lossy(message@)),
{
    body_of(lossy_text(message).as_str())
}

/// The name of a ref.
pub enum RefName {
    Head,
    /// A ref's name below `refs/`.
    Ref(Vec<u8>),
}

/// What a ref that is read points at.
pub enum RefTarget {
    Direct(ObjectId),
    Symbolic(RefName),
}

/// An entry of the ref listing: the object a ref names, and where that is a
/// tag and the listing says so, the object the tag comes down to.
#[derive(Clone, Copy, Debug)]
pub struct RefEntry {
    pub target: ObjectId,
    pub peeled: Option<ObjectId>,
}

/// The object that a ref's commit is looked for at.
pub open spec fn target_of(entry: RefEntry) -> ObjectId {
    match entry.peeled {
        Some(id) => id,
        None => entry.target,
    }
}

impl RefEntry {
    /// The object that the ref's commit is looked for at.
    pub fn commit_target(&self) -> (r: ObjectId)
        ensures
            r == target_of(*self),
    {
        match self.peeled {
            Some(id) => id,
            None => self.target,
        }
    }
}

/// The bytes of `heads/`.
pub open spec fn heads_folder() -> Seq<u8> {
    seq![104u8, 101u8, 97u8, 100u8, 115u8, 47u8]
}

/// The branch that HEAD is on, where it is on one.
pub open spec fn branch_of(head: RefTarget) -> Option<Seq<char>> {
    match head {
        RefTarget::Symbolic(RefName::Ref(name)) => if heads_folder().is_prefix_of(name@) {
            Some(utf8::lossy(name@.skip(6)))
        } else {
            None
        },
        _ => None,
    }
}

/// The branch that HEAD is on, from what HEAD points at.
pub fn head_branch_name(head: &RefTarget) -> (r: Option<String>)
    ensures
        match r {
            Some(branch) => branch_of(*head) == Some(branch@),
            None => branch_of(*head) is None,
        },
{
    if let RefTarget::Symbolic(RefName::Ref(name)) = head {
        if name.len() >= 6 && name[0] == 104 && name[1] == 101 && name[2] == 97 && name[3] == 100
            && name[4] == 115 && name[5] == 47 {
            let branch = vstd::slice::slice_subrange(name.as_slice(), 6, name.len());
            proof {
                assert(heads_folder() =~= name@.subrange(0, 6));
                assert(branch@ =~= name@.skip(6));
            }
            Some(lossy_text(branch))
        } else {
            proof {
                if heads_folder().is_prefix_of(name@) {
                    let front = name@.subrange(0, 6);
                    assert(front == heads_folder());
                    assert forall|i: int| 0 <= i < 6 implies name@[i] == heads_folder()[i] by {
                        assert(front[i] == name@[i]);
                    }
                    assert(false);
                }
            }
            None
        }
    } else {
        None
    }
}

/// A list of named refs, as text.
pub open spec fn named(refs: Seq<(String, RefEntry)>) -> Seq<(Seq<char>, RefEntry)> {
    refs.map_values(|p: (String, RefEntry)| (p.0@, p.1))
}

/// The refs below a folder, in the order they are listed, each by its name
/// there.
pub open spec fn below(refs: Seq<(RefName, RefEntry)>, folder: Seq<char>) -> Seq<
    (Seq<char>, RefEntry),
>
    decreases refs.len(),
{
    if refs.len() == 0 {
        Seq::empty()
    } else {
        let earlier = below(refs.drop_last(), folder);
        match refs.last().0 {
            RefName::Head => earlier,
            RefName::Ref(name) => match text::strip_prefix(utf8::lossy(name@), folder) {
                Some(short) => earlier.push((short, refs.last().1)),
                None => earlier,
            },
        }
    }
}

/// Split the listing of refs into short-named branches and tags.
pub fn collect_refs(refs: &Vec<(RefName, RefEntry)>) -> (r: (
    Vec<(String, RefEntry)>,
    Vec<(String, RefEntry)>,
))
    ensures
        named(r.0@) == below(refs@, "heads/"@),
        named(r.1@) == below(refs@, "tags/"@),
{
    let mut branches: Vec<(String, RefEntry)> = Vec::new();
    let mut tags: Vec<(String, RefEntry)> = Vec::new();
    let mut i: usize = 0;
    proof {
        assert(named(branches@) =~= below(refs@.take(0), "heads/"@));
        assert(named(tags@) =~= below(refs@.take(0), "tags/"@));
    }
    while i < refs.len()
        invariant
            i <= refs@.len(),
            named(branches@) == below(refs@.take(i as int), "heads/"@),
            named(tags@) == below(refs@.take(i as int), "tags/"@),
        decreases refs@.len() - i,
    {
        let ghost now = refs@.take(i + 1);
        let ghost (b0, t0) = (named(branches@), named(tags@));
        proof {
            assert(now.drop_last() =~= refs@.take(i as int));
            assert(now.last() == refs@[i as int]);
        }
        let entry: RefEntry = refs[i].1;
        match &refs[i].0 {
            RefName::Head => {},
            RefName::Ref(name) => {
                let label = lossy_text(name.as_slice());
                proof {
                    lemma_one_folder(label@);
                }
                if let Some(short) = without_prefix(label.as_str(), "heads/") {
                    branches.push((short.to_string(), entry));
                    assert(named(branches@) =~= b0.push((short@, entry)));
                } else if let Some(short) = without_prefix(label.as_str(), "tags/") {
                    tags.push((short.to_string(), entry));
                    assert(named(tags@) =~= t0.push((short@, entry)));
                }
            },
        }
        i = i + 1;
    }
    proof {
        assert(refs@.take(i as int) =~= refs@);
    }
    (branches, tags)
}

/// A name is in one folder only.
proof fn lemma_one_folder(label: Seq<char>)
    ensures
        !("heads/"@.is_prefix_of(label) && "tags/"@.is_prefix_of(label)),
{
    reveal_strlit("heads/");
    reveal_strlit("tags/");
    if "heads/"@.is_prefix_of(label) && "tags/"@.is_prefix_of(label) {
        assert(label.subrange(0, 6)[0] == 'h');
        assert(label.subrange(0, 5)[0] == 't');
    }
}

/// What a row needs of a commit. The author's name is the one that the mailmap
/// gives.
pub struct CommitInfo {
    pub id: ObjectId,
    pub message: Vec<u8>,
    pub author_name: Vec<u8>,
    pub author_date: Moment,
}

/// How many whole seconds before `now_ms` a moment was.
pub open spec fn seconds_ago(when: Moment, now_ms: i64) -> int {
    if now_ms >= when.unix_ms {
        (now_ms - when.unix_ms) / 1000
    } else {
        0
    }
}

/// The row of a commit that nothing decorates.
pub open spec fn row_shows(row: CommitRow, c: CommitInfo, now_ms: i64) -> bool {
    &&& row.id == c.id
    &&& row.short_hash@ == object::hex_text(c.id@).take(8)
    &&& row.message@ == subject(utf8::lossy(c.message@))
    &&& row.body@ == body(utf8::lossy(c.message@))
    &&& row.author@ == utf8::lossy(c.author_name@)
    &&& row.age.secs == seconds_ago(c.author_date, now_ms)
    &&& row.age.when == c.author_date.date
    &&& row.refs@.len() == 0
}

/// Turn a commit into the row the log and summary tables render, with no ref
/// decorations attached — [`apply_decorations`] folds those in once they are
/// known, so peeling every tag never holds up the commit rows.
pub fn commit_row(c: &CommitInfo, now_ms: i64) -> (r: CommitRow)
    ensures
        row_shows(r, *c, now_ms),
{
    CommitRow {
        id: c.id,
        short_hash: short_hash(c.id),
        message: commit_first_line(c.message.as_slice()),
        body: commit_body(c.message.as_slice()),
        author: lossy_text(c.author_name.as_slice()),
        age: Age::new(&c.author_date, now_ms),
        refs: Vec::new(),
    }
}

/// The rows of `commits`, in their order.
pub fn commit_rows(commits: &Vec<CommitInfo>, now_ms: i64) -> (r: Vec<CommitRow>)
    ensures
        r@.len() == commits@.len(),
        forall|i: int| 0 <= i < r@.len() ==> row_shows(#[trigger] r@[i], commits@[i], now_ms),
{
    let mut rows: Vec<CommitRow> = Vec::new();
    let mut i: usize = 0;
    while i < commits.len()
        invariant
            i <= commits@.len(),
            rows@.len() == i,
            forall|j: int| 0 <= j < i ==> row_shows(#[trigger] rows@[j], commits@[j], now_ms),
        decreases commits@.len() - i,
    {
        rows.push(commit_row(&commits[i], now_ms));
        i = i + 1;
    }
    rows
}

/// A name and an address that the mailmap gave, as text.
pub fn mapped_ident(name: &[u8], email: &[u8]) -> (r: (String, String))
    ensures
        r.0@ == utf8::lossy(name@),
        r.1@ == utf8::lossy(email@),
{
    (lossy_text(name), lossy_text(email))
}

/// The row of a ref whose commit has been read.
pub open spec fn ref_row_shows(
    row: RefRow,
    name: Seq<char>,
    c: CommitInfo,
    now_ms: i64,
) -> bool {
    &&& row.name@ == name
    &&& row.meta matches Some(meta) && {
        &&& meta.message@ == subject(utf8::lossy(c.message@))
        &&& meta.author@ == utf8::lossy(c.author_name@)
        &&& meta.age.secs == seconds_ago(c.author_date, now_ms)
        &&& meta.age.when == c.author_date.date
    }
}

/// The row of a ref whose commit has been read.
pub fn ref_row(name: String, c: &CommitInfo, now_ms: i64) -> (r: RefRow)
    ensures
        ref_row_shows(r, name@, *c, now_ms),
{
    RefRow {
        name,
        meta: Some(
            RefMeta {
                message: commit_first_line(c.message.as_slice()),
                author: lossy_text(c.author_name.as_slice()),
                age: Age::new(&c.author_date, now_ms),
            },
        ),
    }
}

/// Which of the commits were found, in order.
pub open spec fn found_at(commits: Seq<Option<CommitInfo>>) -> Seq<int>
    decreases commits.len(),
{
    if commits.len() == 0 {
        Seq::empty()
    } else if commits.last() is Some {
        found_at(commits.drop_last()).push(commits.len() - 1)
    } else {
        found_at(commits.drop_last())
    }
}

/// The rows of refs whose commits have been looked up; a ref whose commit was
/// not found has none.
pub fn found_ref_rows(
    refs: &Vec<(String, RefEntry)>,
    commits: &Vec<Option<CommitInfo>>,
    now_ms: i64,
) -> (r: Vec<RefRow>)
    requires
        refs@.len() == commits@.len(),
    ensures
        r@.len() == found_at(commits@).len(),
        forall|k: int|
            0 <= k < r@.len() ==> ref_row_shows(
                #[trigger] r@[k],
                refs@[found_at(commits@)[k]].0@,
                commits@[found_at(commits@)[k]]->0,
                now_ms,
            ),
{
    let mut rows: Vec<RefRow> = Vec::new();
    let mut i: usize = 0;
    while i < refs.len()
        invariant
            i <= refs@.len(),
            refs@.len() == commits@.len(),
            rows@.len() == found_at(commits@.take(i as int)).len(),
            forall|k: int|
                0 <= k < rows@.len() ==> 0 <= #[trigger] found_at(commits@.take(i as int))[k]
                    < i,
            forall|k: int|
                0 <= k < rows@.len() ==> ref_row_shows(
                    #[trigger] rows@[k],
                    refs@[found_at(commits@.take(i as int))[k]].0@,
                    commits@[found_at(commits@.take(i as int))[k]]->0,
                    now_ms,
                ),
        decreases refs@.len() - i,
    {
        let ghost now = commits@.take(i + 1);
        proof {
            assert(now.drop_last() =~= commits@.take(i as int));
            assert(now.last() == commits@[i as int]);
        }
        if let Some(c) = &commits[i] {
            rows.push(ref_row(refs[i].0.clone(), c, now_ms));
        }
        i = i + 1;
    }
    proof {
        assert(commits@.take(i as int) =~= commits@);
    }
    rows
}

/// Labels, each with the object it decorates.
pub type Decorations = Vec<(ObjectId, Vec<RefLabel>)>;

/// The labels of an object, where it has any.
pub open spec fn labels_of(map: Seq<(ObjectId, Vec<RefLabel>)>, id: Seq<u8>) -> Option<
    Seq<(Seq<char>, RefLabelKind)>,
>
    decreases map.len(),
{
    if map.len() == 0 {
        None
    } else if map.last().0@ == id {
        Some(commits_table::labels_view(map.last().1@))
    } else {
        labels_of(map.drop_last(), id)
    }
}

/// No object stands in the map twice.
pub open spec fn unique(map: Seq<(ObjectId, Vec<RefLabel>)>) -> bool {
    forall|i: int, j: int|
        0 <= i < j < map.len() ==> (#[trigger] map[i]).0@ != (#[trigger] map[j]).0@
}

proof fn lemma_labels_of(map: Seq<(ObjectId, Vec<RefLabel>)>, at: int, id: Seq<u8>)
    requires
        unique(map),
        0 <= at < map.len(),
        map[at].0@ == id,
    ensures
        labels_of(map, id) == Some(commits_table::labels_view(map[at].1@)),
    decreases map.len(),
{
    if at < map.len() - 1 {
        assert(map[at].0@ != map[map.len() - 1].0@);
        lemma_labels_of(map.drop_last(), at, id);
    }
}

proof fn lemma_no_labels(map: Seq<(ObjectId, Vec<RefLabel>)>, id: Seq<u8>)
    requires
        forall|i: int| 0 <= i < map.len() ==> (#[trigger] map[i]).0@ != id,
    ensures
        labels_of(map, id) is None,
    decreases map.len(),
{
    if map.len() > 0 {
        lemma_no_labels(map.drop_last(), id);
    }
}

/// A change of one entry changes the labels of its object alone.
proof fn lemma_labels_elsewhere(
    a: Seq<(ObjectId, Vec<RefLabel>)>,
    b: Seq<(ObjectId, Vec<RefLabel>)>,
    at: int,
    id: Seq<u8>,
)
    requires
        a.len() == b.len(),
        0 <= at < a.len(),
        forall|i: int| 0 <= i < a.len() && i != at ==> a[i] == b[i],
        a[at].0 == b[at].0,
        a[at].0@ != id,
    ensures
        labels_of(a, id) == labels_of(b, id),
    decreases a.len(),
{
    if at == a.len() - 1 {
        assert(a.drop_last() =~= b.drop_last());
    } else {
        lemma_labels_elsewhere(a.drop_last(), b.drop_last(), at, id);
    }
}

/// The labels of `id` after one more.
pub open spec fn one_more(
    was: Option<Seq<(Seq<char>, RefLabelKind)>>,
    label: (Seq<char>, RefLabelKind),
) -> Option<Seq<(Seq<char>, RefLabelKind)>> {
    match was {
        Some(labels) => Some(labels.push(label)),
        None => Some(seq![label]),
    }
}

/// Put one more label on an object.
fn add_label(map: &mut Decorations, id: &ObjectId, name: &String, kind: RefLabelKind)
    requires
        unique(old(map)@),
    ensures
        unique(final(map)@),
        forall|other: Seq<u8>| #[trigger]
            labels_of(final(map)@, other) == (if other == id@ {
                one_more(labels_of(old(map)@, other), (name@, kind))
            } else {
                labels_of(old(map)@, other)
            }),
{
    let label = RefLabel { name: name.clone(), kind };
    let mut i: usize = 0;
    while i < map.len()
        invariant
            i <= map@.len(),
            map@ == old(map)@,
            unique(map@),
            commits_table::label_view(label) == (name@, kind),
            forall|j: int| 0 <= j < i ==> (#[trigger] map@[j]).0@ != id@,
        decreases map@.len() - i,
    {
        if map[i].0.same(id) {
            let ghost was = map@;
            map[i].1.push(label);
            proof {
                assert(map@[i as int].0 == was[i as int].0);
                assert(forall|j: int| 0 <= j < was.len() && j != i ==> map@[j] == was[j]);
                assert(unique(map@)) by {
                    assert forall|j: int, k: int| 0 <= j < k < map@.len() implies (
                    #[trigger] map@[j]).0@ != (#[trigger] map@[k]).0@ by {
                        assert(was[j].0@ != was[k].0@);
                    }
                }
                lemma_labels_of(was, i as int, id@);
                lemma_labels_of(map@, i as int, id@);
                assert(commits_table::labels_view(map@[i as int].1@)
                    =~= commits_table::labels_view(was[i as int].1@).push((name@, kind)));
                assert forall|other: Seq<u8>| #[trigger]
                    labels_of(map@, other) == (if other == id@ {
                        one_more(labels_of(was, other), (name@, kind))
                    } else {
                        labels_of(was, other)
                    }) by {
                    if other != id@ {
                        lemma_labels_elsewhere(map@, was, i as int, other);
                    }
                }
            }
            return;
        }
        i = i + 1;
    }
    let mut labels: Vec<RefLabel> = Vec::new();
    labels.push(label);
    let ghost was = map@;
    map.push((*id, labels));
    proof {
        lemma_no_labels(was, id@);
        assert(map@.drop_last() =~= was);
        assert(commits_table::labels_view(labels@) =~= seq![(name@, kind)]);
        assert(unique(map@)) by {
            assert forall|j: int, k: int| 0 <= j < k < map@.len() implies (
            #[trigger] map@[j]).0@ != (#[trigger] map@[k]).0@ by {
                if k < was.len() {
                    assert(was[j].0@ != was[k].0@);
                } else {
                    assert(was[j].0@ != id@);
                }
            }
        }
    }
}

/// The labels that refs put on the object named `id`, in their order.
pub open spec fn labels_on(
    refs: Seq<(Seq<char>, Option<ObjectId>)>,
    kind: RefLabelKind,
    id: Seq<u8>,
) -> Seq<(Seq<char>, RefLabelKind)>
    decreases refs.len(),
{
    if refs.len() == 0 {
        Seq::empty()
    } else {
        let earlier = labels_on(refs.drop_last(), kind, id);
        match refs.last().1 {
            Some(target) => if target@ == id {
                earlier.push((refs.last().0, kind))
            } else {
                earlier
            },
            None => earlier,
        }
    }
}

/// Names, each with the object it points at where that is known.
pub open spec fn pointed(refs: Seq<(String, Option<ObjectId>)>) -> Seq<
    (Seq<char>, Option<ObjectId>),
> {
    refs.map_values(|p: (String, Option<ObjectId>)| (p.0@, p.1))
}

/// No labels are no entry.
pub open spec fn some_labels(labels: Seq<(Seq<char>, RefLabelKind)>) -> Option<
    Seq<(Seq<char>, RefLabelKind)>,
> {
    if labels.len() == 0 {
        None
    } else {
        Some(labels)
    }
}

/// Add the labels of `refs` to those that `before` stands for.
fn add_labels(
    map: &mut Decorations,
    refs: &Vec<(String, Option<ObjectId>)>,
    kind: RefLabelKind,
    Ghost(before): Ghost<spec_fn(Seq<u8>) -> Seq<(Seq<char>, RefLabelKind)>>,
)
    requires
        unique(old(map)@),
        forall|id: Seq<u8>| #[trigger] labels_of(old(map)@, id) == some_labels(before(id)),
    ensures
        unique(final(map)@),
        forall|id: Seq<u8>| #[trigger]
            labels_of(final(map)@, id) == some_labels(
                before(id) + labels_on(pointed(refs@), kind, id),
            ),
{
    let mut i: usize = 0;
    proof {
        assert forall|id: Seq<u8>| #[trigger]
            labels_of(map@, id) == some_labels(
                before(id) + labels_on(pointed(refs@).take(0), kind, id),
            ) by {
            assert(before(id) + labels_on(pointed(refs@).take(0), kind, id) =~= before(id));
        }
    }
    while i < refs.len()
        invariant
            i <= refs@.len(),
            unique(map@),
            forall|id: Seq<u8>| #[trigger]
                labels_of(map@, id) == some_labels(
                    before(id) + labels_on(pointed(refs@).take(i as int), kind, id),
                ),
        decreases refs@.len() - i,
    {
        let ghost was = map@;
        let ghost now = pointed(refs@).take(i + 1);
        proof {
            assert(now.drop_last() =~= pointed(refs@).take(i as int));
            assert(now.last() == (refs@[i as int].0@, refs@[i as int].1));
        }
        if let Some(id) = &refs[i].1 {
            add_label(map, id, &refs[i].0, kind);
            proof {
                assert forall|other: Seq<u8>| #[trigger]
                    labels_of(map@, other) == some_labels(
                        before(other) + labels_on(now, kind, other),
                    ) by {
                    assert(labels_of(was, other) == some_labels(
                        before(other) + labels_on(now.drop_last(), kind, other),
                    ));
                    if other == id@ {
                        assert(before(other) + labels_on(now, kind, other) =~= (before(other)
                            + labels_on(now.drop_last(), kind, other)).push(
                            (refs@[i as int].0@, kind),
                        ));
                        if (before(other) + labels_on(now.drop_last(), kind, other)).len() == 0 {
                            assert(before(other) + labels_on(now, kind, other)
                                =~= seq![(refs@[i as int].0@, kind)]);
                        }
                    }
                }
            }
        } else {
            proof {
                assert forall|other: Seq<u8>| #[trigger]
                    labels_of(map@, other) == some_labels(
                        before(other) + labels_on(now, kind, other),
                    ) by {
                    assert(labels_of(was, other) == some_labels(
                        before(other) + labels_on(now.drop_last(), kind, other),
                    ));
                }
            }
        }
        i = i + 1;
    }
    proof {
        assert(pointed(refs@).take(i as int) =~= pointed(refs@));
    }
}

/// The branches, each with the object its commit is looked for at.
pub fn branch_targets(branches: &Vec<(String, RefEntry)>) -> (r: Vec<(String, Option<ObjectId>)>)
    ensures
        pointed(r@) == branches@.map_values(
            |p: (String, RefEntry)| (p.0@, Some(target_of(p.1))),
        ),
{
    let mut out: Vec<(String, Option<ObjectId>)> = Vec::new();
    let mut i: usize = 0;
    while i < branches.len()
        invariant
            i <= branches@.len(),
            out@.len() == i,
            forall|j: int|
                0 <= j < i ==> (#[trigger] out@[j]).0@ == branches@[j].0@ && out@[j].1 == Some(
                    target_of(branches@[j].1),
                ),
        decreases branches@.len() - i,
    {
        out.push((branches[i].0.clone(), Some(branches[i].1.commit_target())));
        i = i + 1;
    }
    proof {
        assert(pointed(out@) =~= branches@.map_values(
            |p: (String, RefEntry)| (p.0@, Some(target_of(p.1))),
        ));
    }
    out
}

/// The tags, each with its commit: the one the ref records, or else the one that
/// was found by looking, if any was.
pub fn tag_targets(tags: &Vec<(String, RefEntry)>, found: &Vec<Option<ObjectId>>) -> (r: Vec<
    (String, Option<ObjectId>),
>)
    requires
        found@.len() == tags@.len(),
    ensures
        pointed(r@) == Seq::new(
            tags@.len(),
            |i: int|
                (
                    tags@[i].0@,
                    match tags@[i].1.peeled {
                        Some(id) => Some(id),
                        None => found@[i],
                    },
                ),
        ),
{
    let mut out: Vec<(String, Option<ObjectId>)> = Vec::new();
    let mut i: usize = 0;
    while i < tags.len()
        invariant
            i <= tags@.len(),
            found@.len() == tags@.len(),
            out@.len() == i,
            forall|j: int|
                0 <= j < i ==> (#[trigger] out@[j]).0@ == tags@[j].0@ && out@[j].1 == (
                match tags@[j].1.peeled {
                    Some(id) => Some(id),
                    None => found@[j],
                }),
        decreases tags@.len() - i,
    {
        let commit: Option<ObjectId> = match tags[i].1.peeled {
            Some(id) => Some(id),
            None => found[i],
        };
        out.push((tags[i].0.clone(), commit));
        i = i + 1;
    }
    proof {
        assert(pointed(out@) =~= Seq::new(
            tags@.len(),
            |i: int|
                (
                    tags@[i].0@,
                    match tags@[i].1.peeled {
                        Some(id) => Some(id),
                        None => found@[i],
                    },
                ),
        ));
    }
    out
}

/// Map each decorated commit to its labels: those of its branches, then those
/// of its tags, each in the order they are listed. A tag whose commit is not
/// known decorates nothing.
pub fn decoration_map(
    branches: &Vec<(String, Option<ObjectId>)>,
    tags: &Vec<(String, Option<ObjectId>)>,
) -> (r: Decorations)
    ensures
        unique(r@),
        forall|id: Seq<u8>| #[trigger]
            labels_of(r@, id) == some_labels(
                labels_on(pointed(branches@), RefLabelKind::Branch, id) + labels_on(
                    pointed(tags@),
                    RefLabelKind::Tag,
                    id,
                ),
            ),
{
    let mut map: Decorations = Vec::new();
    let ghost none = |id: Seq<u8>| Seq::<(Seq<char>, RefLabelKind)>::empty();
    add_labels(&mut map, branches, RefLabelKind::Branch, Ghost(none));
    let ghost with_branches = |id: Seq<u8>|
        labels_on(pointed(branches@), RefLabelKind::Branch, id);
    proof {
        assert forall|id: Seq<u8>| #[trigger]
            labels_of(map@, id) == some_labels(with_branches(id)) by {
            assert(none(id) + labels_on(pointed(branches@), RefLabelKind::Branch, id)
                =~= with_branches(id));
        }
    }
    add_labels(&mut map, tags, RefLabelKind::Tag, Ghost(with_branches));
    map
}

fn copy_labels(labels: &Vec<RefLabel>) -> (r: Vec<RefLabel>)
    ensures
        commits_table::labels_view(r@) == commits_table::labels_view(labels@),
{
    let mut out: Vec<RefLabel> = Vec::new();
    let mut i: usize = 0;
    while i < labels.len()
        invariant
            i <= labels@.len(),
            out@.len() == i,
            forall|j: int|
                0 <= j < i ==> commits_table::label_view(#[trigger] out@[j])
                    == commits_table::label_view(labels@[j]),
        decreases labels@.len() - i,
    {
        out.push(labels[i].copy());
        i = i + 1;
    }
    proof {
        assert(commits_table::labels_view(out@) =~= commits_table::labels_view(labels@));
    }
    out
}

fn find_labels(map: &Decorations, id: &ObjectId) -> (r: Option<Vec<RefLabel>>)
    requires
        unique(map@),
    ensures
        match r {
            Some(labels) => labels_of(map@, id@) == Some(commits_table::labels_view(labels@)),
            None => labels_of(map@, id@) is None,
        },
{
    let mut i: usize = 0;
    while i < map.len()
        invariant
            i <= map@.len(),
            unique(map@),
            forall|j: int| 0 <= j < i ==> (#[trigger] map@[j]).0@ != id@,
        decreases map@.len() - i,
    {
        if map[i].0.same(id) {
            proof {
                lemma_labels_of(map@, i as int, id@);
            }
            return Some(copy_labels(&map[i].1));
        }
        i = i + 1;
    }
    proof {
        lemma_no_labels(map@, id@);
    }
    None
}

/// The row with the labels of its commit, where it has any; all else of it is
/// as it was.
pub open spec fn decorated(
    was: CommitRow,
    now: CommitRow,
    map: Seq<(ObjectId, Vec<RefLabel>)>,
) -> bool {
    &&& now.id == was.id
    &&& now.short_hash == was.short_hash
    &&& now.message == was.message
    &&& now.body == was.body
    &&& now.author == was.author
    &&& now.age == was.age
    &&& match labels_of(map, was.id@) {
        Some(labels) => commits_table::labels_view(now.refs@) == labels,
        None => now.refs == was.refs,
    }
}

/// Fold the labels into rows that are already built, matching on the commit's
/// id, so a page can stream rows without labels and add them once they are
/// known.
pub fn apply_decorations(rows: &mut Vec<CommitRow>, map: &Decorations)
    requires
        unique(map@),
    ensures
        final(rows)@.len() == old(rows)@.len(),
        forall|i: int|
            0 <= i < final(rows)@.len() ==> decorated(
                old(rows)@[i],
                #[trigger] final(rows)@[i],
                map@,
            ),
{
    if map.len() == 0 {
        return;
    }
    let mut i: usize = 0;
    while i < rows.len()
        invariant
            i <= rows@.len(),
            unique(map@),
            rows@.len() == old(rows)@.len(),
            forall|j: int|
                0 <= j < i ==> decorated(old(rows)@[j], #[trigger] rows@[j], map@),
            forall|j: int| i <= j < rows@.len() ==> rows@[j] == old(rows)@[j],
        decreases rows@.len() - i,
    {
        if let Some(labels) = find_labels(map, &rows[i].id) {
            rows[i].refs = labels;
        }
        i = i + 1;
    }
}

/// What the console is told of a walk.
pub open spec fn walk_text(
    path: Option<Seq<char>>,
    stats: Seq<char>,
    rows: nat,
    has_more: bool,
) -> Seq<char> {
    "webgit: log walk"@ + (match path {
        Some(p) => " ["@ + p + "]"@,
        None => ""@,
    }) + ": "@ + stats + ", showing "@ + number::decimal(rows) + " rows"@ + (if has_more {
        " (more pages)"@
    } else {
        ""@
    })
}

/// What the console is told of a walk: what it cost, which shows whether the
/// commit-graph is actually doing the work.
pub fn walk_report(path: Option<&str>, stats: &str, rows: usize, has_more: bool) -> (r: String)
    ensures
        r@ == walk_text(
            (match path {
                Some(p) => Some(p@),
                None => None,
            }),
            stats@,
            rows as nat,
            has_more,
        ),
{
    let filter = match path {
        Some(p) => concat3(" [", p, "]"),
        None => "".to_string(),
    };
    let mut out = concat3("webgit: log walk", filter.as_str(), ": ");
    out.append(stats);
    out.append(", showing ");
    out.append(decimal_text(rows as u64).as_str());
    out.append(" rows");
    out.append(
        if has_more {
            " (more pages)"
        } else {
            ""
        },
    );
    out
}

/// A commit carries a label exactly where a ref of that name points at it.
pub proof fn labels_are_the_refs_that_point_there(
    refs: Seq<(Seq<char>, Option<ObjectId>)>,
    kind: RefLabelKind,
    id: Seq<u8>,
    name: Seq<char>,
)
    ensures
        labels_on(refs, kind, id).contains((name, kind)) <==> exists|k: int|
            0 <= k < refs.len() && (#[trigger] refs[k]).0 == name && (refs[k].1 matches Some(t)
                && t@ == id),
    decreases refs.len(),
{
    if refs.len() > 0 {
        let before = refs.drop_last();
        labels_are_the_refs_that_point_there(before, kind, id, name);
        let earlier = labels_on(before, kind, id);
        let all = labels_on(refs, kind, id);
        let here = refs.last().0 == name && (refs.last().1 matches Some(t) && t@ == id);
        if here {
            assert(all.last() == (name, kind));
            assert(all[all.len() - 1] == (name, kind));
            assert(refs[refs.len() - 1].0 == name);
        }
        if earlier.contains((name, kind)) {
            let i = choose|i: int| 0 <= i < earlier.len() && earlier[i] == (name, kind);
            assert(all[i] == (name, kind));
            let k = choose|k: int|
                0 <= k < before.len() && (#[trigger] before[k]).0 == name && (
                before[k].1 matches Some(t) && t@ == id);
            assert(refs[k] == before[k]);
        }
        if all.contains((name, kind)) && !here {
            let i = choose|i: int| 0 <= i < all.len() && all[i] == (name, kind);
            assert(i < earlier.len());
            assert(earlier[i] == (name, kind));
        }
        if exists|k: int|
            0 <= k < refs.len() && (#[trigger] refs[k]).0 == name && (refs[k].1 matches Some(t)
                && t@ == id) {
            let k = choose|k: int|
                0 <= k < refs.len() && (#[trigger] refs[k]).0 == name && (refs[k].1 matches Some(
                    t,
                ) && t@ == id);
            if k < before.len() {
                assert(before[k] == refs[k]);
            }
        }
    }
}

/// The subject of a message is its first line, whatever follows it.
pub proof fn subjects_are_first_lines(line: Seq<char>, rest: Seq<char>)
    requires
        line.len() > 0,
        !line.contains('\n'),
        !text::is_blank(line.last()),
    ensures
        subject(line) == line,
        subject(line + seq!['\n'] + rest) == line,
        subject(line + seq!['\r', '\n'] + rest) == line,
{
    lemma_subject(line, Seq::empty());
    assert(line + Seq::<char>::empty() =~= line);
    lemma_subject(line, seq!['\n'] + rest);
    assert(line + (seq!['\n'] + rest) =~= line + seq!['\n'] + rest);
    lemma_subject(line, seq!['\r', '\n'] + rest);
    assert(line + (seq!['\r', '\n'] + rest) =~= line + seq!['\r', '\n'] + rest);
}

proof fn lemma_subject(line: Seq<char>, end: Seq<char>)
    requires
        line.len() > 0,
        !line.contains('\n'),
        !text::is_blank(line.last()),
        end.len() == 0 || end[0] == '\n' || (end.len() > 1 && end[0] == '\r' && end[1] == '\n'),
    ensures
        subject(line + end) == line,
{
    let m = line + end;
    let t = text::trim_space_end(m);
    text::only_blanks_are_trimmed(m);
    let n = line.len() as int;
    assert(m[n - 1] == line.last());
    assert(t.len() >= n);
    assert(forall|j: int| 0 <= j < n ==> line[j] != '\n') by {
        assert forall|j: int| 0 <= j < n implies line[j] != '\n' by {
            assert(line.contains(line[j]));
        }
    }
    let at = if t.len() == n || end[0] == '\n' {
        n
    } else {
        n + 1
    };
    if t.len() == n + 1 && end[0] == '\r' {
        assert(t.last() == m[n]);
        assert(text::is_blank(m[n]));
    }
    assert forall|j: int| 0 <= j < at implies t[j] != '\n' by {
        assert(t[j] == m[j]);
        if j < n {
            assert(m[j] == line[j]);
        }
    }
    if at < t.len() {
        assert(t[at] == m[at]);
    }
    text::lemma_first_index_is(t, '\n', at);
    text::lemma_first_index(t, '\n');
    let first = text::before(t, '\n');
    if at == n {
        assert(first =~= line);
        assert(line.last() != '\r');
    } else {
        assert(first.drop_last() =~= line);
        assert(first.last() == '\r');
    }
}

/// The body of a message is what follows its first line and the empty lines
/// behind that, up to the blanks at its end.
pub proof fn bodies_follow_first_lines(
    line: Seq<char>,
    gap: Seq<char>,
    words: Seq<char>,
    end: Seq<char>,
)
    requires
        !line.contains('\n'),
        forall|i: int| 0 <= i < gap.len() ==> gap[i] == '\n',
        words.len() > 0,
        words[0] != '\n',
        !text::is_blank(words.last()),
        forall|i: int| 0 <= i < end.len() ==> text::is_blank(end[i]),
    ensures
        body(line + seq!['\n'] + gap + words + end) == words,
        body(line).len() == 0,
{
    let m = line + seq!['\n'] + gap + words + end;
    let n = line.len() as int;
    let g = gap.len() as int;
    text::lemma_first_index(line, '\n');
    assert(text::after(line, '\n') =~= Seq::empty());
    assert(body(line).len() == 0);
    assert(m[n] == '\n');
    assert forall|j: int| 0 <= j < n implies m[j] != '\n' by {
        assert(m[j] == line[j]);
        assert(line.contains(line[j]));
    }
    text::lemma_first_index_is(m, '\n', n);
    let rest = gap + words + end;
    assert(text::after(m, '\n') =~= rest);
    text::only_a_run_is_trimmed_off_the_start(rest, '\n');
    let kept = text::trim_start(rest, '\n');
    let k = rest.len() - kept.len();
    assert(rest[g] == words[0]);
    assert(k <= g);
    if k < g {
        assert(kept[0] == rest[k]);
        assert(rest[k] == gap[k]);
    }
    assert(kept =~= words + end);
    text::only_blanks_are_trimmed(kept);
    let t = text::trim_space_end(kept);
    let w = words.len() as int;
    assert(kept[w - 1] == words.last());
    if t.len() > w {
        assert(t.last() == kept[t.len() - 1]);
        assert(kept[t.len() - 1] == end[t.len() - 1 - w]);
    }
    assert(t =~= words);
}

/// The refs of two listings are listed one behind the other.
pub proof fn refs_are_listed_in_order(
    a: Seq<(RefName, RefEntry)>,
    b: Seq<(RefName, RefEntry)>,
    folder: Seq<char>,
)
    ensures
        below(a + b, folder) == below(a, folder) + below(b, folder),
    decreases b.len(),
{
    if b.len() == 0 {
        assert(a + b =~= a);
        assert(below(a, folder) + below(b, folder) =~= below(a, folder));
    } else {
        assert((a + b).drop_last() =~= a + b.drop_last());
        refs_are_listed_in_order(a, b.drop_last(), folder);
        assert(below(a + b, folder) =~= below(a, folder) + below(b, folder));
    }
}

/// A ref whose name begins with the folder is listed by the rest of its name; no
/// other is.
pub proof fn refs_are_listed_by_their_short_names(
    folder: Seq<char>,
    short: Seq<char>,
    name: Seq<char>,
    raw: Vec<u8>,
    entry: RefEntry,
)
    requires
        raw@ == vstd::utf8::encode_utf8(name),
    ensures
        name == folder + short ==> below(seq![(RefName::Ref(raw), entry)], folder) == seq![
            (short, entry),
        ],
        !folder.is_prefix_of(name) ==> below(seq![(RefName::Ref(raw), entry)], folder).len() == 0,
        below(seq![(RefName::Head, entry)], folder).len() == 0,
{
    utf8::lossy_reads_back_encoded_text(name);
    let one = seq![(RefName::Ref(raw), entry)];
    let head = seq![(RefName::Head, entry)];
    assert(one.drop_last() =~= Seq::empty());
    assert(head.drop_last() =~= Seq::empty());
    assert(below(Seq::<(RefName, RefEntry)>::empty(), folder) =~= Seq::empty());
    if name == folder + short {
        text::lemma_prefix(folder, name);
        assert(name.skip(folder.len() as int) =~= short);
        assert(below(one, folder) =~= seq![(short, entry)]);
    }
}

/// HEAD is on the branch whose ref it points at, by the name that the branch is
/// listed under.
pub proof fn head_is_on_the_branch_it_points_at(name: Seq<char>, raw: Vec<u8>)
    requires
        raw@ == vstd::utf8::encode_utf8(name),
    ensures
        seq!['h', 'e', 'a', 'd', 's', '/'].is_prefix_of(name) ==> branch_of(
            RefTarget::Symbolic(RefName::Ref(raw)),
        ) == Some(name.skip(6)),
        branch_of(RefTarget::Symbolic(RefName::Head)) is None,
{
    let folder = seq!['h', 'e', 'a', 'd', 's', '/'];
    if folder.is_prefix_of(name) {
        let short = name.skip(6);
        text::lemma_prefix(folder, name);
        assert(folder + short =~= name);
        utf8::lemma_encode_concat(folder, short);
        lemma_heads_folder();
        let front = vstd::utf8::encode_utf8(folder);
        assert(raw@ == front + vstd::utf8::encode_utf8(short));
        assert(raw@.subrange(0, 6) =~= heads_folder());
        assert(raw@.skip(6) =~= vstd::utf8::encode_utf8(short));
        utf8::lossy_reads_back_encoded_text(short);
    }
}

proof fn lemma_heads_folder()
    ensures
        vstd::utf8::encode_utf8(seq!['h', 'e', 'a', 'd', 's', '/']) == heads_folder(),
{
    lemma_ascii('h');
    lemma_ascii('e');
    lemma_ascii('a');
    lemma_ascii('d');
    lemma_ascii('s');
    lemma_ascii('/');
    let s = seq!['h', 'e', 'a', 'd', 's', '/'];
    utf8::lemma_encode_concat(seq!['h'], seq!['e', 'a', 'd', 's', '/']);
    utf8::lemma_encode_concat(seq!['e'], seq!['a', 'd', 's', '/']);
    utf8::lemma_encode_concat(seq!['a'], seq!['d', 's', '/']);
    utf8::lemma_encode_concat(seq!['d'], seq!['s', '/']);
    utf8::lemma_encode_concat(seq!['s'], seq!['/']);
    assert(seq!['h'] + seq!['e', 'a', 'd', 's', '/'] =~= s);
    assert(seq!['e'] + seq!['a', 'd', 's', '/'] =~= seq!['e', 'a', 'd', 's', '/']);
    assert(seq!['a'] + seq!['d', 's', '/'] =~= seq!['a', 'd', 's', '/']);
    assert(seq!['d'] + seq!['s', '/'] =~= seq!['d', 's', '/']);
    assert(seq!['s'] + seq!['/'] =~= seq!['s', '/']);
    assert(vstd::utf8::encode_utf8(s) =~= heads_folder());
}

proof fn lemma_ascii(c: char)
    requires
        c as int <= 0x7f,
    ensures
        vstd::utf8::encode_utf8(seq![c]) == seq![c as u8],
{
    utf8::lemma_encode_one(c);
    crate::route::encode::lemma_char_bytes(c);
    assert(vstd::utf8::encode_utf8(seq![c]) =~= seq![c as u8]);
}

/// The labels that two lists of refs give, one behind the other; a ref gives
/// its label just where it points.
pub proof fn labels_keep_the_order_of_refs(
    a: Seq<(Seq<char>, Option<ObjectId>)>,
    b: Seq<(Seq<char>, Option<ObjectId>)>,
    one: (Seq<char>, Option<ObjectId>),
    kind: RefLabelKind,
    id: Seq<u8>,
)
    ensures
        labels_on(a + b, kind, id) == labels_on(a, kind, id) + labels_on(b, kind, id),
        labels_on(seq![one], kind, id) == (if one.1 is Some && one.1->0@ == id {
            seq![(one.0, kind)]
        } else {
            Seq::<(Seq<char>, RefLabelKind)>::empty()
        }),
    decreases b.len(),
{
    assert(seq![one].drop_last() =~= Seq::empty());
    assert(labels_on(Seq::<(Seq<char>, Option<ObjectId>)>::empty(), kind, id) =~= Seq::empty());
    assert(labels_on(seq![one], kind, id) =~= (if one.1 is Some && one.1->0@ == id {
        seq![(one.0, kind)]
    } else {
        Seq::<(Seq<char>, RefLabelKind)>::empty()
    }));
    if b.len() == 0 {
        assert(a + b =~= a);
        assert(labels_on(a, kind, id) + labels_on(b, kind, id) =~= labels_on(a, kind, id));
    } else {
        assert((a + b).drop_last() =~= a + b.drop_last());
        labels_keep_the_order_of_refs(a, b.drop_last(), one, kind, id);
        assert(labels_on(a + b, kind, id) =~= labels_on(a, kind, id) + labels_on(b, kind, id));
    }
}

/// What a map says of a commit is what stands with it, and nothing where it
/// does not stand in it.
pub proof fn labels_are_found_by_their_commit(
    map: Seq<(ObjectId, Vec<RefLabel>)>,
    id: Seq<u8>,
    i: int,
)
    requires
        unique(map),
    ensures
        0 <= i < map.len() && map[i].0@ == id ==> labels_of(map, id) == Some(
            map[i].1@.map_values(|l: RefLabel| (l.name@, l.kind)),
        ),
        (forall|k: int| 0 <= k < map.len() ==> (#[trigger] map[k]).0@ != id) ==> labels_of(map, id)
            is None,
    decreases map.len(),
{
    if map.len() > 0 {
        let rest = map.drop_last();
        assert forall|k: int, l: int| 0 <= k < l < rest.len() implies (#[trigger] rest[k]).0@ != (
        #[trigger] rest[l]).0@ by {
            assert(rest[k] == map[k] && rest[l] == map[l]);
        }
        labels_are_found_by_their_commit(rest, id, i);
        if 0 <= i < map.len() && map[i].0@ == id {
            assert(commits_table::labels_view(map[i].1@) =~= map[i].1@.map_values(
                |l: RefLabel| (l.name@, l.kind),
            ));
            if i < map.len() - 1 {
                assert(map[i].0@ != map[map.len() - 1].0@);
                assert(rest[i] == map[i]);
            }
        }
        if forall|k: int| 0 <= k < map.len() ==> (#[trigger] map[k]).0@ != id {
            assert(map[map.len() - 1].0@ != id);
            assert forall|k: int| 0 <= k < rest.len() implies (#[trigger] rest[k]).0@ != id by {
                assert(rest[k] == map[k]);
            }
        }
    }
}

/// A row is shown for every ref whose commit was found, in the refs' order, and
/// for no other.
pub proof fn found_refs_are_all_shown(commits: Seq<Option<CommitInfo>>, i: int)
    requires
        0 <= i < commits.len(),
    ensures
        found_at(commits).contains(i) <==> commits[i] is Some,
        forall|k: int|
            0 <= k < found_at(commits).len() ==> 0 <= #[trigger] found_at(commits)[k]
                < commits.len(),
        forall|k: int, l: int|
            0 <= k < l < found_at(commits).len() ==> #[trigger] found_at(commits)[k]
                < #[trigger] found_at(commits)[l],
    decreases commits.len(),
{
    let rest = commits.drop_last();
    let at = found_at(commits);
    let earlier = found_at(rest);
    if rest.len() > 0 {
        let j = if i < rest.len() {
            i
        } else {
            0
        };
        found_refs_are_all_shown(rest, j);
        assert(i < rest.len() ==> rest[i] == commits[i]);
    }
    assert forall|k: int| 0 <= k < at.len() implies 0 <= #[trigger] at[k] < commits.len() by {
        if k < earlier.len() {
            assert(at[k] == earlier[k]);
        }
    }
    assert forall|k: int, l: int| 0 <= k < l < at.len() implies #[trigger] at[k] < #[trigger] at[l] by {
        assert(at[k] == earlier[k]);
        if l < earlier.len() {
            assert(at[l] == earlier[l]);
        }
    }
    if i == commits.len() - 1 {
        if commits[i] is Some {
            assert(at[at.len() - 1] == i);
        } else if at.contains(i) {
            let k = at.index_of(i);
            assert(earlier[k] == i);
        }
    } else {
        if earlier.contains(i) {
            let k = earlier.index_of(i);
            assert(at[k] == i);
        }
        if at.contains(i) {
            let k = at.index_of(i);
            assert(k < earlier.len());
            assert(earlier[k] == i);
        }
    }
}

/// An age counts the whole seconds since a moment.
pub proof fn ages_count_whole_seconds(when: Moment, now_ms: i64, secs: int, ms: int)
    requires
        secs >= 0,
        0 <= ms < 1000,
    ensures
        now_ms == when.unix_ms + 1000 * secs + ms ==> seconds_ago(when, now_ms) == secs,
        now_ms < when.unix_ms ==> seconds_ago(when, now_ms) == 0,
{
}

/// A commit's row says who wrote it and how its message begins, however long
/// either is.
pub proof fn rows_say_who_and_what(
    row: CommitRow,
    c: CommitInfo,
    now_ms: i64,
    author: Seq<char>,
    line: Seq<char>,
    rest: Seq<char>,
)
    requires
        row_shows(row, c, now_ms),
        c.author_name@ == vstd::utf8::encode_utf8(author),
        c.message@ == vstd::utf8::encode_utf8(line + seq!['\n'] + rest),
        line.len() > 0,
        !line.contains('\n'),
        !text::is_blank(line.last()),
    ensures
        row.id == c.id,
        row.author@ == author,
        row.message@ == line,
        row.body@ == body(line + seq!['\n'] + rest),
        row.short_hash@ == object::hex_text(c.id@).take(8),
        row.age.when == c.author_date.date,
        row.age.secs == seconds_ago(c.author_date, now_ms),
        row.refs@.len() == 0,
{
    utf8::lossy_reads_back_encoded_text(author);
    utf8::lossy_reads_back_encoded_text(line + seq!['\n'] + rest);
    subjects_are_first_lines(line, rest);
}

/// A ref's row says its name, who wrote its commit and how the message begins.
pub proof fn ref_rows_say_who_and_what(
    row: RefRow,
    name: Seq<char>,
    c: CommitInfo,
    now_ms: i64,
    author: Seq<char>,
    line: Seq<char>,
    rest: Seq<char>,
)
    requires
        ref_row_shows(row, name, c, now_ms),
        c.author_name@ == vstd::utf8::encode_utf8(author),
        c.message@ == vstd::utf8::encode_utf8(line + seq!['\n'] + rest),
        line.len() > 0,
        !line.contains('\n'),
        !text::is_blank(line.last()),
    ensures
        row.name@ == name,
        row.meta matches Some(meta) && meta.author@ == author && meta.message@ == line
            && meta.age.secs == seconds_ago(c.author_date, now_ms) && meta.age.when
            == c.author_date.date,
{
    utf8::lossy_reads_back_encoded_text(author);
    utf8::lossy_reads_back_encoded_text(line + seq!['\n'] + rest);
    subjects_are_first_lines(line, rest);
}

/// Labels change nothing of a row but its labels.
pub proof fn labels_change_nothing_else(
    was: CommitRow,
    now: CommitRow,
    map: Seq<(ObjectId, Vec<RefLabel>)>,
)
    requires
        decorated(was, now, map),
    ensures
        now == (CommitRow { refs: now.refs, ..was }),
        labels_of(map, was.id@) is None ==> now.refs == was.refs,
        labels_of(map, was.id@) matches Some(labels) ==> now.refs@.map_values(
            |l: RefLabel| (l.name@, l.kind),
        ) == labels,
{
    assert(commits_table::labels_view(now.refs@) =~= now.refs@.map_values(
        |l: RefLabel| (l.name@, l.kind),
    ));
}

/// A ref comes down to the object that it records, and to its own where it
/// records none; a tag's label goes there too.
pub proof fn refs_come_down_to_what_they_record(target: ObjectId, peeled: ObjectId)
    ensures
        target_of(RefEntry { target, peeled: Some(peeled) }) == peeled,
        target_of(RefEntry { target, peeled: None }) == target,
{
}

} // verus!
