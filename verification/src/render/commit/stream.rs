//! Gathering the diffs of a commit's files as their blobs arrive, so the view
//! fills from the top.

use vstd::prelude::*;
use crate::object;
use crate::object::{ObjectId, TreeEntryType};
use crate::render::commit;
use crate::render::commit::{
    count_added, count_removed, note_segments, CommitProps, FileDiff, FileRow,
};
use crate::route::diff_view;
use crate::route::diff_view::{DiffOptions, Whitespace};
use crate::utf8;
use crate::utf8::lossy_text;

verus! {

/// How many columns the bar of the widest file fills.
pub const BAR_COLUMNS: usize = 40;

/// One side of a change: a blob, and what it is in the tree.
#[derive(Clone, Copy, Debug)]
pub struct Side {
    pub id: ObjectId,
    pub entry_type: TreeEntryType,
}

/// A path that differs between two trees. `content` is the ids on the left and
/// on the right, of which the one on a side that lacks the path says nothing.
pub enum DiffEntry {
    LeftOnly { path: Vec<u8>, entry_type: TreeEntryType, content: (ObjectId, ObjectId) },
    RightOnly { path: Vec<u8>, entry_type: TreeEntryType, content: (ObjectId, ObjectId) },
    Both {
        path: Vec<u8>,
        left_type: TreeEntryType,
        right_type: TreeEntryType,
        content: (ObjectId, ObjectId),
    },
}

/// The path of an entry.
pub open spec fn path_of(entry: DiffEntry) -> Seq<u8> {
    match entry {
        DiffEntry::LeftOnly { path, .. } => path@,
        DiffEntry::RightOnly { path, .. } => path@,
        DiffEntry::Both { path, .. } => path@,
    }
}

/// The two sides of a diff entry, absent where the file did not exist.
pub fn sides(entry: &DiffEntry) -> (r: (Option<Side>, Option<Side>))
    ensures
        match *entry {
            DiffEntry::LeftOnly { entry_type, content, .. } => r == (
                Some(Side { id: content.0, entry_type }),
                None::<Side>,
            ),
            DiffEntry::RightOnly { entry_type, content, .. } => r == (
                None::<Side>,
                Some(Side { id: content.1, entry_type }),
            ),
            DiffEntry::Both { left_type, right_type, content, .. } => r == (
                Some(Side { id: content.0, entry_type: left_type }),
                Some(Side { id: content.1, entry_type: right_type }),
            ),
        },
{
    match entry {
        DiffEntry::LeftOnly { entry_type, content, .. } => (
            Some(Side { id: content.0, entry_type: *entry_type }),
            None,
        ),
        DiffEntry::RightOnly { entry_type, content, .. } => (
            None,
            Some(Side { id: content.1, entry_type: *entry_type }),
        ),
        DiffEntry::Both { left_type, right_type, content, .. } => (
            Some(Side { id: content.0, entry_type: *left_type }),
            Some(Side { id: content.1, entry_type: *right_type }),
        ),
    }
}

/// What a look at a side's object gave.
pub enum LookedUp {
    /// A blob, and its bytes.
    Blob(Vec<u8>),
    /// An object of another kind: a submodule's commit, say.
    Other,
    /// The object could not be read.
    Failed,
}

/// The bytes to compare for one side of a change: the blob's, the name of an
/// object that is none, and nothing where the file did not exist on that side
/// or could not be read.
pub fn side_data(side: Option<Side>, found: LookedUp) -> (r: Vec<u8>)
    ensures
        match (side, found) {
            (Some(_), LookedUp::Blob(data)) => r@ == data@,
            (Some(s), LookedUp::Other) => r@ == object::hex_chars_bytes(object::hex_text(s.id@)),
            _ => r@.len() == 0,
        },
{
    match (side, found) {
        (Some(_), LookedUp::Blob(data)) => data,
        (Some(s), LookedUp::Other) => {
            let hex = s.id.to_hex();
            proof {
                object::object_name_round_trips(s.id@);
            }
            hex.as_str().as_bytes_vec()
        },
        _ => Vec::new(),
    }
}

/// The row of an entry before its blobs have loaded: the path alone.
pub open spec fn is_pending(row: FileRow, entry: DiffEntry) -> bool {
    &&& row.path@ == utf8::lossy(path_of(entry))
    &&& row.diff is None
    &&& row.patch_diff is None
    &&& row.bar_add == 0
    &&& row.bar_del == 0
}

/// The rows of the diffstat before any blob has loaded: the paths alone.
pub fn pending_rows(entries: &Vec<DiffEntry>) -> (r: Vec<FileRow>)
    ensures
        r@.len() == entries@.len(),
        forall|i: int| 0 <= i < r@.len() ==> is_pending(#[trigger] r@[i], entries@[i]),
{
    let mut rows: Vec<FileRow> = Vec::new();
    let mut i: usize = 0;
    while i < entries.len()
        invariant
            i <= entries@.len(),
            rows@.len() == i,
            forall|j: int| 0 <= j < i ==> is_pending(#[trigger] rows@[j], entries@[j]),
        decreases entries@.len() - i,
    {
        let path: &Vec<u8> = match &entries[i] {
            DiffEntry::LeftOnly { path, .. } => path,
            DiffEntry::RightOnly { path, .. } => path,
            DiffEntry::Both { path, .. } => path,
        };
        rows.push(
            FileRow {
                path: lossy_text(path.as_slice()),
                diff: None,
                patch_diff: None,
                bar_add: 0,
                bar_del: 0,
            },
        );
        i = i + 1;
    }
    rows
}

/// Whether a second diff is needed for the patch: only the reader who has
/// changed the controls pays for it.
pub fn needs_patch_diff(options: DiffOptions) -> (r: bool)
    ensures
        r == (options.context != diff_view::CONTEXT_DEFAULT || options.whitespace
            != Whitespace::Significant),
{
    options.context != diff_view::CONTEXT_DEFAULT || options.whitespace != Whitespace::Significant
}

/// How many lines a file's diff changes.
pub open spec fn changes(f: FileRow) -> int {
    commit::added_by(f) + commit::removed_by(f)
}

/// The most that any of `files` changes, and at least one.
pub open spec fn widest(files: Seq<FileRow>) -> int
    decreases files.len(),
{
    if files.len() == 0 {
        1
    } else if changes(files.last()) > widest(files.drop_last()) {
        changes(files.last())
    } else {
        widest(files.drop_last())
    }
}

/// The columns of a file's bar, where the widest file changes `max` lines.
pub open spec fn bar(f: FileRow, max: int) -> int {
    changes(f) * BAR_COLUMNS / max
}

/// The columns of a file's bar that stand for additions.
pub open spec fn bar_of_additions(f: FileRow, max: int) -> int {
    if changes(f) == 0 {
        0
    } else {
        commit::added_by(f) * bar(f, max) / changes(f)
    }
}

proof fn lemma_widest(files: Seq<FileRow>)
    ensures
        widest(files) >= 1,
        forall|i: int| 0 <= i < files.len() ==> changes(#[trigger] files[i]) <= widest(files),
    decreases files.len(),
{
    if files.len() > 0 {
        lemma_widest(files.drop_last());
        assert forall|i: int| 0 <= i < files.len() implies changes(#[trigger] files[i]) <= widest(
            files,
        ) by {
            if i < files.len() - 1 {
                assert(files[i] == files.drop_last()[i]);
            }
        }
    }
}

proof fn lemma_bar(f: FileRow, max: int)
    requires
        max >= 1,
        changes(f) <= max,
    ensures
        0 <= bar(f, max) <= BAR_COLUMNS,
        0 <= bar_of_additions(f, max) <= bar(f, max),
{
    let n = changes(f);
    let a = commit::added_by(f);
    assert(0 <= n * 40 <= max * 40);
    assert(0 <= n * 40 / max <= 40) by (nonlinear_arith)
        requires
            max >= 1,
            0 <= n <= max,
    ;
    if n > 0 {
        let b = bar(f, max);
        assert(0 <= a * b / n <= b) by (nonlinear_arith)
            requires
                0 <= a <= n,
                n > 0,
                b >= 0,
        ;
    }
}

/// All but the bar of a row.
pub open spec fn same_but_bar(a: FileRow, b: FileRow) -> bool {
    &&& a.path == b.path
    &&& a.diff == b.diff
    &&& a.patch_diff == b.patch_diff
}

/// Rows whose bars are scaled to the widest of them, and are otherwise as they
/// were.
pub open spec fn rescaled(was: Seq<FileRow>, now: Seq<FileRow>) -> bool {
    &&& now.len() == was.len()
    &&& forall|i: int|
        0 <= i < now.len() ==> {
            &&& same_but_bar(#[trigger] now[i], was[i])
            &&& now[i].bar_add == bar_of_additions(was[i], widest(was))
            &&& now[i].bar_add + now[i].bar_del == bar(was[i], widest(was))
        }
}

/// Rescale the diffstat bars to the current widest file, so bars re-normalise
/// as larger files arrive.
pub fn recompute_bars(files: &mut Vec<FileRow>)
    requires
        forall|i: int|
            0 <= i < old(files)@.len() ==> changes(#[trigger] old(files)@[i]) * BAR_COLUMNS
                <= usize::MAX,
    ensures
        rescaled(old(files)@, final(files)@),
{
    let ghost was = files@;
    let mut max: usize = 1;
    let mut i: usize = 0;
    while i < files.len()
        invariant
            i <= files@.len(),
            files@ == was,
            forall|j: int|
                0 <= j < was.len() ==> changes(#[trigger] was[j]) * BAR_COLUMNS <= usize::MAX,
            max == widest(was.take(i as int)),
        decreases files@.len() - i,
    {
        proof {
            assert(was.take(i + 1).drop_last() =~= was.take(i as int));
            assert(was.take(i + 1).last() == was[i as int]);
            assert(changes(was[i as int]) * BAR_COLUMNS <= usize::MAX);
        }
        let n: usize = files[i].additions() + files[i].deletions();
        if n > max {
            max = n;
        }
        i = i + 1;
    }
    proof {
        assert(was.take(i as int) =~= was);
        lemma_widest(was);
    }
    let mut j: usize = 0;
    while j < files.len()
        invariant
            j <= files@.len(),
            files@.len() == was.len(),
            max == widest(was),
            max >= 1,
            forall|k: int|
                0 <= k < was.len() ==> changes(#[trigger] was[k]) * BAR_COLUMNS <= usize::MAX,
            forall|k: int| 0 <= k < was.len() ==> changes(#[trigger] was[k]) <= max,
            forall|k: int| j <= k < was.len() ==> files@[k] == was[k],
            forall|k: int|
                0 <= k < j ==> {
                    &&& same_but_bar(#[trigger] files@[k], was[k])
                    &&& files@[k].bar_add == bar_of_additions(was[k], max as int)
                    &&& files@[k].bar_add + files@[k].bar_del == bar(was[k], max as int)
                },
        decreases files@.len() - j,
    {
        let additions: usize = files[j].additions();
        proof {
            assert(changes(was[j as int]) * BAR_COLUMNS <= usize::MAX);
        }
        let total: usize = additions + files[j].deletions();
        let bar_total: usize = total * BAR_COLUMNS / max;
        proof {
            lemma_bar(was[j as int], max as int);
            assert(bar_total == bar(was[j as int], max as int));
            assert(0 <= additions * bar_total <= total * 40) by (nonlinear_arith)
                requires
                    additions <= total,
                    bar_total <= 40,
            ;
        }
        let bar_add: usize = if total == 0 {
            0
        } else {
            additions * bar_total / total
        };
        files[j].bar_add = bar_add;
        files[j].bar_del = bar_total - bar_add;
        j = j + 1;
    }
}

/// No bar is wider than forty columns, and a file that changes the most fills
/// them all.
pub proof fn bars_fill_the_columns(files: Seq<FileRow>, i: int)
    requires
        0 <= i < files.len(),
    ensures
        0 <= bar(files[i], widest(files)) <= BAR_COLUMNS,
        0 <= bar_of_additions(files[i], widest(files)) <= bar(files[i], widest(files)),
        changes(files[i]) == widest(files) ==> bar(files[i], widest(files)) == BAR_COLUMNS,
{
    lemma_widest(files);
    lemma_bar(files[i], widest(files));
    if changes(files[i]) == widest(files) {
        let max = widest(files);
        assert(max * 40 / max == 40) by (nonlinear_arith)
            requires
                max >= 1,
        ;
    }
}

/// A file that changes more has no narrower bar.
pub proof fn more_changes_make_no_narrower_bar(a: FileRow, b: FileRow, max: int)
    requires
        max >= 1,
        changes(a) <= changes(b),
    ensures
        bar(a, max) <= bar(b, max),
{
    vstd::arithmetic::div_mod::lemma_div_is_ordered(changes(a) * BAR_COLUMNS, changes(b) * BAR_COLUMNS, max);
}

/// Whether the counts of a diff, and the columns of its bars, can be told.
pub open spec fn countable(files: Seq<FileRow>) -> bool {
    &&& commit::all_added(files) <= usize::MAX
    &&& commit::all_removed(files) <= usize::MAX
    &&& forall|i: int|
        0 <= i < files.len() ==> changes(#[trigger] files[i]) * BAR_COLUMNS <= usize::MAX
}

/// Whether the counts of a diff, and the columns of its bars, can be told.
pub fn can_count(files: &Vec<FileRow>) -> (r: bool)
    ensures
        r == countable(files@),
{
    let mut added: usize = 0;
    let mut removed: usize = 0;
    let mut i: usize = 0;
    while i < files.len()
        invariant
            i <= files@.len(),
            added == commit::all_added(files@.take(i as int)),
            removed == commit::all_removed(files@.take(i as int)),
            forall|j: int|
                0 <= j < i ==> changes(#[trigger] files@[j]) * BAR_COLUMNS <= usize::MAX,
        decreases files@.len() - i,
    {
        let a: usize = files[i].additions();
        let d: usize = files[i].deletions();
        proof {
            assert(files@.take(i + 1).drop_last() =~= files@.take(i as int));
            assert(files@.take(i + 1).last() == files@[i as int]);
            commit::lemma_totals_grow(files@, i + 1);
            assert(changes(files@[i as int]) == a + d);
        }
        if a > usize::MAX - added || d > usize::MAX - removed {
            return false;
        }
        if a > usize::MAX - d || a + d > usize::MAX / BAR_COLUMNS {
            assert(changes(files@[i as int]) * BAR_COLUMNS > usize::MAX);
            return false;
        }
        added = added + a;
        removed = removed + d;
        i = i + 1;
    }
    proof {
        assert(files@.take(i as int) =~= files@);
    }
    true
}

/// A row that has got its diff.
pub open spec fn with_diff(row: FileRow, made: (FileDiff, Option<FileDiff>)) -> FileRow {
    FileRow { diff: Some(made.0), patch_diff: made.1, ..row }
}

impl CommitProps {
    /// The files that differ are known, and none of their blobs yet: the page
    /// lists them, with nothing said of what they change.
    pub fn start_diff(&mut self, entries: &Vec<DiffEntry>, note: Option<&[u8]>)
        ensures
            final(self).files@.len() == entries@.len(),
            forall|i: int|
                0 <= i < entries@.len() ==> is_pending(
                    #[trigger] final(self).files@[i],
                    entries@[i],
                ),
            final(self).settled == 0,
            final(self).total_additions == 0,
            final(self).total_deletions == 0,
            !final(self).complete,
            final(self).shows_note(note),
            final(self).same_header(*old(self)),
            final(self).wf(),
    {
        self.files = pending_rows(entries);
        self.settled = 0;
        self.total_additions = 0;
        self.total_deletions = 0;
        self.complete = false;
        self.notes = match note {
            Some(note) => Some(note_segments(note)),
            None => None,
        };
        proof {
            assert forall|i: int| 0 <= i < self.files@.len() implies (
            #[trigger] self.files@[i]).diff is None && self.files@[i].patch_diff is None by {
                assert(is_pending(self.files@[i], entries@[i]));
            }
        }
    }

    /// The file to be compared next: the first that has no diff yet. None is
    /// left where the diff of every file is there.
    pub fn next_file(&self) -> (r: Option<usize>)
        requires
            self.wf(),
        ensures
            match r {
                Some(i) => {
                    &&& i < self.files@.len()
                    &&& self.files@[i as int].diff is None
                    &&& forall|j: int| 0 <= j < i ==> (#[trigger] self.files@[j]).diff is Some
                    &&& i == self.settled
                },
                None => forall|j: int|
                    0 <= j < self.files@.len() ==> (#[trigger] self.files@[j]).diff is Some,
            },
    {
        if self.settled < self.files.len() {
            Some(self.settled)
        } else {
            None
        }
    }

    /// The next file's diff has been made, and the one for the patch where it
    /// is another. Nothing else on the page changes.
    pub fn fold_in(&mut self, diff: FileDiff, patch_diff: Option<FileDiff>)
        requires
            old(self).wf(),
            old(self).settled < old(self).files@.len(),
        ensures
            final(self).files@ == old(self).files@.update(
                old(self).settled as int,
                with_diff(old(self).files@[old(self).settled as int], (diff, patch_diff)),
            ),
            *final(self) == (CommitProps {
                files: final(self).files,
                settled: (old(self).settled + 1) as usize,
                ..*old(self)
            }),
            final(self).wf(),
    {
        let at: usize = self.settled;
        assert(at < self.files.len());
        self.files[at].diff = Some(diff);
        self.files[at].patch_diff = patch_diff;
        self.settled = at + 1;
        proof {
            assert(self.files@ =~= old(self).files@.update(
                at as int,
                with_diff(old(self).files@[at as int], (diff, patch_diff)),
            ));
        }
    }

    /// Count what the files change, scale their bars, and put the note that has
    /// come on the page.
    fn refresh(&mut self, note: Option<&[u8]>)
        requires
            old(self).wf(),
            countable(old(self).files@),
        ensures
            rescaled(old(self).files@, final(self).files@),
            final(self).settled == old(self).settled,
            final(self).total_additions == commit::all_added(old(self).files@),
            final(self).total_deletions == commit::all_removed(old(self).files@),
            final(self).complete == old(self).complete,
            final(self).shows_note(note),
            final(self).same_header(*old(self)),
            final(self).wf(),
    {
        self.total_additions = count_added(&self.files);
        self.total_deletions = count_removed(&self.files);
        recompute_bars(&mut self.files);
        self.notes = match note {
            Some(note) => Some(note_segments(note)),
            None => None,
        };
        proof {
            assert forall|i: int| 0 <= i < self.files@.len() implies {
                &&& (#[trigger] self.files@[i]).diff == old(self).files@[i].diff
                &&& self.files@[i].patch_diff == old(self).files@[i].patch_diff
            } by {
                assert(same_but_bar(self.files@[i], old(self).files@[i]));
            }
        }
    }

    /// The page while files are still being compared: what is there so far, and
    /// no patch to be had yet.
    pub fn show_partial(&mut self, note: Option<&[u8]>)
        requires
            old(self).wf(),
            countable(old(self).files@),
        ensures
            !final(self).complete,
            rescaled(old(self).files@, final(self).files@),
            final(self).settled == old(self).settled,
            final(self).total_additions == commit::all_added(old(self).files@),
            final(self).total_deletions == commit::all_removed(old(self).files@),
            final(self).shows_note(note),
            final(self).same_header(*old(self)),
            final(self).wf(),
    {
        self.refresh(note);
        self.complete = false;
    }

    /// The whole page, once every file has been compared.
    pub fn show_whole(&mut self, note: Option<&[u8]>)
        requires
            old(self).wf(),
            old(self).settled == old(self).files@.len(),
            countable(old(self).files@),
        ensures
            final(self).complete,
            forall|i: int|
                0 <= i < final(self).files@.len() ==> (#[trigger] final(self).files@[i]).diff is Some,
            rescaled(old(self).files@, final(self).files@),
            final(self).settled == old(self).settled,
            final(self).total_additions == commit::all_added(old(self).files@),
            final(self).total_deletions == commit::all_removed(old(self).files@),
            final(self).shows_note(note),
            final(self).same_header(*old(self)),
            final(self).wf(),
    {
        self.refresh(note);
        self.complete = true;
    }
}

/// The rows after diffs have been folded in, one after the other.
pub open spec fn folded(rows: Seq<FileRow>, made: Seq<(FileDiff, Option<FileDiff>)>) -> Seq<FileRow>
    decreases made.len(),
{
    if made.len() == 0 {
        rows
    } else {
        let before = folded(rows, made.drop_last());
        before.update(made.len() - 1, with_diff(before[made.len() - 1], made.last()))
    }
}

/// Diffs that come in the order of the files each go to their own file, once;
/// the files behind them are left as they were.
pub proof fn each_file_gets_its_own_diff(
    rows: Seq<FileRow>,
    made: Seq<(FileDiff, Option<FileDiff>)>,
)
    requires
        made.len() <= rows.len(),
    ensures
        folded(rows, made).len() == rows.len(),
        forall|i: int|
            0 <= i < rows.len() ==> #[trigger] folded(rows, made)[i] == (if i < made.len() {
                with_diff(rows[i], made[i])
            } else {
                rows[i]
            }),
    decreases made.len(),
{
    if made.len() > 0 {
        let before = folded(rows, made.drop_last());
        each_file_gets_its_own_diff(rows, made.drop_last());
        assert forall|i: int| 0 <= i < rows.len() implies #[trigger] folded(rows, made)[i] == (if i
            < made.len() {
            with_diff(rows[i], made[i])
        } else {
            rows[i]
        }) by {
            assert(before[i] == (if i < made.len() - 1 {
                with_diff(rows[i], made.drop_last()[i])
            } else {
                rows[i]
            }));
        }
    }
}

/// A patch is offered only of a diff that is all there, so it misses no file.
pub proof fn patches_miss_no_file(page: CommitProps, i: int)
    requires
        page.wf(),
        page.complete,
        0 <= i < page.files@.len(),
    ensures
        page.files@[i].diff is Some,
{
}

/// The widest file changes as many lines as any does, and one of the files is
/// it; where none changes anything, one line is taken for the width.
pub proof fn widest_is_one_of_the_files(files: Seq<FileRow>, i: int)
    ensures
        0 <= i < files.len() ==> changes(files[i]) <= widest(files),
        widest(files) >= 1,
        widest(files) > 1 ==> exists|k: int|
            0 <= k < files.len() && changes(#[trigger] files[k]) == widest(files),
        files.len() == 0 ==> widest(files) == 1,
    decreases files.len(),
{
    lemma_widest(files);
    if files.len() > 0 {
        let rest = files.drop_last();
        widest_is_one_of_the_files(rest, 0);
        if changes(files.last()) > widest(rest) {
            assert(changes(files[files.len() - 1]) == widest(files));
        } else if widest(rest) > 1 {
            let k = choose|k: int|
                0 <= k < rest.len() && changes(#[trigger] rest[k]) == widest(rest);
            assert(files[k] == rest[k]);
        }
    }
}

/// A bar has the share of the forty columns that its file has of the widest
/// one's changes, and its additions have of it the share that they have of the
/// changes; what is left of a column is dropped.
pub proof fn bars_are_in_proportion(f: FileRow, max: int)
    requires
        max >= 1,
        changes(f) <= max,
    ensures
        bar(f, max) * max <= changes(f) * 40 < (bar(f, max) + 1) * max,
        changes(f) > 0 ==> bar_of_additions(f, max) * changes(f) <= commit::added_by(f) * bar(
            f,
            max,
        ) < (bar_of_additions(f, max) + 1) * changes(f),
        changes(f) == 0 ==> bar(f, max) == 0 && bar_of_additions(f, max) == 0,
        f.diff matches Some(d) ==> changes(f) == d.additions + d.deletions && commit::added_by(f)
            == d.additions,
        f.diff is None ==> changes(f) == 0,
{
    let n = changes(f) * BAR_COLUMNS;
    vstd::arithmetic::div_mod::lemma_fundamental_div_mod(n, max);
    vstd::arithmetic::div_mod::lemma_mod_bound(n, max);
    let b = bar(f, max);
    assert(max * b == b * max) by (nonlinear_arith);
    assert((b + 1) * max == b * max + max) by (nonlinear_arith);
    if changes(f) > 0 {
        let c = changes(f);
        let m = commit::added_by(f) * b;
        vstd::arithmetic::div_mod::lemma_fundamental_div_mod(m, c);
        vstd::arithmetic::div_mod::lemma_mod_bound(m, c);
        let k = bar_of_additions(f, max);
        assert(c * k == k * c) by (nonlinear_arith);
        assert((k + 1) * c == k * c + c) by (nonlinear_arith);
    } else {
        assert(0int / max == 0) by (nonlinear_arith)
            requires
                max >= 1,
        ;
    }
}

/// A file's diff changes nothing of its row but that it is there.
pub proof fn diffs_change_nothing_else(row: FileRow, diff: FileDiff, patch: Option<FileDiff>)
    ensures
        ({
            let now = with_diff(row, (diff, patch));
            &&& now.path == row.path
            &&& now.diff == Some(diff)
            &&& now.patch_diff == patch
            &&& now.bar_add == row.bar_add
            &&& now.bar_del == row.bar_del
        }),
{
}

/// Scaling changes nothing of the rows but their bars.
pub proof fn scaling_changes_only_bars(was: Seq<FileRow>, now: Seq<FileRow>, i: int)
    requires
        rescaled(was, now),
        0 <= i < was.len(),
    ensures
        now.len() == was.len(),
        now[i] == (FileRow { bar_add: now[i].bar_add, bar_del: now[i].bar_del, ..was[i] }),
        0 <= now[i].bar_add + now[i].bar_del <= 40,
        changes(was[i]) > 0 && changes(was[i]) == widest(was) ==> now[i].bar_add + now[i].bar_del
            == 40,
        (now[i].bar_add + now[i].bar_del) * widest(was) <= changes(was[i]) * 40 < (now[i].bar_add
            + now[i].bar_del + 1) * widest(was),
        changes(was[i]) > 0 ==> now[i].bar_add * changes(was[i]) <= commit::added_by(was[i]) * (
        now[i].bar_add + now[i].bar_del) < (now[i].bar_add + 1) * changes(was[i]),
{
    bars_fill_the_columns(was, i);
    assert(same_but_bar(now[i], was[i]));
    lemma_widest(was);
    bars_are_in_proportion(was[i], widest(was));
}

/// A file that is listed before its blobs have loaded shows its path and no more.
pub proof fn pending_files_show_their_paths(row: FileRow, entry: DiffEntry, path: Seq<char>)
    requires
        is_pending(row, entry),
        path_of(entry) == vstd::utf8::encode_utf8(path),
    ensures
        row.path@ == path,
        row.diff is None,
        row.patch_diff is None,
        row.bar_add == 0,
        row.bar_del == 0,
        changes(row) == 0,
{
    utf8::lossy_reads_back_encoded_text(path);
}

/// Counts that fit a machine word can be told.
pub proof fn counts_that_fit_can_be_told(files: Seq<FileRow>)
    ensures
        countable(files) <==> commit::all_added(files) <= usize::MAX && commit::all_removed(files)
            <= usize::MAX && forall|i: int|
            0 <= i < files.len() ==> 40 * changes(#[trigger] files[i]) <= usize::MAX,
{
    assert forall|i: int| 0 <= i < files.len() implies (changes(#[trigger] files[i]) * BAR_COLUMNS
        <= usize::MAX <==> 40 * changes(files[i]) <= usize::MAX) by {}
    if countable(files) {
        assert forall|i: int| 0 <= i < files.len() implies 40 * changes(#[trigger] files[i])
            <= usize::MAX by {
            assert(changes(files[i]) * BAR_COLUMNS <= usize::MAX);
        }
    }
    if forall|i: int| 0 <= i < files.len() ==> 40 * changes(#[trigger] files[i]) <= usize::MAX {
        assert forall|i: int| 0 <= i < files.len() implies changes(#[trigger] files[i])
            * BAR_COLUMNS <= usize::MAX by {
            assert(40 * changes(files[i]) <= usize::MAX);
        }
    }
}

} // verus!
