//! The blame view: the file at once, and behind it the commit that last touched
//! each line, as the walk settles it.

use vstd::prelude::*;
use crate::number;
use crate::number::decimal_text;
use crate::object;
use crate::object::ObjectId;
use crate::render::blob;
use crate::render::blob::{count_lines, is_binary, split_lines, MAX_BLOB_BYTES, MAX_BLOB_LINES};
use crate::render::commit::CommitHeader;
use crate::render::commits_table;
use crate::render::commits_table::{commit_page_url, short_hash};
use crate::render::lines;
use crate::render::lines::anchored;
use crate::render::query;
use crate::render::query::{commit_first_line, mapped_ident};
use crate::render::time;
use crate::render::time::format_datetime;
use crate::route;
use crate::route::anchor::LineRange;
use crate::route::query as url_query;
use crate::route::{blame_url, tree_url};
use crate::text;
use crate::text::{concat, concat3};
use crate::utf8;
use crate::utf8::lossy_text;

verus! {

/// A run of lines that the walk has put down to one commit.
pub struct BlameGroup {
    /// First line of the run, counted from zero.
    pub start: usize,
    pub num_lines: usize,
    pub commit: ObjectId,
    /// The commit's parent, where it has one.
    pub parent: Option<ObjectId>,
    /// The path that the commit had for the file.
    pub path: String,
}

/// One run of lines, as the gutter shows it.
pub struct BlameRun {
    /// First line of the run, counted from zero.
    pub start: usize,
    pub num_lines: usize,
    pub commit: ObjectId,
    pub short_hash: String,
    /// The full hash, shown on hover until there is more to show.
    pub full_hash: String,
    pub commit_url: String,
    /// Blame the same file one revision further back. Absent on a root commit,
    /// which has no previous revision to look at.
    pub prev_url: Option<String>,
    /// The gutter's tooltip, once the commit has been read.
    pub detail: Option<String>,
}

/// What the blame view has to show for the file.
#[derive(PartialEq, Debug)]
pub enum BlameContent {
    /// The file's lines. A line's 1-based number is its index here plus one.
    Lines(Vec<String>),
    /// A file git's heuristic calls binary, with its size in bytes.
    Binary { bytes: usize },
    /// A file over [`MAX_BLOB_BYTES`], with its size in bytes.
    TooManyBytes { bytes: usize },
    /// A file over [`MAX_BLOB_LINES`], with its line count.
    TooManyLines { lines: usize },
}

/// What a file's content is shown as.
pub open spec fn shown_as(content: BlameContent, data: Seq<u8>) -> bool {
    match content {
        BlameContent::Binary { bytes } => blob::binary(data) && bytes == data.len(),
        BlameContent::TooManyBytes { bytes } => {
            &&& !blob::binary(data)
            &&& data.len() > MAX_BLOB_BYTES
            &&& bytes == data.len()
        },
        BlameContent::TooManyLines { lines } => {
            &&& !blob::binary(data)
            &&& data.len() <= MAX_BLOB_BYTES
            &&& blob::line_count(data) > MAX_BLOB_LINES
            &&& lines == blob::line_count(data)
        },
        BlameContent::Lines(lines) => {
            &&& !blob::binary(data)
            &&& data.len() <= MAX_BLOB_BYTES
            &&& blob::line_count(data) <= MAX_BLOB_LINES
            &&& text::texts(lines@) == blob::lines_of(utf8::lossy(data))
        },
    }
}

/// Classify the file the same way the blob view classifies one, minus the
/// forms blame has nothing to say about: an image or a rendered markdown
/// document has no lines to attribute, so both are what they are underneath —
/// bytes, either textual or binary.
pub fn blame_content(data: &[u8]) -> (r: BlameContent)
    ensures
        shown_as(r, data@),
{
    if is_binary(data) {
        return BlameContent::Binary { bytes: data.len() };
    }
    if data.len() > MAX_BLOB_BYTES {
        return BlameContent::TooManyBytes { bytes: data.len() };
    }
    let lines: usize = count_lines(data);
    if lines > MAX_BLOB_LINES {
        return BlameContent::TooManyLines { lines };
    }
    BlameContent::Lines(split_lines(lossy_text(data).as_str()))
}

impl BlameContent {
    /// The message shown in place of a file that has no lines to show.
    pub fn message(&self) -> (r: Option<String>)
        ensures
            match *self {
                BlameContent::Lines(_) => r is None,
                BlameContent::Binary { bytes } => r matches Some(t) && t@ == "Binary file ("@
                    + number::decimal(bytes as nat) + " bytes)."@,
                BlameContent::TooManyBytes { bytes } => r matches Some(t) && t@
                    == "File too large to blame ("@ + number::decimal(bytes as nat)
                    + " bytes, limit "@ + number::decimal(MAX_BLOB_BYTES as nat) + ")."@,
                BlameContent::TooManyLines { lines } => r matches Some(t) && t@
                    == "File too large to blame ("@ + number::decimal(lines as nat)
                    + " lines, limit "@ + number::decimal(MAX_BLOB_LINES as nat) + ")."@,
            },
    {
        match self {
            BlameContent::Lines(_) => None,
            BlameContent::Binary { bytes } => Some(
                concat3("Binary file (", decimal_text(*bytes as u64).as_str(), " bytes)."),
            ),
            BlameContent::TooManyBytes { bytes } => {
                let head = concat3(
                    "File too large to blame (",
                    decimal_text(*bytes as u64).as_str(),
                    " bytes, limit ",
                );
                Some(concat3(head.as_str(), decimal_text(MAX_BLOB_BYTES as u64).as_str(), ")."))
            },
            BlameContent::TooManyLines { lines } => {
                let head = concat3(
                    "File too large to blame (",
                    decimal_text(*lines as u64).as_str(),
                    " lines, limit ",
                );
                Some(concat3(head.as_str(), decimal_text(MAX_BLOB_LINES as u64).as_str(), ")."))
            },
        }
    }
}

/// A blame, as its page shows it.
pub struct BlameProps {
    pub blob_id: String,
    pub content: BlameContent,
    /// The runs settled so far, in file order. A line that no run covers yet
    /// has an empty gutter rather than waiting, which is what lets the file
    /// itself be read at once.
    pub runs: Vec<BlameRun>,
    /// Whether the walk is still going.
    pub pending: bool,
    /// This blame's own URL, which every line number's anchor is built on.
    pub self_url: String,
    /// The plain blob view of the same file.
    pub source_url: String,
    /// The lines the URL's `#n…` anchor selected.
    pub lines: Option<LineRange>,
}

impl BlameProps {
    /// The view before the walk. A file with no lines to attribute — binary, or
    /// past the caps — is the whole answer already; there is nothing for the
    /// walk to do.
    pub fn build(path: &str, head: Option<&str>, blob_id: ObjectId, data: &[u8]) -> (r: Self)
        ensures
            r.blob_id@ == object::hex_text(blob_id@),
            shown_as(r.content, data@),
            r.runs@.len() == 0,
            r.pending == r.content is Lines,
            r.self_url@ == route::blame_hash(path@, url_query::opt_str(head)),
            r.source_url@ == route::tree_hash(path@, url_query::opt_str(head), false),
            r.lines is None,
    {
        let content = blame_content(data);
        let pending = match &content {
            BlameContent::Lines(_) => true,
            _ => false,
        };
        BlameProps {
            blob_id: blob_id.to_hex(),
            content,
            runs: Vec::new(),
            pending,
            self_url: blame_url(path, head),
            source_url: tree_url(path, head, false),
            lines: None,
        }
    }

    /// Whether all but the runs is as on another page.
    pub open spec fn same_file(self, other: Self) -> bool {
        &&& self.blob_id == other.blob_id
        &&& self.content == other.content
        &&& self.self_url == other.self_url
        &&& self.source_url == other.source_url
        &&& self.lines == other.lines
    }

    /// The walk has settled these lines, and is still going.
    pub fn settle(&mut self, groups: &Vec<BlameGroup>)
        ensures
            runs_show(final(self).runs@, groups@),
            final(self).pending == old(self).pending,
            final(self).same_file(*old(self)),
    {
        self.runs = runs(groups);
    }

    /// The walk is over, and has settled these lines.
    pub fn finish(&mut self, groups: &Vec<BlameGroup>)
        ensures
            runs_show(final(self).runs@, groups@),
            !final(self).pending,
            final(self).same_file(*old(self)),
    {
        self.runs = runs(groups);
        self.pending = false;
    }

    /// Tooltips have been read.
    pub fn fill(&mut self, details: &Vec<(ObjectId, String)>)
        ensures
            runs_detailed(old(self).runs@, final(self).runs@, details@),
            final(self).pending == old(self).pending,
            final(self).same_file(*old(self)),
    {
        fill_details(&mut self.runs, details);
    }

    /// The source view's link, with the selection carried over.
    pub fn source_href(&self) -> (r: String)
        ensures
            r@ == lines::anchored_text(self.source_url@, self.lines),
    {
        anchored(self.source_url.as_str(), self.lines)
    }
}

/// What the gutter shows of a group.
pub open spec fn run_shows(run: BlameRun, group: BlameGroup) -> bool {
    &&& run.start == group.start
    &&& run.num_lines == group.num_lines
    &&& run.commit == group.commit
    &&& run.short_hash@ == object::hex_text(group.commit@).take(8)
    &&& run.full_hash@ == object::hex_text(group.commit@)
    &&& run.commit_url@ == commits_table::commit_page(group.commit@)
    &&& match group.parent {
        Some(parent) => run.prev_url matches Some(url) && url@ == route::blame_hash(
            group.path@,
            Some(object::hex_text(parent@)),
        ),
        None => run.prev_url is None,
    }
    &&& run.detail is None
}

/// What the gutter shows of the walk's groups.
pub open spec fn runs_show(runs: Seq<BlameRun>, groups: Seq<BlameGroup>) -> bool {
    &&& runs.len() == groups.len()
    &&& forall|i: int| 0 <= i < runs.len() ==> run_shows(#[trigger] runs[i], groups[i])
}

/// Turn the walk's groups into the gutter's runs. The previous revision is
/// blamed at the path the run's own commit had for the file, named by hash so
/// the link is stable whatever ref the reader arrived by.
pub fn runs(groups: &Vec<BlameGroup>) -> (r: Vec<BlameRun>)
    ensures
        runs_show(r@, groups@),
{
    let mut out: Vec<BlameRun> = Vec::new();
    let mut i: usize = 0;
    while i < groups.len()
        invariant
            i <= groups@.len(),
            out@.len() == i,
            forall|j: int| 0 <= j < i ==> run_shows(#[trigger] out@[j], groups@[j]),
        decreases groups@.len() - i,
    {
        let group: &BlameGroup = &groups[i];
        out.push(
            BlameRun {
                start: group.start,
                num_lines: group.num_lines,
                commit: group.commit,
                short_hash: short_hash(group.commit),
                full_hash: group.commit.to_hex(),
                commit_url: commit_page_url(&group.commit),
                prev_url: match &group.parent {
                    Some(parent) => Some(
                        blame_url(group.path.as_str(), Some(parent.to_hex().as_str())),
                    ),
                    None => None,
                },
                detail: None,
            },
        );
        i = i + 1;
    }
    out
}

/// What a line's gutter cell is: the head of a run, a row the cell above spans
/// over, or a line the walk has not settled yet.
#[derive(Clone, Copy, PartialEq, Eq, Structural, Debug)]
pub enum Gutter {
    /// The head of the run at this index.
    Start(usize),
    Covered,
    Unattributed,
}

/// Where the gutter stands in front of line `i`: the run that may start next,
/// how many more lines the current one covers, and whether it is shaded.
pub open spec fn gutter_state(runs: Seq<BlameRun>, i: int) -> (int, int, bool)
    decreases i,
{
    if i <= 0 {
        (0, 0, false)
    } else {
        let (next, open, shade) = gutter_state(runs, i - 1);
        if next < runs.len() && runs[next].start == i - 1 {
            (next + 1, less_one(runs[next].num_lines as int), !shade)
        } else {
            (next, less_one(open), shade)
        }
    }
}

/// One less, and never below none.
pub open spec fn less_one(n: int) -> int {
    if n > 0 {
        n - 1
    } else {
        0
    }
}

/// The gutter cell of line `i`, and whether the line is shaded.
pub open spec fn gutter_of(runs: Seq<BlameRun>, i: int) -> (Gutter, bool) {
    let (next, open, shade) = gutter_state(runs, i);
    if next < runs.len() && runs[next].start == i {
        (Gutter::Start(next as usize), runs[next].num_lines > 0 && !shade)
    } else if open > 0 {
        (Gutter::Covered, shade)
    } else {
        (Gutter::Unattributed, false)
    }
}

/// One line of the table.
pub struct BlameRow {
    pub number: usize,
    pub id: String,
    pub href: String,
    pub text: String,
    pub gutter: Gutter,
    /// Whether the line belongs to a shaded run.
    pub shade: bool,
    /// Whether the line falls inside the selected range.
    pub selected: bool,
}

/// What the row of line `i`, counted from zero, shows.
pub open spec fn row_shows(
    row: BlameRow,
    i: int,
    line: Seq<char>,
    runs: Seq<BlameRun>,
    self_url: Seq<char>,
    selected: Option<LineRange>,
) -> bool {
    &&& row.number == i + 1
    &&& row.id@ == "n"@ + number::decimal((i + 1) as nat)
    &&& row.href@ == self_url + (LineRange {
        start: (i + 1) as usize,
        end: (i + 1) as usize,
    }).anchor_text()
    &&& row.text@ == line
    &&& (row.gutter, row.shade) == gutter_of(runs, i)
    &&& row.selected == (selected matches Some(range) && range.start <= i + 1 <= range.end)
}

/// The rows of the blame table. Runs arrive in file order, so walking them and
/// the lines together is a single pass.
pub fn blame_table(
    lines: &Vec<String>,
    runs: &Vec<BlameRun>,
    self_url: &str,
    selected: Option<LineRange>,
) -> (r: Vec<BlameRow>)
    requires
        lines@.len() < usize::MAX,
    ensures
        r@.len() == lines@.len(),
        forall|i: int|
            0 <= i < r@.len() ==> row_shows(
                #[trigger] r@[i],
                i,
                lines@[i]@,
                runs@,
                self_url@,
                selected,
            ),
{
    let mut rows: Vec<BlameRow> = Vec::new();
    let mut next: usize = 0;
    let mut open: usize = 0;
    let mut shade = false;
    let mut i: usize = 0;
    while i < lines.len()
        invariant
            i <= lines@.len(),
            lines@.len() < usize::MAX,
            next <= runs@.len(),
            gutter_state(runs@, i as int) == (next as int, open as int, shade),
            rows@.len() == i,
            forall|j: int|
                0 <= j < i ==> row_shows(
                    #[trigger] rows@[j],
                    j,
                    lines@[j]@,
                    runs@,
                    self_url@,
                    selected,
                ),
        decreases lines@.len() - i,
    {
        let gutter: Gutter = if next < runs.len() && runs[next].start == i {
            let at: usize = next;
            next = next + 1;
            open = runs[at].num_lines;
            shade = !shade;
            Gutter::Start(at)
        } else if open > 0 {
            Gutter::Covered
        } else {
            Gutter::Unattributed
        };
        let shaded = open > 0 && shade;
        if open > 0 {
            open = open - 1;
        }
        let number: usize = i + 1;
        rows.push(
            BlameRow {
                number,
                id: concat("n", decimal_text(number as u64).as_str()),
                href: concat(self_url, LineRange::single(number).anchor().as_str()),
                text: lines[i].clone(),
                gutter,
                shade: shaded,
                selected: match selected {
                    Some(range) => range.contains(number),
                    None => false,
                },
            },
        );
        i = i + 1;
    }
    rows
}

/// Runs in file order, each of at least a line and none over another.
pub open spec fn in_file_order(runs: Seq<BlameRun>) -> bool {
    &&& forall|k: int| 0 <= k < runs.len() ==> (#[trigger] runs[k]).num_lines > 0
    &&& forall|k: int, l: int|
        0 <= k < l < runs.len() ==> (#[trigger] runs[k]).start + runs[k].num_lines <= (
        #[trigger] runs[l]).start
}

/// Line `i` is one of the run at `k`.
pub open spec fn covers(runs: Seq<BlameRun>, k: int, i: int) -> bool {
    0 <= k < runs.len() && runs[k].start <= i < runs[k].start + runs[k].num_lines
}

proof fn lemma_gutter_state(runs: Seq<BlameRun>, i: int)
    requires
        in_file_order(runs),
        i >= 0,
    ensures
        ({
            let (next, open, shade) = gutter_state(runs, i);
            &&& 0 <= next <= runs.len()
            &&& forall|k: int| 0 <= k < next ==> (#[trigger] runs[k]).start < i
            &&& forall|k: int| next <= k < runs.len() ==> (#[trigger] runs[k]).start >= i
            &&& open == (if next > 0 && runs[next - 1].start + runs[next - 1].num_lines > i {
                runs[next - 1].start + runs[next - 1].num_lines - i
            } else {
                0
            })
            &&& shade == (next % 2 == 1)
        }),
    decreases i,
{
    if i > 0 {
        lemma_gutter_state(runs, i - 1);
        let (next, open, shade) = gutter_state(runs, i - 1);
        if next < runs.len() && runs[next].start == i - 1 {
            assert forall|k: int| next + 1 <= k < runs.len() implies (#[trigger] runs[k]).start
                >= i by {
                assert(runs[next].start + runs[next].num_lines <= runs[k].start);
            }
            assert(runs[next].num_lines > 0);
        } else {
            assert forall|k: int| next <= k < runs.len() implies (#[trigger] runs[k]).start
                >= i by {
                if k > next {
                    assert(runs[next].start + runs[next].num_lines <= runs[k].start);
                }
            }
        }
    }
}

/// With the runs in file order, each line says what it should: the first line
/// of a run begins it, the others are covered by it, a line of no run is left
/// open, and every other run is shaded, the first included.
pub proof fn gutter_matches_the_runs(runs: Seq<BlameRun>, i: int)
    requires
        in_file_order(runs),
        runs.len() <= usize::MAX,
        i >= 0,
    ensures
        forall|k: int|
            #![trigger covers(runs, k, i)]
            covers(runs, k, i) ==> {
                &&& gutter_of(runs, i).0 == (if runs[k].start == i {
                    Gutter::Start(k as usize)
                } else {
                    Gutter::Covered
                })
                &&& gutter_of(runs, i).1 == (k % 2 == 0)
            },
        (forall|k: int| !#[trigger] covers(runs, k, i)) ==> gutter_of(runs, i) == (
            Gutter::Unattributed,
            false,
        ),
{
    lemma_gutter_state(runs, i);
    let (next, open, shade) = gutter_state(runs, i);
    assert forall|k: int| #![trigger covers(runs, k, i)] covers(runs, k, i) implies {
        &&& gutter_of(runs, i).0 == (if runs[k].start == i {
            Gutter::Start(k as usize)
        } else {
            Gutter::Covered
        })
        &&& gutter_of(runs, i).1 == (k % 2 == 0)
    } by {
        if runs[k].start == i {
            assert(k >= next);
            if k > next {
                assert(runs[next].start + runs[next].num_lines <= runs[k].start);
                assert(runs[next].num_lines > 0);
                assert(runs[next].start >= i);
                assert(false);
            }
        } else {
            assert(k < next);
            if k < next - 1 {
                assert(runs[k].start + runs[k].num_lines <= runs[next - 1].start);
                assert(runs[next - 1].start < i);
                assert(false);
            }
            assert(k == next - 1);
            if next < runs.len() && runs[next].start == i {
                assert(runs[k].start + runs[k].num_lines <= runs[next].start);
                assert(false);
            }
        }
    }
    if forall|k: int| !#[trigger] covers(runs, k, i) {
        if next < runs.len() && runs[next].start == i {
            assert(runs[next].num_lines > 0);
            assert(covers(runs, next, i));
        }
        if open > 0 {
            assert(runs[next - 1].start < i);
            assert(covers(runs, next - 1, i));
        }
    }
}

/// How many commits to read before showing the tooltips that have landed.
pub const DETAIL_BATCH: usize = 10;

/// Where the batch of commits that begins at `from` ends.
pub open spec fn batch_stop(from: int, len: int) -> int {
    if len - from > DETAIL_BATCH {
        from + DETAIL_BATCH
    } else {
        len
    }
}

/// Where the batch of commits that begins at `from` ends.
pub fn batch_end(from: usize, len: usize) -> (r: usize)
    requires
        from <= len,
    ensures
        r == batch_stop(from as int, len as int),
{
    if len - from > DETAIL_BATCH {
        from + DETAIL_BATCH
    } else {
        len
    }
}

/// The commits of `runs`, each once, in the order of its first run.
pub open spec fn distinct_commits(runs: Seq<BlameRun>) -> Seq<Seq<u8>>
    decreases runs.len(),
{
    if runs.len() == 0 {
        Seq::empty()
    } else {
        let earlier = distinct_commits(runs.drop_last());
        if earlier.contains(runs.last().commit@) {
            earlier
        } else {
            earlier.push(runs.last().commit@)
        }
    }
}

/// The names of objects.
pub open spec fn ids(v: Seq<ObjectId>) -> Seq<Seq<u8>> {
    v.map_values(|id: ObjectId| id@)
}

fn holds(ids: &Vec<ObjectId>, id: &ObjectId) -> (r: bool)
    ensures
        r == self::ids(ids@).contains(id@),
{
    let mut i: usize = 0;
    while i < ids.len()
        invariant
            i <= ids@.len(),
            forall|j: int| 0 <= j < i ==> (#[trigger] ids@[j])@ != id@,
        decreases ids@.len() - i,
    {
        if ids[i].same(id) {
            assert(self::ids(ids@)[i as int] == id@);
            return true;
        }
        i = i + 1;
    }
    false
}

/// The commits to read for the tooltips: each once, however many runs it has.
pub fn wanted_commits(runs: &Vec<BlameRun>) -> (r: Vec<ObjectId>)
    ensures
        ids(r@) == distinct_commits(runs@),
{
    let mut out: Vec<ObjectId> = Vec::new();
    let mut i: usize = 0;
    proof {
        assert(ids(out@) =~= distinct_commits(runs@.take(0)));
    }
    while i < runs.len()
        invariant
            i <= runs@.len(),
            ids(out@) == distinct_commits(runs@.take(i as int)),
        decreases runs@.len() - i,
    {
        let ghost was = ids(out@);
        proof {
            assert(runs@.take(i + 1).drop_last() =~= runs@.take(i as int));
            assert(runs@.take(i + 1).last() == runs@[i as int]);
        }
        let id: ObjectId = runs[i].commit;
        if !holds(&out, &id) {
            out.push(id);
            assert(ids(out@) =~= was.push(id@));
        }
        i = i + 1;
    }
    proof {
        assert(runs@.take(i as int) =~= runs@);
    }
    out
}

/// The reading of the commits that the tooltips are made from: all of them, and
/// how many have been handed out.
pub struct DetailReads {
    pub wanted: Vec<ObjectId>,
    pub from: usize,
}

impl DetailReads {
    pub open spec fn wf(self) -> bool {
        self.from <= self.wanted@.len()
    }

    pub fn start(runs: &Vec<BlameRun>) -> (r: Self)
        ensures
            ids(r.wanted@) == distinct_commits(runs@),
            r.from == 0,
            r.wf(),
    {
        DetailReads { wanted: wanted_commits(runs), from: 0 }
    }

    /// The commits to read next, a batch of them; `None` where all have been
    /// handed out.
    pub fn next_batch(&mut self) -> (r: Option<Vec<ObjectId>>)
        requires
            old(self).wf(),
        ensures
            final(self).wf(),
            final(self).wanted == old(self).wanted,
            final(self).from == batch_stop(old(self).from as int, old(self).wanted@.len() as int),
            match r {
                Some(batch) => {
                    &&& 0 < batch@.len() <= DETAIL_BATCH
                    &&& batch@ == old(self).wanted@.subrange(
                        old(self).from as int,
                        final(self).from as int,
                    )
                },
                None => old(self).from == old(self).wanted@.len(),
            },
    {
        let from: usize = self.from;
        let to: usize = batch_end(from, self.wanted.len());
        if from == to {
            return None;
        }
        let mut batch: Vec<ObjectId> = Vec::new();
        let mut i: usize = from;
        while i < to
            invariant
                from <= i <= to,
                to <= self.wanted@.len(),
                batch@ == self.wanted@.subrange(from as int, i as int),
            decreases to - i,
        {
            batch.push(self.wanted[i]);
            i = i + 1;
            assert(batch@ =~= self.wanted@.subrange(from as int, i as int));
        }
        self.from = to;
        Some(batch)
    }
}

/// One commit's tooltip.
pub open spec fn detail_text(c: CommitHeader) -> Seq<char> {
    object::hex_text(c.id@) + "\nauthor  "@ + utf8::lossy(c.author_name@) + " <"@ + utf8::lossy(
        c.author_email@,
    ) + "> "@ + time::moment_text(c.author_date) + "\ncommitter  "@ + utf8::lossy(
        c.committer_name@,
    ) + " <"@ + utf8::lossy(c.committer_email@) + "> "@ + time::moment_text(c.commit_date)
        + "\n\n"@ + query::subject(utf8::lossy(c.message@))
}

/// One commit's tooltip: its name, who made it and when, and its subject.
pub fn detail(c: &CommitHeader) -> (r: String)
    requires
        c.author_date.wf(),
        c.commit_date.wf(),
    ensures
        r@ == detail_text(*c),
{
    let (author_name, author_email) = mapped_ident(
        c.author_name.as_slice(),
        c.author_email.as_slice(),
    );
    let (committer_name, committer_email) = mapped_ident(
        c.committer_name.as_slice(),
        c.committer_email.as_slice(),
    );
    let mut out = c.id.to_hex();
    out.append("\nauthor  ");
    out.append(author_name.as_str());
    out.append(" <");
    out.append(author_email.as_str());
    out.append("> ");
    out.append(format_datetime(&c.author_date).as_str());
    out.append("\ncommitter  ");
    out.append(committer_name.as_str());
    out.append(" <");
    out.append(committer_email.as_str());
    out.append("> ");
    out.append(format_datetime(&c.commit_date).as_str());
    out.append("\n\n");
    out.append(commit_first_line(c.message.as_slice()).as_str());
    out
}

/// The tooltip of a commit, where it has been read.
pub open spec fn detail_of(details: Seq<(ObjectId, String)>, id: Seq<u8>) -> Option<Seq<char>>
    decreases details.len(),
{
    if details.len() == 0 {
        None
    } else if details[0].0@ == id {
        Some(details[0].1@)
    } else {
        detail_of(details.drop_first(), id)
    }
}

fn find_detail(details: &Vec<(ObjectId, String)>, id: &ObjectId) -> (r: Option<String>)
    ensures
        url_query::opt_text(r) == detail_of(details@, id@),
{
    let mut i: usize = 0;
    proof {
        assert(details@.skip(0) =~= details@);
    }
    while i < details.len()
        invariant
            i <= details@.len(),
            detail_of(details@, id@) == detail_of(details@.skip(i as int), id@),
        decreases details@.len() - i,
    {
        proof {
            assert(details@.skip(i as int)[0] == details@[i as int]);
            assert(details@.skip(i as int).drop_first() =~= details@.skip(i + 1));
        }
        if details[i].0.same(id) {
            return Some(details[i].1.clone());
        }
        i = i + 1;
    }
    None
}

/// A run with its tooltip, where it had none and its commit has been read; all
/// else of it is as it was.
pub open spec fn detailed(was: BlameRun, now: BlameRun, details: Seq<(ObjectId, String)>) -> bool {
    &&& now.start == was.start
    &&& now.num_lines == was.num_lines
    &&& now.commit == was.commit
    &&& now.short_hash == was.short_hash
    &&& now.full_hash == was.full_hash
    &&& now.commit_url == was.commit_url
    &&& now.prev_url == was.prev_url
    &&& match was.detail {
        Some(_) => now.detail == was.detail,
        None => url_query::opt_text(now.detail) == detail_of(details, was.commit@),
    }
}

/// Runs with the tooltips that have been read.
pub open spec fn runs_detailed(
    was: Seq<BlameRun>,
    now: Seq<BlameRun>,
    details: Seq<(ObjectId, String)>,
) -> bool {
    &&& now.len() == was.len()
    &&& forall|i: int| 0 <= i < now.len() ==> detailed(was[i], #[trigger] now[i], details)
}

/// Put the tooltips that have been read on the runs that lack one. Runs that
/// share a commit share its tooltip.
pub fn fill_details(runs: &mut Vec<BlameRun>, details: &Vec<(ObjectId, String)>)
    ensures
        runs_detailed(old(runs)@, final(runs)@, details@),
{
    let mut i: usize = 0;
    while i < runs.len()
        invariant
            i <= runs@.len(),
            runs@.len() == old(runs)@.len(),
            forall|j: int| 0 <= j < i ==> detailed(old(runs)@[j], #[trigger] runs@[j], details@),
            forall|j: int| i <= j < runs@.len() ==> runs@[j] == old(runs)@[j],
        decreases runs@.len() - i,
    {
        if runs[i].detail.is_none() {
            let detail = find_detail(details, &runs[i].commit);
            runs[i].detail = detail;
        }
        i = i + 1;
    }
}

impl BlameRun {
    /// The gutter's tooltip: the commit's detail, or its full hash until that
    /// is known.
    pub fn title(&self) -> (r: String)
        ensures
            r@ == (match self.detail {
                Some(t) => t@,
                None => self.full_hash@,
            }),
    {
        match &self.detail {
            Some(t) => t.clone(),
            None => self.full_hash.clone(),
        }
    }
}

/// What the console is told of a walk.
pub fn walk_report(path: &str, stats: &str, num_lines: usize, groups: usize) -> (r: String)
    ensures
        r@ == "webgit: blame ["@ + path@ + "]: "@ + stats@ + ", "@ + number::decimal(
            num_lines as nat,
        ) + " lines in "@ + number::decimal(groups as nat) + " runs"@,
{
    let mut out = concat3("webgit: blame [", path, "]: ");
    out.append(stats);
    out.append(", ");
    out.append(decimal_text(num_lines as u64).as_str());
    out.append(" lines in ");
    out.append(decimal_text(groups as u64).as_str());
    out.append(" runs");
    out
}

/// What a failed blame is put down to.
pub fn blame_error(path: &str, error: &str) -> (r: String)
    ensures
        r@ == "blame "@ + path@ + ": "@ + error@,
{
    let head = concat3("blame ", path, ": ");
    concat(head.as_str(), error)
}

/// No commit is read twice for the tooltips, and every run's is read.
pub proof fn each_commit_is_read_once(runs: Seq<BlameRun>)
    ensures
        forall|i: int, j: int|
            0 <= i < j < distinct_commits(runs).len() ==> #[trigger] distinct_commits(runs)[i]
                != #[trigger] distinct_commits(runs)[j],
        forall|k: int|
            0 <= k < runs.len() ==> distinct_commits(runs).contains(
                (#[trigger] runs[k]).commit@,
            ),
    decreases runs.len(),
{
    if runs.len() > 0 {
        let before = runs.drop_last();
        each_commit_is_read_once(before);
        let earlier = distinct_commits(before);
        let all = distinct_commits(runs);
        let last = runs.last().commit@;
        if !earlier.contains(last) {
            assert(all == earlier.push(last));
            assert forall|i: int, j: int| 0 <= i < j < all.len() implies #[trigger] all[i]
                != #[trigger] all[j] by {
                if j < earlier.len() {
                    assert(all[i] == earlier[i] && all[j] == earlier[j]);
                } else {
                    assert(all[i] == earlier[i]);
                    assert(earlier.contains(earlier[i]));
                }
            }
        }
        assert forall|k: int| 0 <= k < runs.len() implies all.contains(
            (#[trigger] runs[k]).commit@,
        ) by {
            if k < before.len() {
                assert(before[k] == runs[k]);
                let at = choose|at: int|
                    0 <= at < earlier.len() && earlier[at] == before[k].commit@;
                assert(all[at] == earlier[at]);
            } else if !earlier.contains(last) {
                assert(all[all.len() - 1] == last);
            }
        }
    }
}

/// Only commits of the runs are read, in the order in which they first stand
/// there.
pub proof fn commits_are_read_from_the_top(a: Seq<BlameRun>, b: Seq<BlameRun>, id: Seq<u8>)
    ensures
        distinct_commits(a).is_prefix_of(distinct_commits(a + b)),
        distinct_commits(a).contains(id) ==> exists|k: int|
            0 <= k < a.len() && (#[trigger] a[k]).commit@ == id,
    decreases a.len(), b.len(),
{
    if b.len() > 0 {
        assert((a + b).drop_last() =~= a + b.drop_last());
        commits_are_read_from_the_top(a, b.drop_last(), id);
        let earlier = distinct_commits(a + b.drop_last());
        let all = distinct_commits(a + b);
        let n = distinct_commits(a).len() as int;
        assert(all.subrange(0, n) =~= earlier.subrange(0, n));
    } else {
        assert(a + b =~= a);
        let all = distinct_commits(a);
        assert(all.subrange(0, all.len() as int) =~= all);
        if all.contains(id) {
            let rest = a.drop_last();
            let i = all.index_of(id);
            if id == a.last().commit@ {
                assert(a[a.len() - 1].commit@ == id);
            } else {
                let earlier = distinct_commits(rest);
                assert(earlier[i] == id);
                commits_are_read_from_the_top(rest, b, id);
                let k = choose|k: int| 0 <= k < rest.len() && (#[trigger] rest[k]).commit@ == id;
                assert(a[k] == rest[k]);
            }
        }
    }
}

/// Commits are read ten at a time, until none is left.
pub proof fn batches_are_ten_commits(from: int, len: int)
    requires
        0 <= from <= len,
    ensures
        batch_stop(from, len) - from == 10 || (batch_stop(from, len) == len && len - from < 10),
        batch_stop(from, len) <= len,
{
}

/// A commit's details go to all of its runs, and to no other.
pub proof fn details_go_to_their_commits(
    details: Seq<(ObjectId, String)>,
    id: Seq<u8>,
    i: int,
)
    requires
        forall|k: int, l: int|
            0 <= k < l < details.len() ==> (#[trigger] details[k]).0@ != (#[trigger] details[l]).0@,
    ensures
        0 <= i < details.len() && details[i].0@ == id ==> detail_of(details, id) == Some(
            details[i].1@,
        ),
        (forall|k: int| 0 <= k < details.len() ==> (#[trigger] details[k]).0@ != id) ==> detail_of(
            details,
            id,
        ) is None,
    decreases details.len(),
{
    if details.len() > 0 {
        let rest = details.drop_first();
        assert forall|k: int, l: int| 0 <= k < l < rest.len() implies (#[trigger] rest[k]).0@ != (
        #[trigger] rest[l]).0@ by {
            assert(rest[k] == details[k + 1] && rest[l] == details[l + 1]);
        }
        details_go_to_their_commits(rest, id, i - 1);
        if 0 < i < details.len() && details[i].0@ == id {
            assert(details[0].0@ != details[i].0@);
            assert(rest[i - 1] == details[i]);
        }
        if forall|k: int| 0 <= k < details.len() ==> (#[trigger] details[k]).0@ != id {
            assert(details[0].0@ != id);
            assert forall|k: int| 0 <= k < rest.len() implies (#[trigger] rest[k]).0@ != id by {
                assert(rest[k] == details[k + 1]);
            }
        }
    }
}

/// A run's links lead to its commit, and to the blame of its file as the commit's
/// parent had it; a root commit has no such blame.
pub proof fn runs_lead_to_their_commits(run: BlameRun, group: BlameGroup)
    requires
        run_shows(run, group),
        group.commit@.len() == 20,
        group.parent matches Some(parent) ==> parent@.len() == 20,
        route::round_trip::plain_path(group.path@),
    ensures
        run.start == group.start,
        run.num_lines == group.num_lines,
        run.full_hash@ == object::hex_text(group.commit@),
        route::route_of(run.commit_url@) == route::RouteModel::Commit(
            object::hex_text(group.commit@),
            route::diff_view::default_view(),
        ),
        (run.prev_url is Some) == (group.parent is Some),
        group.parent matches Some(parent) ==> route::route_of(run.prev_url->0@) == (
        route::RouteModel::Blame { path: group.path@, head: Some(object::hex_text(parent@)) }),
{
    commits_table::commit_links_lead_to_their_commits(group.commit@);
    if let Some(parent) = group.parent {
        assert(object::hex_text(parent@).len() == 40);
        route::round_trip::blame_url_round_trips(
            group.path@,
            Some(object::hex_text(parent@)),
        );
    }
}

/// A text of no more than a mebibyte and twenty thousand lines is shown, all of
/// it.
pub proof fn text_is_blamed_whole(content: BlameContent, s: Seq<char>)
    requires
        shown_as(content, vstd::utf8::encode_utf8(s)),
        vstd::utf8::encode_utf8(s).len() <= 1_048_576,
        blob::lines_of(s).len() <= 20_000,
        forall|j: int|
            0 <= j < vstd::utf8::encode_utf8(s).len() && j < 8000 ==> vstd::utf8::encode_utf8(s)[j]
                != 0,
    ensures
        content matches BlameContent::Lines(lines) && text::texts(lines@) == blob::lines_of(s),
{
    blob::rows_are_counted_as_they_are_shown(s);
    utf8::lossy_reads_back_encoded_text(s);
}

/// What cannot be blamed says what it is by the first reason there is.
pub proof fn blame_refusals_say_why(content: BlameContent, data: Seq<u8>, i: int)
    requires
        shown_as(content, data),
    ensures
        0 <= i < data.len() && i < 8000 && data[i] == 0 ==> (content matches BlameContent::Binary {
            bytes,
        } && bytes == data.len()),
        (forall|j: int| 0 <= j < data.len() && j < 8000 ==> data[j] != 0) ==> {
            &&& data.len() > 1_048_576 ==> (content matches BlameContent::TooManyBytes { bytes }
                && bytes == data.len())
            &&& data.len() <= 1_048_576 && blob::line_count(data) > 20_000 ==> (
            content matches BlameContent::TooManyLines { lines } && lines == blob::line_count(data))
        },
{
}

/// Details change nothing of a run but its details, and leave those that are
/// there.
pub proof fn details_change_nothing_else(
    was: BlameRun,
    now: BlameRun,
    details: Seq<(ObjectId, String)>,
)
    requires
        detailed(was, now, details),
    ensures
        now == (BlameRun { detail: now.detail, ..was }),
        was.detail is Some ==> now.detail == was.detail,
        was.detail is None && detail_of(details, was.commit@) is None ==> now.detail is None,
        was.detail is None ==> (detail_of(details, was.commit@) matches Some(t) ==> now.detail
            matches Some(shown) && shown@ == t),
{
}

/// While the walk goes on, the file that is blamed stays the same.
pub proof fn blamed_file_stays(a: BlameProps, b: BlameProps)
    requires
        a.same_file(b),
    ensures
        a == (BlameProps { runs: a.runs, pending: a.pending, ..b }),
{
}

/// A line's number is its place, and a link that selects it alone; a line is
/// selected where it lies between the first line and the last, both among them.
pub proof fn blamed_lines_are_numbered_and_selected(
    row: BlameRow,
    i: int,
    line: Seq<char>,
    runs: Seq<BlameRun>,
    self_url: Seq<char>,
    selected: Option<LineRange>,
)
    requires
        row_shows(row, i, line, runs, self_url, selected),
        0 <= i < usize::MAX,
        self_url.len() > 0,
        self_url[0] == '#',
    ensures
        row.number == i + 1,
        row.text@ == line,
        selected is None ==> !row.selected,
        selected matches Some(range) ==> (row.selected <==> range.start <= row.number && row.number
            <= range.end),
        route::anchor::route_part(row.href@) == self_url,
        route::anchor::selected_lines(row.href@) matches Some(range) && range.start == row.number
            && range.end == row.number,
{
    let one = LineRange { start: (i + 1) as usize, end: (i + 1) as usize };
    route::anchor::line_anchor_round_trips(self_url, one);
}

} // verus!
