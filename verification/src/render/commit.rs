//! The commit view: the header block, the diffstat, and the diff itself.
//!
//! The parts live alongside: [`stream`] gathers the files' diffs as their
//! blobs land, [`side_by_side`] lays the diff out in two columns, [`controls`]
//! is the diff options panel, and [`message`] finds the links in the commit
//! message.

use vstd::prelude::*;
use crate::number;
use crate::number::decimal_text;
use crate::object;
use crate::object::{ObjectId, ObjectIdPrefix, PrefixResolution};
use crate::render::query::mapped_ident;
use crate::render::time;
use crate::render::time::{format_datetime, Moment};
use crate::route;
use crate::route::diff_view::{DiffMode, DiffView};
use crate::route::tree_url;
use crate::text::{concat, concat3};
use crate::utf8;
use crate::utf8::lossy_text;
use message::{linkify_message, MessageSegment};

pub mod controls;
pub mod message;
pub mod side_by_side;
pub mod stream;

verus! {

/// What a line of a patch is.
#[derive(Clone, Copy, PartialEq, Eq, Structural, Debug)]
pub enum LineKind {
    /// A header, or a hunk's `@@` marker.
    Meta,
    Insert,
    Delete,
    Context,
}

/// A line of a patch, without the line feed at its end.
#[derive(PartialEq, Debug)]
pub struct PatchLine {
    pub kind: LineKind,
    pub text: String,
}

/// The diff of one file.
pub struct FileDiff {
    pub lines: Vec<PatchLine>,
    pub additions: usize,
    pub deletions: usize,
}

/// One row of the diffstat, and the file's diff once it has one.
pub struct FileRow {
    pub path: String,
    /// The file's diff, absent between the tree diff (which gives the path) and
    /// this file's blobs loading (which give everything else).
    pub diff: Option<FileDiff>,
    /// The same file diffed at git's defaults, kept only when the view is *not*
    /// at them. A `.patch` is applied rather than read, so it cannot be the one
    /// on screen once the reader has widened the context or hidden whitespace.
    pub patch_diff: Option<FileDiff>,
    /// The two halves of the diffstat bar, in columns.
    pub bar_add: usize,
    pub bar_del: usize,
}

/// How many lines a row adds; none before its diff is known.
pub open spec fn added_by(f: FileRow) -> int {
    match f.diff {
        Some(d) => d.additions as int,
        None => 0,
    }
}

/// How many lines a row removes; none before its diff is known.
pub open spec fn removed_by(f: FileRow) -> int {
    match f.diff {
        Some(d) => d.deletions as int,
        None => 0,
    }
}

impl FileRow {
    /// The diff to put in a `.patch`: git's defaults, whatever the view shows.
    pub fn for_patch(&self) -> (r: Option<&FileDiff>)
        ensures
            match (self.patch_diff, self.diff) {
                (Some(d), _) => r == Some(&d),
                (None, Some(d)) => r == Some(&d),
                (None, None) => r is None,
            },
    {
        match &self.patch_diff {
            Some(d) => Some(d),
            None => match &self.diff {
                Some(d) => Some(d),
                None => None,
            },
        }
    }

    pub fn additions(&self) -> (r: usize)
        ensures
            r == added_by(*self),
    {
        match &self.diff {
            Some(d) => d.additions,
            None => 0,
        }
    }

    pub fn deletions(&self) -> (r: usize)
        ensures
            r == removed_by(*self),
    {
        match &self.diff {
            Some(d) => d.deletions,
            None => 0,
        }
    }
}

/// A parent of the commit.
pub struct ParentRef {
    pub hash: String,
    pub short: String,
}

/// Someone a commit names, and when.
pub struct Ident {
    pub name: String,
    pub email: String,
    pub date: String,
}

/// What the header block needs of a commit. The contacts are those that the
/// mailmap gives.
pub struct CommitHeader {
    pub id: ObjectId,
    pub author_name: Vec<u8>,
    pub author_email: Vec<u8>,
    pub author_date: Moment,
    pub committer_name: Vec<u8>,
    pub committer_email: Vec<u8>,
    pub commit_date: Moment,
    pub tree: ObjectId,
    pub message: Vec<u8>,
}

/// A commit, as its page shows it.
pub struct CommitProps {
    pub id: ObjectId,
    pub author: Ident,
    pub committer: Ident,
    pub parents: Vec<ParentRef>,
    pub tree_hash: String,
    pub message: Vec<MessageSegment>,
    pub notes: Option<Vec<MessageSegment>>,
    pub total_additions: usize,
    pub total_deletions: usize,
    pub files: Vec<FileRow>,
    /// How many of the files have their diff; they are the first.
    pub settled: usize,
    /// Whether the diff is all there.
    pub complete: bool,
    /// The commit as the URL names it — empty when the URL is the id-less
    /// `#!/commit`, which follows HEAD. The diff controls rebuild the current
    /// URL from this, so a HEAD-following view keeps following HEAD.
    pub url_sha: String,
    /// The diff settings this view was built with.
    pub view: DiffView,
}

/// What the page says of a contact.
pub open spec fn ident_is(i: Ident, name: Seq<u8>, email: Seq<u8>, date: Moment) -> bool {
    &&& i.name@ == utf8::lossy(name)
    &&& i.email@ == utf8::lossy(email)
    &&& i.date@ == time::moment_text(date)
}

/// How many lines `files` add in all.
pub open spec fn all_added(files: Seq<FileRow>) -> int
    decreases files.len(),
{
    if files.len() == 0 {
        0
    } else {
        all_added(files.drop_last()) + added_by(files.last())
    }
}

/// How many lines `files` remove in all.
pub open spec fn all_removed(files: Seq<FileRow>) -> int
    decreases files.len(),
{
    if files.len() == 0 {
        0
    } else {
        all_removed(files.drop_last()) + removed_by(files.last())
    }
}

pub(crate) proof fn lemma_totals_grow(files: Seq<FileRow>, n: int)
    requires
        0 <= n <= files.len(),
    ensures
        0 <= all_added(files.take(n)) <= all_added(files),
        0 <= all_removed(files.take(n)) <= all_removed(files),
    decreases files.len(),
{
    if n == files.len() {
        assert(files.take(n) =~= files);
        if n > 0 {
            lemma_totals_grow(files.drop_last(), n - 1);
            assert(files.drop_last().take(n - 1) =~= files.drop_last());
        }
    } else {
        lemma_totals_grow(files.drop_last(), n);
        assert(files.drop_last().take(n) =~= files.take(n));
    }
}

pub(crate) fn count_added(files: &Vec<FileRow>) -> (r: usize)
    requires
        all_added(files@) <= usize::MAX,
    ensures
        r == all_added(files@),
{
    let mut total: usize = 0;
    let mut i: usize = 0;
    while i < files.len()
        invariant
            i <= files@.len(),
            all_added(files@) <= usize::MAX,
            total == all_added(files@.take(i as int)),
        decreases files@.len() - i,
    {
        proof {
            assert(files@.take(i + 1).drop_last() =~= files@.take(i as int));
            lemma_totals_grow(files@, i + 1);
        }
        total = total + files[i].additions();
        i = i + 1;
    }
    proof {
        assert(files@.take(i as int) =~= files@);
    }
    total
}

pub(crate) fn count_removed(files: &Vec<FileRow>) -> (r: usize)
    requires
        all_removed(files@) <= usize::MAX,
    ensures
        r == all_removed(files@),
{
    let mut total: usize = 0;
    let mut i: usize = 0;
    while i < files.len()
        invariant
            i <= files@.len(),
            all_removed(files@) <= usize::MAX,
            total == all_removed(files@.take(i as int)),
        decreases files@.len() - i,
    {
        proof {
            assert(files@.take(i + 1).drop_last() =~= files@.take(i as int));
            lemma_totals_grow(files@, i + 1);
        }
        total = total + files[i].deletions();
        i = i + 1;
    }
    proof {
        assert(files@.take(i as int) =~= files@);
    }
    total
}

impl CommitProps {
    /// The page before its diff is known: the header table and the message can
    /// be read while the blobs are still loading.
    pub fn base(
        commit: &CommitHeader,
        parents: &Vec<ObjectId>,
        url_sha: &str,
        view: DiffView,
    ) -> (r: Self)
        requires
            commit.author_date.wf(),
            commit.commit_date.wf(),
        ensures
            r.id == commit.id,
            ident_is(
                r.author,
                commit.author_name@,
                commit.author_email@,
                commit.author_date,
            ),
            ident_is(
                r.committer,
                commit.committer_name@,
                commit.committer_email@,
                commit.commit_date,
            ),
            r.parents@.len() == parents@.len(),
            forall|i: int|
                0 <= i < parents@.len() ==> (#[trigger] r.parents@[i]).hash@ == object::hex_text(
                    parents@[i]@,
                ) && r.parents@[i].short@ == object::hex_text(parents@[i]@).take(8),
            r.tree_hash@ == object::hex_text(commit.tree@),
            message::pieces_view(r.message@) == message::pieces(utf8::lossy(commit.message@)),
            r.notes is None,
            r.total_additions == 0,
            r.total_deletions == 0,
            r.files@.len() == 0,
            r.settled == 0,
            !r.complete,
            r.wf(),
            r.url_sha@ == url_sha@,
            r.view == view,
    {
        let mut refs: Vec<ParentRef> = Vec::new();
        let mut i: usize = 0;
        while i < parents.len()
            invariant
                i <= parents@.len(),
                refs@.len() == i,
                forall|j: int|
                    0 <= j < i ==> (#[trigger] refs@[j]).hash@ == object::hex_text(parents@[j]@)
                        && refs@[j].short@ == object::hex_text(parents@[j]@).take(8),
            decreases parents@.len() - i,
        {
            refs.push(ParentRef { hash: parents[i].to_hex(), short: parents[i].short() });
            i = i + 1;
        }
        let (author_name, author_email) = mapped_ident(
            commit.author_name.as_slice(),
            commit.author_email.as_slice(),
        );
        let (committer_name, committer_email) = mapped_ident(
            commit.committer_name.as_slice(),
            commit.committer_email.as_slice(),
        );
        CommitProps {
            id: commit.id,
            author: Ident {
                name: author_name,
                email: author_email,
                date: format_datetime(&commit.author_date),
            },
            committer: Ident {
                name: committer_name,
                email: committer_email,
                date: format_datetime(&commit.commit_date),
            },
            parents: refs,
            tree_hash: commit.tree.to_hex(),
            message: linkify_message(lossy_text(commit.message.as_slice()).as_str()),
            notes: None,
            total_additions: 0,
            total_deletions: 0,
            files: Vec::new(),
            settled: 0,
            complete: false,
            url_sha: url_sha.to_string(),
            view,
        }
    }

    /// The first of the files have their diff, as many as are settled; the others
    /// have none yet. A diff that is all there lacks no file's.
    pub open spec fn wf(self) -> bool {
        &&& self.settled <= self.files@.len()
        &&& forall|i: int|
            0 <= i < self.files@.len() ==> ((#[trigger] self.files@[i]).diff is Some) == (i
                < self.settled)
        &&& forall|i: int|
            self.settled <= i < self.files@.len() ==> (#[trigger] self.files@[i]).patch_diff is None
        &&& self.complete ==> self.settled == self.files@.len()
    }

    /// Whether all but the diff and the note are as on another page.
    pub open spec fn same_header(self, other: Self) -> bool {
        &&& self.id == other.id
        &&& self.author == other.author
        &&& self.committer == other.committer
        &&& self.parents == other.parents
        &&& self.tree_hash == other.tree_hash
        &&& self.message == other.message
        &&& self.url_sha == other.url_sha
        &&& self.view == other.view
    }

    /// Whether the page shows this note, where there is one.
    pub open spec fn shows_note(self, note: Option<&[u8]>) -> bool {
        match note {
            Some(note) => self.notes matches Some(shown) && message::pieces_view(shown@)
                == message::pieces(utf8::lossy(note@)),
            None => self.notes is None,
        }
    }

    /// The commit's name.
    pub fn hash(&self) -> (r: String)
        ensures
            r@ == object::hex_text(self.id@),
    {
        self.id.to_hex()
    }

    /// The commit's tree.
    pub fn tree_href(&self) -> (r: String)
        ensures
            r@ == route::tree_hash(Seq::empty(), Some(object::hex_text(self.id@)), false),
    {
        proof {
            reveal_strlit("");
            assert(""@ =~= Seq::<char>::empty());
        }
        tree_url("", Some(self.id.to_hex().as_str()), false)
    }

    /// What the commit's patch is saved as. It is offered only once the whole
    /// diff is there: a patch built from an unfinished view would be missing
    /// files.
    pub fn patch_name(&self) -> (r: Option<String>)
        ensures
            match r {
                Some(name) => self.complete && name@ == object::hex_text(self.id@) + ".patch"@,
                None => !self.complete,
            },
    {
        if self.complete {
            Some(concat(self.id.to_hex().as_str(), ".patch"))
        } else {
            None
        }
    }

    /// Whether there is a diffstat to show.
    pub fn shows_diffstat(&self) -> (r: bool)
        ensures
            r == (self.files@.len() > 0),
    {
        self.files.len() > 0
    }

    /// Whether there is a diff to show.
    pub fn shows_diff(&self) -> (r: bool)
        ensures
            r == (self.files@.len() > 0 && self.view.mode == DiffMode::Unified),
    {
        self.files.len() > 0 && self.view.shows_diff()
    }
}

impl Ident {
    /// A contact and its moment, on one line.
    pub fn line(&self) -> (r: String)
        ensures
            r@ == self.name@ + " <"@ + self.email@ + "> "@ + self.date@,
    {
        let mut out = concat3(self.name.as_str(), " <", self.email.as_str());
        out.append("> ");
        out.append(self.date.as_str());
        out
    }
}

impl ParentRef {
    /// The parent's page.
    pub fn href(&self) -> (r: String)
        ensures
            r@ == "#!/commit/"@ + self.hash@,
    {
        concat("#!/commit/", self.hash.as_str())
    }
}

/// What a commit's tree is compared with, from those of its parents: the first
/// parent's. A root commit has no parent, and is compared with the empty tree.
pub fn diff_base(parent_trees: &Vec<ObjectId>) -> (r: Option<ObjectId>)
    ensures
        r == (if parent_trees@.len() > 0 {
            Some(parent_trees@[0])
        } else {
            None
        }),
{
    if parent_trees.len() > 0 {
        Some(parent_trees[0])
    } else {
        None
    }
}

/// The label of a parent's row: only the first has one.
pub fn parent_label(first: bool) -> (r: &'static str)
    ensures
        r@ == (if first {
            "parent"@
        } else {
            ""@
        }),
{
    if first {
        "parent"
    } else {
        ""
    }
}

/// A commit's note, split for rendering.
pub fn note_segments(note: &[u8]) -> (r: Vec<MessageSegment>)
    ensures
        message::pieces_view(r@) == message::pieces(utf8::lossy(note@)),
{
    linkify_message(lossy_text(note).as_str())
}

/// How a SHA that is written into a URL is resolved.
pub enum ShaStep {
    /// It is a full one: the object it names.
    Full(ObjectId),
    /// It is abbreviated: expand it against the repository.
    Expand(ObjectIdPrefix),
    /// It is neither.
    Invalid(String),
}

/// Read a SHA that is written into a URL.
///
/// A full hash decodes directly. Anything shorter is one of git's abbreviated
/// forms, as quoted in commit messages, and has to be expanded against the
/// repository.
pub fn resolve_sha(sha: &str) -> (r: ShaStep)
    ensures
        match r {
            ShaStep::Full(id) => object::named_object(vstd::utf8::encode_utf8(sha@)) == Some(id@),
            ShaStep::Expand(prefix) => {
                &&& object::named_object(vstd::utf8::encode_utf8(sha@)) is None
                &&& object::abbreviates(vstd::utf8::encode_utf8(sha@))
                &&& prefix.wf()
                &&& prefix.digits@ == Seq::new(
                    vstd::utf8::encode_utf8(sha@).len(),
                    |i: int| route::encode::nibble(vstd::utf8::encode_utf8(sha@)[i])->0,
                )
            },
            ShaStep::Invalid(why) => {
                &&& object::named_object(vstd::utf8::encode_utf8(sha@)) is None
                &&& !object::abbreviates(vstd::utf8::encode_utf8(sha@))
                &&& why@ == "invalid SHA: "@ + sha@
            },
        },
{
    if let Some(id) = ObjectId::from_hex(sha.as_bytes()) {
        return ShaStep::Full(id);
    }
    match ObjectIdPrefix::from_hex(sha.as_bytes()) {
        Some(prefix) => ShaStep::Expand(prefix),
        None => ShaStep::Invalid(concat("invalid SHA: ", sha)),
    }
}

/// What an expanded SHA names. Like git, an abbreviation that several objects
/// share names none of them, rather than an arbitrary one.
pub fn expanded_sha(sha: &str, resolution: PrefixResolution) -> (r: Result<ObjectId, String>)
    ensures
        match resolution {
            PrefixResolution::Found(id) => r == Ok::<ObjectId, String>(id),
            PrefixResolution::Ambiguous => r matches Err(why) && why@ == "ambiguous SHA: "@ + sha@,
            PrefixResolution::NotFound => r matches Err(why) && why@ == "unknown SHA: "@ + sha@,
        },
{
    match resolution {
        PrefixResolution::Found(id) => Ok(id),
        PrefixResolution::Ambiguous => Err(concat("ambiguous SHA: ", sha)),
        PrefixResolution::NotFound => Err(concat("unknown SHA: ", sha)),
    }
}

/// One row of the diffstat.
pub struct DiffstatRow {
    pub path: String,
    /// `None` until the file's blobs have loaded.
    pub stats: Option<FileStats>,
}

/// What the diffstat says of a file.
pub struct FileStats {
    pub changes: usize,
    pub add_class: String,
    pub del_class: String,
    pub plus: Option<String>,
    pub minus: Option<String>,
}

/// A count behind its sign; nothing for none.
pub open spec fn signed_count(sign: Seq<char>, n: int) -> Option<Seq<char>> {
    if n > 0 {
        Some(sign + number::decimal(n as nat))
    } else {
        None
    }
}

fn signed(sign: &str, n: usize) -> (r: Option<String>)
    ensures
        route::query::opt_text(r) == signed_count(sign@, n as int),
{
    if n > 0 {
        Some(concat(sign, decimal_text(n as u64).as_str()))
    } else {
        None
    }
}

/// A file's row of the diffstat. The widths of the bars are classes, since
/// nothing on the page may carry a style of its own.
pub fn diffstat_row(f: &FileRow) -> (r: DiffstatRow)
    requires
        added_by(*f) + removed_by(*f) <= usize::MAX,
    ensures
        r.path@ == f.path@,
        r.stats is Some == f.diff is Some,
        r.stats matches Some(s) ==> {
            &&& s.changes == added_by(*f) + removed_by(*f)
            &&& s.add_class@ == "bar-add bar-w-"@ + number::decimal(f.bar_add as nat)
            &&& s.del_class@ == "bar-del bar-w-"@ + number::decimal(f.bar_del as nat)
            &&& route::query::opt_text(s.plus) == signed_count("+"@, added_by(*f))
            &&& route::query::opt_text(s.minus) == signed_count("-"@, removed_by(*f))
        },
{
    let path = f.path.clone();
    if f.diff.is_none() {
        return DiffstatRow { path, stats: None };
    }
    let additions: usize = f.additions();
    let deletions: usize = f.deletions();
    DiffstatRow {
        path,
        stats: Some(
            FileStats {
                changes: additions + deletions,
                add_class: concat("bar-add bar-w-", decimal_text(f.bar_add as u64).as_str()),
                del_class: concat("bar-del bar-w-", decimal_text(f.bar_del as u64).as_str()),
                plus: signed("+", additions),
                minus: signed("-", deletions),
            },
        ),
    }
}

/// The class of a line of the diff.
pub fn line_class(kind: LineKind) -> (r: &'static str)
    ensures
        r@ == (match kind {
            LineKind::Meta => "diff-hunk"@,
            LineKind::Insert => "diff-add"@,
            LineKind::Delete => "diff-del"@,
            LineKind::Context => "diff-ctx"@,
        }),
{
    match kind {
        LineKind::Meta => "diff-hunk",
        LineKind::Insert => "diff-add",
        LineKind::Delete => "diff-del",
        LineKind::Context => "diff-ctx",
    }
}

/// A line of the diff: its class, and its text with the line feed that is part
/// of it.
pub fn diff_line(line: &PatchLine) -> (r: (&'static str, String))
    ensures
        r.0@ == (match line.kind {
            LineKind::Meta => "diff-hunk"@,
            LineKind::Insert => "diff-add"@,
            LineKind::Delete => "diff-del"@,
            LineKind::Context => "diff-ctx"@,
        }),
        r.1@ == line.text@ + "\n"@,
{
    (line_class(line.kind), concat(line.text.as_str(), "\n"))
}

/// The lines of the diff, of all the files that have theirs.
pub open spec fn shown_lines(files: Seq<FileRow>) -> Seq<PatchLine>
    decreases files.len(),
{
    if files.len() == 0 {
        Seq::empty()
    } else {
        shown_lines(files.drop_last()) + (match files.last().diff {
            Some(d) => d.lines@,
            None => Seq::empty(),
        })
    }
}

/// The lines of the diff, of all the files that have theirs.
pub fn diff_lines<'a>(files: &'a Vec<FileRow>) -> (r: Vec<&'a PatchLine>)
    ensures
        r@.map_values(|l: &PatchLine| *l) == shown_lines(files@),
{
    let mut out: Vec<&'a PatchLine> = Vec::new();
    let mut i: usize = 0;
    proof {
        assert(out@.map_values(|l: &PatchLine| *l) =~= shown_lines(files@.take(0)));
    }
    while i < files.len()
        invariant
            i <= files@.len(),
            out@.map_values(|l: &PatchLine| *l) == shown_lines(files@.take(i as int)),
        decreases files@.len() - i,
    {
        let ghost before = shown_lines(files@.take(i as int));
        proof {
            assert(files@.take(i + 1).drop_last() =~= files@.take(i as int));
            assert(files@.take(i + 1).last() == files@[i as int]);
        }
        if let Some(d) = &files[i].diff {
            let mut j: usize = 0;
            proof {
                assert(before + d.lines@.take(0) =~= before);
            }
            while j < d.lines.len()
                invariant
                    j <= d.lines@.len(),
                    out@.map_values(|l: &PatchLine| *l) == before + d.lines@.take(j as int),
                decreases d.lines@.len() - j,
            {
                let ghost was = out@.map_values(|l: &PatchLine| *l);
                out.push(&d.lines[j]);
                proof {
                    assert(out@.map_values(|l: &PatchLine| *l) =~= was.push(d.lines@[j as int]));
                    assert(before + d.lines@.take(j + 1) =~= (before + d.lines@.take(
                        j as int,
                    )).push(d.lines@[j as int]));
                }
                j = j + 1;
            }
            proof {
                assert(d.lines@.take(j as int) =~= d.lines@);
            }
        } else {
            proof {
                assert(before + Seq::<PatchLine>::empty() =~= before);
            }
        }
        i = i + 1;
    }
    proof {
        assert(files@.take(i as int) =~= files@);
    }
    out
}

/// One of two words, by number.
pub fn plural(n: usize, one: &'static str, many: &'static str) -> (r: &'static str)
    ensures
        r@ == (if n == 1 {
            one@
        } else {
            many@
        }),
{
    if n == 1 {
        one
    } else {
        many
    }
}

/// What the diffstat comes to.
pub open spec fn diffstat_text(files: nat, additions: nat, deletions: nat) -> Seq<char> {
    number::decimal(files) + " "@ + (if files == 1 {
        "file"@
    } else {
        "files"@
    }) + " changed, "@ + number::decimal(additions) + " "@ + (if additions == 1 {
        "insertion"@
    } else {
        "insertions"@
    }) + "(+), "@ + number::decimal(deletions) + " "@ + (if deletions == 1 {
        "deletion"@
    } else {
        "deletions"@
    }) + "(-)"@
}

pub fn diffstat_summary(files: usize, additions: usize, deletions: usize) -> (r: String)
    ensures
        r@ == diffstat_text(files as nat, additions as nat, deletions as nat),
{
    let mut out = concat3(decimal_text(files as u64).as_str(), " ", plural(files, "file", "files"));
    out.append(" changed, ");
    out.append(decimal_text(additions as u64).as_str());
    out.append(" ");
    out.append(plural(additions, "insertion", "insertions"));
    out.append("(+), ");
    out.append(decimal_text(deletions as u64).as_str());
    out.append(" ");
    out.append(plural(deletions, "deletion", "deletions"));
    out.append("(-)");
    out
}

/// The diff of several files is their diffs, one after the other.
pub proof fn diffs_follow_one_another(a: Seq<FileRow>, b: Seq<FileRow>)
    ensures
        shown_lines(a + b) == shown_lines(a) + shown_lines(b),
    decreases b.len(),
{
    if b.len() == 0 {
        assert(a + b =~= a);
        assert(shown_lines(a) + shown_lines(b) =~= shown_lines(a));
    } else {
        assert((a + b).drop_last() =~= a + b.drop_last());
        diffs_follow_one_another(a, b.drop_last());
        assert(shown_lines(a + b) =~= shown_lines(a) + shown_lines(b));
    }
}

/// Of a file that has its diff every line is shown; of one that has none yet,
/// nothing.
pub proof fn all_lines_of_a_file_are_shown(f: FileRow)
    ensures
        match f.diff {
            Some(d) => shown_lines(seq![f]) == d.lines@,
            None => shown_lines(seq![f]).len() == 0,
        },
{
    let one = seq![f];
    assert(one.drop_last() =~= Seq::empty());
    assert(shown_lines(one.drop_last()) =~= Seq::empty());
    match f.diff {
        Some(d) => {
            assert(shown_lines(one) =~= d.lines@);
        },
        None => {},
    }
}

/// How many lines the diffs of `files` have, one file after the other.
pub open spec fn lines_held(files: Seq<FileRow>) -> nat {
    files.fold_left(
        0nat,
        |n: nat, f: FileRow|
            n + (match f.diff {
                Some(d) => d.lines@.len(),
                None => 0,
            }),
    )
}

proof fn lemma_lines_held(files: Seq<FileRow>)
    ensures
        lines_held(files) == shown_lines(files).len(),
    decreases files.len(),
{
    reveal_with_fuel(Seq::fold_left, 2);
    if files.len() > 0 {
        lemma_lines_held(files.drop_last());
    }
}

/// Every line of every file's diff is shown, behind all the lines of the files
/// before it, and no other line is.
pub proof fn every_line_has_its_place(files: Seq<FileRow>, i: int, j: int)
    requires
        0 <= i < files.len(),
        files[i].diff is Some,
        0 <= j < files[i].diff->0.lines@.len(),
    ensures
        shown_lines(files).len() == lines_held(files),
        lines_held(files.take(i)) + j < shown_lines(files).len(),
        shown_lines(files)[lines_held(files.take(i)) + j] == files[i].diff->0.lines@[j],
{
    let before = files.take(i);
    let rest = files.skip(i + 1);
    let upto = before + seq![files[i]];
    lemma_lines_held(files);
    lemma_lines_held(before);
    diffs_follow_one_another(before, seq![files[i]]);
    diffs_follow_one_another(upto, rest);
    all_lines_of_a_file_are_shown(files[i]);
    assert(upto + rest =~= files);
}

/// Totals add up, file by file.
pub proof fn totals_add_up(a: Seq<FileRow>, b: Seq<FileRow>, f: FileRow)
    ensures
        all_added(a + b) == all_added(a) + all_added(b),
        all_removed(a + b) == all_removed(a) + all_removed(b),
        f.diff matches Some(d) ==> all_added(seq![f]) == d.additions && all_removed(seq![f])
            == d.deletions,
        f.diff is None ==> all_added(seq![f]) == 0 && all_removed(seq![f]) == 0,
    decreases b.len(),
{
    let one = seq![f];
    assert(one.drop_last() =~= Seq::empty());
    assert(all_added(one.drop_last()) == 0 && all_removed(one.drop_last()) == 0);
    if b.len() == 0 {
        assert(a + b =~= a);
    } else {
        assert((a + b).drop_last() =~= a + b.drop_last());
        totals_add_up(a, b.drop_last(), f);
    }
}

/// While its diff comes in, all else on a commit's page but the note stays.
pub proof fn header_stays(a: CommitProps, b: CommitProps)
    requires
        a.same_header(b),
    ensures
        a == (CommitProps {
            notes: a.notes,
            total_additions: a.total_additions,
            total_deletions: a.total_deletions,
            files: a.files,
            settled: a.settled,
            complete: a.complete,
            ..b
        }),
{
}

/// Contacts are shown as they are written.
pub proof fn contacts_are_shown_as_they_are_written(
    ident: Ident,
    name: Seq<char>,
    email: Seq<char>,
    date: Moment,
)
    requires
        ident_is(ident, vstd::utf8::encode_utf8(name), vstd::utf8::encode_utf8(email), date),
    ensures
        ident.name@ == name,
        ident.email@ == email,
        ident.date@ == time::moment_text(date),
{
    utf8::lossy_reads_back_encoded_text(name);
    utf8::lossy_reads_back_encoded_text(email);
}

/// What a diffstat counts is told in its order, and only one of a kind is told in
/// the singular.
pub proof fn diffstats_tell_their_counts(files: nat, additions: nat, deletions: nat)
    ensures
        ({
            let f = number::decimal(files) + (if files == 1 {
                " file changed, "@
            } else {
                " files changed, "@
            });
            let a = number::decimal(additions) + (if additions == 1 {
                " insertion(+), "@
            } else {
                " insertions(+), "@
            });
            let d = number::decimal(deletions) + (if deletions == 1 {
                " deletion(-)"@
            } else {
                " deletions(-)"@
            });
            diffstat_text(files, additions, deletions) == f + a + d
        }),
{
    reveal_strlit(" ");
    reveal_strlit("file");
    reveal_strlit("files");
    reveal_strlit(" changed, ");
    reveal_strlit(" file changed, ");
    reveal_strlit(" files changed, ");
    reveal_strlit("insertion");
    reveal_strlit("insertions");
    reveal_strlit("(+), ");
    reveal_strlit(" insertion(+), ");
    reveal_strlit(" insertions(+), ");
    reveal_strlit("deletion");
    reveal_strlit("deletions");
    reveal_strlit("(-)");
    reveal_strlit(" deletion(-)");
    reveal_strlit(" deletions(-)");
    assert(" "@ + "file"@ + " changed, "@ =~= " file changed, "@);
    assert(" "@ + "files"@ + " changed, "@ =~= " files changed, "@);
    assert(" "@ + "insertion"@ + "(+), "@ =~= " insertion(+), "@);
    assert(" "@ + "insertions"@ + "(+), "@ =~= " insertions(+), "@);
    assert(" "@ + "deletion"@ + "(-)"@ =~= " deletion(-)"@);
    assert(" "@ + "deletions"@ + "(-)"@ =~= " deletions(-)"@);
    lemma_three_counts(
        (number::decimal(files), number::decimal(additions), number::decimal(deletions)),
        (" "@, if files == 1 {
            "file"@
        } else {
            "files"@
        }, " changed, "@),
        (" "@, if additions == 1 {
            "insertion"@
        } else {
            "insertions"@
        }, "(+), "@),
        (" "@, if deletions == 1 {
            "deletion"@
        } else {
            "deletions"@
        }, "(-)"@),
    );
}

proof fn lemma_three_counts(
    n: (Seq<char>, Seq<char>, Seq<char>),
    f: (Seq<char>, Seq<char>, Seq<char>),
    a: (Seq<char>, Seq<char>, Seq<char>),
    d: (Seq<char>, Seq<char>, Seq<char>),
)
    ensures
        n.0 + f.0 + f.1 + f.2 + n.1 + a.0 + a.1 + a.2 + n.2 + d.0 + d.1 + d.2 == (n.0 + (f.0 + f.1
            + f.2)) + (n.1 + (a.0 + a.1 + a.2)) + (n.2 + (d.0 + d.1 + d.2)),
{
    assert(n.0 + f.0 + f.1 + f.2 + n.1 + a.0 + a.1 + a.2 + n.2 + d.0 + d.1 + d.2 =~= (n.0 + (f.0
        + f.1 + f.2)) + (n.1 + (a.0 + a.1 + a.2)) + (n.2 + (d.0 + d.1 + d.2)));
}

/// A note is shown as it is written, word by word as a message is, and none where
/// there is none.
pub proof fn notes_are_shown_as_they_are_written(props: CommitProps, note: &[u8], s: Seq<char>)
    requires
        note@ == vstd::utf8::encode_utf8(s),
    ensures
        props.shows_note(None) <==> props.notes is None,
        props.shows_note(Some(note)) ==> (props.notes matches Some(shown) && message::pieces_view(
            shown@,
        ) == message::pieces(s)),
{
    utf8::lossy_reads_back_encoded_text(s);
}

} // verus!
