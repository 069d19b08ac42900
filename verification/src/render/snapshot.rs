//! The snapshot view: the page shown while a download is being built, and the
//! download once it is.
//!
//! A `.tar.gz` is one revision's tree; a `.bundle` is every object a ref
//! reaches. They differ in what the two phases are doing — see [`stage_labels`]
//! — and in what the finished file is counted in, files or objects.

use vstd::prelude::*;
use crate::number;
use crate::number::decimal_text;
use crate::pace;
use crate::pace::Pace;
use crate::route::SnapshotFormat;
use crate::stats;
use crate::stats::format_bytes;
use crate::text;
use crate::text::{concat, concat3, trim_of};

verus! {

/// What is being archived.
pub enum EntryKind {
    File { executable: bool },
    Directory,
    Symlink { target: Vec<u8> },
}

/// One entry of an archive.
pub struct ArchiveEntry {
    pub path: String,
    pub kind: EntryKind,
    pub data: Vec<u8>,
}

/// How far the snapshot has got.
#[derive(Clone, Copy, PartialEq, Eq, Structural, Debug)]
pub enum SnapshotState {
    /// Still walking. `total` is how many objects have been requested so far,
    /// which grows as the walk uncovers more of the tree.
    Building { fetched: usize, total: usize },
    Writing { written: usize, total: usize },
    /// Built: the file's size, and how many files or objects went into it.
    Ready { size: usize, count: usize },
}

/// The labels of the two phases.
pub open spec fn labels(format: SnapshotFormat) -> (Seq<char>, Seq<char>) {
    match format {
        SnapshotFormat::TarGz => ("fetching objects"@, "compressing"@),
        SnapshotFormat::Bundle => ("enumerating objects"@, "writing objects"@),
    }
}

pub fn stage_labels(format: SnapshotFormat) -> (r: (&'static str, &'static str))
    ensures
        (r.0@, r.1@) == labels(format),
{
    match format {
        SnapshotFormat::TarGz => ("fetching objects", "compressing"),
        SnapshotFormat::Bundle => ("enumerating objects", "writing objects"),
    }
}

/// How many of `entries` are files.
pub open spec fn file_count(entries: Seq<ArchiveEntry>) -> nat
    decreases entries.len(),
{
    if entries.len() == 0 {
        0
    } else {
        file_count(entries.drop_last()) + (if entries.last().kind is File {
            1nat
        } else {
            0nat
        })
    }
}

/// How many of `entries` are files, which is what the view reports: the
/// directories are structure rather than content.
pub fn count_files(entries: &Vec<ArchiveEntry>) -> (r: usize)
    ensures
        r == file_count(entries@),
{
    let mut n: usize = 0;
    let mut i: usize = 0;
    while i < entries.len()
        invariant
            i <= entries@.len(),
            n <= i,
            n == file_count(entries@.take(i as int)),
        decreases entries@.len() - i,
    {
        proof {
            assert(entries@.take(i + 1).drop_last() =~= entries@.take(i as int));
        }
        if let EntryKind::File { .. } = &entries[i].kind {
            n = n + 1;
        }
        i = i + 1;
    }
    proof {
        assert(entries@.take(i as int) =~= entries@);
    }
    n
}

/// What stands for `c` in the name of a file.
pub open spec fn file_char(c: char) -> char {
    if c == '/' || c == '\\' {
        '-'
    } else {
        c
    }
}

/// `s` without the slashes at its ends, and a dash for each other slash.
pub open spec fn flat(s: Seq<char>) -> Seq<char> {
    text::trim(s, '/').map_values(|c: char| file_char(c))
}

/// The name and the top-level directory of the archive of `label`.
pub open spec fn stem(repo: Seq<char>, label: Seq<char>) -> Seq<char> {
    flat(repo) + "-"@ + flat(label)
}

/// What a download of `label` is saved as.
pub open spec fn file_name(
    repo: Seq<char>,
    label: Seq<char>,
    format: SnapshotFormat,
) -> Seq<char> {
    stem(repo, label) + "."@ + format.ending()
}

/// `s` flattened to a plain file name.
fn flatten(s: &str) -> (r: String)
    ensures
        r@ == flat(s@),
{
    let inner = trim_of(s, '/');
    let mut out = String::new();
    for c in it: inner.chars()
        invariant
            it.seq() == inner@,
            out@ == inner@.take(it.index() as int).map_values(|c: char| file_char(c)),
    {
        proof {
            assert(inner@.take(it.index() + 1) =~= inner@.take(it.index() as int).push(c));
        }
        out.push(
            if c == '/' || c == '\\' {
                '-'
            } else {
                c
            },
        );
        proof {
            assert(out@ =~= inner@.take(it.index() + 1).map_values(|c: char| file_char(c)));
        }
    }
    proof {
        assert(inner@.take(inner@.len() as int) =~= inner@);
    }
    out
}

/// The archive's name and its top-level directory (they are the same string):
/// `<repo>-<ref>`.
///
/// Both halves are flattened to a plain file name, since a ref may contain `/`
/// (`release/2.0`), which can't appear in something the browser is about to
/// save to disk.
pub fn snapshot_stem(repo: &str, ref_label: &str) -> (r: String)
    ensures
        r@ == stem(repo@, ref_label@),
{
    concat3(flatten(repo).as_str(), "-", flatten(ref_label).as_str())
}

/// What the browser will save a download of `ref_label` as.
///
/// Shared with the download links in the ref tables and on the tag page, so
/// what the link says and what lands in the downloads folder are the same
/// string.
pub fn snapshot_file_name(repo: &str, ref_label: &str, format: SnapshotFormat) -> (r: String)
    ensures
        r@ == file_name(repo@, ref_label@, format),
{
    concat3(snapshot_stem(repo, ref_label).as_str(), ".", format.extension())
}

/// The time stamped on an archive's entries: the commit's own, so that
/// archiving the same commit twice yields the same bytes. A commit before the
/// epoch has no sensible time there; it is clamped.
pub fn archive_mtime(commit_seconds: i64) -> (r: u64)
    ensures
        r == (if commit_seconds < 0 {
            0
        } else {
            commit_seconds as int
        }),
{
    if commit_seconds < 0 {
        0
    } else {
        commit_seconds as u64
    }
}

/// A walk that is being counted.
pub struct Walk {
    pub fetched: usize,
    pub total: usize,
    pub pace: Pace,
}

impl Walk {
    /// A walk that has not begun: an empty bar before the first object lands.
    pub fn new() -> (r: Self)
        ensures
            r.fetched == 0,
            r.total == 0,
            r.pace.last == 0,
    {
        Walk { fetched: 0, total: 0, pace: Pace::since(0) }
    }

    /// Where the walk is.
    pub fn state(&self) -> (r: SnapshotState)
        ensures
            r == (SnapshotState::Building { fetched: self.fetched, total: self.total }),
    {
        SnapshotState::Building { fetched: self.fetched, total: self.total }
    }

    /// The walk has got further. The answer is what to show, where a report is
    /// due; the counts are kept either way, so that the walk's last state is
    /// the real total even where the step that would have shown it was skipped.
    pub fn step(&mut self, fetched: usize, total: usize, now: u64) -> (r: Option<SnapshotState>)
        ensures
            final(self).fetched == fetched,
            final(self).total == total,
            r == (if pace::due_at(old(self).pace.last, now) {
                Some(SnapshotState::Building { fetched, total })
            } else {
                None::<SnapshotState>
            }),
            final(self).pace.last == (if r is Some {
                now
            } else {
                old(self).pace.last
            }),
    {
        self.fetched = fetched;
        self.total = total;
        if self.pace.due(now) {
            Some(SnapshotState::Building { fetched, total })
        } else {
            None
        }
    }
}

/// The progress bar of a download that is being built.
pub struct ProgressBar {
    /// What is being done, and how far.
    pub status: String,
    pub value: usize,
    pub max: usize,
    /// The bar's own text.
    pub label: String,
}

/// `done` out of `total`.
pub open spec fn ratio(done: nat, total: nat) -> Seq<char> {
    number::decimal(done) + "/"@ + number::decimal(total)
}

/// What the bar of this stage is.
pub open spec fn bar_shows(b: ProgressBar, stage: Seq<char>, done: usize, total: usize) -> bool {
    &&& b.status@ == stage + "\u{2026} "@ + ratio(done as nat, total as nat)
    &&& b.value == done
    &&& b.max == (if total == 0 {
        1
    } else {
        total as int
    })
    &&& b.label@ == ratio(done as nat, total as nat)
}

fn ratio_text(done: usize, total: usize) -> (r: String)
    ensures
        r@ == ratio(done as nat, total as nat),
{
    concat3(decimal_text(done as u64).as_str(), "/", decimal_text(total as u64).as_str())
}

/// The bar of a download that is being built. The `max` of a bar is never
/// zero, though before the first object is queued that is where the walk is.
pub fn progress_bar(stage: &str, done: usize, total: usize) -> (r: ProgressBar)
    ensures
        bar_shows(r, stage@, done, total),
{
    let label = ratio_text(done, total);
    ProgressBar {
        status: concat3(stage, "\u{2026} ", label.as_str()),
        value: done,
        max: if total == 0 {
            1
        } else {
            total
        },
        label,
    }
}

/// The bar to show for a snapshot; `None` once it is ready.
pub fn building_bar(format: SnapshotFormat, state: SnapshotState) -> (r: Option<ProgressBar>)
    ensures
        match state {
            SnapshotState::Building { fetched, total } => r matches Some(b) && bar_shows(
                b,
                labels(format).0,
                fetched,
                total,
            ),
            SnapshotState::Writing { written, total } => r matches Some(b) && bar_shows(
                b,
                labels(format).1,
                written,
                total,
            ),
            SnapshotState::Ready { .. } => r is None,
        },
{
    let (walking, writing) = stage_labels(format);
    match state {
        SnapshotState::Building { fetched, total } => Some(progress_bar(walking, fetched, total)),
        SnapshotState::Writing { written, total } => Some(progress_bar(writing, written, total)),
        SnapshotState::Ready { .. } => None,
    }
}

/// What is said of a finished download: how much is in it, and its size.
pub open spec fn summary_text(format: SnapshotFormat, size: nat, count: nat) -> Seq<char> {
    number::decimal(count) + " "@ + (match format {
        SnapshotFormat::TarGz => "file"@,
        SnapshotFormat::Bundle => "object"@,
    }) + (if count == 1 {
        ""@
    } else {
        "s"@
    }) + ", "@ + stats::bytes_text(size)
}

pub fn ready_summary(format: SnapshotFormat, size: usize, count: usize) -> (r: String)
    ensures
        r@ == summary_text(format, size as nat, count as nat),
{
    let noun = match format {
        SnapshotFormat::TarGz => "file",
        SnapshotFormat::Bundle => "object",
    };
    let plural = if count == 1 {
        ""
    } else {
        "s"
    };
    let counted = concat3(decimal_text(count as u64).as_str(), " ", noun);
    let head = concat3(counted.as_str(), plural, ", ");
    concat(head.as_str(), format_bytes(size as u64).as_str())
}

/// A download is one plain file name, whatever the repository and the ref are
/// called.
pub proof fn file_name_holds_no_slash(repo: Seq<char>, label: Seq<char>, format: SnapshotFormat)
    ensures
        !file_name(repo, label, format).contains('/'),
        !file_name(repo, label, format).contains('\\'),
{
    reveal_strlit("-");
    reveal_strlit(".");
    reveal_strlit("tar.gz");
    reveal_strlit("bundle");
    let name = file_name(repo, label, format);
    assert forall|i: int| 0 <= i < name.len() implies name[i] != '/' && name[i] != '\\' by {
        let (a, b) = (flat(repo), flat(label));
        if i < a.len() {
            assert(name[i] == a[i]);
        } else if i > a.len() && i - a.len() - 1 < b.len() {
            assert(name[i] == b[i - a.len() - 1]);
        }
    }
}

/// Files are counted wherever they stand, and nothing else is.
pub proof fn every_file_is_counted(a: Seq<ArchiveEntry>, b: Seq<ArchiveEntry>, one: ArchiveEntry)
    ensures
        file_count(a + b) == file_count(a) + file_count(b),
        file_count(seq![one]) == (match one.kind {
            EntryKind::File { .. } => 1nat,
            EntryKind::Directory => 0nat,
            EntryKind::Symlink { .. } => 0nat,
        }),
    decreases b.len(),
{
    assert(seq![one].drop_last() =~= Seq::empty());
    assert(file_count(Seq::<ArchiveEntry>::empty()) == 0);
    if b.len() == 0 {
        assert(a + b =~= a);
    } else {
        assert((a + b).drop_last() =~= a + b.drop_last());
        every_file_is_counted(a, b.drop_last(), one);
    }
}

/// A download is named by the repository and the ref as they are, but that a dash
/// stands for each slash inside them and none stands for those at their ends.
pub proof fn downloads_are_named_by_repository_and_ref(
    repo: Seq<char>,
    label: Seq<char>,
    format: SnapshotFormat,
    i: int,
)
    requires
        repo.len() > 0 ==> repo[0] != '/' && repo.last() != '/',
        label.len() > 0 ==> label[0] != '/' && label.last() != '/',
    ensures
        ({
            let name = file_name(repo, label, format);
            let n = repo.len() as int;
            let m = label.len() as int;
            &&& 0 <= i < n ==> name[i] == (if repo[i] == '/' || repo[i] == '\\' {
                '-'
            } else {
                repo[i]
            })
            &&& name[n] == '-'
            &&& 0 <= i < m ==> name[n + 1 + i] == (if label[i] == '/' || label[i] == '\\' {
                '-'
            } else {
                label[i]
            })
            &&& name.skip(n + 1 + m) == "."@ + format.ending()
            &&& stem(repo, label) == name.take(n + 1 + m)
        }),
        stem(seq!['/'] + repo + seq!['/'], seq!['/'] + label + seq!['/']) == stem(repo, label),
{
    reveal_strlit("-");
    lemma_untrimmed(repo);
    lemma_untrimmed(label);
    lemma_trimmed(repo);
    lemma_trimmed(label);
    let name = file_name(repo, label, format);
    let n = repo.len() as int;
    let m = label.len() as int;
    assert(name.skip(n + 1 + m) =~= "."@ + format.ending());
    assert(name.take(n + 1 + m) =~= stem(repo, label));
}

proof fn lemma_untrimmed(s: Seq<char>)
    requires
        s.len() > 0 ==> s[0] != '/' && s.last() != '/',
    ensures
        text::trim(s, '/') == s,
{
}

proof fn lemma_trimmed(s: Seq<char>)
    requires
        s.len() > 0 ==> s[0] != '/' && s.last() != '/',
    ensures
        text::trim(seq!['/'] + s + seq!['/'], '/') == s,
{
    let t = seq!['/'] + s + seq!['/'];
    text::only_a_run_is_trimmed_off_the_start(t, '/');
    let u = text::trim_start(t, '/');
    let k = t.len() - u.len();
    if s.len() > 0 {
        assert(t[1] == s[0]);
        assert(k == 1) by {
            if k == 0 {
                assert(u[0] == t[0]);
            }
        }
        assert(u =~= s + seq!['/']);
        text::only_a_run_is_trimmed_off_the_end(u, '/');
        let v = text::trim_end(u, '/');
        assert(u[s.len() - 1] == s.last());
        if v.len() > s.len() {
            assert(v.last() == u[s.len() as int]);
        }
        assert(v =~= s);
    } else {
        if u.len() > 0 {
            assert(u[0] == t[k]);
        }
        assert(u =~= s);
    }
}

/// A bar tells how much is done of how much, and is full only when all of it is;
/// a stage with nothing to do has an empty bar.
pub proof fn bars_tell_how_much_is_done(
    b: ProgressBar,
    stage: Seq<char>,
    done: usize,
    total: usize,
)
    requires
        bar_shows(b, stage, done, total),
        done <= total,
    ensures
        b.max >= 1,
        b.value <= b.max,
        b.value == b.max <==> total > 0 && done == total,
        b.label@ == number::decimal(done as nat) + seq!['/'] + number::decimal(total as nat),
        stage.is_prefix_of(b.status@),
        b.label@.is_suffix_of(b.status@),
{
    reveal_strlit("/");
    assert("/"@ =~= seq!['/']);
    let mid = "\u{2026} "@;
    let r = ratio(done as nat, total as nat);
    text::lemma_prefix(stage, b.status@);
    let n = b.status@.len() as int;
    assert(b.status@.subrange(n - r.len(), n) =~= r);
}

/// A finished download tells its files, or its objects where it is a bundle, and
/// only a single one in the singular.
pub proof fn downloads_tell_what_is_in_them(size: nat, count: nat)
    ensures
        summary_text(SnapshotFormat::TarGz, size, count) == number::decimal(count) + (if count
            == 1 {
            " file, "@
        } else {
            " files, "@
        }) + stats::bytes_text(size),
        summary_text(SnapshotFormat::Bundle, size, count) == number::decimal(count) + (if count
            == 1 {
            " object, "@
        } else {
            " objects, "@
        }) + stats::bytes_text(size),
{
    reveal_strlit(" ");
    reveal_strlit("file");
    reveal_strlit("object");
    reveal_strlit("");
    reveal_strlit("s");
    reveal_strlit(", ");
    reveal_strlit(" file, ");
    reveal_strlit(" files, ");
    reveal_strlit(" object, ");
    reveal_strlit(" objects, ");
    let n = number::decimal(count);
    let size_text = stats::bytes_text(size);
    assert(n + " "@ + "file"@ + ""@ + ", "@ + size_text =~= n + " file, "@ + size_text);
    assert(n + " "@ + "file"@ + "s"@ + ", "@ + size_text =~= n + " files, "@ + size_text);
    assert(n + " "@ + "object"@ + ""@ + ", "@ + size_text =~= n + " object, "@ + size_text);
    assert(n + " "@ + "object"@ + "s"@ + ", "@ + size_text =~= n + " objects, "@ + size_text);
}

} // verus!
