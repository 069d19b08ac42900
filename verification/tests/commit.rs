use webgit::object::{ObjectId, PrefixResolution, TreeEntryType};
use webgit::render::commit::controls::{diff_controls, step_context, Segment};
use webgit::render::commit::message::{is_sha1, linkify_message, MessageSegment};
use webgit::render::commit::side_by_side::{side_rows, SideRow};
use webgit::render::commit::stream::{
    can_count, needs_patch_diff, pending_rows, recompute_bars, side_data, sides, DiffEntry,
    LookedUp,
};
use webgit::render::commit::{
    diff_base, diff_line, diff_lines, diffstat_row, diffstat_summary, expanded_sha, note_segments,
    parent_label, resolve_sha, CommitHeader, CommitProps, FileDiff, FileRow, LineKind, PatchLine,
    ShaStep,
};
use webgit::render::time::{CivilDate, Moment};
use webgit::route::diff_view::{DiffMode, DiffOptions, DiffView, Whitespace};

fn line(text: &str) -> PatchLine {
    let kind = match text.chars().next() {
        Some('+') => LineKind::Insert,
        Some('-') => LineKind::Delete,
        Some(' ') => LineKind::Context,
        _ => LineKind::Meta,
    };
    PatchLine { kind, text: text.to_string() }
}

/// A file row with a diff already in it, as the view holds one once its blobs
/// have loaded.
fn row(path: &str, lines: &[&str]) -> FileRow {
    let body: Vec<&&str> =
        lines.iter().filter(|l| !l.starts_with("---") && !l.starts_with("+++")).collect();
    FileRow {
        path: path.to_string(),
        diff: Some(FileDiff {
            lines: lines.iter().map(|l| line(l)).collect(),
            additions: body.iter().filter(|l| l.starts_with('+')).count(),
            deletions: body.iter().filter(|l| l.starts_with('-')).count(),
        }),
        patch_diff: None,
        bar_add: 0,
        bar_del: 0,
    }
}

/// A file row whose diff has `additions` added lines and `deletions` removed
/// ones, for the bar arithmetic.
fn file(path: &str, additions: usize, deletions: usize) -> FileRow {
    FileRow {
        path: path.to_string(),
        diff: Some(FileDiff { lines: Vec::new(), additions, deletions }),
        patch_diff: None,
        bar_add: 0,
        bar_del: 0,
    }
}

#[test]
fn test_recompute_bars_normalises_to_widest() {
    // The widest file (4 changes) fills the 40-column bar split by its
    // add/del ratio; a smaller file scales proportionally.
    let mut files = vec![file("big.rs", 3, 1), file("small", 1, 0)];
    recompute_bars(&mut files);
    assert_eq!((files[0].bar_add, files[0].bar_del), (30, 10));
    assert_eq!((files[1].bar_add, files[1].bar_del), (10, 0));
}

#[test]
fn test_recompute_bars_rescales_as_files_stream_in() {
    // Mid-stream the first (and only) file owns the full bar...
    let mut files = vec![file("first", 4, 0)];
    recompute_bars(&mut files);
    assert_eq!((files[0].bar_add, files[0].bar_del), (40, 0));
    // ...then a larger file arriving rescales the earlier one down.
    files.push(file("bigger", 0, 8));
    recompute_bars(&mut files);
    assert_eq!((files[0].bar_add, files[0].bar_del), (20, 0));
    assert_eq!((files[1].bar_add, files[1].bar_del), (0, 40));
}

#[test]
fn bars_of_files_that_change_nothing_are_empty() {
    let mut files = vec![file("same", 0, 0)];
    recompute_bars(&mut files);
    assert_eq!((files[0].bar_add, files[0].bar_del), (0, 0));
    recompute_bars(&mut Vec::new());
}

fn text(s: &str) -> MessageSegment {
    MessageSegment::Text(s.to_string())
}

fn sha(s: &str) -> MessageSegment {
    MessageSegment::Sha(s.to_string())
}

#[test]
fn test_linkify_message() {
    // A 7-40 char hex run becomes a SHA segment; surrounding text stays text.
    assert_eq!(
        linkify_message("see 0123abcd <ok>"),
        vec![text("see "), sha("0123abcd"), text(" <ok>")]
    );
    // Full 40-char SHA-1.
    let full = "0123456789abcdef0123456789abcdef01234567";
    assert_eq!(linkify_message(full), vec![sha(full)]);
    // Too short (<7), too long (>40), uppercase, or embedded in a word: text.
    assert_eq!(linkify_message("abc123"), vec![text("abc123")]);
    assert_eq!(linkify_message("0123ABCD"), vec![text("0123ABCD")]);
    assert_eq!(linkify_message("x0123abcd"), vec![text("x0123abcd")]);
    assert_eq!(linkify_message(&"a".repeat(41)), vec![text(&"a".repeat(41))]);
}

#[test]
fn test_linkify_message_links_all_digit_runs() {
    // An all-digit run is a valid abbreviation, so it is linkified like any
    // other. Resolution decides whether it names anything — a date or a bug
    // number simply reports "unknown SHA" when followed.
    for token in ["20250101", "1234567", "1234567890", "2025010a"] {
        assert_eq!(
            linkify_message(token),
            vec![sha(token)],
            "{token} should be linkified"
        );
    }
}

#[test]
fn test_linkify_message_no_spurious_links() {
    // Markup and quotes are never mistaken for SHAs: the whole string stays
    // one text run.
    let attack = "<script>alert('xss')</script> & \"quotes\"";
    assert_eq!(linkify_message(attack), vec![text(attack)]);
}

/// The segments of a message are the message, whatever is in it.
#[test]
fn splitting_a_message_loses_nothing() {
    for message in ["", "a", "0123abc 89abcde", "caf\u{e9} deadbeef\u{2026}\n", "word_abc1234"] {
        let whole: String = linkify_message(message)
            .into_iter()
            .map(|s| match s {
                MessageSegment::Text(t) => t,
                MessageSegment::Sha(s) => s,
            })
            .collect();
        assert_eq!(whole, message);
    }
    // An underscore is in a word, so what follows it is no word of its own.
    assert_eq!(linkify_message("word_abc1234"), vec![text("word_abc1234")]);
    assert_eq!(linkify_message("abc1234_x"), vec![text("abc1234_x")]);
    assert_eq!(linkify_message("word-abc1234"), vec![text("word-"), sha("abc1234")]);
    assert_eq!(sha("abc1234").href().as_deref(), Some("#!/commit/abc1234"));
    assert_eq!(text("abc1234").href(), None);
    assert!(is_sha1("abc1234"));
    assert!(!is_sha1("abc123"));
    assert_eq!(note_segments(b"see 0123abcd"), vec![text("see "), sha("0123abcd")]);
}

fn moment() -> Moment {
    Moment {
        unix_ms: 0,
        date: CivilDate { year: 2026, month: 1, day: 15 },
        hour: 12,
        minute: 34,
        second: 56,
        offset_seconds: 0,
    }
}

const SHA: &str = "0123abcd0123abcd0123abcd0123abcd0123abcd";

fn id(hex: &str) -> ObjectId {
    ObjectId::from_hex(hex.as_bytes()).unwrap()
}

fn base_fixture() -> CommitProps {
    let commit = CommitHeader {
        id: id(SHA),
        author_name: b"Kunal Mehta".to_vec(),
        author_email: b"author@example.org".to_vec(),
        author_date: moment(),
        committer_name: b"Committer Person".to_vec(),
        committer_email: b"committer@example.org".to_vec(),
        commit_date: moment(),
        tree: id("fedcba98fedcba98fedcba98fedcba98fedcba98"),
        message: b"Fix the thing\n\nSee 0123abcd for context.".to_vec(),
    };
    CommitProps::base(&commit, &vec![id(&"1".repeat(40)), id(&"2".repeat(40))], "", DiffView::default())
}

/// Put these files on a page as they are, all of them or the first ones of more.
fn put(props: &mut CommitProps, files: Vec<FileRow>, complete: bool) {
    props.total_additions = files.iter().map(|f| f.additions()).sum();
    props.total_deletions = files.iter().map(|f| f.deletions()).sum();
    props.settled = files.iter().filter(|f| f.diff.is_some()).count();
    props.files = files;
    props.complete = complete;
}

/// A file that differs between two trees.
fn changed(path: &str) -> DiffEntry {
    DiffEntry::Both {
        path: path.as_bytes().to_vec(),
        left_type: TreeEntryType::File,
        right_type: TreeEntryType::File,
        content: (id(&"1".repeat(40)), id(&"2".repeat(40))),
    }
}

/// A diff of so many added and removed lines.
fn counted(additions: usize, deletions: usize) -> FileDiff {
    FileDiff { lines: Vec::new(), additions, deletions }
}

/// A diff comes in one file after the other, and is whole once each has its own.
#[test]
fn diff_comes_in_file_by_file() {
    let diffs = |p: &CommitProps| -> Vec<Option<usize>> {
        p.files.iter().map(|f| f.diff.as_ref().map(|d| d.additions)).collect()
    };
    let bars = |p: &CommitProps| -> Vec<(usize, usize)> {
        p.files.iter().map(|f| (f.bar_add, f.bar_del)).collect()
    };
    let mut props = base_fixture();
    assert_eq!(props.next_file(), None);
    props.start_diff(&vec![changed("a"), changed("b"), changed("c")], None);
    assert_eq!(diffs(&props), [None, None, None]);
    assert_eq!(props.notes, None);
    assert_eq!(props.next_file(), Some(0));
    assert_eq!(props.patch_name(), None);

    props.fold_in(counted(4, 0), None);
    assert_eq!(props.next_file(), Some(1));
    props.show_partial(Some(b"see 0123abcd"));
    assert_eq!(diffs(&props), [Some(4), None, None]);
    assert_eq!(bars(&props), [(40, 0), (0, 0), (0, 0)]);
    assert_eq!((props.total_additions, props.total_deletions), (4, 0));
    assert_eq!(props.notes, Some(vec![text("see "), sha("0123abcd")]));
    assert_eq!(props.patch_name(), None);

    props.fold_in(counted(0, 8), Some(counted(9, 9)));
    props.fold_in(counted(2, 0), None);
    assert_eq!(props.next_file(), None);
    props.show_whole(None);
    assert_eq!(diffs(&props), [Some(4), Some(0), Some(2)]);
    assert_eq!(bars(&props), [(20, 0), (0, 40), (10, 0)]);
    assert_eq!((props.total_additions, props.total_deletions), (6, 8));
    assert_eq!(props.files[1].for_patch().unwrap().additions, 9);
    assert_eq!(props.notes, None);
    assert_eq!(props.patch_name(), Some(format!("{SHA}.patch")));
    assert_eq!(props.hash(), SHA);
}

#[test]
fn diff_is_of_the_first_parent() {
    assert_eq!(diff_base(&vec![id(&"1".repeat(40)), id(&"2".repeat(40))]), Some(id(&"1".repeat(40))));
    assert_eq!(diff_base(&Vec::new()), None);
}

#[test]
fn counts_that_cannot_be_told_are_noticed() {
    assert!(can_count(&Vec::new()));
    assert!(can_count(&vec![file("a", 3, 1), file("b", 2, 0)]));
    assert!(can_count(&vec![file("a", usize::MAX / 40, 0)]));
    assert!(!can_count(&vec![file("a", usize::MAX / 40 + 1, 0)]));
    assert!(!can_count(&vec![file("a", usize::MAX, 1)]));
    let many: Vec<FileRow> = (0..41).map(|_| file("a", usize::MAX / 40, 0)).collect();
    assert!(!can_count(&many));
}

#[test]
fn header_is_known_before_the_diff() {
    let props = base_fixture();
    assert_eq!(props.hash(), SHA);
    assert_eq!(
        props.author.line(),
        "Kunal Mehta <author@example.org> 2026-01-15 12:34:56 +00:00"
    );
    assert_eq!(
        props.committer.line(),
        "Committer Person <committer@example.org> 2026-01-15 12:34:56 +00:00"
    );
    assert_eq!(props.parents[0].short, "11111111");
    assert_eq!(props.parents[1].href(), format!("#!/commit/{}", "2".repeat(40)));
    assert_eq!(parent_label(true), "parent");
    assert_eq!(parent_label(false), "");
    assert_eq!(props.tree_hash, "fedcba98fedcba98fedcba98fedcba98fedcba98");
    assert_eq!(props.tree_href(), format!("#!/tree?h={SHA}"));
    assert_eq!(
        props.message,
        vec![text("Fix the thing\n\nSee "), sha("0123abcd"), text(" for context.")]
    );
    assert!(!props.shows_diffstat());
    assert!(!props.shows_diff());
}

#[test]
fn totals_are_of_all_the_files() {
    let mut props = base_fixture();
    props.start_diff(&vec![changed("a"), changed("b")], None);
    props.fold_in(counted(3, 1), None);
    props.fold_in(counted(2, 0), None);
    props.show_partial(None);
    assert_eq!((props.total_additions, props.total_deletions), (5, 1));
    assert!(props.shows_diffstat());
    assert!(props.shows_diff());
    props.view = DiffView { mode: DiffMode::StatOnly, ..DiffView::default() };
    assert!(props.shows_diffstat());
    assert!(!props.shows_diff());
}

#[test]
fn test_patch_link_waits_for_the_whole_diff() {
    // A patch built from an unfinished view would be missing files, so the
    // link is only offered once the diff is done...
    let lines = ["@@ -1,2 +1,2 @@", " alpha", "-beta", "+beta changed"];
    let mut props = base_fixture();
    put(&mut props, vec![row("src/main.rs", &lines)], true);
    assert_eq!(props.patch_name(), Some(format!("{SHA}.patch")));

    // ...both while a file's blobs are still loading...
    let mut streaming = base_fixture();
    put(&mut streaming, vec![row("src/main.rs", &lines)], false);
    streaming.files[0].diff = None;
    assert_eq!(streaming.patch_name(), None);

    // ...and on the metadata-only first frame, whose empty file list would
    // otherwise look exactly like a root commit's and hand over a patch
    // with no diff in it.
    let mut first_frame = base_fixture();
    put(&mut first_frame, vec![], false);
    assert_eq!(first_frame.patch_name(), None);
}

/// The patch is of git's defaults, whatever the view shows.
#[test]
fn patch_is_taken_from_the_defaults() {
    let mut shown = file("a", 1, 1);
    assert_eq!(shown.for_patch().unwrap().additions, 1);
    shown.patch_diff = Some(FileDiff { lines: Vec::new(), additions: 2, deletions: 2 });
    assert_eq!(shown.for_patch().unwrap().additions, 2);
    let pending = FileRow { diff: None, patch_diff: None, ..shown };
    assert!(pending.for_patch().is_none());
    assert_eq!((pending.additions(), pending.deletions()), (0, 0));
    assert!(!needs_patch_diff(DiffView::default().diff_options()));
    assert!(needs_patch_diff(DiffOptions { context: 1, whitespace: Whitespace::Significant }));
    assert!(needs_patch_diff(DiffOptions { context: 3, whitespace: Whitespace::Ignore }));
}

#[test]
fn commit_html_without_notes_has_no_notes_markup() {
    // The usual case: no notes ref, or none for this commit. Nothing is
    // drawn for it — not an empty box, and no heading.
    assert!(base_fixture().notes.is_none());
}

/// A commit whose diff exercises the side-by-side cases at once: two lines
/// that pair one-for-one, an unchanged line between the changes, and a pure
/// insertion, which leaves the left column with nothing to show.
fn uneven_fixture() -> FileRow {
    row(
        "src/main.rs",
        &[
            "diff --git a/src/main.rs b/src/main.rs",
            "index 1111111..2222222 100644",
            "--- a/src/main.rs",
            "+++ b/src/main.rs",
            "@@ -1,5 +1,6 @@",
            " fn main() {",
            "-    a();",
            "-    b();",
            "+    A();",
            "+    merged();",
            "     c();",
            "+    extra();",
            " }",
        ],
    )
}

fn changes<'a>(rows: &[SideRow<'a>]) -> Vec<(Option<&'a str>, Option<&'a str>)> {
    rows.iter()
        .filter_map(|r| match r {
            SideRow::Change { del, ins } => Some((*del, *ins)),
            _ => None,
        })
        .collect()
}

#[test]
fn side_by_side_pairs_runs_and_blanks_the_shorter_one() {
    let files = vec![uneven_fixture()];
    let lines = diff_lines(&files);
    let rows = side_rows(&lines);

    assert_eq!(
        changes(&rows),
        vec![
            // A run of two removals against a run of two additions pairs
            // up in order...
            (Some("    a();"), Some("    A();")),
            (Some("    b();"), Some("    merged();")),
            // ...and an addition with no removal opposite it leaves the
            // left column blank.
            (None, Some("    extra();")),
        ]
    );

    // The `---`/`+++` headers are Delete/Insert lines but not part of any
    // run: they span both columns, as the `@@` marker does.
    let spans: Vec<&str> = rows
        .iter()
        .filter_map(|r| match r {
            SideRow::Span(line) => Some(line.text.as_str()),
            _ => None,
        })
        .collect();
    assert!(spans.contains(&"--- a/src/main.rs"), "got {spans:?}");
    assert!(spans.contains(&"+++ b/src/main.rs"), "got {spans:?}");
    let both: Vec<&str> = rows
        .iter()
        .filter_map(|r| match r {
            SideRow::Both(text) => Some(*text),
            _ => None,
        })
        .collect();
    assert_eq!(both, ["fn main() {", "    c();", "}"]);
}

#[test]
fn side_by_side_blanks_the_right_when_lines_are_only_removed() {
    // The mirror of the case above: three lines collapse to one, so two
    // rows have nothing on the right.
    let files = vec![row("src/main.rs", &["@@ -1,5 +1,3 @@", " keep", "-a", "-b", "-c", "+only", " keep"])];
    let lines = diff_lines(&files);
    let rows = side_rows(&lines);
    assert_eq!(
        changes(&rows),
        vec![
            (Some("a"), Some("only")),
            (Some("b"), None),
            (Some("c"), None),
        ]
    );
}

#[test]
fn files_without_a_diff_have_no_lines() {
    let mut pending = file("a", 0, 0);
    pending.diff = None;
    let files = vec![pending, row("b", &["+x"]), row("c", &["-y"])];
    let texts: Vec<&str> = diff_lines(&files).iter().map(|l| l.text.as_str()).collect();
    assert_eq!(texts, ["+x", "-y"]);
    assert_eq!(diff_line(&line("+x")), ("diff-add", "+x\n".to_string()));
    assert_eq!(diff_line(&line("-y")).0, "diff-del");
    assert_eq!(diff_line(&line(" z")).0, "diff-ctx");
    assert_eq!(diff_line(&line("@@")).0, "diff-hunk");
}

#[test]
fn diffstat_counts_what_it_shows() {
    let mut wide = file("src/main.rs", 3, 0);
    wide.bar_add = 30;
    let shown = diffstat_row(&wide);
    assert_eq!(shown.path, "src/main.rs");
    let stats = shown.stats.unwrap();
    assert_eq!(stats.changes, 3);
    assert_eq!(stats.add_class, "bar-add bar-w-30");
    assert_eq!(stats.del_class, "bar-del bar-w-0");
    assert_eq!(stats.plus.as_deref(), Some("+3"));
    assert_eq!(stats.minus, None);
    wide.diff = None;
    assert!(diffstat_row(&wide).stats.is_none());
    assert_eq!(
        diffstat_summary(1, 1, 1),
        "1 file changed, 1 insertion(+), 1 deletion(-)"
    );
    assert_eq!(
        diffstat_summary(2, 0, 3),
        "2 files changed, 0 insertions(+), 3 deletions(-)"
    );
}

#[test]
fn sha_in_a_url_is_whole_abbreviated_or_invalid() {
    assert!(matches!(resolve_sha(SHA), ShaStep::Full(i) if i == id(SHA)));
    assert!(matches!(resolve_sha("0123ABCD"), ShaStep::Expand(p) if p.digits.len() == 8));
    let ShaStep::Invalid(why) = resolve_sha("xyz") else {
        panic!("expected an invalid SHA");
    };
    assert_eq!(why, "invalid SHA: xyz");
    assert!(matches!(resolve_sha("abc"), ShaStep::Invalid(_)));
    assert_eq!(expanded_sha("0123", PrefixResolution::Found(id(SHA))), Ok(id(SHA)));
    assert_eq!(
        expanded_sha("0123", PrefixResolution::Ambiguous),
        Err("ambiguous SHA: 0123".to_string())
    );
    assert_eq!(
        expanded_sha("0123", PrefixResolution::NotFound),
        Err("unknown SHA: 0123".to_string())
    );
}

#[test]
fn context_is_stepped_along_the_ladder() {
    assert_eq!(step_context(3, true), Some(4));
    assert_eq!(step_context(3, false), Some(2));
    assert_eq!(step_context(10, true), Some(15));
    assert_eq!(step_context(15, false), Some(10));
    assert_eq!(step_context(1, false), None);
    assert_eq!(step_context(40, true), None);
    // Off the ladder, the next rung up is where a step starts from.
    assert_eq!(step_context(12, true), Some(20));
    assert_eq!(step_context(12, false), Some(10));
    assert_eq!(step_context(41, true), None);
    assert_eq!(step_context(41, false), None);
}

fn link(segment: &Segment) -> Option<&str> {
    match segment {
        Segment::Link(url) => Some(url),
        _ => None,
    }
}

#[test]
fn controls_link_to_the_views_they_name() {
    let at = diff_controls("abc", DiffView::default());
    assert_eq!(at.context, 3);
    assert_eq!(link(&at.wider), Some("#!/commit/abc?context=4"));
    assert_eq!(link(&at.narrower), Some("#!/commit/abc?context=2"));
    assert!(matches!(at.include_space, Segment::On));
    assert_eq!(link(&at.ignore_space), Some("#!/commit/abc?ignorews=1"));
    assert!(matches!(at.unified, Segment::On));
    assert_eq!(link(&at.stat_only), Some("#!/commit/abc?dt=2"));
    assert!(matches!(at.inline, Segment::On));
    assert_eq!(link(&at.side_by_side), Some("#!/commit/abc?ss=1"));
    assert_eq!(at.reset, None);

    // With the diff hidden there is no layout to choose.
    let hidden = diff_controls(
        "",
        DiffView { mode: DiffMode::StatOnly, side_by_side: true, context: Some(40), ..DiffView::default() },
    );
    assert!(matches!(hidden.inline, Segment::Off));
    assert!(matches!(hidden.side_by_side, Segment::Off));
    assert!(matches!(hidden.wider, Segment::Off));
    assert_eq!(hidden.reset.as_deref(), Some("#!/commit"));
}

#[test]
fn sides_are_absent_where_the_file_was_not() {
    let (old, new) = (id(&"1".repeat(40)), id(&"2".repeat(40)));
    let path = || b"a".to_vec();
    let left = DiffEntry::LeftOnly { path: path(), entry_type: TreeEntryType::File, content: (old, new) };
    let (l, r) = sides(&left);
    assert_eq!(l.unwrap().id, old);
    assert!(r.is_none());
    let right = DiffEntry::RightOnly { path: path(), entry_type: TreeEntryType::File, content: (old, new) };
    let (l, r) = sides(&right);
    assert!(l.is_none());
    assert_eq!(r.unwrap().id, new);
    let both = DiffEntry::Both {
        path: b"caf\xff".to_vec(),
        left_type: TreeEntryType::File,
        right_type: TreeEntryType::Executable,
        content: (old, new),
    };
    let (l, r) = sides(&both);
    assert_eq!(r.unwrap().entry_type, TreeEntryType::Executable);

    assert_eq!(side_data(l, LookedUp::Blob(b"x".to_vec())), b"x");
    assert_eq!(side_data(l, LookedUp::Other), "1".repeat(40).into_bytes());
    assert!(side_data(l, LookedUp::Failed).is_empty());
    assert!(side_data(None, LookedUp::Blob(b"x".to_vec())).is_empty());

    let rows = pending_rows(&vec![both, left]);
    assert_eq!(rows[0].path, "caf\u{fffd}");
    assert_eq!(rows[1].path, "a");
    assert!(rows[1].diff.is_none());
}

const MESSAGE: &str =
    "Fix the thing\n\nLonger explanation with <html> & \"chars\".\nSee 0123abcd for context.";

/// The commit that every page here starts from, with these parents and files.
fn page(parents: &[&str], files: Vec<FileRow>, view: DiffView) -> CommitProps {
    let commit = CommitHeader {
        id: id(SHA),
        author_name: b"Kunal Mehta".to_vec(),
        author_email: b"author@example.org".to_vec(),
        author_date: moment(),
        committer_name: b"Committer Person".to_vec(),
        committer_email: b"committer@example.org".to_vec(),
        commit_date: Moment { hour: 13, minute: 0, second: 0, ..moment() },
        tree: id("fedcba98fedcba98fedcba98fedcba98fedcba98"),
        message: MESSAGE.as_bytes().to_vec(),
    };
    let parents = parents.iter().map(|p| id(p)).collect();
    let mut props =
        CommitProps::base(&commit, &parents, "abcdef01abcdef01abcdef01abcdef01abcdef01", view);
    put(&mut props, files, true);
    props
}

/// A row with the bar that it is shown with.
fn barred(mut row: FileRow, bar_add: usize, bar_del: usize) -> FileRow {
    row.bar_add = bar_add;
    row.bar_del = bar_del;
    row
}

/// The diff as it is drawn in one column.
fn drawn(props: &CommitProps) -> Vec<(&'static str, String)> {
    diff_lines(&props.files).into_iter().map(diff_line).collect()
}

const ONES: &str = "1111111111111111111111111111111111111111";
const TWOS: &str = "2222222222222222222222222222222222222222";

#[test]
fn test_commit_html_root_commit() {
    // No parents and no diff: the diffstat section should be absent.
    let props = page(&[], vec![], DiffView::default());
    assert!(props.parents.is_empty());
    assert!(!props.shows_diffstat());
    assert_eq!(
        props.author.line(),
        "Kunal Mehta <author@example.org> 2026-01-15 12:34:56 +00:00"
    );
    assert_eq!(
        props.committer.line(),
        "Committer Person <committer@example.org> 2026-01-15 13:00:00 +00:00"
    );
    assert_eq!(
        props.message,
        vec![
            text("Fix the thing\n\nLonger explanation with <html> & \"chars\".\nSee "),
            sha("0123abcd"),
            text(" for context."),
        ]
    );
}

#[test]
fn test_commit_html_root_commit_with_diff() {
    // A root commit is diffed against the empty tree, so it has files like
    // any other commit: the diffstat and the diff itself both render, with
    // no `parent` row above them.
    let file = row(
        "src/main.rs",
        &["--- /dev/null", "+++ b/src/main.rs", "@@ -0,0 +1,2 @@", "+alpha", "+beta"],
    );
    let props = page(&[], vec![barred(file, 40, 0)], DiffView::default());
    assert!(props.parents.is_empty());
    assert!(props.shows_diffstat() && props.shows_diff());
    assert_eq!(
        diffstat_summary(props.files.len(), props.total_additions, props.total_deletions),
        "1 file changed, 2 insertions(+), 0 deletions(-)"
    );
    let stats = diffstat_row(&props.files[0]).stats.unwrap();
    assert_eq!(stats.changes, 2);
    assert_eq!((stats.add_class.as_str(), stats.del_class.as_str()), ("bar-add bar-w-40", "bar-del bar-w-0"));
    assert_eq!((stats.plus.as_deref(), stats.minus.as_deref()), (Some("+2"), None));
    assert_eq!(drawn(&props)[3], ("diff-add", "+alpha\n".to_string()));
}

#[test]
fn test_commit_html_merge_with_diff() {
    let main = row(
        "src/main.rs",
        &[
            "@@ -1,3 +1,3 @@",
            " fn main() {",
            "-    println!(\"old\");",
            "+    println!(\"<new> & escaped\");",
            " }",
        ],
    );
    let readme = row("README", &["@@ -0,0 +1 @@", "+hello"]);
    let props = page(
        &[ONES, TWOS],
        vec![barred(main, 30, 10), barred(readme, 10, 0)],
        DiffView::default(),
    );
    let parents: Vec<(&str, String)> =
        props.parents.iter().map(|p| (p.short.as_str(), p.href())).collect();
    assert_eq!(
        parents,
        [
            ("11111111", format!("#!/commit/{ONES}")),
            ("22222222", format!("#!/commit/{TWOS}")),
        ]
    );
    assert_eq!(
        diffstat_summary(props.files.len(), props.total_additions, props.total_deletions),
        "2 files changed, 2 insertions(+), 1 deletion(-)"
    );
    let classes: Vec<&str> = drawn(&props).iter().map(|l| l.0).collect();
    assert_eq!(
        classes,
        ["diff-hunk", "diff-ctx", "diff-del", "diff-add", "diff-ctx", "diff-hunk", "diff-add"]
    );
}

#[test]
fn test_commit_html_side_by_side() {
    // Two columns. The panel shows "side by side" as the setting in force, and
    // every link it offers carries `ss=1` forward.
    let view = DiffView { side_by_side: true, ..DiffView::default() };
    let props = page(&[], vec![barred(uneven_fixture(), 30, 10)], view);
    assert!(props.shows_diff() && props.view.side_by_side);
    assert_eq!((props.total_additions, props.total_deletions), (3, 2));
    let lines = diff_lines(&props.files);
    let rows = side_rows(&lines);
    assert!(changes(&rows).contains(&(None, Some("    extra();"))));
    assert!(matches!(rows[5], SideRow::Both("fn main() {")));
    let at = diff_controls(&props.url_sha, props.view);
    assert!(matches!(at.side_by_side, Segment::On));
    assert_eq!(
        link(&at.wider),
        Some("#!/commit/abcdef01abcdef01abcdef01abcdef01abcdef01?context=4&ss=1")
    );
    assert_eq!(link(&at.inline), Some("#!/commit/abcdef01abcdef01abcdef01abcdef01abcdef01"));
}

#[test]
fn test_commit_html_stat_only() {
    // The diffstat alone. The diff body is gone, both layout segments are
    // dead because there is no layout left to choose, and `ss` has dropped
    // out of every URL the panel builds.
    let view = DiffView { mode: DiffMode::StatOnly, side_by_side: true, ..DiffView::default() };
    let props = page(&[], vec![uneven_fixture()], view);
    assert!(props.shows_diffstat());
    assert!(!props.shows_diff());
    let at = diff_controls(&props.url_sha, props.view);
    assert!(matches!(at.inline, Segment::Off));
    assert!(matches!(at.side_by_side, Segment::Off));
    assert!(matches!(at.stat_only, Segment::On));
    for offered in [&at.wider, &at.narrower, &at.ignore_space] {
        let url = link(offered).unwrap();
        assert!(url.contains("dt=2") && !url.contains("ss="), "{url}");
    }
}

#[test]
fn test_commit_html_wide_context_and_ignored_whitespace() {
    // Non-default settings: the panel shows them as current, the stepper's
    // `+` has run off the end of the ladder, and "reset to defaults" is a
    // live link for the first time.
    let view = DiffView { context: Some(40), ignore_whitespace: true, ..DiffView::default() };
    let props = page(&[], vec![uneven_fixture()], view);
    let at = diff_controls(&props.url_sha, props.view);
    assert_eq!(at.context, 40);
    assert!(matches!(at.wider, Segment::Off));
    assert!(matches!(at.ignore_space, Segment::On));
    assert_eq!(
        link(&at.narrower),
        Some("#!/commit/abcdef01abcdef01abcdef01abcdef01abcdef01?context=35&ignorews=1")
    );
    assert_eq!(
        at.reset.as_deref(),
        Some("#!/commit/abcdef01abcdef01abcdef01abcdef01abcdef01")
    );
}

#[test]
fn the_patch_download_stays_at_gits_defaults() {
    // What the reader sees and what `git apply` can consume are two
    // different documents once the controls have moved: a `-w` diff prints
    // one side's bytes for a line both sides have, and would not apply.
    let mut file = row(
        "src/main.rs",
        &["@@ -2,3 +2,3 @@", "     a();", "-    b();", "+    c();", " }"],
    );
    file.patch_diff = row(
        "src/main.rs",
        &["@@ -1,4 +1,4 @@", " fn f() {", "-    a();", "-    b();", "+\ta();", "+    c();", " }"],
    )
    .diff;
    let props = page(&[], vec![barred(file, 40, 0)], DiffView::default());

    // On screen the reindented `a();` is not a change; in the patch it is.
    let shown = drawn(&props);
    assert!(!shown.iter().any(|l| l.1.contains("-    a();")));
    let patch = &props.files[0].for_patch().unwrap().lines;
    assert!(patch.iter().any(|l| l.text == "-    a();"));
    assert!(patch.iter().any(|l| l.text == "+\ta();"));
}

#[test]
fn test_commit_html_diff_pending() {
    // The streamed first frame: the changed-file list is known (from the
    // tree diff) but no blobs have loaded, so every row is pending — name
    // shown, stats columns blank — the diff body is still empty, and the
    // patch link has nothing to offer yet.
    let mut props = page(&[ONES], vec![], DiffView::default());
    props.start_diff(&vec![changed("src/main.rs"), changed("README")], None);
    let named: Vec<(String, bool)> = props
        .files
        .iter()
        .map(|f| {
            let row = diffstat_row(f);
            (row.path, row.stats.is_some())
        })
        .collect();
    assert_eq!(named, [("src/main.rs".to_string(), false), ("README".to_string(), false)]);
    assert!(props.shows_diffstat());
    assert!(drawn(&props).is_empty());
    assert_eq!(props.patch_name(), None);
}

#[test]
fn test_commit_html_with_notes() {
    // A note is rendered under its own heading, below the message and
    // above the diff, with the same SHA linkification the message gets.
    let mut props = page(&[], vec![], DiffView::default());
    let note = b"Cherry-picked from 0123abcd.\nReviewed with <angle> & \"quoted\" text.\n";
    props.show_whole(Some(note));
    assert_eq!(
        props.notes,
        Some(vec![
            text("Cherry-picked from "),
            sha("0123abcd"),
            text(".\nReviewed with <angle> & \"quoted\" text.\n"),
        ])
    );
}
