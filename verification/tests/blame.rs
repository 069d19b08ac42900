use webgit::object::ObjectId;
use webgit::render::blame::{
    batch_end, blame_content, blame_error, blame_table, detail, fill_details, runs,
    wanted_commits, walk_report, BlameContent, BlameGroup, BlameProps, BlameRow, BlameRun,
    DetailReads, Gutter,
};
use webgit::render::blob::{MAX_BLOB_BYTES, MAX_BLOB_LINES};
use webgit::render::commit::CommitHeader;
use webgit::render::time::{CivilDate, Moment};
use webgit::route::anchor::LineRange;

fn id(hex: &str) -> ObjectId {
    ObjectId::from_hex(hex.as_bytes()).expect("test hash")
}

fn run(start: usize, num_lines: usize, hash: &str, parent: Option<&str>) -> BlameRun {
    BlameRun {
        start,
        num_lines,
        commit: id(hash),
        short_hash: hash[..8].to_string(),
        full_hash: hash.to_string(),
        commit_url: format!("#!/commit/{hash}"),
        prev_url: parent.map(|p| format!("#!/blame/src/lib.rs?h={p}")),
        detail: None,
    }
}

/// What the gutter shows on hover once the run's commit has been read.
fn detail_of(full_hash: &str) -> String {
    format!(
        "{full_hash}\nauthor  A U Thor <author@example.com> 2026-09-12 10:00:00 +00:00\n\
         committer  C O Mitter <committer@example.com> 2026-09-12 10:00:00 +00:00\n\
         \nFix the thing",
    )
}

fn detailed(run: BlameRun) -> BlameRun {
    BlameRun { detail: Some(detail_of(&run.full_hash)), ..run }
}

const A: &str = "0123abcd0123abcd0123abcd0123abcd0123abcd";
const B: &str = "89abcdef89abcdef89abcdef89abcdef89abcdef";
const ROOT: &str = "ffffffff11111111ffffffff11111111ffffffff";

fn lines(n: usize) -> Vec<String> {
    (1..=n).map(|i| format!("line {i}")).collect()
}

fn table(n: usize, runs: Vec<BlameRun>, selected: Option<LineRange>) -> Vec<BlameRow> {
    blame_table(&lines(n), &runs, "#!/blame/src/lib.rs", selected)
}

fn gutters(rows: &[BlameRow]) -> Vec<Gutter> {
    rows.iter().map(|r| r.gutter).collect()
}

/// The finished view: every line covered, each run's commit spanning its
/// lines, and alternating runs shaded.
#[test]
fn test_blame_html() {
    let rows = table(
        5,
        vec![
            run(0, 2, A, Some(B)),
            run(2, 1, B, Some(ROOT)),
            run(3, 2, ROOT, None),
        ],
        None,
    );
    assert_eq!(
        gutters(&rows),
        [Gutter::Start(0), Gutter::Covered, Gutter::Start(1), Gutter::Start(2), Gutter::Covered]
    );
    let shades: Vec<bool> = rows.iter().map(|r| r.shade).collect();
    assert_eq!(shades, [true, true, false, true, true]);
    assert_eq!(rows[4].number, 5);
    assert_eq!(rows[4].id, "n5");
    assert_eq!(rows[4].text, "line 5");
}

/// A root commit's run has no previous revision, so no `^`.
#[test]
fn test_blame_html_root_run_has_no_previous_link() {
    let group = |parent: Option<&str>| BlameGroup {
        start: 0,
        num_lines: 1,
        commit: id(ROOT),
        parent: parent.map(id),
        path: "src/lib.rs".to_string(),
    };
    let settled = runs(&vec![group(None), group(Some(B))]);
    assert_eq!(settled[0].prev_url, None);
    // Elsewhere the same file is blamed one revision further back, by hash.
    assert_eq!(settled[1].prev_url, Some(format!("#!/blame/src/lib.rs?h={B}")));
    assert_eq!(settled[0].short_hash, "ffffffff");
    assert_eq!(settled[0].full_hash, ROOT);
    assert_eq!(settled[0].commit_url, format!("#!/commit/{ROOT}"));
}

/// Mid-walk: the file is fully rendered while only part of it has been
/// attributed, so the reader can already read the code.
#[test]
fn test_blame_html_partial() {
    let rows = table(4, vec![run(0, 2, A, Some(B))], None);
    assert_eq!(
        gutters(&rows),
        [Gutter::Start(0), Gutter::Covered, Gutter::Unattributed, Gutter::Unattributed]
    );
    assert!(!rows[2].shade);
}

/// Nothing attributed yet — every line renders, with an empty gutter.
#[test]
fn test_blame_html_nothing_attributed_yet() {
    let rows = table(2, Vec::new(), None);
    assert_eq!(gutters(&rows), [Gutter::Unattributed, Gutter::Unattributed]);
}

#[test]
fn test_blame_html_selection() {
    let rows = table(
        4,
        vec![run(0, 2, A, Some(B)), run(2, 2, B, None)],
        Some(LineRange { start: 2, end: 3 }),
    );
    let selected: Vec<bool> = rows.iter().map(|r| r.selected).collect();
    assert_eq!(selected, [false, true, true, false]);
}

/// The selection is what the URL named, not something clamped to the file:
/// a stale `#n900` on a short file highlights nothing rather than dragging
/// the mark onto an arbitrary row.
#[test]
fn test_blame_selection_past_end_of_file() {
    let rows = table(3, vec![run(0, 3, A, None)], Some(LineRange { start: 900, end: 902 }));
    assert!(rows.iter().all(|r| !r.selected), "selected a row that doesn't exist");
}

/// Crossing to the source view keeps the line being read: a reader who
/// followed "blame" from line 3 and goes back should land on line 3, not at
/// the top of the file.
#[test]
fn test_blame_source_link_carries_the_selection() {
    let mut props = BlameProps::build("src/lib.rs", None, id(A), b"a\nb\nc\n");
    assert_eq!(props.source_href(), "#!/tree/src/lib.rs");
    props.lines = Some(LineRange::single(3));
    assert_eq!(props.source_href(), "#!/tree/src/lib.rs#n3");
}

/// Every line's link carries the blame's whole route. A bare `#n2` would
/// name no route at all and land the reader on the summary page.
#[test]
fn test_blame_line_links_carry_the_route() {
    assert_eq!(table(2, Vec::new(), None)[1].href, "#!/blame/src/lib.rs#n2");
}

/// Once the detail pass has been round, the gutter's tooltip is the
/// commit's author, committer, dates and subject rather than the bare hash.
#[test]
fn test_blame_html_hover_detail() {
    let when = Moment {
        unix_ms: 0,
        date: CivilDate { year: 2026, month: 9, day: 12 },
        hour: 10,
        minute: 0,
        second: 0,
        offset_seconds: 0,
    };
    let commit = CommitHeader {
        id: id(A),
        author_name: b"A U Thor".to_vec(),
        author_email: b"author@example.com".to_vec(),
        author_date: when,
        committer_name: b"C O Mitter".to_vec(),
        committer_email: b"committer@example.com".to_vec(),
        commit_date: when,
        tree: id(B),
        message: b"Fix the thing\n\nWhy.\n".to_vec(),
    };
    assert_eq!(detail(&commit), detail_of(A));
    assert_eq!(detailed(run(0, 2, A, Some(B))).title(), detail_of(A));
}

/// A run whose commit object hasn't been read yet keeps the full hash as
/// its tooltip rather than losing one.
#[test]
fn test_blame_hover_detail_falls_back_to_the_hash() {
    assert_eq!(run(0, 1, A, None).title(), A);
}

/// Runs sharing a commit share its tooltip: the detail is built per
/// commit, not per run.
#[test]
fn test_blame_hover_detail_is_shared_between_a_commit_s_runs() {
    let mut runs = vec![run(0, 1, A, Some(B)), run(1, 1, B, Some(ROOT)), run(2, 1, A, Some(B))];
    assert_eq!(wanted_commits(&runs), [id(A), id(B)]);
    fill_details(&mut runs, &vec![(id(A), detail_of(A))]);
    let told = runs.iter().filter(|r| r.title().contains("Fix the thing")).count();
    assert_eq!(told, 2, "both runs of the same commit should carry its detail");
    assert_eq!(runs[1].detail, None);
    // A tooltip that is there stays.
    fill_details(&mut runs, &vec![(id(A), "later".to_string()), (id(B), "b".to_string())]);
    assert_eq!(runs[0].title(), detail_of(A));
    assert_eq!(runs[1].title(), "b");
}

#[test]
fn test_blame_html_binary() {
    assert_eq!(
        BlameContent::Binary { bytes: 4096 }.message().as_deref(),
        Some("Binary file (4096 bytes).")
    );
}

#[test]
fn test_blame_html_too_many_lines() {
    assert_eq!(
        BlameContent::TooManyLines { lines: 30_000 }.message(),
        Some(format!("File too large to blame (30000 lines, limit {MAX_BLOB_LINES})."))
    );
    assert_eq!(
        BlameContent::TooManyBytes { bytes: 30_000_000 }.message(),
        Some(format!("File too large to blame (30000000 bytes, limit {MAX_BLOB_BYTES})."))
    );
    assert_eq!(BlameContent::Lines(Vec::new()).message(), None);
}

/// A file the blob view would have refused as binary is refused here too,
/// and one that is merely large is measured the same way.
#[test]
fn test_blame_content_classification() {
    assert!(matches!(
        blame_content(b"a\0b"),
        BlameContent::Binary { bytes: 3 }
    ));
    assert!(matches!(
        blame_content(&vec![b'x'; MAX_BLOB_BYTES + 1]),
        BlameContent::TooManyBytes { .. }
    ));
    assert!(matches!(
        blame_content("x\n".repeat(MAX_BLOB_LINES + 1).as_bytes()),
        BlameContent::TooManyLines { .. }
    ));
    match blame_content(b"one\ntwo\n") {
        BlameContent::Lines(lines) => assert_eq!(lines, vec!["one", "two"]),
        _ => panic!("expected lines"),
    }
}

#[test]
fn blame_begins_with_the_file() {
    let props = BlameProps::build("src/lib.rs", Some("main"), id(A), b"one\n");
    assert_eq!(props.blob_id, A);
    assert_eq!(props.self_url, "#!/blame/src/lib.rs?h=main");
    assert_eq!(props.source_url, "#!/tree/src/lib.rs?h=main");
    assert!(props.runs.is_empty());
    assert!(props.pending);
    assert!(!BlameProps::build("a.bin", None, id(A), b"a\0b").pending);
    assert_eq!(props.content, BlameContent::Lines(vec!["one".to_string()]));
}

/// The runs grow as the walk goes, and stop being pending where it ends.
#[test]
fn runs_are_settled_as_the_walk_goes() {
    let group = |start: usize, commit: &str| BlameGroup {
        start,
        num_lines: 1,
        commit: id(commit),
        parent: None,
        path: "src/lib.rs".to_string(),
    };
    let starts = |p: &BlameProps| -> Vec<usize> { p.runs.iter().map(|r| r.start).collect() };
    let mut props = BlameProps::build("src/lib.rs", None, id(A), b"one\ntwo\n");
    props.lines = Some(LineRange::single(2));
    props.settle(&vec![group(0, A)]);
    assert_eq!(starts(&props), [0]);
    assert!(props.pending);
    props.finish(&vec![group(0, A), group(1, B)]);
    assert_eq!(starts(&props), [0, 1]);
    assert!(!props.pending);
    props.fill(&vec![(id(B), "b".to_string())]);
    assert_eq!(props.runs[0].title(), A);
    assert_eq!(props.runs[1].title(), "b");
    assert!(!props.pending);
    assert_eq!(props.lines, Some(LineRange::single(2)));
    assert_eq!(props.self_url, "#!/blame/src/lib.rs");
    assert_eq!(props.content, BlameContent::Lines(vec!["one".to_string(), "two".to_string()]));
}

#[test]
fn every_commit_is_in_one_batch() {
    let hashes: Vec<String> = (0..12).map(|i| format!("{i:040x}")).collect();
    let mut runs: Vec<BlameRun> =
        hashes.iter().enumerate().map(|(i, h)| run(i, 1, h, None)).collect();
    runs.push(run(12, 1, &hashes[3], None));
    let mut reads = DetailReads::start(&runs);
    let first = reads.next_batch().unwrap();
    let second = reads.next_batch().unwrap();
    assert_eq!((first.len(), second.len()), (10, 2));
    let all: Vec<String> = first.iter().chain(&second).map(|i| i.to_hex()).collect();
    assert_eq!(all, hashes);
    assert!(reads.next_batch().is_none());
    assert!(DetailReads::start(&Vec::new()).next_batch().is_none());
}

#[test]
fn commits_are_read_in_batches() {
    assert_eq!(batch_end(0, 25), 10);
    assert_eq!(batch_end(20, 25), 25);
    assert_eq!(batch_end(0, 0), 0);
}

#[test]
fn blame_is_reported_to_the_console() {
    assert_eq!(
        walk_report("a.rs", "3 read", 7, 2),
        "webgit: blame [a.rs]: 3 read, 7 lines in 2 runs"
    );
    assert_eq!(blame_error("a.rs", "gone"), "blame a.rs: gone");
}
