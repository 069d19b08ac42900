use webgit::pace::Pace;
use webgit::render::about::{
    about_repo, cached_line, import_status, import_step, ImportState, ImportStatus,
};
use webgit::render::query::{RefName, RefTarget};
use webgit::render::snapshot::{
    archive_mtime, building_bar, count_files, ready_summary, snapshot_file_name, snapshot_stem,
    stage_labels, ArchiveEntry, EntryKind, ProgressBar, SnapshotState, Walk,
};
use webgit::route::SnapshotFormat;

#[test]
fn test_snapshot_stem() {
    assert_eq!(snapshot_stem("webgit", "v1.0.0"), "webgit-v1.0.0");
    // A ref name with a slash in it is still one file name.
    assert_eq!(snapshot_stem("webgit", "release/2.0"), "webgit-release-2.0");
}

/// The link text in the ref tables and on the tag page, and what the
/// browser saves. The stem is the format's only shared part.
#[test]
fn test_snapshot_file_name() {
    assert_eq!(
        snapshot_file_name("webgit", "v1.0.0", SnapshotFormat::TarGz),
        "webgit-v1.0.0.tar.gz"
    );
    assert_eq!(
        snapshot_file_name("webgit", "v1.0.0", SnapshotFormat::Bundle),
        "webgit-v1.0.0.bundle"
    );
}

/// Neither half of a file's name keeps a separator, of either kind.
#[test]
fn file_names_hold_no_separator() {
    assert_eq!(snapshot_stem("/a\\b/", "/x/y\\z/"), "a-b-x-y-z");
}

#[test]
fn test_snapshot_html() {
    assert_eq!(ready_summary(SnapshotFormat::TarGz, 4096, 12), "12 files, 4 KB");
}

/// One file, and the "files" in the summary line is singular.
#[test]
fn test_snapshot_html_single_file() {
    assert_eq!(ready_summary(SnapshotFormat::TarGz, 12, 1), "1 file, 12 B");
}

fn bar(format: SnapshotFormat, state: SnapshotState) -> ProgressBar {
    building_bar(format, state).unwrap()
}

/// Mid-walk: the counts, and a bar at the ratio between them.
#[test]
fn test_snapshot_html_building() {
    let b = bar(SnapshotFormat::TarGz, SnapshotState::Building { fetched: 37, total: 120 });
    assert_eq!(b.status, "fetching objects\u{2026} 37/120");
    assert_eq!((b.value, b.max), (37, 120));
    assert_eq!(b.label, "37/120");
}

/// The very first paint, before anything has been queued. `max` is floored
/// at 1 because `<progress max="0">` isn't valid, and the bar is empty
/// either way.
#[test]
fn test_snapshot_html_building_empty() {
    let b = bar(SnapshotFormat::TarGz, SnapshotState::Building { fetched: 0, total: 0 });
    assert_eq!((b.value, b.max), (0, 1));
    assert_eq!(b.label, "0/0");
}

/// The second phase: everything is fetched and the archive is being written
/// into the encoder. Same bar, and unlike the walk this denominator is
/// fixed — the entries are all in hand before it starts.
#[test]
fn test_snapshot_html_compressing() {
    let b = bar(SnapshotFormat::TarGz, SnapshotState::Writing { written: 4096, total: 13658 });
    assert_eq!(b.status, "compressing\u{2026} 4096/13658");
}

/// A finished bundle: the same view, counted in the objects that went into
/// the pack rather than in files, since what comes out of one is a
/// repository.
#[test]
fn test_bundle_html() {
    assert_eq!(ready_summary(SnapshotFormat::Bundle, 918_244, 13658), "13658 objects, 896 KB");
    let ready = SnapshotState::Ready { size: 918_244, count: 13658 };
    assert!(building_bar(SnapshotFormat::Bundle, ready).is_none());
}

/// One object, and the noun in the summary line is singular.
#[test]
fn test_bundle_html_single_object() {
    assert_eq!(ready_summary(SnapshotFormat::Bundle, 212, 1), "1 object, 212 B");
}

/// A bundle's phases are its own work, not the archive's: it enumerates a
/// history where the archive fetches one tree.
#[test]
fn test_bundle_html_enumerating() {
    let b = bar(SnapshotFormat::Bundle, SnapshotState::Building { fetched: 37, total: 120 });
    assert_eq!(b.status, "enumerating objects\u{2026} 37/120");
}

/// And then writes every object it found into the pack.
#[test]
fn test_bundle_html_writing() {
    let b = bar(SnapshotFormat::Bundle, SnapshotState::Writing { written: 4096, total: 13658 });
    assert_eq!(b.status, "writing objects\u{2026} 4096/13658");
    assert_eq!(stage_labels(SnapshotFormat::Bundle), ("enumerating objects", "writing objects"));
}

/// Directories and symlinks are archived, but the count the view reports is
/// of files.
#[test]
fn test_count_files() {
    let entries = vec![
        ArchiveEntry {
            path: "src".to_string(),
            kind: EntryKind::Directory,
            data: Vec::new(),
        },
        ArchiveEntry {
            path: "src/lib.rs".to_string(),
            kind: EntryKind::File { executable: false },
            data: b"x".to_vec(),
        },
        ArchiveEntry {
            path: "src/build.sh".to_string(),
            kind: EntryKind::File { executable: true },
            data: b"x".to_vec(),
        },
        ArchiveEntry {
            path: "link".to_string(),
            kind: EntryKind::Symlink {
                target: b"src/lib.rs".to_vec(),
            },
            data: Vec::new(),
        },
    ];
    assert_eq!(count_files(&entries), 2);
}

/// A commit before the epoch has no sensible time in an archive.
#[test]
fn archive_time_is_never_before_the_epoch() {
    assert_eq!(archive_mtime(-1), 0);
    assert_eq!(archive_mtime(1_700_000_000), 1_700_000_000);
}

/// The walk is shown on the budget of wall time, but every count is kept.
#[test]
fn walk_keeps_every_count() {
    let mut walk = Walk::new();
    assert_eq!(walk.state(), SnapshotState::Building { fetched: 0, total: 0 });
    assert_eq!(
        walk.step(1, 4, 1_000),
        Some(SnapshotState::Building { fetched: 1, total: 4 })
    );
    assert_eq!(walk.step(2, 5, 1_049), None);
    assert_eq!(walk.state(), SnapshotState::Building { fetched: 2, total: 5 });
    assert_eq!(
        walk.step(3, 5, 1_050),
        Some(SnapshotState::Building { fetched: 3, total: 5 })
    );
}

/// Mid-import: how many of the bundle's objects have been stored, and a bar
/// at the ratio between them. Unlike the snapshot page's walk, the
/// denominator here is known from the first object — a pack says how many
/// it holds.
#[test]
fn test_import_html_storing() {
    let ImportStatus::Bar(b) = import_status(&ImportState::Storing { done: 4096, total: 13658 })
    else {
        panic!("expected a bar");
    };
    assert_eq!(b.status, "storing objects\u{2026} 4096/13658");
    assert_eq!((b.value, b.max), (4096, 13658));
    assert_eq!(b.label, "4096/13658");
}

fn note(state: ImportState) -> String {
    match import_status(&state) {
        ImportStatus::Note(text) => text,
        _ => panic!("expected a note"),
    }
}

/// Finished, and what the bundle turned out to hold.
#[test]
fn test_import_html_done() {
    assert_eq!(
        note(ImportState::Done { objects: 13658, refs: 7 }),
        "imported 13658 objects from 7 refs."
    );
}

/// One object and one ref: the nouns in the summary are singular.
#[test]
fn test_import_html_done_single() {
    assert_eq!(note(ImportState::Done { objects: 1, refs: 1 }), "imported 1 object from 1 ref.");
    assert_eq!(note(ImportState::Reading), "reading the file\u{2026}");
}

/// A file that wasn't a bundle says so where the progress bar was, rather
/// than failing silently or taking the page down.
#[test]
fn test_import_html_failed() {
    let failed = ImportState::Failed("not a v2 or v3 git bundle: PK\u{3}\u{4}".to_string());
    let ImportStatus::Error(text) = import_status(&failed) else {
        panic!("expected an error");
    };
    assert_eq!(text, "That bundle didn't load: not a v2 or v3 git bundle: PK\u{3}\u{4}");
}

/// Before a file is picked there is nothing to say, and nothing is said.
#[test]
fn test_import_html_idle() {
    assert!(matches!(import_status(&ImportState::Idle), ImportStatus::Blank));
}

/// Steps are shown on the budget of wall time; the last is shown in any case.
#[test]
fn import_shows_its_last_object() {
    let mut pace = Pace::since(0);
    assert!(import_step(&mut pace, 1, 3, 49).is_none());
    assert!(matches!(
        import_step(&mut pace, 2, 3, 50),
        Some(ImportState::Storing { done: 2, total: 3 })
    ));
    assert!(matches!(
        import_step(&mut pace, 3, 3, 51),
        Some(ImportState::Storing { done: 3, total: 3 })
    ));
    assert_eq!(pace.last, 51);
}

#[test]
fn test_about_html_with_idb() {
    let main = RefTarget::Symbolic(RefName::Ref(b"heads/main".to_vec()));
    let repo = about_repo("https://example.org/repo.git", Some(&main), 3, 7);
    assert_eq!(repo.clone_url, "https://example.org/repo.git");
    assert_eq!(repo.head_branch, "main");
    assert_eq!((repo.branch_count, repo.tag_count), (3, 7));
    assert_eq!(cached_line(5678, "56.78"), "5678 (56.78 MB) ");
}

#[test]
fn head_that_is_on_no_branch_is_detached() {
    let tag = RefTarget::Symbolic(RefName::Ref(b"tags/v1".to_vec()));
    assert_eq!(about_repo("", Some(&tag), 0, 0).head_branch, "(detached)");
    assert_eq!(about_repo("", None, 0, 0).head_branch, "(detached)");
}
