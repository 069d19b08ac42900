use webgit::assets;
use webgit::error::{fmt_fs_err, fmt_git_err, FetchError, RepoError};
use webgit::fetch::{
    clear_watch, fetch_stats, fetch_text, fire_progress, is_session_cacheable, record_cache_hit,
    reset_and_watch, start_fetch, take_body, take_status, FetchStart, Session, StatusStep,
};
use webgit::fs::{DirEntry, HttpDirectory, HttpFile};
use webgit::stats::{format_bytes, format_stats};

fn watched() -> Session {
    let mut session = Session::new();
    reset_and_watch(&mut session);
    session
}

const REFS: &str = "https://example.org/a.git/packed-refs";
const PACK: &str = "https://example.org/a.git/objects/pack/p.pack";

/// A stable file is asked for once; the second read is answered with it.
#[test]
fn second_read_of_packed_refs_sends_nothing() {
    let mut session = watched();
    assert!(matches!(
        start_fetch(&mut session, REFS, None),
        FetchStart::Send { revalidate: true }
    ));
    assert!(matches!(take_status(&mut session, REFS, None, 200), StatusStep::ReadBody));
    let step = take_body(&mut session, REFS, None, 200, b"# pack-refs".to_vec());
    assert_eq!(step.result.unwrap(), b"# pack-refs");
    assert_eq!(step.progress, Some((1, 11, 0)));
    assert_eq!(step.warning, None);

    let FetchStart::Cached { bytes, progress } = start_fetch(&mut session, REFS, None) else {
        panic!("expected the file that was read");
    };
    assert_eq!(bytes, b"# pack-refs");
    assert_eq!(progress, Some((1, 11, 11)));
    // A range of it is asked for anew, and a new load begins with nothing.
    assert!(matches!(
        start_fetch(&mut session, REFS, Some("bytes=0-1")),
        FetchStart::Send { .. }
    ));
    reset_and_watch(&mut session);
    assert!(matches!(start_fetch(&mut session, REFS, None), FetchStart::Send { .. }));
    assert_eq!(fetch_stats(&session), (0, 0, 0));
}

/// Everything else is asked for each time.
#[test]
fn other_files_are_not_kept() {
    let mut session = watched();
    assert!(!is_session_cacheable(PACK));
    assert!(matches!(
        start_fetch(&mut session, PACK, None),
        FetchStart::Send { revalidate: false }
    ));
    take_body(&mut session, PACK, None, 200, b"PACK".to_vec());
    assert!(matches!(start_fetch(&mut session, PACK, None), FetchStart::Send { .. }));
}

/// A server that ignores `Range` is put up with, and told of once.
#[test]
fn ignored_range_is_cut_out_and_warned_of_once() {
    let mut session = watched();
    let step = take_body(&mut session, PACK, Some("bytes=2-4"), 200, b"abcdefgh".to_vec());
    assert_eq!(step.result.unwrap(), b"cde");
    let warning = step.warning.unwrap();
    assert!(
        warning.starts_with(&format!("webgit: server ignored the Range header for {PACK} and")),
        "{warning}"
    );
    // The whole body was downloaded, and that is what is counted.
    assert_eq!(step.progress, Some((1, 8, 0)));
    let again = take_body(&mut session, PACK, Some("bytes=6-"), 200, b"abcdefgh".to_vec());
    assert_eq!(again.result.unwrap(), b"gh");
    assert_eq!(again.warning, None);
    // What the server did honour is taken as it is.
    let honoured = take_body(&mut session, PACK, Some("bytes=2-4"), 206, b"cde".to_vec());
    assert_eq!(honoured.result.unwrap(), b"cde");
}

#[test]
fn range_that_cannot_be_applied_is_an_error() {
    let mut session = watched();
    let step = take_body(&mut session, PACK, Some("bytes=-5"), 200, b"abcdefgh".to_vec());
    let Err(FetchError::Other(words)) = step.result else {
        panic!("expected an error");
    };
    assert_eq!(
        words,
        format!("server ignored Range 'bytes=-5' for {PACK} and it can't be applied locally")
    );
}

fn done(status: u16, range: Option<&str>) -> (Result<Vec<u8>, FetchError>, Option<(u32, u64, u64)>) {
    let mut session = watched();
    match take_status(&mut session, PACK, range, status) {
        StatusStep::Done { result, progress } => (result, progress),
        StatusStep::ReadBody => panic!("{status} was read"),
    }
}

/// A read that ends with its status counts as a request all the same.
#[test]
fn status_ends_a_read() {
    let (result, progress) = done(404, None);
    assert!(matches!(result, Err(FetchError::NotFound(url)) if url == PACK));
    assert_eq!(progress, Some((1, 0, 0)));
    let (result, _) = done(503, None);
    assert!(
        matches!(result, Err(FetchError::Other(words)) if words == format!("HTTP 503 for {PACK}"))
    );
    let (result, _) = done(416, Some("bytes=9-"));
    assert!(result.unwrap().is_empty());
}

#[test]
fn nobody_is_told_while_nobody_watches() {
    let mut session = Session::new();
    assert_eq!(fire_progress(&mut session, 1, 10), None);
    assert_eq!(record_cache_hit(&mut session, 5), None);
    assert_eq!(fetch_stats(&session), (1, 10, 5));
    session.watched = true;
    assert_eq!(record_cache_hit(&mut session, 5), Some((1, 10, 10)));
    clear_watch(&mut session);
    assert_eq!(fire_progress(&mut session, 1, 0), None);
    assert!(session.can_count(1, 1, 1));
    assert!(!session.can_count(u32::MAX, 0, 0));
    assert!(!session.can_count(0, u64::MAX, 0));
    assert!(!session.can_count(0, 0, u64::MAX));
}

#[test]
fn text_has_to_be_text() {
    assert_eq!(fetch_text(b"caf\xc3\xa9".to_vec()).unwrap(), "caf\u{e9}");
    let Err(FetchError::Other(words)) = fetch_text(b"ab\xff".to_vec()) else {
        panic!("expected an error");
    };
    assert_eq!(words, "invalid utf-8 sequence of 1 bytes from index 2");
}

#[test]
fn errors_read_as_sentences() {
    assert_eq!(fmt_fs_err(&FetchError::NotFound("x".to_string())), "not found: x");
    assert_eq!(fmt_fs_err(&FetchError::Other("x".to_string())), "error: x");
    assert_eq!(
        fmt_git_err(&RepoError::FileSystem(FetchError::NotFound("x".to_string()))),
        "not found: x"
    );
    assert_eq!(fmt_git_err(&RepoError::Other("Broken".to_string())), "Broken");
}

#[test]
fn sizes_are_shown_in_the_unit_that_fits() {
    assert_eq!(format_bytes(0), "0 B");
    assert_eq!(format_bytes(1023), "1023 B");
    assert_eq!(format_bytes(1024), "1 KB");
    assert_eq!(format_bytes(1024 * 1024 - 1), "1023 KB");
    assert_eq!(format_bytes(1024 * 1024), "1.0 MB");
    // Halfway between two tenths goes to the even one.
    assert_eq!(format_bytes(1024 * 1024 * 5 / 4), "1.2 MB");
    assert_eq!(format_bytes(1024 * 1024 * 7 / 4), "1.8 MB");
    for b in [1_572_864, 123_456_789, (1 << 53) + 1, (1 << 62) + 12_345_678, u64::MAX] {
        assert_eq!(format_bytes(b), format!("{:.1} MB", b as f64 / (1024.0 * 1024.0)));
    }
}

#[test]
fn fetch_line_names_the_cache_where_there_is_one() {
    assert_eq!(format_stats("Loading\u{2026}", 3, 2048, 0), "Loading\u{2026}: 3 requests, 2 KB");
    assert_eq!(
        format_stats("Loaded", 0, 0, 1_572_864),
        "Loaded: 0 requests, 0 B (cached: 1.5 MB)"
    );
}

/// A read goes as far as the file, and no further.
#[test]
fn file_is_read_in_segments() {
    let file = HttpFile { url: PACK.to_string(), data: b"abcdef".to_vec() };
    assert_eq!(file.read_all(), b"abcdef");
    let mut dest = vec![0; 4];
    assert_eq!(file.read_segment(1, &mut dest), 4);
    assert_eq!(dest, b"bcde");
    assert_eq!(file.read_segment(4, &mut dest), 2);
    assert_eq!(dest, b"efde");
    assert_eq!(file.read_segment(6, &mut dest), 0);
    assert_eq!(file.read_segment(u64::MAX, &mut dest), 0);
    assert_eq!(dest, b"efde");
}

#[test]
fn entries_lie_below_their_directory() {
    let dir = HttpDirectory::new("https://example.org/a.git".to_string());
    assert_eq!(dir.entry_url(b"HEAD".to_vec()).unwrap(), "https://example.org/a.git/HEAD");
    let objects = dir.open_subdir(b"objects".to_vec()).unwrap();
    assert_eq!(objects.base_url, "https://example.org/a.git/objects");
    assert!(matches!(dir.entry_url(b"\xff".to_vec()), Err(FetchError::Other(_))));
    assert!(dir.open_subdir(b"a\xff".to_vec()).is_err());
}

fn shown(entry: Option<DirEntry>) -> Option<String> {
    entry.map(|e| match e {
        DirEntry::Directory(name) => format!("{}/", String::from_utf8(name).unwrap()),
        DirEntry::File(name) => String::from_utf8(name).unwrap(),
    })
}

#[test]
fn links_of_a_listing_are_entries() {
    let dir = HttpDirectory::new("http://host/objects/pack/".to_string());
    let linked = |href: &str| shown(dir.linked(href));
    assert_eq!(linked("p.pack").as_deref(), Some("p.pack"));
    assert_eq!(linked("sub/").as_deref(), Some("sub/"));
    assert_eq!(linked("/objects/pack/p.pack").as_deref(), Some("p.pack"));
    assert_eq!(linked("http://host/objects/pack/p.idx").as_deref(), Some("p.idx"));
    for elsewhere in [
        "?C=N&O=D",
        "../",
        "./x",
        "mailto:x",
        "/elsewhere",
        "https://other/objects/pack/x",
        "/objects/pack",
        "/objects/pack/",
        "",
        // Anchors.
        "#top",
        "#",
        "http://host/objects/pack#top",
        // Longer names that begin like the base.
        "http://host/objects/packed",
        "/objects/packed/x",
        // Another origin, without its scheme.
        "//other/objects/pack/x",
    ] {
        assert_eq!(linked(elsewhere), None, "{elsewhere}");
    }
    let all = dir.list_dir(&vec![
        Some("../".to_string()),
        None,
        Some("b".to_string()),
        Some("a/".to_string()),
    ]);
    let all: Vec<String> = all.into_iter().map(|e| shown(Some(e)).unwrap()).collect();
    assert_eq!(all, ["b", "a/"]);
}

/// Parent links, anchors, queries and other origins are no entries; the rest
/// keep the page's order.
#[test]
fn listing_holds_only_its_entries() {
    let dir = HttpDirectory::new("http://h/r.git".to_string());
    let hrefs = ["../", "#top", "?C=N", "https://other.example/x", "objects/", "HEAD"];
    let all = dir.list_dir(&hrefs.iter().map(|h| Some(h.to_string())).collect());
    let all: Vec<String> = all.into_iter().map(|e| shown(Some(e)).unwrap()).collect();
    assert_eq!(all, ["objects/", "HEAD"]);
    // At a server's root every path is under the base, but another host is not.
    let root = HttpDirectory::new("http://h".to_string());
    assert_eq!(shown(root.linked("/HEAD")).as_deref(), Some("HEAD"));
    assert_eq!(shown(root.linked("http://h/objects/")).as_deref(), Some("objects/"));
    assert_eq!(shown(root.linked("http://h.example/x")), None);
    assert_eq!(shown(root.linked("//other.example/x")), None);
}

#[test]
fn stylesheet_may_be_missing() {
    let (found, missing) = assets::init(Some("/x.css".to_string()));
    assert!(!missing);
    assert_eq!(assets::markdown_css(&found), "/x.css");
    let (found, missing) = assets::init(None);
    assert!(missing);
    assert_eq!(assets::markdown_css(&found), "");
}
