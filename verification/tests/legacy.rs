use webgit::route::legacy::{path_route, path_route_hash, split_repo_url, PathRoute};
use webgit::route::{parse_hash, Route};

#[test]
fn test_split_repo_url() {
    // The repository itself, with or without the trailing slash.
    assert_eq!(
        split_repo_url("https://example.org/public/foo.git"),
        Some(("https://example.org/public/foo.git", ""))
    );
    assert_eq!(
        split_repo_url("https://example.org/public/foo.git/"),
        Some(("https://example.org/public/foo.git", ""))
    );
    // A cgit-style route trailing it, which is what is left to parse.
    assert_eq!(
        split_repo_url("https://example.org/public/foo.git/commit/abc"),
        Some(("https://example.org/public/foo.git", "commit/abc"))
    );
    // Paths alone, which is the form `resolve_path_route` splits.
    assert_eq!(
        split_repo_url("/public/foo.git/commit/abc"),
        Some(("/public/foo.git", "commit/abc"))
    );
    // `.git` has to end a component, not merely start one.
    assert_eq!(split_repo_url("https://example.org/public/foo"), None);
    assert_eq!(split_repo_url("https://example.org/.github/foo"), None);
    assert_eq!(split_repo_url(""), None);
}

#[test]
fn test_path_route() {
    let repo = "/repos/basic.git/".to_string();
    // A route this app has, as the hash it is rewritten to.
    assert_eq!(
        path_route("/repos/basic.git/commit/abc", "?dt=2"),
        Some(PathRoute::Known {
            repo: repo.clone(),
            hash: "#!/commit/abc?dt=2".to_string(),
        })
    );
    // One it doesn't: reported at the address that was asked for, query
    // included, rather than resolved to some other page.
    assert_eq!(
        path_route("/repos/basic.git/plain/src/main.rs", ""),
        Some(PathRoute::Unknown {
            repo: repo.clone(),
            path: "plain/src/main.rs".to_string(),
        })
    );
    assert_eq!(
        path_route("/repos/basic.git/log/", "?qt=grep&q=fix"),
        Some(PathRoute::Unknown {
            repo,
            path: "log/?qt=grep&q=fix".to_string(),
        })
    );
    // The repository itself, and the app shell's own URL under it.
    assert_eq!(path_route("/repos/basic.git/", ""), None);
    assert_eq!(path_route("/repos/basic.git", ""), None);
    assert_eq!(path_route("/repos/basic.git/index.html", ""), None);
    // No repository in the path at all.
    assert_eq!(path_route("/", ""), None);
    assert_eq!(path_route("/repos/", ""), None);
}

/// The commit route in the path, the way cgit and Forgejo write it, becomes
/// the hash naming the same commit.
#[test]
fn test_path_route_hash_commit() {
    // Forgejo puts the revision in the path, with or without a trailing
    // slash — and with or without a leading one, should a caller keep it.
    assert_eq!(
        path_route_hash("commit/abc123").as_deref(),
        Some("#!/commit/abc123")
    );
    assert_eq!(
        path_route_hash("commit/abc123/").as_deref(),
        Some("#!/commit/abc123")
    );
    assert_eq!(
        path_route_hash("/commit/abc123").as_deref(),
        Some("#!/commit/abc123")
    );
    // cgit puts it in `?id=`, with nothing in the path position.
    assert_eq!(
        path_route_hash("commit/?id=abc123").as_deref(),
        Some("#!/commit/abc123")
    );
    // An empty `id=` is no revision at all, so the path still has its say.
    assert_eq!(
        path_route_hash("commit/abc123?id=").as_deref(),
        Some("#!/commit/abc123")
    );
    // Nothing naming a revision either way: HEAD's commit.
    assert_eq!(path_route_hash("commit").as_deref(), Some("#!/commit"));
    assert_eq!(path_route_hash("commit/").as_deref(), Some("#!/commit"));
    assert_eq!(path_route_hash("commit/?id=").as_deref(), Some("#!/commit"));
    // A ref name is a revision like any other, encoded on the way out.
    assert_eq!(
        path_route_hash("commit/feature/a b").as_deref(),
        Some("#!/commit/feature%2Fa%20b")
    );
    assert_eq!(
        path_route_hash("commit/feature%2Fa%20b").as_deref(),
        Some("#!/commit/feature%2Fa%20b")
    );
}

/// The diff options ride along, so a link into a side-by-side or stat-only
/// view lands on that view here.
#[test]
fn test_path_route_hash_carries_the_diff_view() {
    assert_eq!(
        path_route_hash("commit/abc?dt=2&context=10").as_deref(),
        Some("#!/commit/abc?dt=2&context=10")
    );
    // cgit spells side-by-side as a third diff type; the hash spells it as
    // the flag this app uses, naming the same view.
    assert_eq!(
        path_route_hash("commit/?id=abc&dt=1&ignorews=1").as_deref(),
        Some("#!/commit/abc?ignorews=1&ss=1")
    );
    // Defaults stay out of the URL, and `id=` is consumed, not copied.
    assert_eq!(
        path_route_hash("commit/?id=abc&context=3").as_deref(),
        Some("#!/commit/abc")
    );
}

/// cgit's path-scoped commit, which shows one file's diff. There is no
/// such view here, so the URL is refused rather than answered with more.
#[test]
fn test_path_route_hash_refuses_a_file_scoped_commit() {
    assert_eq!(path_route_hash("commit/src/lib.rs?id=abc123"), None);
    assert_eq!(path_route_hash("commit/src?id=abc123&dt=2"), None);
    // Only the pairing is refused: either half alone still names a commit.
    assert!(path_route_hash("commit/?id=abc123").is_some());
    assert!(path_route_hash("commit/src/lib.rs?id=").is_some());
}

/// cgit's log: the path in the path, the ref and the paging in the query.
#[test]
fn test_path_route_hash_log() {
    assert_eq!(path_route_hash("log").as_deref(), Some("#!/log"));
    assert_eq!(path_route_hash("log/").as_deref(), Some("#!/log"));
    assert_eq!(
        path_route_hash("log/src/lib.rs").as_deref(),
        Some("#!/log/src/lib.rs")
    );
    // `h=` is the ref the page is on; cgit leaves it out on the default
    // branch, exactly as this app does.
    assert_eq!(
        path_route_hash("log/?h=next").as_deref(),
        Some("#!/log?h=next")
    );
    // `ofs=` is an offset in commits, which is what this app pages by too.
    assert_eq!(
        path_route_hash("log/src?h=next&ofs=50&showmsg=1").as_deref(),
        Some("#!/log/src?h=next&offset=50&showmsg=1")
    );
    // `id=` is where the walk starts, and beats the ref the page is on.
    assert_eq!(
        path_route_hash("log/?h=next&id=abc123").as_deref(),
        Some("#!/log?h=abc123")
    );
    // An offset that is not a number is no offset, not an error page.
    assert_eq!(path_route_hash("log/?ofs=x").as_deref(), Some("#!/log"));
}

/// cgit's log searches, and `--follow`: views this app doesn't have.
#[test]
fn test_path_route_hash_refuses_a_log_search() {
    assert_eq!(path_route_hash("log/?qt=grep&q=fix"), None);
    assert_eq!(path_route_hash("log/?qt=range&q=v1.0..v2.0"), None);
    assert_eq!(path_route_hash("log/src/lib.rs?follow=1"), None);
    // cgit ignores `follow=1` without a path, so it asks for nothing extra.
    assert_eq!(path_route_hash("log/?follow=1").as_deref(), Some("#!/log"));
    // An empty pattern is no search, which is cgit's reading of it too.
    assert_eq!(
        path_route_hash("log/?qt=grep&q=").as_deref(),
        Some("#!/log")
    );
}

/// Forgejo's log: the ref in the path, under the segment naming its kind.
#[test]
fn test_path_route_hash_commits() {
    assert_eq!(
        path_route_hash("commits/branch/main").as_deref(),
        Some("#!/log?h=main")
    );
    assert_eq!(
        path_route_hash("commits/tag/v1.0").as_deref(),
        Some("#!/log?h=v1.0")
    );
    assert_eq!(
        path_route_hash("commits/commit/abc123").as_deref(),
        Some("#!/log?h=abc123")
    );
    // Under `commit/`, whatever trails the id is the file whose history is
    // shown: an id is one segment, so the two cannot be confused.
    assert_eq!(
        path_route_hash("commits/commit/abc123/src/lib.rs").as_deref(),
        Some("#!/log/src/lib.rs?h=abc123")
    );
    // `page=` is 1-based, and a page is fifty commits in both.
    assert_eq!(
        path_route_hash("commits/branch/main?page=3").as_deref(),
        Some("#!/log?h=main&offset=100")
    );
    // Forgejo reads a page below one, or no number at all, as the first.
    assert_eq!(
        path_route_hash("commits/branch/main?page=0").as_deref(),
        Some("#!/log?h=main")
    );
    // A page size it would render the same way is no obstacle.
    assert_eq!(
        path_route_hash("commits/branch/main?limit=50").as_deref(),
        Some("#!/log?h=main")
    );
}

/// A ref this app cannot read the way Forgejo does. Guessing would render
/// the wrong revision's log, or the right one scoped to the wrong file.
#[test]
fn test_path_route_hash_refuses_an_ambiguous_ref() {
    // `feature/x` is either a branch of that name or branch `feature` with
    // a file called `x`, and only the ref list says which.
    assert_eq!(path_route_hash("commits/branch/feature/x"), None);
    assert_eq!(path_route_hash("commits/tag/v1.0/src/lib.rs"), None);
    // The deprecated untyped form, which needs that list to read at all.
    assert_eq!(path_route_hash("commits/main"), None);
    assert_eq!(path_route_hash("commits"), None);
    assert_eq!(path_route_hash("commits/branch/"), None);
    assert_eq!(path_route_hash("commits/branch"), None);
    // An id outside the lengths Forgejo reads as one.
    assert_eq!(path_route_hash("commits/commit/ab"), None);
    assert_eq!(path_route_hash("commits/commit/"), None);
}

/// The parts of Forgejo's log grammar that name something else entirely.
#[test]
fn test_path_route_hash_refuses_other_commits_urls() {
    // Commit search, which this app has no equivalent of.
    assert_eq!(path_route_hash("commits/commit/abc123/search?q=fix"), None);
    // A page size its log cannot render.
    assert_eq!(path_route_hash("commits/branch/main?limit=10"), None);
}

/// cgit's tree: the path in the path, the revision in the query.
#[test]
fn test_path_route_hash_tree() {
    assert_eq!(path_route_hash("tree").as_deref(), Some("#!/tree"));
    assert_eq!(path_route_hash("tree/").as_deref(), Some("#!/tree"));
    assert_eq!(
        path_route_hash("tree/src/render").as_deref(),
        Some("#!/tree/src/render")
    );
    assert_eq!(
        path_route_hash("tree/src?h=next").as_deref(),
        Some("#!/tree/src?h=next")
    );
    // `id=` is the revision the tree is read at, and beats `h=`.
    assert_eq!(
        path_route_hash("tree/?h=next&id=abc123").as_deref(),
        Some("#!/tree?h=abc123")
    );
    // cgit shows a file as source, which is this app's default: no flag.
    assert_eq!(
        path_route_hash("tree/README.md?h=next").as_deref(),
        Some("#!/tree/README.md?h=next")
    );
}

/// Forgejo's tree, which is its file view too: the same URL either way, and
/// a file it can render is rendered unless the URL says source.
#[test]
fn test_path_route_hash_src() {
    assert_eq!(
        path_route_hash("src/branch/main").as_deref(),
        Some("#!/tree?h=main")
    );
    assert_eq!(
        path_route_hash("src/tag/v1.0").as_deref(),
        Some("#!/tree?h=v1.0")
    );
    assert_eq!(
        path_route_hash("src/commit/abc123/src/render").as_deref(),
        Some("#!/tree/src/render?h=abc123")
    );
    // Forgejo renders markdown and SVG by default, where this app asks.
    assert_eq!(
        path_route_hash("src/commit/abc123/README.md").as_deref(),
        Some("#!/tree/README.md?h=abc123&render=1")
    );
    assert_eq!(
        path_route_hash("src/commit/abc123/logo.svg").as_deref(),
        Some("#!/tree/logo.svg?h=abc123&render=1")
    );
    assert_eq!(
        path_route_hash("src/commit/abc123/README.md?display=source").as_deref(),
        Some("#!/tree/README.md?h=abc123")
    );
    // A file with no rendered form is the same page either way.
    assert_eq!(
        path_route_hash("src/commit/abc123/src/main.rs").as_deref(),
        Some("#!/tree/src/main.rs?h=abc123")
    );
}

/// The tree's share of the refs that cannot be read without Forgejo's list.
#[test]
fn test_path_route_hash_refuses_an_ambiguous_src_ref() {
    assert_eq!(path_route_hash("src/branch/main/src/lib.rs"), None);
    assert_eq!(path_route_hash("src/tag/v1.0/docs"), None);
    assert_eq!(path_route_hash("src/main/README.md"), None);
    assert_eq!(path_route_hash("src/commit/ab/README.md"), None);
}

/// Anything else is left to be read as the repository root.
#[test]
fn test_path_route_hash_ignores_everything_else() {
    assert_eq!(path_route_hash(""), None);
    assert_eq!(path_route_hash("/"), None);
    // The route name has to end where a route name may end.
    assert_eq!(path_route_hash("commitment/abc"), None);
    // cgit pages this app has no view for, and a name that merely starts
    // with one of the routes it does have.
    assert_eq!(path_route_hash("plain/src/lib.rs"), None);
    assert_eq!(path_route_hash("about"), None);
    assert_eq!(path_route_hash("logout"), None);
}

/// Whatever a path URL becomes has to parse back out as the commit it
/// named: the hash is the only form the rest of the app ever sees.
#[test]
fn test_path_route_hash_round_trips_through_parse_hash() {
    for (path, want) in [
        ("commit/abc123", "abc123"),
        ("commit/?id=abc123", "abc123"),
        ("commit/abc123?dt=2", "abc123"),
    ] {
        let hash = path_route_hash(path).expect("a commit route");
        match parse_hash(&hash) {
            Route::Commit(sha, _) => assert_eq!(sha, want, "for {path}"),
            _ => panic!("expected Commit for {path}"),
        }
    }
    let hash = path_route_hash("commit/").expect("a commit route");
    assert!(matches!(parse_hash(&hash), Route::CommitHead(_)));
}
