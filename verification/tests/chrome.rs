use webgit::chrome::{
    crumb_links, doc_name, graph_report, index_nav_bar, nav_bar, plan_path_bar, ref_text,
    root_href, scroll_target, Crumb, PathBarPlan, Shown, Tab,
};
use webgit::render::tree::head_suffix;
use webgit::repo_url::{
    is_loopback, repo_from_href, repo_name, repo_path, resolve_repo_url, split_name,
    url_parameters,
};
use webgit::route::index_url;
use webgit::route::load::RefKind;

#[test]
fn test_repo_path() {
    assert_eq!(repo_path("https://example.org/foo/bar.git"), "foo/bar.git");
    assert_eq!(repo_path("https://example.org/foo/bar.git/"), "foo/bar.git");
    assert_eq!(repo_path("https://example.org/foo/bar"), "foo/bar");
    assert_eq!(
        repo_path("https://git.example.com/public/webgit.git/"),
        "public/webgit.git"
    );
    // No host component: the whole string is the path.
    assert_eq!(repo_path("bar.git"), "bar.git");
    assert_eq!(repo_path(""), "");
}

#[test]
fn page_is_called_by_what_it_shows() {
    let repo = doc_name(Shown::Repo("https://example.org/foo/bar.git/"));
    assert_eq!(repo.as_deref(), Some("foo/bar.git"));
    assert_eq!(doc_name(Shown::Index).as_deref(), Some("repositories"));
    assert_eq!(doc_name(Shown::Loading), None);
    assert_eq!(doc_name(Shown::Error), None);
}

#[test]
fn only_a_named_section_is_scrolled_to() {
    assert_eq!(scroll_target(true, "#!/index/tools").as_deref(), Some("tools"));
    assert_eq!(scroll_target(false, "#!/index/tools"), None);
    assert_eq!(scroll_target(true, "#!/index"), None);
    assert_eq!(scroll_target(true, "#!/about"), None);
}

#[test]
fn test_repo_name() {
    assert_eq!(repo_name("https://example.org/public/webgit.git"), "webgit");
    assert_eq!(
        repo_name("https://example.org/public/webgit.git/"),
        "webgit"
    );
    assert_eq!(repo_name("https://example.org/public/webgit"), "webgit");
    assert_eq!(repo_name("webgit.git"), "webgit");
    // Nothing left to name it after.
    assert_eq!(repo_name("https://example.org/"), "example.org");
    assert_eq!(repo_name(""), "repository");
}

/// The tab that is lit.
fn active(tabs: &[Tab]) -> Vec<&str> {
    tabs.iter().filter(|t| t.active).map(|t| t.label).collect()
}

/// The targets of the tabs, in order.
fn hrefs(tabs: &[Tab]) -> Vec<&str> {
    tabs.iter().map(|t| t.href.as_str()).collect()
}

#[test]
fn nav_summary() {
    // Plain route: summary active, log/tree hrefs at their defaults.
    let tabs = nav_bar("#!/summary");
    assert_eq!(active(&tabs), ["summary"]);
    assert_eq!(
        hrefs(&tabs),
        ["#!/readme", "#!/summary", "#!/refs", "#!/log", "#!/tree", "#!/commit", "#!/about"]
    );
}

#[test]
fn nav_tree_scoped() {
    // A subtree on a branch: tree active, and both the log and tree tabs
    // carry the current path / `?h=`.
    let tabs = nav_bar("#!/tree/src?h=main");
    assert_eq!(active(&tabs), ["tree"]);
    assert_eq!(tabs[3].href, "#!/log/src?h=main");
    assert_eq!(tabs[4].href, "#!/tree?h=main");
}

#[test]
fn nav_index() {
    // The listing, reached by its own tab...
    let tabs = index_nav_bar(&index_url(""));
    assert_eq!(active(&tabs), ["index"]);
    assert_eq!(hrefs(&tabs), ["#!/index", "#!/about"]);
}

#[test]
fn nav_index_section_anchor() {
    // ...and scrolled to a section, which is still the listing.
    assert_eq!(active(&index_nav_bar(&index_url("public"))), ["index"]);
}

#[test]
fn nav_index_about() {
    assert_eq!(active(&index_nav_bar("#!/about")), ["about"]);
}

#[test]
fn nav_log_on_tag() {
    // Whole-history log on a tag: log active, hrefs scoped to the ref.
    let tabs = nav_bar("#!/log?h=v1.0.0");
    assert_eq!(active(&tabs), ["log"]);
    assert_eq!(tabs[3].href, "#!/log?h=v1.0.0");
    assert_eq!(tabs[4].href, "#!/tree?h=v1.0.0");
}

/// An expanded log stays expanded; from anywhere else it starts collapsed.
#[test]
fn log_tab_keeps_an_expanded_log_expanded() {
    assert_eq!(nav_bar("#!/log/src?h=main&showmsg=1")[3].href, "#!/log/src?h=main&showmsg=1");
    assert_eq!(nav_bar("#!/tree")[3].href, "#!/log");
}

fn links(crumbs: &[Crumb]) -> Vec<(&str, &str)> {
    crumbs.iter().map(|c| (c.href.as_str(), c.label.as_str())).collect()
}

#[test]
fn path_bar_hidden() {
    for hash in ["", "#!/summary", "#!/refs", "#!/commit/abc", "#!/about", "#!/snapshot?h=v1"] {
        assert!(matches!(plan_path_bar(hash), PathBarPlan::Hidden), "{hash}");
    }
}

#[test]
fn path_bar_crumbs_on_branch() {
    // Nested path on a branch: ref label prefix + root/segment breadcrumb,
    // every link carrying `?h=`.
    assert_eq!(ref_text("main", RefKind::Branch), "branch: main");
    assert_eq!(root_href(Some("main")), "#!/tree?h=main");
    assert_eq!(
        links(&crumb_links("src/render", &head_suffix(Some("main")))),
        [("#!/tree/src?h=main", "src"), ("#!/tree/src/render?h=main", "render")]
    );
    for hash in ["#!/tree/src/render?h=main", "#!/log/src/render?h=main", "#!/blame/src/render?h=main"] {
        let PathBarPlan::Crumbs { path, head } = plan_path_bar(hash) else {
            panic!("expected crumbs for {hash}");
        };
        assert_eq!(path, "src/render");
        assert_eq!(head.as_deref(), Some("main"));
    }
}

#[test]
fn path_bar_crumbs_no_ref() {
    // Implicit HEAD (no `?h=`): no ref label, no suffix on the hrefs.
    assert_eq!(root_href(None), "#!/tree");
    assert_eq!(links(&crumb_links("src", &head_suffix(None))), [("#!/tree/src", "src")]);
}

#[test]
fn path_bar_ref_only() {
    assert_eq!(ref_text("v1.0.0", RefKind::Tag), "tag: v1.0.0");
    let PathBarPlan::RefOnly { head } = plan_path_bar("#!/log?h=v1.0.0") else {
        panic!("expected a label");
    };
    assert_eq!(head.as_deref(), Some("v1.0.0"));
}

/// A `?h=` that named a commit outright: labelled "commit", and by the short
/// hash — the full 40 characters stay in the hrefs, which is where they are
/// load-bearing.
#[test]
fn path_bar_crumbs_on_commit() {
    assert_eq!(ref_text("6121d0b9", RefKind::Commit), "commit: 6121d0b9");
    assert_eq!(
        links(&crumb_links(
            "src",
            &head_suffix(Some("6121d0b97779278fcc32cc8a02754e7c588d9c18"))
        )),
        [("#!/tree/src?h=6121d0b97779278fcc32cc8a02754e7c588d9c18", "src")]
    );
}

#[test]
fn path_bar_ref_only_on_commit() {
    assert_eq!(ref_text("6121d0b9", RefKind::Commit), "commit: 6121d0b9");
}

/// The link's text is the name as it is; only its target is encoded.
#[test]
fn crumbs_encode_their_targets_alone() {
    assert_eq!(
        links(&crumb_links("/a b//c?d/", "")),
        [("#!/tree/a%20b", "a b"), ("#!/tree/a%20b/c%3Fd", "c?d")]
    );
}

#[test]
fn page_is_named_after_the_prefix_and_the_rest() {
    assert_eq!(
        split_name("public/webgit.git/x"),
        Some(("public".to_string(), "webgit.git/x".to_string()))
    );
    assert_eq!(split_name("webgit.git"), None);
}

#[test]
fn page_url_names_a_repository() {
    assert_eq!(
        repo_from_href("https://example.org/a.git/?x#!/log").as_deref(),
        Some("https://example.org/a.git")
    );
    assert_eq!(
        repo_from_href("https://example.org/a.git#!/log?h=b").as_deref(),
        Some("https://example.org/a.git")
    );
    assert_eq!(repo_from_href("https://example.org/a.git/x"), None);
    // The query is no part of the path.
    assert_eq!(repo_from_href("https://example.org/?a.git"), None);
}

#[test]
fn query_is_honoured_on_a_loopback_host_alone() {
    let values = vec![
        (String::new(), Some(String::new())),
        ("%zz".to_string(), None),
        ("b".to_string(), Some("decoded".to_string())),
    ];
    for host in ["localhost", "127.0.0.1"] {
        assert!(is_loopback(host));
        assert_eq!(
            resolve_repo_url(Some("http://localhost/"), Some(host), &values).as_deref(),
            Some("%zz")
        );
    }
    for host in [Some("example.org"), Some("localhost.example.org"), None] {
        assert_eq!(resolve_repo_url(Some("https://example.org/"), host, &values), None);
    }
    assert_eq!(resolve_repo_url(None, Some("localhost"), &Vec::new()), None);
    // What the path names comes first.
    assert_eq!(
        resolve_repo_url(Some("http://localhost/a.git/"), Some("localhost"), &values).as_deref(),
        Some("http://localhost/a.git")
    );
}

#[test]
fn url_parameters_are_found_in_the_query() {
    assert_eq!(url_parameters("?a=1&url=http%3A&url=&curl=x&url"), ["http%3A", ""]);
    assert!(url_parameters("").is_empty());
}

#[test]
fn commit_graph_is_reported_to_the_console() {
    assert_eq!(
        graph_report(Some((12, true))),
        "webgit: commit-graph present (12 commits, changed-path filters: yes)"
    );
    assert_eq!(
        graph_report(Some((0, false))),
        "webgit: commit-graph present (0 commits, changed-path filters: no)"
    );
    assert_eq!(graph_report(None), "webgit: no commit-graph; walking commit objects directly");
}

#[test]
fn each_tab_leads_to_itself() {
    for hash in ["", "#!/log/src?h=main&showmsg=1", "#!/tree/a%20b?h=v1", "#!/commit/abc", "#!/about"] {
        let tabs = nav_bar(hash);
        assert_eq!(active(&tabs).len(), 1, "{hash}");
        for tab in &tabs {
            assert_eq!(active(&nav_bar(&tab.href)), [tab.label], "{hash}");
        }
    }
}

#[test]
fn each_crumb_leads_to_the_path_so_far() {
    let crumbs = crumb_links("a b//c", &head_suffix(Some("v/1")));
    let led: Vec<(String, Option<String>)> = crumbs
        .iter()
        .map(|crumb| match plan_path_bar(&crumb.href) {
            PathBarPlan::Crumbs { path, head } => (path, head),
            _ => panic!("expected a tree: {}", crumb.href),
        })
        .collect();
    let head = || Some("v/1".to_string());
    assert_eq!(led, [("a b".to_string(), head()), ("a b/c".to_string(), head())]);
}
