use webgit::object::ObjectId;
use webgit::render::commits_table::{
    short_hash, table_class, CommitRow, ExpandMsg, RefLabel, RefLabelKind,
};
use webgit::render::log::{loading_page, log_page, newer_url, older_url, path_filter, PAGE_SIZE};
use webgit::render::query::RefEntry;
use webgit::render::refs_all::build_refs_all;
use webgit::render::refs_heads::build_refs_heads;
use webgit::render::refs_table::{RefMeta, RefRow};
use webgit::render::refs_tags::build_refs_tags;
use webgit::render::summary::{list_refs, SummaryProps};
use webgit::render::tag::{
    build_tag, lookup_context, peel_context, tag_error, tag_ref, TagError, TagInfo, TagProps,
};
use webgit::render::time::{Age, CivilDate, Moment};
use webgit::route::log_url;

fn age(secs: u64) -> Age {
    Age { secs, when: CivilDate { year: 2001, month: 1, day: 5 } }
}

fn ref_row(name: &str, message: &str, author: &str, secs: u64) -> RefRow {
    RefRow {
        name: name.to_string(),
        meta: Some(RefMeta {
            message: message.to_string(),
            author: author.to_string(),
            age: age(secs),
        }),
    }
}

fn id(hex: &str) -> ObjectId {
    let mut padded = hex.as_bytes().to_vec();
    padded.resize(40, b'0');
    ObjectId::from_hex(&padded).unwrap()
}

fn commit_row(hex: &str, message: &str, author: &str, secs: u64) -> CommitRow {
    CommitRow {
        id: id(hex),
        short_hash: hex.to_string(),
        message: message.to_string(),
        body: String::new(),
        author: author.to_string(),
        age: age(secs),
        refs: Vec::new(),
    }
}

fn names(rows: &[RefRow]) -> Vec<&str> {
    rows.iter().map(|r| r.name.as_str()).collect()
}

#[test]
fn test_refs_all_html() {
    let page = build_refs_all(
        vec![ref_row("main", "Fix non-annotated tags", "Kunal Mehta", 3600)],
        vec![ref_row("v1.0.0", "Release 1.0.0", "Kunal Mehta", 86400 * 9000)],
    );
    assert_eq!(names(&page.branches), ["main"]);
    assert_eq!(names(&page.tags), ["v1.0.0"]);
    assert!(!page.more_branches && !page.more_tags);
    assert_eq!(page.branches[0].branch_href(), "#!/tree?h=main");
    assert_eq!(page.tags[0].tag_href(), "#!/refs/tags/v1.0.0");
}

#[test]
fn test_refs_heads_html() {
    let page = build_refs_heads(vec![
        ref_row("main", "Fix non-annotated tags", "Kunal Mehta", 3600),
        ref_row("develop", "WIP: new parser", "Someone Else", 86400 * 9000),
    ]);
    assert_eq!(names(&page.branches), ["main", "develop"]);
    assert!(!page.more_branches);
}

/// The most recent comes first, and of two of one age the one listed first.
#[test]
fn all_refs_are_sorted_by_age() {
    let rows = || {
        vec![
            ref_row("develop", "WIP: new parser", "Someone Else", 86400 * 9000),
            ref_row("main", "Fix non-annotated tags", "Kunal Mehta", 3600),
            ref_row("copy", "Fix non-annotated tags", "Kunal Mehta", 3600),
            RefRow::pending("new".to_string()),
        ]
    };
    let page = build_refs_all(rows(), rows());
    assert_eq!(names(&page.branches), ["new", "main", "copy", "develop"]);
    assert_eq!(names(&page.tags), ["new", "main", "copy", "develop"]);
}

#[test]
fn test_refs_tags_html() {
    let page = build_refs_tags(
        vec![
            ref_row("v1.0.0", "Release 1.0.0", "Kunal Mehta", 86400 * 9000),
            ref_row("v1.1.0", "Release 1.1.0", "Kunal Mehta", 86400),
        ],
        "webgit",
    );
    assert_eq!(names(&page.tags), ["v1.1.0", "v1.0.0"]);
    assert!(!page.more_tags);
    let (href, file) = page.tags[0].snapshot_link(&page.repo_name);
    assert_eq!(href, "#!/snapshot?h=v1.1.0");
    assert_eq!(file, "webgit-v1.1.0.tar.gz");
}

#[test]
fn test_refs_tags_html_empty() {
    let page = build_refs_tags(Vec::new(), "webgit");
    assert!(page.tags.is_empty());
    assert_eq!(page.repo_name, "webgit");
}

fn refs(names: &[&str]) -> Vec<(String, RefEntry)> {
    names
        .iter()
        .map(|n| (n.to_string(), RefEntry { target: id("aa"), peeled: None }))
        .collect()
}

fn listed(refs: &[(String, RefEntry)]) -> Vec<&str> {
    refs.iter().map(|r| r.0.as_str()).collect()
}

/// HEAD's branch goes first, the rest by name; tags go backwards by name.
#[test]
fn summary_lists_refs_by_name() {
    let l = list_refs(
        Some("main"),
        &refs(&["zeta", "main", "Beta", "alpha"]),
        &refs(&["v1", "v10", "v2"]),
    );
    assert_eq!(listed(&l.branches), ["main", "Beta", "alpha", "zeta"]);
    assert_eq!(listed(&l.tags), ["v2", "v10", "v1"]);
    assert!(!l.more_branches && !l.more_tags);
}

#[test]
fn summary_lists_ten_of_each() {
    let many: Vec<String> = (0..11).map(|i| format!("b{i:02}")).collect();
    let many: Vec<&str> = many.iter().map(|s| s.as_str()).collect();
    let l = list_refs(Some("b10"), &refs(&many), &refs(&many));
    assert_eq!(l.branches.len(), 10);
    assert_eq!(l.branches[0].0, "b10");
    assert_eq!(l.branches[9].0, "b08");
    assert!(l.more_branches && l.more_tags);
    assert_eq!(listed(&l.tags)[0], "b10");
    assert_eq!(listed(&l.tags)[9], "b01");
    // Without a HEAD branch among them there is room for ten others.
    let l = list_refs(Some("gone"), &refs(&many[..10]), &refs(&many[..10]));
    assert_eq!(l.branches.len(), 10);
    assert!(!l.more_branches && !l.more_tags);
}

/// The initial skeleton: branch/tag names shown immediately with blank
/// metadata columns, and recent commits still spinning, before any commit
/// resolves.
#[test]
fn test_summary_html_loading() {
    let l = list_refs(Some("main"), &refs(&["main", "develop"]), &refs(&["v1.0.0"]));
    let page = SummaryProps::skeleton(&l, "https://example.org/repo.git");
    assert_eq!(names(&page.branches), ["main", "develop"]);
    assert_eq!(names(&page.tags), ["v1.0.0"]);
    assert!(page.branches.iter().chain(&page.tags).all(|r| r.meta.is_none()));
    assert!(!page.more_branches && !page.more_tags);
    assert!(page.commits.is_none());
    assert_eq!(page.clone_line(), "git clone https://example.org/repo.git");
}

#[test]
fn test_summary_html() {
    let l = list_refs(Some("main"), &refs(&["main", "develop"]), &refs(&["v1.0.0"]));
    let mut page = SummaryProps::skeleton(&l, "https://example.org/repo.git");
    page.fill_branch(1, ref_row("develop", "WIP: new parser", "Someone Else", 86400 * 9000));
    page.fill_tag(0, ref_row("v1.0.0", "Release 1.0.0", "Kunal Mehta", 86400 * 9000));
    assert!(page.branches[0].meta.is_none());
    assert_eq!(page.branches[1].meta.as_ref().unwrap().author, "Someone Else");
    assert_eq!(page.tags[0].meta.as_ref().unwrap().message, "Release 1.0.0");
    page.fill_commits(vec![
        commit_row("0123abcd", "Fix non-annotated tags", "Kunal Mehta", 3600),
        commit_row("89abcdef", "Add README", "Kunal Mehta", 86400 * 3),
    ]);
    let label = RefLabel { name: "main".to_string(), kind: RefLabelKind::Branch };
    page.decorate(&vec![(id("89abcdef"), vec![label])]);
    let commits = page.commits.unwrap();
    assert_eq!(commits[1].message, "Add README");
    assert!(commits[0].refs.is_empty());
    assert_eq!(commits[1].refs[0].name, "main");
}

#[test]
fn test_log_html_with_pagination() {
    let labels = vec![(
        id("0123abcd"),
        vec![
            RefLabel { name: "main".to_string(), kind: RefLabelKind::Branch },
            RefLabel { name: "v1.0.0".to_string(), kind: RefLabelKind::Tag },
        ],
    )];
    let page = log_page(
        vec![
            commit_row("0123abcd", "Fix non-annotated tags", "Kunal Mehta", 3600),
            commit_row("89abcdef", "Add README", "Kunal Mehta", 86400 * 3),
        ],
        &labels,
        "",
        50,
        Some("main"),
        false,
        true,
    );
    assert_eq!(page.prev_url, Some(log_url("", 0, Some("main"), false)));
    assert_eq!(page.next_url, Some(log_url("", 100, Some("main"), false)));
    assert_eq!(page.commits[0].refs.len(), 2);
    assert!(page.commits[1].refs.is_empty());
    assert!(!page.expand.expanded);
    assert_eq!(page.expand.label(), "Expand");
    assert_eq!(page.expand.toggle_url, log_url("", 50, Some("main"), true));
}

#[test]
fn test_log_html_first_page_no_nav() {
    let page = log_page(
        vec![commit_row("0123abcd", "Initial commit", "Kunal Mehta", 60)],
        &Vec::new(),
        "",
        0,
        None,
        true,
        false,
    );
    assert_eq!(page.prev_url, None);
    assert_eq!(page.next_url, None);
    assert_eq!(page.expand.label(), "Collapse");
    assert_eq!(table_class(Some(&page.expand)), "summary-table log-expanded");
    assert_eq!(table_class(None), "summary-table");
}

/// Only the finished page leads to others.
#[test]
fn page_still_loading_leads_nowhere() {
    let labels = vec![(
        id("0123abcd"),
        vec![RefLabel { name: "main".to_string(), kind: RefLabelKind::Branch }],
    )];
    let rows = || vec![commit_row("0123abcd", "Fix", "Kunal Mehta", 3600)];
    let page = loading_page(rows(), &labels, "src", 50, Some("main"), true);
    assert_eq!(page.prev_url, None);
    assert_eq!(page.next_url, None);
    assert_eq!(page.commits.len(), 1);
    assert_eq!(page.commits[0].refs.len(), 1);
    assert!(page.expand.expanded);
    assert_eq!(page.expand.toggle_url, log_url("src", 50, Some("main"), false));
    let page = log_page(rows(), &labels, "src", 50, Some("main"), true, false);
    assert_eq!(page.prev_url, Some(log_url("src", 0, Some("main"), true)));
    assert_eq!(page.next_url, None);
}

/// The page of older commits leads back to the one it was reached from.
#[test]
fn pages_of_the_log_lead_back() {
    assert_eq!(older_url("src", 100, None, true, true), Some(log_url("src", 150, None, true)));
    assert_eq!(newer_url("src", 100 + PAGE_SIZE, None, true), Some(log_url("src", 100, None, true)));
    // An odd offset goes no further back than the first commit.
    assert_eq!(newer_url("", 30, None, false), Some(log_url("", 0, None, false)));
    assert_eq!(path_filter("src"), Some("src"));
    assert_eq!(path_filter(""), None);
}

fn moment(year: i16, month: i8, day: i8, hour: i8, minute: i8, second: i8) -> Moment {
    Moment { unix_ms: 0, date: CivilDate { year, month, day }, hour, minute, second, offset_seconds: 0 }
}

const COMMIT: &str = "0123abcd0123abcd0123abcd0123abcd0123abcd";

fn annotated(date: Option<Moment>, tagger_name: Option<&str>) -> Result<TagProps, TagError> {
    build_tag(
        "v1.0.0",
        id(COMMIT),
        &moment(2000, 1, 1, 0, 0, 0),
        Some(&TagInfo {
            date,
            tagger_name: tagger_name.map(|n| n.as_bytes().to_vec()),
            message: b"Release 1.0.0\n\nSigned-off-by: Kunal Mehta".to_vec(),
        }),
    )
}

#[test]
fn tag_html_annotated() {
    // Annotated tags show the tagger row and the message body.
    let Ok(tag) = annotated(Some(moment(2026, 1, 15, 12, 34, 56)), Some("Kunal Mehta")) else {
        panic!("expected a page");
    };
    assert_eq!(tag.name, "v1.0.0");
    assert_eq!(tag.date, "2026-01-15 12:34:56 +00:00");
    assert_eq!(tag.tagger_name.as_deref(), Some("Kunal Mehta"));
    assert_eq!(tag.commit_name(), COMMIT);
    assert_eq!(tag.commit_href(), format!("#!/commit/{COMMIT}"));
    assert_eq!(tag.tree_href(), "#!/tree?h=v1.0.0");
    assert_eq!(tag.log_href(), "#!/log?h=v1.0.0");
    assert_eq!(
        tag.contents.as_deref(),
        Some("Release 1.0.0\n\nSigned-off-by: Kunal Mehta")
    );
}

#[test]
fn tag_html_lightweight() {
    // Lightweight tags carry no tagger and no message, so those are omitted.
    let commit = id("89abcdef89abcdef89abcdef89abcdef89abcdef");
    let Ok(tag) = build_tag("v0.9.0", commit, &moment(2025, 11, 2, 8, 0, 0), None) else {
        panic!("expected a page");
    };
    assert_eq!(tag.date, "2025-11-02 08:00:00 +00:00");
    assert_eq!(tag.tagger_name, None);
    assert_eq!(tag.contents, None);
}

#[test]
fn tag_without_a_date_or_a_tagger_has_no_page() {
    assert!(matches!(annotated(None, None), Err(TagError::NoDate)));
    assert!(matches!(
        annotated(Some(moment(2026, 1, 15, 12, 34, 56)), None),
        Err(TagError::NoTagger)
    ));
    let words: Vec<String> =
        [TagError::NotFound, TagError::NoCommit, TagError::NoDate, TagError::NoTagger]
            .iter()
            .map(|e| tag_error(e, "v1"))
            .collect();
    assert_eq!(words, ["tag not found: v1", "no commit for v1", "no date on tag v1", "no tagger on v1"]);
    assert_eq!(tag_ref("v1"), "tags/v1");
    assert_eq!(lookup_context("v1"), "lookup tag object v1");
    assert_eq!(peel_context("v1"), "peel ref for v1");
}

#[test]
fn label_of_a_ref_with_a_slash_stays_one_name() {
    let label = RefLabel { name: "release/2.0".to_string(), kind: RefLabelKind::Branch };
    assert_eq!(label.href(), "#!/log?h=release%2F2.0");
    assert_eq!(label.copy(), label);
    assert_eq!(short_hash(id("0123abcdef")), "0123abcd");
    assert_eq!(ExpandMsg::new(true, String::new()).label(), "Collapse");
}
