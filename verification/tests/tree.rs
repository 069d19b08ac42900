use webgit::object::{ObjectId, TreeEntry, TreeEntryType};
use webgit::render::markdown::frame_document;
use webgit::render::readme::{readme_candidates, readme_content, ReadmeContent, ReadmeSearch};
use webgit::render::tree::{
    mode_string, resolve_symlink, submodule_label, tree_rows, find_symlinks, RowKind,
    SymlinkTarget, TreeEntryRow, TreeProps,
};

#[test]
fn test_mode_string() {
    assert_eq!(mode_string(TreeEntryType::Tree), "d---------");
    assert_eq!(mode_string(TreeEntryType::File), "-rw-r--r--");
    assert_eq!(mode_string(TreeEntryType::Executable), "-rwxr-xr-x");
    assert_eq!(mode_string(TreeEntryType::Symlink), "l---------");
    assert_eq!(mode_string(TreeEntryType::Commit), "m---------");
}

#[test]
fn test_resolve_symlink() {
    // Siblings and descents, from the root and from a subdirectory.
    assert_eq!(
        resolve_symlink("", "README.md").as_deref(),
        Some("README.md")
    );
    assert_eq!(
        resolve_symlink("src", "lib.rs").as_deref(),
        Some("src/lib.rs")
    );
    assert_eq!(
        resolve_symlink("src", "render/tree.rs").as_deref(),
        Some("src/render/tree.rs")
    );

    // `.` and `..` fold away, and `..` may climb as far as the root.
    assert_eq!(
        resolve_symlink("src", "./lib.rs").as_deref(),
        Some("src/lib.rs")
    );
    assert_eq!(resolve_symlink("a/b", "../c").as_deref(), Some("a/c"));
    assert_eq!(resolve_symlink("a/b", "../../c/d").as_deref(), Some("c/d"));
    assert_eq!(
        resolve_symlink("a", "../README.md").as_deref(),
        Some("README.md")
    );

    // Nothing this view can show: out of the repository, or the root itself.
    assert_eq!(resolve_symlink("a", "../../escape"), None);
    assert_eq!(resolve_symlink("", "/etc/passwd"), None);
    assert_eq!(resolve_symlink("a/b", "../.."), None);
    assert_eq!(resolve_symlink("src", ""), None);
}

fn target() -> ObjectId {
    ObjectId::from_hex(b"1a3e64c6c4a6ff9e1d2c3b4a5968776655443322").unwrap()
}

/// A tree of `(type, name)` pairs, every entry naming the same made-up object.
fn tree_of(entries: &[(TreeEntryType, &str)]) -> Vec<TreeEntry> {
    entries
        .iter()
        .map(|(entry_type, name)| TreeEntry {
            name: name.as_bytes().to_vec(),
            entry_type: *entry_type,
            id: target(),
        })
        .collect()
}

/// Every mode git writes, mapped to the row it produces.
#[test]
fn test_tree_rows_kinds() {
    let tree = tree_of(&[
        (TreeEntryType::Tree, "dir"),
        (TreeEntryType::File, "file"),
        (TreeEntryType::Executable, "exe"),
        (TreeEntryType::Symlink, "link"),
        (TreeEntryType::Commit, "vendor"),
    ]);
    let rows = tree_rows(&tree, "sub");

    let kinds: Vec<&RowKind> = rows.iter().map(|r| &r.kind).collect();
    assert!(matches!(kinds[0], RowKind::Dir));
    assert!(matches!(kinds[1], RowKind::File));
    assert!(matches!(kinds[2], RowKind::File));
    // The target is a separate fetch, so it isn't known yet.
    assert!(matches!(kinds[3], RowKind::Symlink(None)));
    assert!(matches!(kinds[4], RowKind::Submodule(id) if *id == target()));

    // The prefix is carried into every path, symlinks and gitlinks alike.
    let paths: Vec<&str> = rows.iter().map(|r| r.path.as_str()).collect();
    assert_eq!(
        paths,
        ["sub/dir", "sub/file", "sub/exe", "sub/link", "sub/vendor"]
    );
}

#[test]
fn rows_link_to_their_paths_on_the_ref() {
    let tree = tree_of(&[(TreeEntryType::File, "a b.md"), (TreeEntryType::Symlink, "link")]);
    let mut props = TreeProps::build(&tree, "src", Some("release/2.0"));
    assert_eq!(props.head_suffix, "?h=release%2F2.0");
    assert_eq!(
        props.entries[0].href(&props.head_suffix),
        "#!/tree/src/a%20b.md?h=release%2F2.0"
    );
    assert_eq!(TreeProps::build(&tree, "", None).entries[0].href(""), "#!/tree/a%20b.md");

    assert_eq!(find_symlinks(&tree), [(1, target())]);
    props.fill_symlink(1, "src", b"../lib.rs");
    let RowKind::Symlink(Some(filled)) = &props.entries[1].kind else {
        panic!("expected a target");
    };
    assert_eq!(filled.text, "../lib.rs");
    assert_eq!(filled.href(&props.head_suffix).as_deref(), Some("#!/tree/lib.rs?h=release%2F2.0"));
    props.fill_symlink(1, "src", b"/etc/passwd");
    let RowKind::Symlink(Some(outside)) = &props.entries[1].kind else {
        panic!("expected a target");
    };
    assert_eq!(outside.text, "/etc/passwd");
    assert_eq!(outside.href(""), None);
    assert_eq!(submodule_label(target()), " @ 1a3e64c6");
}

#[test]
fn readme_is_the_first_regular_file_of_the_names() {
    let names = |entries: &[(TreeEntryType, &str)]| -> Vec<&'static str> {
        readme_candidates(&tree_of(entries)).into_iter().map(|c| c.0).collect()
    };
    assert_eq!(
        names(&[(TreeEntryType::File, "README.txt"), (TreeEntryType::Executable, "README.md")]),
        ["README.md", "README.txt"]
    );
    assert_eq!(
        names(&[(TreeEntryType::Tree, "README"), (TreeEntryType::File, "README.rst")]),
        ["README.rst"]
    );
    assert!(names(&[(TreeEntryType::Symlink, "README.md")]).is_empty());
}

/// What cannot be read is passed over, and the first that can is the README.
#[test]
fn readme_is_the_first_that_can_be_read() {
    let entries = || {
        tree_of(&[
            (TreeEntryType::File, "README"),
            (TreeEntryType::File, "README.md"),
            (TreeEntryType::File, "README.txt"),
        ])
    };
    let mut search = ReadmeSearch::start(&entries());
    assert!(search.ask().is_some());
    assert_eq!(search.step(None), None);
    assert!(search.ask().is_some());
    assert_eq!(search.step(Some(b"# x\n")), Some(ReadmeContent::Plain("# x\n".to_string())));

    let mut search = ReadmeSearch::start(&entries());
    assert!(matches!(search.step(Some(b"# x\n")), Some(ReadmeContent::Markdown(_))));

    let mut search = ReadmeSearch::start(&entries());
    let mut tried = 0;
    while search.ask().is_some() {
        assert_eq!(search.step(None), None);
        tried += 1;
    }
    assert_eq!(tried, 3);
    assert_eq!(ReadmeSearch::start(&tree_of(&[])).ask(), None);
}

/// Each symlink gets the target that was read for it; one that could not be
/// read stays as it was.
#[test]
fn symlinks_get_the_targets_that_were_read() {
    let entries = tree_of(&[
        (TreeEntryType::Symlink, "a"),
        (TreeEntryType::File, "b"),
        (TreeEntryType::Symlink, "c"),
    ]);
    let mut props = TreeProps::build(&entries, "src", None);
    props.fill_symlinks("src", &vec![(0, None), (2, Some(b"../lib.rs".to_vec()))]);
    assert!(matches!(props.entries[0].kind, RowKind::Symlink(None)));
    assert!(matches!(props.entries[1].kind, RowKind::File));
    let RowKind::Symlink(Some(found)) = &props.entries[2].kind else {
        panic!("expected a target");
    };
    assert_eq!(found.text, "../lib.rs");
    assert_eq!(found.path.as_deref(), Some("lib.rs"));
}

#[test]
fn readme_is_rendered_only_as_markdown() {
    assert_eq!(
        readme_content("README", b"# x\n"),
        ReadmeContent::Plain("# x\n".to_string())
    );
    let ReadmeContent::Markdown(html) = readme_content("README.md", b"# x\n\n[top](#y)\n") else {
        panic!("expected markdown");
    };
    assert!(html.contains("<h1>"), "{html}");
    assert!(html.contains(r##"href="#!/readme""##), "{html}");
}

fn row(mode: TreeEntryType, name: &str, path: &str, kind: RowKind) -> TreeEntryRow {
    TreeEntryRow {
        mode: mode_string(mode).to_string(),
        name: name.to_string(),
        path: path.to_string(),
        kind,
    }
}

fn fixture_rows() -> Vec<TreeEntryRow> {
    vec![
        row(TreeEntryType::Tree, "src", "src", RowKind::Dir),
        row(TreeEntryType::File, "README.md", "README.md", RowKind::File),
        row(TreeEntryType::Executable, "build.sh", "scripts/build.sh", RowKind::File),
    ]
}

/// The rows the two special kinds produce, in each state they can be in: a
/// submodule, a symlink whose target hasn't arrived yet, one pointing inside
/// the repository, and one pointing out of it.
fn special_rows() -> Vec<TreeEntryRow> {
    let to = |text: &str| {
        RowKind::Symlink(Some(SymlinkTarget {
            text: text.to_string(),
            path: resolve_symlink("src", text),
        }))
    };
    vec![
        row(TreeEntryType::Commit, "vendor", "vendor", RowKind::Submodule(target())),
        row(TreeEntryType::Symlink, "pending", "src/pending", RowKind::Symlink(None)),
        row(TreeEntryType::Symlink, "lib.rs", "src/lib.rs", to("../lib.rs")),
        row(TreeEntryType::Symlink, "outside", "src/outside", to("/etc/passwd")),
    ]
}

/// What the rows show: mode, name, where they lead, and what stands behind.
fn listed(entries: Vec<TreeEntryRow>, suffix: &str) -> Vec<String> {
    let page = TreeProps { entries, head_suffix: suffix.to_string() };
    page.entries
        .iter()
        .map(|e| {
            let behind = match &e.kind {
                RowKind::Dir | RowKind::File | RowKind::Symlink(None) => String::new(),
                RowKind::Symlink(Some(t)) => match t.href(&page.head_suffix) {
                    Some(href) => format!(" -> {} ({href})", t.text),
                    None => format!(" -> {}", t.text),
                },
                RowKind::Submodule(id) => return format!("{} {}{}", e.mode, e.name, submodule_label(*id)),
            };
            format!("{} {} ({}){behind}", e.mode, e.name, e.href(&page.head_suffix))
        })
        .collect()
}

#[test]
fn test_tree_html() {
    assert_eq!(
        listed(fixture_rows(), ""),
        [
            "d--------- src (#!/tree/src)",
            "-rw-r--r-- README.md (#!/tree/README.md)",
            "-rwxr-xr-x build.sh (#!/tree/scripts/build.sh)",
        ]
    );
}

#[test]
fn test_tree_html_with_head() {
    assert_eq!(
        listed(fixture_rows(), "?h=stable"),
        [
            "d--------- src (#!/tree/src?h=stable)",
            "-rw-r--r-- README.md (#!/tree/README.md?h=stable)",
            "-rwxr-xr-x build.sh (#!/tree/scripts/build.sh?h=stable)",
        ]
    );
}

#[test]
fn test_tree_html_submodule_and_symlinks() {
    assert_eq!(
        listed(special_rows(), ""),
        [
            "m--------- vendor @ 1a3e64c6",
            "l--------- pending (#!/tree/src/pending)",
            "l--------- lib.rs (#!/tree/src/lib.rs) -> ../lib.rs (#!/tree/lib.rs)",
            "l--------- outside (#!/tree/src/outside) -> /etc/passwd",
        ]
    );
}

#[test]
fn test_tree_html_submodule_and_symlinks_with_head() {
    assert_eq!(
        listed(special_rows(), "?h=stable"),
        [
            "m--------- vendor @ 1a3e64c6",
            "l--------- pending (#!/tree/src/pending?h=stable)",
            "l--------- lib.rs (#!/tree/src/lib.rs?h=stable) -> ../lib.rs (#!/tree/lib.rs?h=stable)",
            "l--------- outside (#!/tree/src/outside?h=stable) -> /etc/passwd",
        ]
    );
}

#[test]
fn readme_html_plain() {
    assert_eq!(
        readme_content("README", b"webgit\n\nA client-side Git viewer.\n"),
        ReadmeContent::Plain("webgit\n\nA client-side Git viewer.\n".to_string())
    );
}

#[test]
fn readme_html_plain_escapes_markup() {
    // Plain text is rendered verbatim, so markup in it stays text.
    let markup = "<script>alert(1)</script> & <b>bold</b>\n";
    assert_eq!(
        readme_content("README.txt", markup.as_bytes()),
        ReadmeContent::Plain(markup.to_string())
    );
}

#[test]
fn readme_html_missing() {
    assert!(readme_candidates(&tree_of(&[(TreeEntryType::File, "main.rs")])).is_empty());
}

/// The whole document put in the frame.
#[test]
fn readme_html_markdown_frame() {
    let markdown = "# webgit\n\nA *client-side* Git viewer.\n\n\
                    | a | b |\n|---|---|\n| 1 | 2 |\n";
    let ReadmeContent::Markdown(html) = readme_content("README.md", markdown.as_bytes()) else {
        panic!("expected markdown");
    };
    let document = frame_document(&html, "");
    assert!(
        document.starts_with(
            "<!doctype html><html lang=\"en\"><head><meta charset=\"utf-8\">\
             <base target=\"_top\"><link rel=\"stylesheet\" href=\"\">\
             </head><body class=\"markdown-body\"><h1>webgit</h1>\n\
             <p>A <em>client-side</em> Git viewer.</p>\n<table>"
        ),
        "{document}"
    );
    assert!(document.contains("<th>a</th>") && document.contains("<td>2</td>"), "{document}");
    assert!(document.ends_with("</body></html>"), "{document}");
}
