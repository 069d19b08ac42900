use webgit::render::markdown::{
    frame_document, is_absolute, link_url, markdown_to_html, rewrite_url, LinkBase,
};

/// A document at the repository root, as the readme route renders one.
fn root() -> LinkBase {
    LinkBase {
        dir: String::new(),
        self_url: "#!/readme".to_string(),
    }
}

/// A document one directory down, as the blob view renders one.
fn in_docs() -> LinkBase {
    LinkBase {
        dir: "docs".to_string(),
        self_url: "#!/tree/docs/setup.md?render=1".to_string(),
    }
}

#[test]
fn markdown_renders_gfm_extensions() {
    // Tables, strikethrough and task lists are all opted into explicitly.
    let html = markdown_to_html(
        "| a |\n|---|\n| 1 |\n\n~~gone~~\n\n- [x] done\n- [ ] todo\n",
        &root(),
    );
    assert!(html.contains("<table>"), "tables: {html}");
    assert!(html.contains("<del>"), "strikethrough: {html}");
    assert!(html.contains("type=\"checkbox\""), "task lists: {html}");
}

#[test]
fn markdown_drops_raw_html() {
    // `render.unsafe` is off, so a document's own markup never reaches the
    // frame. The sandbox is a backstop for this, not the reason it's safe.
    let html = markdown_to_html("<p align=\"center\"><b>hi</b></p>\n", &root());
    assert!(!html.contains("<p align"), "{html}");
    let script = markdown_to_html("<script>alert(1)</script>\n", &root());
    assert!(!script.contains("<script"), "{script}");
}

#[test]
fn relative_links_route_to_the_tree_view() {
    // A repo-relative link becomes an in-app tree URL. Where it opens is
    // the frame document's business (`<base target="_top">`), not the URL's.
    let html = markdown_to_html("[setup](docs/setup.md)\n", &root());
    assert!(html.contains(r##"href="#!/tree/docs/setup.md""##), "{html}");
}

/// A link in a document below the root is read relative to that document,
/// the way it would be on disk.
#[test]
fn relative_links_resolve_against_the_documents_directory() {
    let html = markdown_to_html("[next](install.md)\n", &in_docs());
    assert!(
        html.contains(r##"href="#!/tree/docs/install.md""##),
        "{html}"
    );
    let up = markdown_to_html("[src](../src/lib.rs)\n", &in_docs());
    assert!(up.contains(r##"href="#!/tree/src/lib.rs""##), "{up}");
    // A leading slash means the repository root, not the document's dir.
    let abs = markdown_to_html("[root](/README.md)\n", &in_docs());
    assert!(abs.contains(r##"href="#!/tree/README.md""##), "{abs}");
}

#[test]
fn absolute_links_are_left_alone() {
    let html = markdown_to_html("[home](https://example.org/x?a=1&b=2)\n", &root());
    assert!(
        html.contains(r#"href="https://example.org/x?a=1&amp;b=2""#),
        "{html}"
    );
}

#[test]
fn fragment_links_go_nowhere() {
    // A fragment can't scroll a content-height frame, so it points at the
    // document the reader is already on rather than navigating the app away.
    let html = markdown_to_html("[top](#intro)\n", &root());
    assert!(html.contains(r##"href="#!/readme""##), "{html}");
    let blob = markdown_to_html("[top](#intro)\n", &in_docs());
    assert!(
        blob.contains(r##"href="#!/tree/docs/setup.md?render=1""##),
        "{blob}"
    );
}

#[test]
fn script_bearing_links_are_dropped_by_comrak() {
    // Checked against the original URL, before `rewrite_url` sees it — so
    // this holds for images too, which have no rewriter of their own.
    let link = markdown_to_html("[x](javascript:alert(1))\n", &root());
    assert!(!link.contains("javascript:"), "{link}");
    let image = markdown_to_html("![x](javascript:alert(1))\n", &root());
    assert!(!image.contains("javascript:"), "{image}");
}

#[test]
fn bare_urls_are_linkified() {
    // GFM's autolink extension, which plain CommonMark does not do. The
    // trailing full stop is punctuation, not part of the URL.
    let html = markdown_to_html("See https://example.org/docs.\n", &root());
    assert!(
        html.contains(r#"<a href="https://example.org/docs">https://example.org/docs</a>."#),
        "{html}"
    );
}

#[test]
fn bare_www_urls_are_linkified() {
    let html = markdown_to_html("www.example.org\n", &root());
    assert!(html.contains(">www.example.org</a>"), "{html}");
}

#[test]
fn autolinking_skips_code_and_existing_links() {
    // Inline code, a fenced block, and the text of an explicit link are all
    // left alone — the last would otherwise nest one <a> inside another.
    let html = markdown_to_html(
        "`https://example.org`\n\n```\nhttps://example.org\n```\n\n[https://example.org](https://other.example)\n",
        &root(),
    );
    assert_eq!(html.matches("<a ").count(), 1, "{html}");
    assert!(html.contains(r#"href="https://other.example""#), "{html}");
}

#[test]
fn test_link_url_normalizes_paths() {
    assert_eq!(link_url("", "docs/setup.md"), "#!/tree/docs/setup.md");
    assert_eq!(link_url("", "./docs/setup.md"), "#!/tree/docs/setup.md");
    // A leading slash still means the repository root, not the web root.
    assert_eq!(link_url("", "/docs/setup.md"), "#!/tree/docs/setup.md");
    assert_eq!(link_url("", "docs/../src/lib.rs"), "#!/tree/src/lib.rs");
    // Climbing past the root is clamped rather than escaping the repo.
    assert_eq!(link_url("", "../../etc/passwd"), "#!/tree/etc/passwd");
    assert_eq!(
        link_url("docs", "../../../etc/passwd"),
        "#!/tree/etc/passwd"
    );
    // The tree view takes neither a query nor a fragment.
    assert_eq!(
        link_url("", "docs/setup.md#install"),
        "#!/tree/docs/setup.md"
    );
    assert_eq!(link_url("", ""), "#!/tree");
    // A link to the directory the document is in.
    assert_eq!(link_url("docs/guide", "."), "#!/tree/docs/guide");
    // Characters that would otherwise read as route syntax are escaped,
    // not left to cut the URL short. (A literal '?' or '#' can't get this
    // far: they end the destination's path, above.)
    assert_eq!(link_url("docs", "a b.md"), "#!/tree/docs/a%20b.md");
    assert_eq!(link_url("", "50%off.md"), "#!/tree/50%25off.md");
}

#[test]
fn test_is_absolute() {
    assert!(is_absolute("https://example.org"));
    assert!(is_absolute("MAILTO:a@b.c"));
    // A protocol-relative URL is absolute, not a repository path.
    assert!(is_absolute("//cdn.example.org/x"));
    // A colon inside a path is not a scheme delimiter.
    assert!(!is_absolute("docs/a:b.md"));
    assert!(!is_absolute("./x.md"));
    assert!(!is_absolute(""));
}

#[test]
fn test_rewrite_url() {
    assert_eq!(rewrite_url("mailto:a@b.c", &root()), "mailto:a@b.c");
    assert_eq!(
        rewrite_url("docs/setup.md", &root()),
        "#!/tree/docs/setup.md"
    );
    assert_eq!(rewrite_url("#intro", &root()), "#!/readme");
    assert_eq!(
        rewrite_url("#intro", &in_docs()),
        "#!/tree/docs/setup.md?render=1"
    );
}

#[test]
fn frame_document_embeds_body_and_stylesheet() {
    let doc = frame_document("<h1>hi</h1>", "/assets/styles-abc123.css");
    assert!(doc.contains("<link rel=\"stylesheet\" href=\"/assets/styles-abc123.css\">"));
    assert!(doc.contains("<body class=\"markdown-body\"><h1>hi</h1></body>"));
}
