use webgit::object::ObjectId;
use webgit::render::blob::image::ImageFormat;
use webgit::render::blob::{
    blob_content, blob_links, blob_rows, build_blob_props, count_lines, is_markdown, is_svg,
    BlobContent, BlobProps, BlobRow, MAX_BLOB_BYTES, MAX_BLOB_LINES,
};
use webgit::render::markdown::LinkBase;
use webgit::route::anchor::LineRange;
use yew::virtual_dom::VTag;

/// A PNG's 8-byte signature, followed by the start of its IHDR. Enough for
/// [`ImageFormat::matches_magic`], which is all the classifier looks at.
const PNG: &[u8] = b"\x89PNG\r\n\x1a\n\0\0\0\x0dIHDR";

/// The classification of `data` under `filename`, with markdown left as
/// source — what almost every case here wants.
fn blob_content_source(filename: &str, data: &[u8]) -> BlobContent {
    blob_content(filename, data, None)
}

/// A [`LinkBase`] for a document at the repository root, for the cases that
/// do render markdown.
fn root_base() -> LinkBase {
    LinkBase {
        dir: String::new(),
        self_url: "#!/tree/x.md?render=1".to_string(),
    }
}

/// Both directions of the toggle stay on the ref the blob was reached
/// through — unlike the links *inside* the document, which address paths.
#[test]
fn test_blob_markdown_alt_view_keeps_the_ref() {
    let id = ObjectId::from_hex(b"e69de29bb2d1d6434b8b29ae775ad8c2e48c5391").unwrap();
    let source = build_blob_props(id, "docs/a.md", b"# x\n".to_vec(), Some("v1.0"), false);
    assert_eq!(
        source.alt_view.map(|a| (a.label, a.url)),
        Some(("rendered", "#!/tree/docs/a.md?h=v1.0&render=1".to_string()))
    );
    let rendered = build_blob_props(id, "docs/a.md", b"# x\n".to_vec(), Some("v1.0"), true);
    assert_eq!(
        rendered.alt_view.map(|a| (a.label, a.url)),
        Some(("source", "#!/tree/docs/a.md?h=v1.0".to_string()))
    );
}

/// An SVG toggles both ways too, and on the same ref.
#[test]
fn test_blob_svg_alt_view_toggles_both_ways() {
    let id = ObjectId::from_hex(b"e69de29bb2d1d6434b8b29ae775ad8c2e48c5391").unwrap();
    let source = build_blob_props(id, "img/a.svg", SVG.to_vec(), Some("v1.0"), false);
    assert_eq!(
        source.alt_view.map(|a| (a.label, a.url)),
        Some(("rendered", "#!/tree/img/a.svg?h=v1.0&render=1".to_string()))
    );
    let rendered = build_blob_props(id, "img/a.svg", SVG.to_vec(), Some("v1.0"), true);
    assert_eq!(
        rendered.alt_view.map(|a| (a.label, a.url)),
        Some(("source", "#!/tree/img/a.svg?h=v1.0".to_string()))
    );
}

/// The link markdown wouldn't get: an SVG the text view refuses still has a
/// working rendered view, so it is still offered one.
#[test]
fn test_blob_svg_offers_rendered_even_when_source_is_refused() {
    let id = ObjectId::from_hex(b"e69de29bb2d1d6434b8b29ae775ad8c2e48c5391").unwrap();
    for (case, data) in [
        ("oversized", vec![b'x'; MAX_BLOB_BYTES + 1]),
        ("binary", b"<svg\0/>".to_vec()),
    ] {
        let props = build_blob_props(id, "big.svg", data, None, false);
        assert_eq!(props.alt_view.map(|a| a.label), Some("rendered"), "{case}");
    }
}

/// A document below the root has its relative links resolved against its
/// own directory, which is what the `LinkBase` handed to the renderer is
/// for.
#[test]
fn test_blob_markdown_links_resolve_against_the_documents_directory() {
    let id = ObjectId::from_hex(b"e69de29bb2d1d6434b8b29ae775ad8c2e48c5391").unwrap();
    let props = build_blob_props(id, "docs/guide/a.md", b"[b](b.md)\n".to_vec(), None, true);
    let BlobContent::Markdown(html) = props.content else {
        panic!("expected rendered markdown");
    };
    assert!(
        html.contains(r##"href="#!/tree/docs/guide/b.md""##),
        "{html}"
    );
}

/// Only markdown gets the link, and only when the other view would show
/// something: a file the text view refuses is refused rendered too, and
/// must not offer a link back to the page the reader is on.
#[test]
fn test_blob_alt_view_absent_where_there_is_nothing_to_toggle() {
    let id = ObjectId::from_hex(b"e69de29bb2d1d6434b8b29ae775ad8c2e48c5391").unwrap();
    let cases: [(&str, Vec<u8>, bool); 4] = [
        // Not markdown.
        ("src/main.rs", b"fn main() {}\n".to_vec(), false),
        ("logo.png", PNG.to_vec(), false),
        // Markdown, but past the caps — with and without the flag.
        ("big.md", vec![b'x'; MAX_BLOB_BYTES + 1], false),
        ("big.md", vec![b'x'; MAX_BLOB_BYTES + 1], true),
    ];
    for (path, data, render) in cases {
        let props = build_blob_props(id, path, data, None, render);
        assert!(props.alt_view.is_none(), "{path} render={render}");
    }
}

/// The caps and the binary check come first, so asking for markdown can't
/// route a file around them.
#[test]
fn test_blob_markdown_is_still_capped_and_sniffed() {
    assert!(matches!(
        blob_content(
            "big.md",
            &vec![b'x'; MAX_BLOB_BYTES + 1],
            Some(&root_base())
        ),
        BlobContent::TooManyBytes { .. }
    ));
    assert!(matches!(
        blob_content(
            "many.md",
            &b"x\n".repeat(MAX_BLOB_LINES + 1),
            Some(&root_base())
        ),
        BlobContent::TooManyLines { .. }
    ));
    assert!(matches!(
        blob_content("weird.md", b"# title\0\n", Some(&root_base())),
        BlobContent::Binary { .. }
    ));
}

/// Without the flag a `.md` is source, whatever else is true of it.
#[test]
fn test_blob_markdown_only_renders_when_asked() {
    assert!(matches!(
        blob_content_source("a.md", b"# x\n"),
        BlobContent::Text(_)
    ));
}

#[test]
fn test_is_markdown() {
    assert!(is_markdown("README.md"));
    assert!(is_markdown("a.MD"));
    assert!(is_markdown("notes.markdown"));
    for name in ["README", "a.mdx", "a.txt", "md", "a.md.gz"] {
        assert!(!is_markdown(name), "{name}");
    }
}

#[test]
fn test_blob_binary_wins_over_size() {
    // A blob that trips both checks is reported as binary, which says more
    // about it than its size does.
    let mut data = vec![0u8; MAX_BLOB_BYTES + 1];
    data[0] = b'x';
    assert!(matches!(
        blob_content_source("file.txt", &data),
        BlobContent::Binary { .. }
    ));
}

#[test]
fn test_blob_caps_are_inclusive() {
    // Exactly at either limit still renders; only past it is refused.
    assert!(matches!(
        blob_content_source("file.txt", &vec![b'x'; MAX_BLOB_BYTES]),
        BlobContent::Text(_)
    ));
    assert!(matches!(
        blob_content_source("file.txt", &b"x\n".repeat(MAX_BLOB_LINES)),
        BlobContent::Text(_)
    ));
}

const JPEG: &[u8] = b"\xff\xd8\xff\xe0\0\x10JFIF\0";
const GIF: &[u8] = b"GIF89a\x01\0\x01\0\x80\0\0";

fn format_of(path: &str, data: &[u8]) -> Option<ImageFormat> {
    match blob_content_source(path, data) {
        BlobContent::Image { format, .. } => Some(format),
        _ => None,
    }
}

#[test]
fn test_image_recognised_formats() {
    assert_eq!(format_of("logo.png", PNG), Some(ImageFormat::Png));
    assert_eq!(format_of("photo.jpg", JPEG), Some(ImageFormat::Jpeg));
    assert_eq!(format_of("photo.jpeg", JPEG), Some(ImageFormat::Jpeg));
    assert_eq!(format_of("anim.gif", GIF), Some(ImageFormat::Gif));
    // GIF87a is the older signature and equally valid.
    assert_eq!(
        format_of("old.gif", b"GIF87a\x01\0"),
        Some(ImageFormat::Gif)
    );
}

#[test]
fn test_image_extension_match_is_case_insensitive() {
    assert_eq!(format_of("LOGO.PNG", PNG), Some(ImageFormat::Png));
    assert_eq!(format_of("Photo.JPeG", JPEG), Some(ImageFormat::Jpeg));
}

/// The bytes reach the props whatever the classification says, since the
/// download link needs them either way.
#[test]
fn test_props_carry_bytes_for_every_content() {
    let id = ObjectId::from_hex(b"e69de29bb2d1d6434b8b29ae775ad8c2e48c5391").unwrap();
    for (path, data) in [
        ("logo.png", PNG),
        ("payload.bin", PNG),
        ("file.txt", b"hello\n"),
    ] {
        let props = build_blob_props(id, path, data.to_vec(), None, false);
        assert_eq!(props.data.as_slice(), data, "{path}");
    }
}

/// The name used for the download and for alt text is the last path
/// component, not the whole path — `build_blob_props` is handed the full
/// path from the route.
#[test]
fn test_build_blob_props_uses_filename_from_path() {
    let id = ObjectId::from_hex(b"e69de29bb2d1d6434b8b29ae775ad8c2e48c5391").unwrap();
    let props = build_blob_props(id, "docs/img/logo.png", PNG.to_vec(), None, false);
    assert_eq!(props.name, "logo.png");
    assert!(matches!(props.content, BlobContent::Image { .. }));
}

/// An image's object URL claims its own type, so the `<img>` decodes;
/// everything else is handed over as opaque bytes.
#[test]
fn test_content_mime() {
    assert_eq!(
        BlobContent::Image {
            format: ImageFormat::Png
        }
        .mime(),
        "image/png"
    );
    assert_eq!(
        BlobContent::Image {
            format: ImageFormat::Svg
        }
        .mime(),
        "image/svg+xml"
    );
    assert_eq!(BlobContent::Text(vec![]).mime(), "application/octet-stream");
    assert_eq!(
        BlobContent::Binary { bytes: 1 }.mime(),
        "application/octet-stream"
    );
}

/// The extension alone doesn't promote a blob out of the text/binary path.
#[test]
fn test_image_extension_without_magic_is_not_an_image() {
    // Plain text under an image name stays text, rather than becoming a
    // broken <img>.
    assert!(matches!(
        blob_content_source("fake.png", b"not actually a png\n"),
        BlobContent::Text(_)
    ));
    // Binary-but-not-PNG under an image name is reported as binary.
    assert!(matches!(
        blob_content_source("fake.png", b"PK\x03\x04\0\0"),
        BlobContent::Binary { .. }
    ));
    // A signature that doesn't match the extension it claims counts for
    // nothing: neither half of the pair is trusted on its own.
    assert!(matches!(
        blob_content_source("mislabelled.gif", PNG),
        BlobContent::Binary { .. }
    ));
}

/// The mirror image: the signature alone doesn't promote it either.
#[test]
fn test_image_magic_without_extension_is_not_an_image() {
    assert!(matches!(
        blob_content_source("payload.bin", PNG),
        BlobContent::Binary { .. }
    ));
    assert!(matches!(
        blob_content_source("noext", PNG),
        BlobContent::Binary { .. }
    ));
}

const SVG: &[u8] = b"<svg xmlns=\"http://www.w3.org/2000/svg\"><rect/></svg>\n";

/// SVG is text, so the source view is what it gets by default — the same
/// treatment markdown gets, and for the same reason.
#[test]
fn test_svg_is_source_until_asked() {
    assert!(matches!(
        blob_content_source("icon.svg", SVG),
        BlobContent::Text(_)
    ));
    assert!(matches!(
        blob_content("icon.svg", SVG, Some(&root_base())),
        BlobContent::Image {
            format: ImageFormat::Svg
        }
    ));
}

/// The request is what promotes it, not the bytes: no signature is checked,
/// so a `.svg` holding anything at all draws (or fails to draw) as one.
#[test]
fn test_svg_render_does_not_sniff() {
    assert!(matches!(
        blob_content("lies.svg", b"not xml at all\n", Some(&root_base())),
        BlobContent::Image {
            format: ImageFormat::Svg
        }
    ));
    // And the extension is required: SVG bytes under another name stay text.
    assert!(matches!(
        blob_content("icon.txt", SVG, Some(&root_base())),
        BlobContent::Text(_)
    ));
}

/// Unlike markdown, the rendered view sits ahead of the binary check and
/// the caps — it is one `<img>`, whatever the file's size or bytes — so an
/// SVG the text view would refuse still draws.
#[test]
fn test_svg_render_is_not_capped_or_sniffed() {
    for data in [
        vec![b'x'; MAX_BLOB_BYTES + 1],
        b"x\n".repeat(MAX_BLOB_LINES + 1),
        b"<svg\0/>".to_vec(),
    ] {
        assert!(matches!(
            blob_content("big.svg", &data, Some(&root_base())),
            BlobContent::Image {
                format: ImageFormat::Svg
            }
        ));
    }
}

#[test]
fn test_is_svg() {
    assert!(is_svg("icon.svg"));
    assert!(is_svg("ICON.SVG"));
    assert!(is_svg("a/b/c.Svg"));
    for name in ["icon", "svg", "icon.svgz", "icon.svg.gz", "icon.png"] {
        assert!(!is_svg(name), "{name}");
    }
}

/// Images are exempt from the caps that govern the text view: they cost one
/// DOM node regardless of size.
#[test]
fn test_image_is_not_size_capped() {
    let mut big = PNG.to_vec();
    big.resize(MAX_BLOB_BYTES + 1, 0);
    assert!(matches!(
        blob_content_source("huge.png", &big),
        BlobContent::Image { .. }
    ));
}

#[test]
fn test_image_mime_types() {
    assert_eq!(ImageFormat::Png.mime(), "image/png");
    assert_eq!(ImageFormat::Jpeg.mime(), "image/jpeg");
    assert_eq!(ImageFormat::Gif.mime(), "image/gif");
    assert_eq!(ImageFormat::Svg.mime(), "image/svg+xml");
}

/// `.svg` included: it is deliberately not part of the sniffing path, since
/// there is no signature to hold the extension to.
#[test]
fn test_image_format_from_extension_rejects_others() {
    for name in ["a.svg", "a.txt", "a.webp", "a.png.txt", "a", "a."] {
        assert_eq!(ImageFormat::from_extension(name), None, "{name}");
    }
}

#[test]
fn test_count_lines() {
    assert_eq!(count_lines(b""), 0);
    assert_eq!(count_lines(b"a"), 1);
    assert_eq!(count_lines(b"a\n"), 1);
    assert_eq!(count_lines(b"a\nb"), 2);
    assert_eq!(count_lines(b"a\nb\n"), 2);
    assert_eq!(count_lines(b"\n"), 1);
}

/// The line cap is decided on the raw bytes, so the count it uses has to
/// agree with the number of rows the split below it would have produced.
#[test]
fn test_count_lines_matches_rendered_rows() {
    for case in [&b""[..], b"a", b"a\n", b"a\nb", b"a\nb\n", b"\n", b"\n\n"] {
        let BlobContent::Text(lines) = blob_content_source("file.txt", case) else {
            panic!("expected text for {case:?}");
        };
        assert_eq!(count_lines(case), lines.len(), "{case:?}");
    }
}

/// A file's page, with `lines` selected.
fn page(path: &str, data: &[u8], head: Option<&str>, lines: Option<LineRange>) -> BlobProps {
    let id = ObjectId::from_hex(b"e69de29bb2d1d6434b8b29ae775ad8c2e48c5391").unwrap();
    let mut props = build_blob_props(id, path, data.to_vec(), head, false);
    props.lines = lines;
    props
}

/// The rows of a text file's page.
fn rows(props: &BlobProps) -> Vec<BlobRow> {
    let BlobContent::Text(lines) = &props.content else {
        panic!("expected text");
    };
    blob_rows(lines, &props.source_url, props.lines)
}

#[test]
fn test_blob_no_trailing_newline_keeps_last_line() {
    let with = page("file.txt", b"one\ntwo\n", None, None);
    let without = page("file.txt", b"one\ntwo", None, None);
    assert_eq!(with.content, without.content);
    let texts = |props: &BlobProps| rows(props).into_iter().map(|r| r.text).collect::<Vec<_>>();
    assert_eq!(texts(&with), texts(&without));
    assert_eq!(texts(&with), ["one", "two"]);
}

/// Every line's link carries the blob's whole route, including the `?h=`
/// it was reached through. A bare `#n2` would name no route at all and land
/// the reader on the summary page.
#[test]
fn test_blob_line_links_carry_the_route() {
    let rows = rows(&page("src/main.rs", b"one\ntwo\n", Some("v1.0"), None));
    assert!(
        rows.iter().any(|r| r.href == "#!/tree/src/main.rs?h=v1.0#n2"),
        "line link dropped the route"
    );
}

/// A selection outside the file selects nothing rather than clamping to the
/// last line: `#n900` on a 3-line file is a stale link, and highlighting an
/// arbitrary row would misrepresent it as the one that was asked for.
#[test]
fn test_blob_selection_past_end_of_file() {
    let selected = Some(LineRange { start: 900, end: 902 });
    let rows = rows(&page("src/main.rs", b"one\ntwo\nthree\n", None, selected));
    assert_eq!(rows.len(), 3);
    assert!(rows.iter().all(|r| !r.selected), "selected a row that doesn't exist");
}

/// The download link of a file whose name holds markup, drawn on a page.
struct Download;

impl yew::Component for Download {
    type Message = ();
    type Properties = ();

    fn create(_ctx: &yew::Context<Self>) -> Self {
        Download
    }

    fn view(&self, _ctx: &yew::Context<Self>) -> yew::Html {
        let props = page("a\"><script>.txt", b"x\n", None, None);
        let mut link = VTag::new("a");
        link.add_attribute("href", blob_links(&props, "blob:fake")[0].0.clone());
        link.add_attribute("download", props.name);
        link.into()
    }
}

/// A file name with markup in it is escaped in the `download` attribute
/// like anywhere else.
#[test]
fn test_blob_html_download_name_is_escaped() {
    let html = futures::executor::block_on(
        yew::ServerRenderer::<Download>::new().hydratable(false).render(),
    );
    let props = page("a\"><script>.txt", b"x\n", None, None);
    assert_eq!(props.name, "a\"><script>.txt");
    assert_eq!(blob_links(&props, "blob:fake")[0].0, "blob:fake");
    assert!(html.contains("download="), "{html}");
    assert!(!html.contains("<script>"), "{html}");
}

/// The links beside the id: the download where there is something to
/// download from, the other view, and blame.
#[test]
fn links_beside_a_blob() {
    let props = page("docs/a.md", b"# x\n", Some("v1.0"), Some(LineRange::single(1)));
    let links = blob_links(&props, "");
    let pairs: Vec<(&str, &str)> = links.iter().map(|l| (l.0.as_str(), l.1.as_str())).collect();
    assert_eq!(
        pairs,
        [
            ("#!/tree/docs/a.md?h=v1.0&render=1", "rendered"),
            ("#!/blame/docs/a.md?h=v1.0#n1", "blame"),
        ]
    );
    assert_eq!(blob_links(&props, "blob:fake")[0].1, "download");
    // Bytes with no lines to attribute have no blame.
    assert!(page("payload.bin", PNG, None, None).blame_url.is_none());
}

/// What is said in place of a blob that is not shown.
#[test]
fn messages_of_refused_blobs() {
    assert_eq!(
        BlobContent::Binary { bytes: 4096 }.message().as_deref(),
        Some("Binary file (4096 bytes).")
    );
    assert_eq!(
        BlobContent::TooManyBytes { bytes: 1048577 }.message().as_deref(),
        Some("File too large to display (1048577 bytes, limit 1048576).")
    );
    assert_eq!(
        BlobContent::TooManyLines { lines: 20001 }.message().as_deref(),
        Some("File too large to display (20001 lines, limit 20000).")
    );
    assert_eq!(BlobContent::Text(vec![]).message(), None);
}

/// What a file's page holds, at the `?render=1` view or not.
fn shown(path: &str, data: &[u8], render: bool) -> BlobProps {
    let id = ObjectId::from_hex(b"e69de29bb2d1d6434b8b29ae775ad8c2e48c5391").unwrap();
    build_blob_props(id, path, data.to_vec(), None, render)
}

fn pair(href: &str, label: &str) -> (String, String) {
    (href.to_string(), label.to_string())
}

fn numbered(props: &BlobProps) -> Vec<(usize, String, String)> {
    rows(props).into_iter().map(|r| (r.number, r.href, r.text)).collect()
}

#[test]
fn test_blob_html() {
    let props = shown("file.txt", b"fn main() {\n    println!(\"hello\");\n}\n", false);
    assert_eq!(props.blob_id, "e69de29bb2d1d6434b8b29ae775ad8c2e48c5391");
    assert_eq!(blob_links(&props, ""), [pair("#!/blame/file.txt", "blame")]);
    assert_eq!(
        numbered(&props),
        [
            (1, "#!/tree/file.txt#n1".to_string(), "fn main() {".to_string()),
            (2, "#!/tree/file.txt#n2".to_string(), "    println!(\"hello\");".to_string()),
            (3, "#!/tree/file.txt#n3".to_string(), "}".to_string()),
        ]
    );
}

/// One line, drawn on a page.
struct Line;

impl yew::Component for Line {
    type Message = ();
    type Properties = ();

    fn create(_ctx: &yew::Context<Self>) -> Self {
        Line
    }

    fn view(&self, _ctx: &yew::Context<Self>) -> yew::Html {
        let props = shown("file.txt", b"<script>alert(1)</script> & <b>bold</b>\n", false);
        let text = rows(&props).remove(0).text;
        let mut cell = VTag::new("td");
        cell.add_child(yew::virtual_dom::VText::new(text).into());
        cell.into()
    }
}

#[test]
fn test_blob_html_escapes_markup() {
    let html = futures::executor::block_on(
        yew::ServerRenderer::<Line>::new().hydratable(false).render(),
    );
    assert!(html.contains("&lt;script&gt;alert(1)&lt;/script&gt; &amp; &lt;b&gt;bold"), "{html}");
    assert!(!html.contains("<script>"), "{html}");
}

#[test]
fn test_blob_html_empty() {
    let props = shown("file.txt", b"", false);
    assert!(rows(&props).is_empty());
    assert_eq!(blob_links(&props, ""), [pair("#!/blame/file.txt", "blame")]);
}

/// A PNG header under a name that doesn't claim to be one: the NUL in it is
/// inside git's 8000-byte window, so this is binary by the same rule the
/// diff view uses.
#[test]
fn test_blob_html_binary() {
    let props = shown("file.txt", PNG, false);
    assert_eq!(props.content, BlobContent::Binary { bytes: 16 });
    assert_eq!(props.content.message().as_deref(), Some("Binary file (16 bytes)."));
    assert!(blob_links(&props, "").is_empty());
}

/// Without an object URL there is neither a picture to point at nor a download.
#[test]
fn test_blob_html_image_ssr_omits_img() {
    let props = shown("logo.png", PNG, false);
    assert_eq!(props.content, BlobContent::Image { format: ImageFormat::Png });
    assert!(blob_links(&props, "").is_empty());
}

/// Once the URL exists: the download link, named after the file rather than
/// the path it came from.
#[test]
fn test_blob_html_image_with_url() {
    let props = shown("docs/logo.png", PNG, false);
    assert_eq!(props.name, "logo.png");
    assert_eq!(props.content.mime(), "image/png");
    assert_eq!(blob_links(&props, "blob:fake-url"), [pair("blob:fake-url", "download")]);
}

/// An SVG's source view: an ordinary text blob, plus the link to the picture.
#[test]
fn test_blob_html_svg_source() {
    let props = shown("img/logo.svg", SVG, false);
    assert_eq!(rows(&props).len(), 1);
    assert_eq!(
        blob_links(&props, ""),
        [
            pair("#!/tree/img/logo.svg?render=1", "rendered"),
            pair("#!/blame/img/logo.svg", "blame"),
        ]
    );
}

/// The picture, and a link back to the source.
#[test]
fn test_blob_html_svg_rendered() {
    let props = shown("img/logo.svg", SVG, true);
    assert_eq!(props.content, BlobContent::Image { format: ImageFormat::Svg });
    assert_eq!(
        blob_links(&props, "blob:fake-url"),
        [pair("blob:fake-url", "download"), pair("#!/tree/img/logo.svg", "source")]
    );
}

/// A range selects every line between its ends, inclusive, and leaves the
/// rest of the table alone.
#[test]
fn test_blob_html_line_range_selected() {
    let props = page(
        "src/main.rs",
        b"one\ntwo\nthree\nfour\nfive\n",
        None,
        Some(LineRange { start: 2, end: 4 }),
    );
    let selected: Vec<bool> = rows(&props).iter().map(|r| r.selected).collect();
    assert_eq!(selected, [false, true, true, true, false]);
    assert_eq!(rows(&props)[1].id, "n2");
    assert_eq!(blob_links(&props, ""), [pair("#!/blame/src/main.rs#n2-n4", "blame")]);
}

/// A single-line anchor is a range whose ends are equal, so it highlights
/// exactly the one row.
#[test]
fn test_blob_html_single_line_selected() {
    let props = page("src/main.rs", b"one\ntwo\nthree\n", None, Some(LineRange::single(2)));
    let selected: Vec<bool> = rows(&props).iter().map(|r| r.selected).collect();
    assert_eq!(selected, [false, true, false]);
}

/// Every classification gets the same download link, including the ones
/// whose content isn't shown at all — where it is the only thing the view
/// still offers.
#[test]
fn test_blob_html_text_download_link() {
    let props = shown("src/main.rs", b"fn main() {}\n", false);
    assert_eq!(props.name, "main.rs");
    assert_eq!(
        blob_links(&props, "blob:fake"),
        [pair("blob:fake", "download"), pair("#!/blame/src/main.rs", "blame")]
    );
}

#[test]
fn test_blob_html_binary_download_link() {
    let props = shown("payload.bin", PNG, false);
    assert_eq!(props.name, "payload.bin");
    assert_eq!(blob_links(&props, "blob:fake"), [pair("blob:fake", "download")]);
}

/// A markdown file's source view, which offers the rendered one. The link
/// is the only difference from any other text blob.
#[test]
fn test_blob_html_markdown_source() {
    let props = shown("docs/setup.md", b"# Setup\n\nRun it.\n", false);
    let texts: Vec<String> = rows(&props).into_iter().map(|r| r.text).collect();
    assert_eq!(texts, ["# Setup", "", "Run it."]);
    assert_eq!(
        blob_links(&props, ""),
        [
            pair("#!/tree/docs/setup.md?render=1", "rendered"),
            pair("#!/blame/docs/setup.md", "blame"),
        ]
    );
}

/// The rendered view: the document in place of the source table, and a link
/// back to the source.
#[test]
fn test_blob_html_markdown_rendered() {
    let props = shown("docs/setup.md", b"# Setup\n\nSee [install](install.md).\n", true);
    let BlobContent::Markdown(html) = &props.content else {
        panic!("expected markdown");
    };
    assert!(html.contains("<h1>Setup</h1>"), "{html}");
    assert!(html.contains(r##"<a href="#!/tree/docs/install.md">install</a>"##), "{html}");
    assert_eq!(blob_links(&props, ""), [pair("#!/tree/docs/setup.md", "source")]);
}

#[test]
fn test_blob_html_too_many_bytes() {
    // One very long line: over the byte cap without approaching the line
    // cap, i.e. the minified-bundle shape.
    let props = shown("file.txt", &vec![b'x'; MAX_BLOB_BYTES + 1], false);
    assert_eq!(
        props.content.message().as_deref(),
        Some("File too large to display (1048577 bytes, limit 1048576).")
    );
    assert!(blob_links(&props, "").is_empty());
}

#[test]
fn test_blob_html_too_many_lines() {
    // The mirror image: comfortably inside the byte cap, far past the line
    // cap, i.e. the giant-log shape.
    let props = shown("file.txt", &b"x\n".repeat(MAX_BLOB_LINES + 1), false);
    assert_eq!(
        props.content.message().as_deref(),
        Some("File too large to display (20001 lines, limit 20000).")
    );
    assert!(blob_links(&props, "").is_empty());
}
