//! Showing one file: as source, as a picture, as rendered markdown, or as a
//! refusal when it is too large to be any of those.
//!
//! [`image`] decides whether a blob is a picture; what is left here is the
//! classification, and what the page says of a blob.

use vstd::prelude::*;
use crate::number;
use crate::number::decimal_text;
use crate::object;
use crate::object::ObjectId;
use crate::render::blob::image::{image_format, ImageFormat};
use crate::render::lines::anchored;
use crate::render::markdown;
use crate::render::markdown::{markdown_to_html, LinkBase};
use crate::route;
use crate::route::anchor::LineRange;
use crate::route::query;
use crate::route::{blame_url, tree_url};
use crate::text;
use crate::text::{concat, lower_extension, split_on, split_path, text_eq};
use crate::utf8;
use crate::utf8::lossy_text;

pub mod image;

verus! {

/// Whether a file name is one the view will render as a picture on request.
pub open spec fn svg_name(name: Seq<char>) -> bool {
    text::extension(name) is Some && text::lower(text::extension(name)->0) == "svg"@
}

/// Whether a file name is one the view will render as markdown.
pub open spec fn markdown_name(name: Seq<char>) -> bool {
    text::extension(name) is Some && {
        let ext = text::lower(text::extension(name)->0);
        ext == "md"@ || ext == "markdown"@
    }
}

/// Whether a file name is one the view will render as a picture on request.
pub fn is_svg(filename: &str) -> (r: bool)
    ensures
        r == svg_name(filename@),
{
    match lower_extension(filename) {
        Some(ext) => text_eq(ext.as_str(), "svg"),
        None => false,
    }
}

/// Whether a file name is one the view will render as markdown.
pub fn is_markdown(filename: &str) -> (r: bool)
    ensures
        r == markdown_name(filename@),
{
    match lower_extension(filename) {
        Some(ext) => text_eq(ext.as_str(), "md") || text_eq(ext.as_str(), "markdown"),
        None => false,
    }
}

/// Whether the file at `path` has a rendered form to ask for.
pub fn has_rendered_form(path: &str) -> (r: bool)
    ensures
        r == (markdown_name(path@) || svg_name(path@)),
{
    is_markdown(path) || is_svg(path)
}

/// The largest blob rendered as text, in bytes.
///
/// A rendering budget, not a download one: what the cap avoids is a string and
/// a table row per line, none of which the browser recovers from quickly on a
/// vendored binary or a minified bundle.
pub const MAX_BLOB_BYTES: usize = 1_048_576;

/// The largest blob rendered as text, in lines.
///
/// A second axis, because size in bytes and size in rows fail differently: a
/// log file slips under the byte cap and still asks the browser to lay out
/// hundreds of thousands of nodes.
pub const MAX_BLOB_LINES: usize = 20_000;

/// How far into a file git looks for the NUL that makes it binary.
pub const BINARY_WINDOW: usize = 8000;

/// A blob's content, in the form it should be displayed. Every variant but
/// text, markdown and an image carries the measurement that rejected it.
#[derive(PartialEq, Debug)]
pub enum BlobContent {
    /// The blob's lines; a line's 1-based number is its index here, plus one.
    Text(Vec<String>),
    /// A markdown blob asked for with `?render=1`, rendered to HTML and bound
    /// for the sandboxed frame.
    Markdown(String),
    /// A blob to draw as an image, in the format its object URL should claim.
    Image { format: ImageFormat },
    /// A blob git's heuristic calls binary, with its size in bytes.
    Binary { bytes: usize },
    /// A blob over [`MAX_BLOB_BYTES`], with its size in bytes.
    TooManyBytes { bytes: usize },
    /// A blob over [`MAX_BLOB_LINES`], with its line count.
    TooManyLines { lines: usize },
}

/// What a [`BlobContent`] says.
pub enum ContentModel {
    Text(Seq<Seq<char>>),
    Markdown(Seq<char>),
    Image(ImageFormat),
    Binary(int),
    TooManyBytes(int),
    TooManyLines(int),
}

impl View for BlobContent {
    type V = ContentModel;

    open spec fn view(&self) -> ContentModel {
        match self {
            BlobContent::Text(lines) => ContentModel::Text(text::texts(lines@)),
            BlobContent::Markdown(html) => ContentModel::Markdown(html@),
            BlobContent::Image { format } => ContentModel::Image(*format),
            BlobContent::Binary { bytes } => ContentModel::Binary(*bytes as int),
            BlobContent::TooManyBytes { bytes } => ContentModel::TooManyBytes(*bytes as int),
            BlobContent::TooManyLines { lines } => ContentModel::TooManyLines(*lines as int),
        }
    }
}

/// The MIME type of the object URL over a blob.
pub open spec fn content_mime(content: ContentModel) -> Seq<char> {
    match content {
        ContentModel::Image(format) => image::mime_of(format),
        _ => "application/octet-stream"@,
    }
}

impl BlobContent {
    /// The MIME type to give the object URL the view builds over the blob:
    /// opaque bytes for everything that isn't a recognised image, since the
    /// URL's only other consumer is the download link.
    pub fn mime(&self) -> (r: &'static str)
        ensures
            r@ == content_mime(self@),
    {
        match self {
            BlobContent::Image { format } => (*format).mime(),
            _ => "application/octet-stream",
        }
    }

    /// The message shown in place of a blob that is not.
    pub fn message(&self) -> (r: Option<String>)
        ensures
            query::opt_text(r) == content_message(self@),
    {
        match self {
            BlobContent::Binary { bytes } => {
                let mut out: String = "Binary file (".to_string();
                out.append(decimal_text(*bytes as u64).as_str());
                out.append(" bytes).");
                Some(out)
            },
            BlobContent::TooManyBytes { bytes } => {
                let mut out: String = "File too large to display (".to_string();
                out.append(decimal_text(*bytes as u64).as_str());
                out.append(" bytes, limit ");
                out.append(decimal_text(MAX_BLOB_BYTES as u64).as_str());
                out.append(").");
                Some(out)
            },
            BlobContent::TooManyLines { lines } => {
                let mut out: String = "File too large to display (".to_string();
                out.append(decimal_text(*lines as u64).as_str());
                out.append(" lines, limit ");
                out.append(decimal_text(MAX_BLOB_LINES as u64).as_str());
                out.append(").");
                Some(out)
            },
            _ => None,
        }
    }
}

/// The message shown in place of a blob that is not.
pub open spec fn content_message(content: ContentModel) -> Option<Seq<char>> {
    match content {
        ContentModel::Binary(bytes) => Some(
            "Binary file ("@ + number::decimal(bytes as nat) + " bytes)."@,
        ),
        ContentModel::TooManyBytes(bytes) => Some(
            "File too large to display ("@ + number::decimal(bytes as nat) + " bytes, limit "@
                + number::decimal(MAX_BLOB_BYTES as nat) + ")."@,
        ),
        ContentModel::TooManyLines(lines) => Some(
            "File too large to display ("@ + number::decimal(lines as nat) + " lines, limit "@
                + number::decimal(MAX_BLOB_LINES as nat) + ")."@,
        ),
        _ => None,
    }
}

/// Whether git's heuristic calls a file binary: it holds a NUL early on.
pub open spec fn binary(data: Seq<u8>) -> bool {
    exists|i: int| 0 <= i < data.len() && i < BINARY_WINDOW && #[trigger] data[i] == 0
}

/// Whether git's heuristic calls a file binary.
pub fn is_binary(data: &[u8]) -> (r: bool)
    ensures
        r == binary(data@),
{
    let n: usize = if data.len() < BINARY_WINDOW {
        data.len()
    } else {
        BINARY_WINDOW
    };
    let mut i: usize = 0;
    while i < n
        invariant
            n <= data@.len(),
            n <= BINARY_WINDOW,
            n == data@.len() || n == BINARY_WINDOW,
            i <= n,
            forall|j: int| 0 <= j < i ==> data@[j] != 0,
        decreases n - i,
    {
        if data[i] == 0 {
            assert(data@[i as int] == 0);
            return true;
        }
        i = i + 1;
    }
    false
}

/// The lines of a text: its pieces between line feeds, without the empty one
/// that a line feed at the end leaves.
pub open spec fn lines_of(s: Seq<char>) -> Seq<Seq<char>> {
    let parts = text::split(s, '\n');
    if parts.last().len() == 0 {
        parts.drop_last()
    } else {
        parts
    }
}

/// Split a file into the lines a view renders, one per row.
///
/// A trailing newline yields a spurious empty final element; dropping it makes
/// a file ending in a newline render the same as one that doesn't, and leaves
/// the count matching [`count_lines`].
pub fn split_lines(text: &str) -> (r: Vec<String>)
    ensures
        text::texts(r@) == lines_of(text@),
{
    let mut lines = split_on(text, '\n');
    let n: usize = lines.len();
    let ghost all = lines@;
    assert(text::texts(all).last() == all.last()@);
    if lines[n - 1].as_str().is_empty() {
        let _last = lines.pop();
        assert(text::texts(lines@) =~= text::texts(all).drop_last());
    }
    lines
}

/// How many rows a file renders as: one per line feed, plus one more for a
/// final line that isn't terminated.
pub open spec fn line_count(data: Seq<u8>) -> int {
    utf8::line_feed_bytes(data) + if data.len() > 0 && data.last() != 10 {
        1int
    } else {
        0int
    }
}

proof fn lemma_line_feeds_bound(data: Seq<u8>)
    ensures
        utf8::line_feed_bytes(data) <= data.len(),
        data.len() > 0 && data.last() != 10 ==> utf8::line_feed_bytes(data) < data.len(),
    decreases data.len(),
{
    if data.len() > 0 {
        lemma_line_feeds_bound(data.drop_last());
    }
}

/// How many rows `data` would render as, counted without decoding it.
pub fn count_lines(data: &[u8]) -> (r: usize)
    ensures
        r == line_count(data@),
{
    let n: usize = data.len();
    let mut count: usize = 0;
    let mut i: usize = 0;
    assert(data@.take(0) =~= Seq::<u8>::empty());
    while i < n
        invariant
            n == data@.len(),
            i <= n,
            count <= i,
            count == utf8::line_feed_bytes(data@.take(i as int)),
        decreases n - i,
    {
        assert(data@.take(i + 1).drop_last() =~= data@.take(i as int));
        if data[i] == 10 {
            count = count + 1;
        }
        i = i + 1;
    }
    assert(data@.take(n as int) =~= data@);
    proof {
        lemma_line_feeds_bound(data@);
    }
    if n > 0 && data[n - 1] != 10 {
        count + 1
    } else {
        count
    }
}

/// A text has a piece for each line feed and one more.
proof fn lemma_pieces(s: Seq<char>)
    ensures
        text::split(s, '\n').len() == utf8::line_feeds(s) + 1,
        text::split(s, '\n').last().len() == 0 <==> s.len() == 0 || s.last() == '\n',
    decreases s.len(),
{
    if s.len() == 0 {
        assert(text::split(s, '\n') =~= seq![s]);
    } else {
        let t = s.drop_last();
        lemma_pieces(t);
        text::lemma_split_push(t, s.last(), '\n');
        assert(t.push(s.last()) =~= s);
    }
}

/// A blob, classified: what it is shown as, and where a rendered document's
/// links resolve from if it was asked for rendered.
pub open spec fn shown_as(
    name: Seq<char>,
    data: Seq<u8>,
    render: Option<(Seq<char>, Seq<char>)>,
) -> ContentModel {
    if image::drawn_format(name, data) is Some {
        ContentModel::Image(image::drawn_format(name, data)->0)
    } else if render is Some && svg_name(name) {
        ContentModel::Image(ImageFormat::Svg)
    } else if binary(data) {
        ContentModel::Binary(data.len() as int)
    } else if data.len() > MAX_BLOB_BYTES {
        ContentModel::TooManyBytes(data.len() as int)
    } else if line_count(data) > MAX_BLOB_LINES {
        ContentModel::TooManyLines(line_count(data))
    } else if render is Some && markdown_name(name) {
        let (dir, self_url) = render->0;
        ContentModel::Markdown(markdown::document_html(utf8::lossy(data), dir, self_url))
    } else {
        ContentModel::Text(lines_of(utf8::lossy(data)))
    }
}

/// Where a document's links resolve from.
pub open spec fn base_view(base: Option<&LinkBase>) -> Option<(Seq<char>, Seq<char>)> {
    match base {
        Some(base) => Some((base.dir@, base.self_url@)),
        None => None,
    }
}

/// Classify a blob, splitting it into lines only if it is going to be shown.
///
/// Every rejection is decided on the raw bytes, ahead of decoding them. Binary
/// is checked before the size caps because it is the more informative answer.
/// Images come first of all and are not size-capped: an image is one node no
/// matter how large. A requested SVG joins them; markdown rendering sits after
/// the caps, since its output is a page the browser has to lay out like any
/// other.
pub fn blob_content(filename: &str, data: &[u8], render: Option<&LinkBase>) -> (r: BlobContent)
    ensures
        r@ == shown_as(filename@, data@, base_view(render)),
        r matches BlobContent::Text(lines) ==> lines@.len() == line_count(data@),
{
    if let Some(format) = image_format(filename, data) {
        return BlobContent::Image { format };
    }
    if render.is_some() && is_svg(filename) {
        return BlobContent::Image { format: ImageFormat::Svg };
    }
    if is_binary(data) {
        return BlobContent::Binary { bytes: data.len() };
    }
    if data.len() > MAX_BLOB_BYTES {
        return BlobContent::TooManyBytes { bytes: data.len() };
    }
    let lines: usize = count_lines(data);
    if lines > MAX_BLOB_LINES {
        return BlobContent::TooManyLines { lines };
    }
    let text = lossy_text(data);
    if let Some(base) = render {
        if is_markdown(filename) {
            return BlobContent::Markdown(markdown_to_html(text.as_str(), base));
        }
    }
    proof {
        lemma_pieces(text@);
    }
    let rows = split_lines(text.as_str());
    assert(text::texts(rows@).len() == rows@.len());
    BlobContent::Text(rows)
}

/// The blob's other view — the rendered form from the source, or the source
/// from the rendered form — as the link that reaches it.
#[derive(PartialEq, Debug)]
pub struct AltView {
    pub url: String,
    pub label: &'static str,
}

/// What an [`AltView`] says.
pub open spec fn alt_text(alt: Option<AltView>) -> Option<(Seq<char>, Seq<char>)> {
    match alt {
        Some(alt) => Some((alt.url@, alt.label@)),
        None => None,
    }
}

/// The view inputs for a blob: its id, its bytes and how to display them.
pub struct BlobProps {
    pub blob_id: String,
    /// The blob's file name: the downloaded file's name, an image's alt text,
    /// and the title of a rendered document's frame.
    pub name: String,
    pub data: Vec<u8>,
    pub content: BlobContent,
    /// The link to the blob's other view, for a blob that has one.
    pub alt_view: Option<AltView>,
    /// The blame view of the same file. `None` when there are no lines to
    /// attribute.
    pub blame_url: Option<String>,
    /// This blob's own source-view URL, without a line anchor: what every line
    /// number's link is built on top of.
    pub source_url: String,
    /// The lines the URL's `#n…` anchor selected. Set by the router, because
    /// changing the selection must not re-resolve the route.
    pub lines: Option<LineRange>,
}

/// The other view of a blob at `path`: back to the source from either rendered
/// form; to the rendered form from a source view that has one. An SVG's is an
/// `<img>`, which does not depend on the source view having fit.
pub open spec fn other_view(
    path: Seq<char>,
    head: Option<Seq<char>>,
    render: bool,
    content: ContentModel,
) -> Option<(Seq<char>, Seq<char>)> {
    let name = text::base_name(path);
    match content {
        ContentModel::Markdown(_) => Some((route::tree_hash(path, head, false), "source"@)),
        ContentModel::Image(ImageFormat::Svg) => Some(
            (route::tree_hash(path, head, false), "source"@),
        ),
        ContentModel::Text(_) => if (markdown_name(name) || svg_name(name)) && !render {
            Some((route::tree_hash(path, head, true), "rendered"@))
        } else {
            None
        },
        _ => if svg_name(name) && !render {
            Some((route::tree_hash(path, head, true), "rendered"@))
        } else {
            None
        },
    }
}

/// Build the blob view's props. `path` is the blob's full path within the tree
/// and `head` the ref it was reached through; `render` is the route's
/// `?render=1`, which is a request, not a promise.
pub fn build_blob_props(
    blob_id: ObjectId,
    path: &str,
    data: Vec<u8>,
    head: Option<&str>,
    render: bool,
) -> (r: BlobProps)
    ensures
        r.blob_id@ == object::hex_text(blob_id@),
        r.name@ == text::base_name(path@),
        r.data@ == data@,
        r.content@ == shown_as(
            text::base_name(path@),
            data@,
            if render {
                Some(
                    (
                        text::dir_name(path@),
                        route::tree_hash(path@, query::opt_str(head), true),
                    ),
                )
            } else {
                None
            },
        ),
        alt_text(r.alt_view) == other_view(path@, query::opt_str(head), render, r.content@),
        query::opt_text(r.blame_url) == (if r.content@ is Text {
            Some(route::blame_hash(path@, query::opt_str(head)))
        } else {
            None
        }),
        r.source_url@ == route::tree_hash(path@, query::opt_str(head), false),
        r.lines is None,
{
    let (dir, filename) = split_path(path);
    let base = LinkBase { dir: dir.to_string(), self_url: tree_url(path, head, true) };
    let source_url = tree_url(path, head, false);
    let content = if render {
        blob_content(filename, data.as_slice(), Some(&base))
    } else {
        blob_content(filename, data.as_slice(), None)
    };
    let rendered: Option<AltView> = if render {
        None
    } else {
        Some(AltView { url: base.self_url, label: "rendered" })
    };
    let source = AltView { url: source_url.clone(), label: "source" };
    let (alt_view, has_lines): (Option<AltView>, bool) = match &content {
        BlobContent::Markdown(_) => (Some(source), false),
        BlobContent::Image { format: ImageFormat::Svg } => (Some(source), false),
        BlobContent::Text(_) => (
            if is_markdown(filename) || is_svg(filename) {
                rendered
            } else {
                None
            },
            true,
        ),
        _ => (
            if is_svg(filename) {
                rendered
            } else {
                None
            },
            false,
        ),
    };
    let blame = if has_lines {
        Some(blame_url(path, head))
    } else {
        None
    };
    BlobProps {
        blob_id: blob_id.to_hex(),
        name: filename.to_string(),
        data,
        content,
        alt_view,
        blame_url: blame,
        source_url,
        lines: None,
    }
}

/// One source line: its number in the gutter, linking to itself, and its text.
pub struct BlobRow {
    pub number: usize,
    /// The row's own id, which the page is scrolled to.
    pub id: String,
    /// The blob's whole URL and the line's anchor: a bare `#n5` would name no
    /// route at all.
    pub href: String,
    pub text: String,
    /// Whether the line falls inside the selected range.
    pub selected: bool,
}

/// Whether line `n` is among the selected.
pub open spec fn is_selected(lines: Option<LineRange>, n: int) -> bool {
    match lines {
        Some(range) => range.start <= n <= range.end,
        None => false,
    }
}

/// The row that line `n` renders as.
pub open spec fn row_of(
    row: BlobRow,
    n: int,
    line: Seq<char>,
    source_url: Seq<char>,
    lines: Option<LineRange>,
) -> bool {
    &&& row.number == n
    &&& row.id@ == "n"@ + number::decimal(n as nat)
    &&& row.href@ == source_url + (LineRange {
        start: n as usize,
        end: n as usize,
    }).anchor_text()
    &&& row.text@ == line
    &&& row.selected == is_selected(lines, n)
}

/// The rows of a text blob: one per line, each linking to itself.
pub fn blob_rows(lines: &Vec<String>, source_url: &str, selected: Option<LineRange>) -> (r: Vec<
    BlobRow,
>)
    requires
        lines@.len() < usize::MAX,
    ensures
        r@.len() == lines@.len(),
        forall|i: int|
            0 <= i < r@.len() ==> row_of(#[trigger] r@[i], i + 1, lines@[i]@, source_url@, selected),
{
    let mut rows: Vec<BlobRow> = Vec::new();
    let n: usize = lines.len();
    let mut i: usize = 0;
    while i < n
        invariant
            n == lines@.len(),
            n < usize::MAX,
            i <= n,
            rows@.len() == i,
            forall|j: int|
                0 <= j < i ==> row_of(
                    #[trigger] rows@[j],
                    j + 1,
                    lines@[j]@,
                    source_url@,
                    selected,
                ),
        decreases n - i,
    {
        let number: usize = i + 1;
        let chosen = match selected {
            Some(range) => range.contains(number),
            None => false,
        };
        rows.push(
            BlobRow {
                number,
                id: concat("n", decimal_text(number as u64).as_str()),
                href: concat(source_url, LineRange::single(number).anchor().as_str()),
                text: lines[i].clone(),
                selected: chosen,
            },
        );
        i = i + 1;
    }
    rows
}

/// The links beside a blob's id, each with its label: the download where there
/// is an object URL over the bytes, the other view, and the blame view with the
/// selection carried over.
pub fn blob_links(props: &BlobProps, url: &str) -> (r: Vec<(String, String)>)
    ensures
        links_view(r@) == shown_links(props, url@),
{
    let mut out: Vec<(String, String)> = Vec::new();
    if !url.is_empty() {
        out.push((url.to_string(), "download".to_string()));
    }
    match &props.alt_view {
        Some(alt) => {
            out.push((alt.url.clone(), alt.label.to_string()));
        },
        None => {},
    }
    match &props.blame_url {
        Some(blame) => {
            out.push((anchored(blame.as_str(), props.lines), "blame".to_string()));
        },
        None => {},
    }
    assert(links_view(out@) =~= shown_links(props, url@));
    out
}

/// What a list of links says: targets and labels.
pub open spec fn links_view(links: Seq<(String, String)>) -> Seq<(Seq<char>, Seq<char>)> {
    links.map_values(|l: (String, String)| (l.0@, l.1@))
}

/// The links beside a blob's id.
pub open spec fn shown_links(props: &BlobProps, url: Seq<char>) -> Seq<(Seq<char>, Seq<char>)> {
    let download = if url.len() > 0 {
        seq![(url, "download"@)]
    } else {
        Seq::empty()
    };
    let alt = match props.alt_view {
        Some(alt) => seq![(alt.url@, alt.label@)],
        None => Seq::empty(),
    };
    let blame = match props.blame_url {
        Some(blame) => seq![
            (crate::render::lines::anchored_text(blame@, props.lines), "blame"@),
        ],
        None => Seq::empty(),
    };
    download + alt + blame
}

/// A file reads the same with and without a line feed at its end.
pub proof fn final_line_feed_changes_no_lines(s: Seq<char>)
    requires
        s.len() > 0,
        s.last() != '\n',
    ensures
        lines_of(s.push('\n')) == lines_of(s),
{
    lemma_pieces(s);
    text::lemma_split_push(s, '\n', '\n');
    let parts = text::split(s, '\n');
    assert(parts.push(Seq::empty()).drop_last() =~= parts);
}

/// The lines with line feeds between them are the text, but for one line feed
/// that may end it, and no line holds one.
pub proof fn lines_joined_are_the_text(s: Seq<char>)
    requires
        s.len() > 0,
    ensures
        s.last() != '\n' ==> text::join(lines_of(s), seq!['\n']) == s,
        s.last() == '\n' ==> text::join(lines_of(s), seq!['\n']).push('\n') == s,
        lines_of(s).len() > 0,
        forall|i: int| 0 <= i < lines_of(s).len() ==> !(#[trigger] lines_of(s)[i]).contains('\n'),
{
    lemma_pieces(s);
    text::lemma_split_pieces(s, '\n');
    text::joining_a_split_gives_the_text_back(s, '\n');
    let parts = text::split(s, '\n');
    if s.last() == '\n' {
        lemma_pieces(s.drop_last());
        text::lemma_split_push(s.drop_last(), '\n', '\n');
        assert(s.drop_last().push('\n') =~= s);
        assert(parts.drop_last() =~= text::split(s.drop_last(), '\n'));
        text::joining_a_split_gives_the_text_back(s.drop_last(), '\n');
    }
    assert forall|i: int| 0 <= i < lines_of(s).len() implies !(#[trigger] lines_of(s)[i]).contains(
        '\n',
    ) by {
        assert(lines_of(s)[i] == parts[i]);
    }
}

/// A text is read line by line: what stands before its first line feed is its
/// first line, just as it stands there, and the lines of the rest follow.
pub proof fn lines_are_read_one_by_one(line: Seq<char>, rest: Seq<char>)
    requires
        !line.contains('\n'),
    ensures
        lines_of(line + seq!['\n'] + rest) == seq![line] + lines_of(rest),
        lines_of(line) == (if line.len() == 0 {
            Seq::<Seq<char>>::empty()
        } else {
            seq![line]
        }),
{
    let s = line + seq!['\n'] + rest;
    let n = line.len() as int;
    text::lemma_first_index(line, '\n');
    assert(text::split(line, '\n') =~= seq![line]);
    assert(lines_of(line) =~= (if line.len() == 0 {
        Seq::<Seq<char>>::empty()
    } else {
        seq![line]
    }));
    assert(s[n] == '\n');
    assert forall|j: int| 0 <= j < n implies s[j] != '\n' by {
        assert(s[j] == line[j]);
        assert(line.contains(line[j]));
    }
    text::lemma_first_index_is(s, '\n', n);
    assert(text::before(s, '\n') =~= line);
    assert(text::after(s, '\n') =~= rest);
    text::lemma_split_pieces(rest, '\n');
    assert(lines_of(s) =~= seq![line] + lines_of(rest));
}

proof fn lemma_no_line_feeds(bytes: Seq<u8>)
    requires
        forall|i: int| 0 <= i < bytes.len() ==> bytes[i] != 10,
    ensures
        utf8::line_feed_bytes(bytes) == 0,
    decreases bytes.len(),
{
    if bytes.len() > 0 {
        lemma_no_line_feeds(bytes.drop_last());
    }
}

proof fn lemma_encoded_line_feeds(s: Seq<char>)
    ensures
        utf8::line_feed_bytes(vstd::utf8::encode_utf8(s)) == utf8::line_feeds(s),
        s.len() == 0 <==> vstd::utf8::encode_utf8(s).len() == 0,
        s.len() > 0 ==> (s.last() == '\n' <==> vstd::utf8::encode_utf8(s).last() == 10),
    decreases s.len(),
{
    if s.len() == 0 {
        assert(vstd::utf8::encode_utf8(s) =~= Seq::empty());
    } else {
        let t = s.drop_last();
        let c = s.last();
        lemma_encoded_line_feeds(t);
        assert(t + seq![c] =~= s);
        utf8::lemma_encode_concat(t, seq![c]);
        utf8::lemma_encode_one(c);
        route::encode::lemma_char_bytes(c);
        let b = vstd::utf8::encode_scalar(c as u32);
        utf8::line_feeds_add_up(vstd::utf8::encode_utf8(t), b);
        if c == '\n' {
            assert(b =~= seq![10u8]);
            assert(b.drop_last() =~= Seq::empty());
            assert(utf8::line_feed_bytes(Seq::<u8>::empty()) == 0);
            assert(utf8::line_feed_bytes(b) == 1);
        } else {
            assert forall|i: int| 0 <= i < b.len() implies b[i] != 10 by {
                if c as int <= 0x7f {
                    assert(b[i] as int == c as int);
                } else {
                    assert(b[i] >= 0x80);
                }
            }
            lemma_no_line_feeds(b);
        }
        assert(vstd::utf8::encode_utf8(s).last() == b.last());
    }
}

/// A file has as many rows as it has lines.
pub proof fn rows_are_counted_as_they_are_shown(s: Seq<char>)
    ensures
        line_count(vstd::utf8::encode_utf8(s)) == lines_of(s).len(),
{
    lemma_encoded_line_feeds(s);
    lemma_pieces(s);
}

/// The ending of a name, in letters of either size, says what can be rendered:
/// `.md` and `.markdown` as markdown, `.svg` as a picture, and no other.
pub proof fn endings_say_what_can_be_rendered(stem: Seq<char>, ext: Seq<char>)
    requires
        !ext.contains('.'),
    ensures
        markdown_name(stem + seq!['.'] + ext) <==> (text::lower(ext) == seq!['m', 'd']
            || text::lower(ext) == seq!['m', 'a', 'r', 'k', 'd', 'o', 'w', 'n']),
        svg_name(stem + seq!['.'] + ext) <==> text::lower(ext) == seq!['s', 'v', 'g'],
        !markdown_name(ext),
        !svg_name(ext),
{
    text::extensions_stand_behind_the_last_dot(stem, ext);
    reveal_strlit("md");
    reveal_strlit("markdown");
    reveal_strlit("svg");
    assert("md"@ =~= seq!['m', 'd']);
    assert("markdown"@ =~= seq!['m', 'a', 'r', 'k', 'd', 'o', 'w', 'n']);
    assert("svg"@ =~= seq!['s', 'v', 'g']);
}

/// A file is binary where a zero byte stands among its first eight thousand.
pub proof fn early_zeros_make_files_binary(data: Seq<u8>, i: int)
    ensures
        0 <= i < data.len() && i < 8000 && data[i] == 0 ==> binary(data),
        (forall|j: int| 0 <= j < data.len() && j < 8000 ==> data[j] != 0) ==> !binary(data),
{
}

/// Text of no more than a mebibyte and twenty thousand lines is shown, all of it,
/// whatever the file is called, unless its name says that it is a picture or it
/// is to be rendered.
pub proof fn text_is_shown_whole(
    name: Seq<char>,
    s: Seq<char>,
    render: Option<(Seq<char>, Seq<char>)>,
)
    requires
        image::claimed_format(name) is None,
        render is None || !(markdown_name(name) || svg_name(name)),
        vstd::utf8::encode_utf8(s).len() <= 1_048_576,
        lines_of(s).len() <= 20_000,
        forall|j: int|
            0 <= j < vstd::utf8::encode_utf8(s).len() && j < 8000 ==> vstd::utf8::encode_utf8(s)[j]
                != 0,
    ensures
        shown_as(name, vstd::utf8::encode_utf8(s), render) == ContentModel::Text(lines_of(s)),
{
    rows_are_counted_as_they_are_shown(s);
    utf8::lossy_reads_back_encoded_text(s);
}

/// What cannot be shown as text says what it is by the first reason there is:
/// that it is binary, that it is over a mebibyte, that it is over twenty
/// thousand lines.
pub proof fn refusals_say_why(
    name: Seq<char>,
    data: Seq<u8>,
    render: Option<(Seq<char>, Seq<char>)>,
    i: int,
)
    requires
        image::claimed_format(name) is None,
        render is None || !svg_name(name),
    ensures
        0 <= i < data.len() && i < 8000 && data[i] == 0 ==> shown_as(name, data, render)
            == ContentModel::Binary(data.len() as int),
        (forall|j: int| 0 <= j < data.len() && j < 8000 ==> data[j] != 0) ==> {
            &&& data.len() > 1_048_576 ==> shown_as(name, data, render)
                == ContentModel::TooManyBytes(data.len() as int)
            &&& data.len() <= 1_048_576 && line_count(data) > 20_000 ==> shown_as(
                name,
                data,
                render,
            ) == ContentModel::TooManyLines(line_count(data))
        },
{
}

/// A picture that is asked for is drawn whatever its size.
pub proof fn requested_pictures_are_drawn(
    name: Seq<char>,
    data: Seq<u8>,
    asked: (Seq<char>, Seq<char>),
)
    requires
        svg_name(name),
        image::claimed_format(name) is None,
    ensures
        shown_as(name, data, Some(asked)) == ContentModel::Image(ImageFormat::Svg),
        shown_as(name, data, None) != ContentModel::Image(ImageFormat::Svg),
{
}

/// A blob's other view is the same file at the same ref, rendered where this one
/// is not.
pub proof fn other_views_show_the_same_file(
    path: Seq<char>,
    head: Option<Seq<char>>,
    render: bool,
    content: ContentModel,
)
    requires
        route::round_trip::plain_path(path),
        route::round_trip::plain_head(head),
    ensures
        other_view(path, head, render, content) matches Some((url, label)) ==> {
            &&& route::route_of(url) is Tree
            &&& route::route_of(url) == (route::RouteModel::Tree {
                path,
                head,
                render: !(content is Markdown || content == ContentModel::Image(ImageFormat::Svg)),
            })
        },
        content is Markdown || content == ContentModel::Image(ImageFormat::Svg) ==> other_view(
            path,
            head,
            render,
            content,
        ) is Some,
        content is Text && !render ==> (other_view(path, head, render, content) is Some) == (
        markdown_name(text::base_name(path)) || svg_name(text::base_name(path))),
{
    route::round_trip::tree_url_round_trips(path, head, true);
    route::round_trip::tree_url_round_trips(path, head, false);
}

/// Following a line's number selects that line and no other, on the same page.
pub proof fn line_numbers_select_their_lines(
    row: BlobRow,
    n: int,
    line: Seq<char>,
    source_url: Seq<char>,
    lines: Option<LineRange>,
    m: int,
)
    requires
        row_of(row, n, line, source_url, lines),
        1 <= n <= usize::MAX,
        source_url.len() > 0,
        source_url[0] == '#',
    ensures
        route::anchor::route_part(row.href@) == source_url,
        is_selected(route::anchor::selected_lines(row.href@), m) <==> m == n,
        row.selected == is_selected(lines, n),
        row.text@ == line,
{
    route::anchor::line_anchor_round_trips(
        source_url,
        LineRange { start: n as usize, end: n as usize },
    );
}

/// A blob's links are the download, the other view and the blame, each that there
/// is, in that order; the blame takes the selection along.
pub proof fn links_are_all_there_is(props: &BlobProps, url: Seq<char>)
    ensures
        ({
            let links = shown_links(props, url);
            let d = if url.len() > 0 {
                1int
            } else {
                0int
            };
            let a = if props.alt_view is Some {
                1int
            } else {
                0int
            };
            let b = if props.blame_url is Some {
                1int
            } else {
                0int
            };
            &&& links.len() == d + a + b
            &&& d == 1 ==> links[0] == (url, "download"@)
            &&& props.alt_view matches Some(alt) ==> links[d] == (alt.url@, alt.label@)
            &&& props.blame_url matches Some(blame) ==> links[d + a].1 == "blame"@ && (
            props.lines is None ==> links[d + a].0 == blame@) && (props.lines matches Some(range)
                ==> links[d + a].0 == blame@ + range.anchor_text())
        }),
{
}

/// What is shown in place of a blob tells how large it is, and by which limit it
/// is too large.
pub proof fn messages_tell_sizes(n: nat)
    ensures
        content_message(ContentModel::Binary(n as int)) == Some(
            "Binary file ("@ + number::decimal(n) + " bytes)."@,
        ),
        content_message(ContentModel::TooManyBytes(n as int)) == Some(
            "File too large to display ("@ + number::decimal(n) + " bytes, limit "@
                + number::decimal(1_048_576) + ")."@,
        ),
        content_message(ContentModel::TooManyLines(n as int)) == Some(
            "File too large to display ("@ + number::decimal(n) + " lines, limit "@
                + number::decimal(20_000) + ")."@,
        ),
{
}

/// A selection holds the lines from its first to its last, both among them.
pub proof fn selections_hold_the_lines_between(range: LineRange, n: int)
    ensures
        is_selected(Some(range), n) <==> range.start <= n && n <= range.end,
        !is_selected(None, n),
{
}

} // verus!
