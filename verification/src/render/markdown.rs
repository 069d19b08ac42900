//! Rendered markdown: where its links lead, and the document it is shown in.

use vstd::prelude::*;
use crate::paths;
use crate::paths::walk;
use crate::route;
use crate::route::RouteModel;
use crate::route::round_trip;
use crate::route::tree_url;
use crate::text;
use crate::text::{concat3, has_prefix, join_with, split_on, split_once};

verus! {

/// Where a rendered document's relative links resolve from.
///
/// A markdown file is read relative to itself: `[x](y.md)` in `docs/a.md` means
/// `docs/y.md`, and `#section` means a place in the document the reader is
/// already looking at.
#[derive(PartialEq, Debug)]
pub struct LinkBase {
    /// The document's containing directory, repository-relative; empty at the
    /// root.
    pub dir: String,
    /// Where a bare `#fragment` points — the document's own URL.
    pub self_url: String,
}

impl Clone for LinkBase {
    fn clone(&self) -> (r: Self)
        ensures
            r.dir@ == self.dir@,
            r.self_url@ == self.self_url@,
    {
        LinkBase { dir: self.dir.clone(), self_url: self.self_url.clone() }
    }
}

/// The first position in `s` of one of `: / ? #`, or its length.
pub open spec fn scheme_end(s: Seq<char>) -> int
    decreases s.len(),
{
    if s.len() == 0 || s[0] == ':' || s[0] == '/' || s[0] == '?' || s[0] == '#' {
        0
    } else {
        1 + scheme_end(s.drop_first())
    }
}

pub open spec fn is_ascii_letter(c: char) -> bool {
    ('a' <= c <= 'z') || ('A' <= c <= 'Z')
}

/// A character that a URL scheme may hold past its first.
pub open spec fn is_scheme_char(c: char) -> bool {
    is_ascii_letter(c) || ('0' <= c <= '9') || c == '+' || c == '-' || c == '.'
}

/// Whether a link carries a scheme (`https:`) or is protocol-relative
/// (`//host/x`). A `:` that follows a `/`, `?` or `#` belongs to the path.
pub open spec fn absolute(url: Seq<char>) -> bool {
    let i = scheme_end(url);
    "//"@.is_prefix_of(url) || {
        &&& 0 < i < url.len()
        &&& url[i] == ':'
        &&& is_ascii_letter(url[0])
        &&& forall|j: int| 0 < j < i ==> is_scheme_char(#[trigger] url[j])
    }
}

/// A link's destination without its query and fragment.
pub open spec fn dest_path(dest: Seq<char>) -> Seq<char> {
    text::before(text::before(dest, '?'), '#')
}

/// The names on the way to a link's destination, from the repository's root.
pub open spec fn dest_names(dir: Seq<char>, dest: Seq<char>) -> Seq<Seq<char>> {
    let path = dest_path(dest);
    let joined = if dir.len() == 0 || "/"@.is_prefix_of(path) {
        path
    } else {
        dir + "/"@ + path
    };
    paths::walked(Seq::empty(), text::split(joined, '/'))
}

/// The in-app URL of a link's destination.
pub open spec fn link_target(dir: Seq<char>, dest: Seq<char>) -> Seq<char> {
    route::tree_hash(text::join(dest_names(dir, dest), "/"@), None, false)
}

/// A link's destination, rewritten for a document in `dir` whose own URL is
/// `self_url`.
pub open spec fn rewritten(url: Seq<char>, dir: Seq<char>, self_url: Seq<char>) -> Seq<char> {
    if "#"@.is_prefix_of(url) {
        self_url
    } else if absolute(url) {
        url
    } else {
        link_target(dir, url)
    }
}

/// Rewrite a link's destination for display inside the frame.
///
/// Absolute URLs are left alone. A repository-relative path becomes the in-app
/// tree URL for that file. A bare fragment is pointed back at the document
/// itself, so that following it does nothing instead of navigating the app
/// somewhere unrelated.
pub fn rewrite_url(url: &str, base: &LinkBase) -> (r: String)
    ensures
        r@ == rewritten(url@, base.dir@, base.self_url@),
{
    if has_prefix(url, "#") {
        base.self_url.clone()
    } else if is_absolute(url) {
        url.to_string()
    } else {
        link_url(base.dir.as_str(), url)
    }
}

proof fn lemma_scheme_end(s: Seq<char>, i: int)
    requires
        0 <= i <= s.len(),
        i < s.len() ==> s[i] == ':' || s[i] == '/' || s[i] == '?' || s[i] == '#',
        forall|j: int|
            0 <= j < i ==> #[trigger] s[j] != ':' && s[j] != '/' && s[j] != '?' && s[j] != '#',
    ensures
        scheme_end(s) == i,
    decreases s.len(),
{
    if i > 0 {
        let t = s.drop_first();
        assert(s[0] != ':');
        assert forall|j: int| 0 <= j < i - 1 implies #[trigger] t[j] != ':' && t[j] != '/' && t[j]
            != '?' && t[j] != '#' by {
            assert(t[j] == s[j + 1]);
        }
        lemma_scheme_end(t, i - 1);
    }
}

/// Whether a link points outside this repository: it carries a scheme
/// (`https:`) or is protocol-relative (`//host/x`).
pub fn is_absolute(url: &str) -> (r: bool)
    ensures
        r == absolute(url@),
{
    if has_prefix(url, "//") {
        return true;
    }
    let v = text::chars_of(url);
    let n: usize = v.len();
    let mut i: usize = 0;
    let mut scheme = true;
    while i < n && v[i] != ':' && v[i] != '/' && v[i] != '?' && v[i] != '#'
        invariant
            v@ == url@,
            n == v@.len(),
            i <= n,
            forall|j: int|
                0 <= j < i ==> #[trigger] url@[j] != ':' && url@[j] != '/' && url@[j] != '?'
                    && url@[j] != '#',
            scheme == (forall|j: int| 0 < j < i ==> is_scheme_char(#[trigger] url@[j])),
        decreases n - i,
    {
        let c: char = v[i];
        if i > 0 && !(('a' <= c && c <= 'z') || ('A' <= c && c <= 'Z') || ('0' <= c && c <= '9')
            || c == '+' || c == '-' || c == '.') {
            assert(!is_scheme_char(url@[i as int]));
            scheme = false;
        }
        i = i + 1;
    }
    proof {
        lemma_scheme_end(url@, i as int);
    }
    if i == 0 || i == n || v[i] != ':' {
        return false;
    }
    let first: char = v[0];
    scheme && (('a' <= first && first <= 'z') || ('A' <= first && first <= 'Z'))
}

/// The in-app tree URL for a link destination written inside a document in
/// `dir`, with `.`/`..` segments resolved and any query or fragment dropped. A
/// `..` that would climb past the root is discarded.
///
/// A leading `/` means the repository root rather than the document's
/// directory, which is how a README written for a forge reads it. The ref the
/// document is being viewed at is deliberately not carried into the link.
pub fn link_url(dir: &str, dest: &str) -> (r: String)
    ensures
        r@ == link_target(dir@, dest@),
{
    let path = match split_once(dest, '?') {
        Some((head, _)) => head,
        None => dest,
    };
    let path = match split_once(path, '#') {
        Some((head, _)) => head,
        None => path,
    };
    let joined: String = if dir.is_empty() || has_prefix(path, "/") {
        path.to_string()
    } else {
        concat3(dir, "/", path)
    };
    let parts = split_on(joined.as_str(), '/');
    let mut names: Vec<String> = Vec::new();
    assert(text::texts(names@) =~= Seq::<Seq<char>>::empty());
    let _escaped = walk(&mut names, &parts);
    tree_url(join_with(&names, "/").as_str(), None, false)
}

/// A relative link leads to a tree page, at a path that stays inside the
/// repository: made of names that tree entries can have.
pub proof fn relative_links_stay_in_the_repository(dir: Seq<char>, dest: Seq<char>)
    ensures
        paths::proper_names(dest_names(dir, dest)),
        route::route_of(link_target(dir, dest)) == (RouteModel::Tree {
            path: text::join(dest_names(dir, dest), "/"@),
            head: None,
            render: false,
        }),
{
    let path = dest_path(dest);
    let joined = if dir.len() == 0 || "/"@.is_prefix_of(path) {
        path
    } else {
        dir + "/"@ + path
    };
    text::lemma_split_pieces(joined, '/');
    paths::walking_keeps_proper_names(Seq::empty(), text::split(joined, '/'));
    paths::lemma_joined_names(dest_names(dir, dest));
    round_trip::tree_url_round_trips(text::join(dest_names(dir, dest), "/"@), None, false);
}

/// What `comrak::markdown_to_html` makes of `markdown`: with the GFM extensions
/// that the flags turn on, everything else at its default, and each link's
/// destination rewritten for a document in `dir` whose own URL is `self_url`.
pub uninterp spec fn rendered_html(
    markdown: Seq<char>,
    table: bool,
    strikethrough: bool,
    tasklist: bool,
    footnotes: bool,
    autolink: bool,
    dir: Seq<char>,
    self_url: Seq<char>,
) -> Seq<char>;

/// The GFM extensions a document may use.
pub struct Extensions {
    pub table: bool,
    pub strikethrough: bool,
    pub tasklist: bool,
    pub footnotes: bool,
    /// Bare URLs and emails in the text become links.
    pub autolink: bool,
}

/// `comrak::markdown_to_html`, with `rewrite_url` as the link rewriter. Claimed
/// is only that the HTML is a function of the arguments; what it says of raw
/// HTML (dropped, since `render.unsafe` stays off) and of script-bearing links
/// is left unsaid.
#[verifier::external_body]
fn comrak_html(markdown: &str, with: &Extensions, base: LinkBase) -> (r: String)
    ensures
        r@ == rendered_html(
            markdown@,
            with.table,
            with.strikethrough,
            with.tasklist,
            with.footnotes,
            with.autolink,
            base.dir@,
            base.self_url@,
        ),
{
    let mut options = comrak::Options::default();
    options.extension.table = with.table;
    options.extension.strikethrough = with.strikethrough;
    options.extension.tasklist = with.tasklist;
    options.extension.footnotes = with.footnotes;
    options.extension.autolink = with.autolink;
    let rewriter = move |url: &str| rewrite_url(url, &base);
    options.extension.link_url_rewriter = Some(std::sync::Arc::new(rewriter));
    comrak::markdown_to_html(markdown, &options)
}

/// The HTML of a document in `dir` whose own URL is `self_url`, with every
/// extension a document is likely to use.
pub open spec fn document_html(markdown: Seq<char>, dir: Seq<char>, self_url: Seq<char>) -> Seq<
    char,
> {
    rendered_html(markdown, true, true, true, true, true, dir, self_url)
}

/// Render markdown to HTML with the GFM extensions a document is likely to use.
pub fn markdown_to_html(markdown: &str, base: &LinkBase) -> (r: String)
    ensures
        r@ == document_html(markdown@, base.dir@, base.self_url@),
{
    let with = Extensions {
        table: true,
        strikethrough: true,
        tasklist: true,
        footnotes: true,
        autolink: true,
    };
    comrak_html(markdown, &with, base.clone())
}

/// The height (CSS px) a frame is given before its content has been measured.
pub const INITIAL_FRAME_HEIGHT: i32 = 150;

/// The height a frame is given once its content has been measured.
pub fn frame_height(scroll_height: i32) -> (r: i32)
    ensures
        r == (if scroll_height >= INITIAL_FRAME_HEIGHT {
            scroll_height
        } else {
            INITIAL_FRAME_HEIGHT
        }),
{
    if scroll_height >= INITIAL_FRAME_HEIGHT {
        scroll_height
    } else {
        INITIAL_FRAME_HEIGHT
    }
}

/// The complete document put in the frame's `srcdoc`.
pub open spec fn frame_text(body_html: Seq<char>, stylesheet_href: Seq<char>) -> Seq<char> {
    "<!doctype html><html lang=\"en\"><head><meta charset=\"utf-8\"><base target=\"_top\"><link rel=\"stylesheet\" href=\""@
        + stylesheet_href + "\"></head><body class=\"markdown-body\">"@ + body_html
        + "</body></html>"@
}

/// The complete document put in the frame's `srcdoc`. Relative URLs in it
/// resolve against this page, which is what lets a rewritten `#!/tree/...` link
/// address the app, and `<base target="_top">` makes every link navigate the
/// page rather than the frame.
pub fn frame_document(body_html: &str, stylesheet_href: &str) -> (r: String)
    ensures
        r@ == frame_text(body_html@, stylesheet_href@),
{
    let mut out: String =
        "<!doctype html><html lang=\"en\"><head><meta charset=\"utf-8\"><base target=\"_top\"><link rel=\"stylesheet\" href=\"".to_string();
    out.append(stylesheet_href);
    out.append("\"></head><body class=\"markdown-body\">");
    out.append(body_html);
    out.append("</body></html>");
    out
}

/// A link is absolute where it begins with a scheme, a letter and then letters,
/// digits, `+`, `-` and `.` up to a colon, or with two slashes; it is not where
/// something else stands before its first colon.
pub proof fn schemes_make_links_absolute(scheme: Seq<char>, rest: Seq<char>)
    requires
        forall|i: int|
            0 <= i < scheme.len() ==> #[trigger] scheme[i] != ':' && scheme[i] != '/' && scheme[i]
                != '?' && scheme[i] != '#',
    ensures
        ({
            let letter = |c: char| 'a' <= c <= 'z' || 'A' <= c <= 'Z';
            let named = scheme.len() > 0 && letter(scheme[0]) && forall|i: int|
                0 <= i < scheme.len() ==> letter(#[trigger] scheme[i]) || '0' <= scheme[i] <= '9'
                    || scheme[i] == '+' || scheme[i] == '-' || scheme[i] == '.';
            absolute(scheme + seq![':'] + rest) <==> named
        }),
        absolute(seq!['/', '/'] + rest),
        !absolute(scheme),
        scheme.len() > 0 ==> !absolute(scheme + seq!['/'] + rest),
        !absolute(scheme + seq!['?'] + rest),
        !absolute(scheme + seq!['#'] + rest),
{
    reveal_strlit("//");
    assert("//"@ =~= seq!['/', '/']);
    assert("//"@[0] == '/' && "//"@[1] == '/');
    let n = scheme.len() as int;
    text::lemma_prefix("//"@, seq!['/', '/'] + rest);
    text::lemma_prefix("//"@, scheme);
    lemma_scheme_end(scheme, n);
    assert(!"//"@.is_prefix_of(scheme)) by {
        if n > 0 {
            assert(scheme[0] != '/');
        }
    }
    lemma_not_protocol(scheme, ':', rest);
    lemma_not_protocol(scheme, '?', rest);
    lemma_not_protocol(scheme, '#', rest);
    if n > 0 {
        lemma_not_protocol(scheme, '/', rest);
    }
    let url = scheme + seq![':'] + rest;
    assert forall|j: int| 0 <= j < n implies #[trigger] url[j] == scheme[j] by {}
    let letter = |c: char| 'a' <= c <= 'z' || 'A' <= c <= 'Z';
    let named = scheme.len() > 0 && letter(scheme[0]) && forall|i: int|
        0 <= i < scheme.len() ==> letter(#[trigger] scheme[i]) || '0' <= scheme[i] <= '9'
            || scheme[i] == '+' || scheme[i] == '-' || scheme[i] == '.';
    if absolute(url) {
        assert forall|i: int| 0 <= i < n implies letter(#[trigger] scheme[i]) || '0' <= scheme[i]
            <= '9' || scheme[i] == '+' || scheme[i] == '-' || scheme[i] == '.' by {
            assert(url[i] == scheme[i]);
            if i > 0 {
                assert(is_scheme_char(url[i]));
            }
        }
    }
    if named {
        assert forall|j: int| 0 < j < n implies is_scheme_char(#[trigger] url[j]) by {
            assert(url[j] == scheme[j]);
        }
    }
}

proof fn lemma_not_protocol(scheme: Seq<char>, c: char, rest: Seq<char>)
    requires
        forall|i: int|
            0 <= i < scheme.len() ==> #[trigger] scheme[i] != ':' && scheme[i] != '/' && scheme[i]
                != '?' && scheme[i] != '#',
        c == ':' || c == '/' || c == '?' || c == '#',
        c == '/' ==> scheme.len() > 0,
    ensures
        scheme_end(scheme + seq![c] + rest) == scheme.len(),
        (scheme + seq![c] + rest)[scheme.len() as int] == c,
        !"//"@.is_prefix_of(scheme + seq![c] + rest),
{
    reveal_strlit("//");
    assert("//"@[0] == '/' && "//"@[1] == '/');
    let url = scheme + seq![c] + rest;
    let n = scheme.len() as int;
    assert forall|j: int| 0 <= j < n implies #[trigger] url[j] != ':' && url[j] != '/' && url[j]
        != '?' && url[j] != '#' by {
        assert(url[j] == scheme[j]);
    }
    lemma_scheme_end(url, n);
    text::lemma_prefix("//"@, url);
    if n > 0 {
        assert(url[0] == scheme[0]);
        assert(scheme[0] != '/');
    } else {
        assert(url[0] == c);
    }
}

/// A relative link is walked from the document's directory, and one that begins
/// with a slash from the root; what follows a `?` or a `#` changes nothing.
pub proof fn relative_links_are_walked_from_their_document(
    dir: Seq<char>,
    path: Seq<char>,
    rest: Seq<char>,
)
    requires
        !path.contains('?'),
        !path.contains('#'),
    ensures
        path.len() > 0 && path[0] == '/' || dir.len() == 0 ==> dest_names(dir, path)
            == paths::walked(Seq::empty(), text::split(path, '/')),
        dir.len() > 0 && (path.len() == 0 || path[0] != '/') ==> dest_names(dir, path)
            == paths::walked(
            paths::walked(Seq::empty(), text::split(dir, '/')),
            text::split(path, '/'),
        ),
        dest_names(dir, path + seq!['?'] + rest) == dest_names(dir, path),
        dest_names(dir, path + seq!['#'] + rest) == dest_names(dir, path),
{
    reveal_strlit("/");
    assert("/"@ =~= seq!['/']);
    assert("/"@[0] == '/');
    text::lemma_prefix("/"@, path);
    lemma_cut(path, '?');
    lemma_cut(path, '#');
    lemma_cut_behind(path, '?', rest);
    lemma_cut_behind(path, '#', rest);
    let marked = path + seq!['#'] + rest;
    let front = text::before(marked, '?');
    text::lemma_first_index(marked, '?');
    let k = text::first_index(marked, '?');
    let n = path.len() as int;
    if k < n {
        assert(marked[k] == path[k]);
        assert(path.contains(path[k]));
    } else if k == n {
        assert(marked[k] == '#');
    }
    assert(front == path + seq!['#'] + marked.subrange(n + 1, k)) by {
        assert(front =~= path + seq!['#'] + marked.subrange(n + 1, k));
    }
    lemma_cut_behind(path, '#', marked.subrange(n + 1, k));
    assert(dest_path(path) == path);
    assert(dest_path(marked) == path);
    assert(dest_path(path + seq!['?'] + rest) == path);
    if dir.len() > 0 && (path.len() == 0 || path[0] != '/') {
        let a = text::split(dir, '/');
        let b = text::split(path, '/');
        text::lemma_split_pieces(dir, '/');
        text::lemma_split_pieces(path, '/');
        text::joining_a_split_gives_the_text_back(dir, '/');
        text::joining_a_split_gives_the_text_back(path, '/');
        lemma_join_concat(a, b);
        assert forall|i: int| 0 <= i < (a + b).len() implies !(#[trigger] (a + b)[i]).contains('/') by {
            if i < a.len() {
                assert((a + b)[i] == a[i]);
            } else {
                assert((a + b)[i] == b[i - a.len()]);
            }
        }
        text::splitting_a_join_gives_the_pieces_back(a + b, '/');
        paths::walking_goes_part_by_part(Seq::empty(), a, b);
    }
}

proof fn lemma_cut(path: Seq<char>, c: char)
    requires
        !path.contains(c),
    ensures
        text::before(path, c) == path,
{
    text::lemma_first_index(path, c);
    assert(path.take(path.len() as int) =~= path);
}

proof fn lemma_cut_behind(path: Seq<char>, c: char, rest: Seq<char>)
    requires
        !path.contains(c),
    ensures
        text::before(path + seq![c] + rest, c) == path,
{
    let s = path + seq![c] + rest;
    let n = path.len() as int;
    assert(s[n] == c);
    assert forall|j: int| 0 <= j < n implies s[j] != c by {
        assert(s[j] == path[j]);
        assert(path.contains(path[j]));
    }
    text::lemma_first_index_is(s, c, n);
    assert(s.take(n) =~= path);
}

proof fn lemma_join_concat(a: Seq<Seq<char>>, b: Seq<Seq<char>>)
    requires
        a.len() > 0,
        b.len() > 0,
    ensures
        text::join(a + b, seq!['/']) == text::join(a, seq!['/']) + seq!['/'] + text::join(
            b,
            seq!['/'],
        ),
    decreases b.len(),
{
    let sep = seq!['/'];
    if b.len() == 1 {
        assert(a + b =~= a.push(b[0]));
        text::lemma_join_push(a, b[0], sep);
    } else {
        let c = b.drop_last();
        lemma_join_concat(a, c);
        text::lemma_join_push(a + c, b.last(), sep);
        text::lemma_join_push(c, b.last(), sep);
        assert((a + c).push(b.last()) =~= a + b);
        assert(c.push(b.last()) =~= b);
        assert(text::join(a + b, sep) =~= text::join(a, sep) + sep + text::join(b, sep));
    }
}

/// A fragment leads to the document itself, an absolute link where it says, and
/// every other link to a tree page of the repository.
pub proof fn links_lead_where_they_say(url: Seq<char>, dir: Seq<char>, self_url: Seq<char>)
    ensures
        url.len() > 0 && url[0] == '#' ==> rewritten(url, dir, self_url) == self_url,
        (url.len() == 0 || url[0] != '#') && absolute(url) ==> rewritten(url, dir, self_url) == url,
        (url.len() == 0 || url[0] != '#') && !absolute(url) ==> route::route_of(
            rewritten(url, dir, self_url),
        ) == (RouteModel::Tree {
            path: text::join(dest_names(dir, url), seq!['/']),
            head: None,
            render: false,
        }),
{
    reveal_strlit("#");
    reveal_strlit("/");
    assert("/"@ =~= seq!['/']);
    text::lemma_prefix("#"@, url);
    assert("#"@[0] == '#');
    relative_links_stay_in_the_repository(dir, url);
}

/// A document may use every extension there is.
pub proof fn documents_use_every_extension(
    markdown: Seq<char>,
    dir: Seq<char>,
    self_url: Seq<char>,
)
    ensures
        document_html(markdown, dir, self_url) == rendered_html(
            markdown,
            true,
            true,
            true,
            true,
            true,
            dir,
            self_url,
        ),
{
}

} // verus!
