//! The URL grammar: parsing `location.hash` into a [`Route`], and building the
//! hashes that link back to one.
//!
//! The pieces a route is made of live alongside: [`encode`] for the
//! percent-encoding every interpolated value goes through, [`anchor`] for the
//! `#n5` line selection, [`diff_view`] for the commit view's query parameters,
//! [`query`] for reading a query string, and [`round_trip`] for the laws that
//! tie the hashes written to the routes read.

use vstd::prelude::*;
use crate::number;
use crate::number::{decimal_text, parse_usize};
use crate::text;
use crate::text::{concat, find_char, join_with, split_on, text_eq, trim_start_of, without_prefix};
use anchor::split_line_anchor;
use diff_view::DiffView;
use encode::{decode_component, decode_path, encode_component, encode_path};
use query::{find_first_value, find_last_filled_value, find_last_value, has_part};

pub mod anchor;
pub mod diff_view;
pub mod encode;
pub mod legacy;
pub mod load;
pub mod loader;
pub mod query;
pub mod round_trip;

verus! {

pub enum RefsRoute {
    All,
    Heads,
    Tags,
    Tag(String),
}

pub enum Route {
    About,
    Readme,
    Summary,
    Log { offset: usize, head: Option<String>, path: String, showmsg: bool },
    CommitHead(DiffView),
    Commit(String, DiffView),
    Refs(RefsRoute),
    /// `render` shows a blob rendered rather than as source (`?render=1`).
    /// Ignored when the path resolves to anything else.
    Tree { path: String, head: Option<String>, render: bool },
    /// Per-line blame for one file: which commit last touched each line.
    Blame { path: String, head: Option<String> },
    /// A `.tar.gz` of a ref's tree (HEAD's, when there is no `?h=`).
    Snapshot { head: Option<String> },
}

/// What a snapshot of a ref is: its tree, or its history.
#[derive(Clone, Copy, PartialEq, Eq, Structural, Debug)]
pub enum SnapshotFormat {
    TarGz,
    Bundle,
}

impl SnapshotFormat {
    /// What follows the dot in the file's name.
    pub open spec fn ending(self) -> Seq<char> {
        match self {
            SnapshotFormat::TarGz => "tar.gz"@,
            SnapshotFormat::Bundle => "bundle"@,
        }
    }

    pub fn extension(self) -> (r: &'static str)
        ensures
            r@ == self.ending(),
    {
        match self {
            SnapshotFormat::TarGz => "tar.gz",
            SnapshotFormat::Bundle => "bundle",
        }
    }
}

/// What a [`RefsRoute`] names.
pub enum RefsModel {
    All,
    Heads,
    Tags,
    Tag(Seq<char>),
}

/// What a [`Route`] names.
pub enum RouteModel {
    About,
    Readme,
    Summary,
    Log { offset: int, head: Option<Seq<char>>, path: Seq<char>, showmsg: bool },
    CommitHead(DiffView),
    Commit(Seq<char>, DiffView),
    Refs(RefsModel),
    Tree { path: Seq<char>, head: Option<Seq<char>>, render: bool },
    Blame { path: Seq<char>, head: Option<Seq<char>> },
    Snapshot { head: Option<Seq<char>> },
}

impl View for RefsRoute {
    type V = RefsModel;

    open spec fn view(&self) -> RefsModel {
        match self {
            RefsRoute::All => RefsModel::All,
            RefsRoute::Heads => RefsModel::Heads,
            RefsRoute::Tags => RefsModel::Tags,
            RefsRoute::Tag(name) => RefsModel::Tag(name@),
        }
    }
}

impl View for Route {
    type V = RouteModel;

    open spec fn view(&self) -> RouteModel {
        match self {
            Route::About => RouteModel::About,
            Route::Readme => RouteModel::Readme,
            Route::Summary => RouteModel::Summary,
            Route::Log { offset, head, path, showmsg } => RouteModel::Log {
                offset: *offset as int,
                head: query::opt_text(*head),
                path: path@,
                showmsg: *showmsg,
            },
            Route::CommitHead(view) => RouteModel::CommitHead(*view),
            Route::Commit(sha, view) => RouteModel::Commit(sha@, *view),
            Route::Refs(refs) => RouteModel::Refs(refs@),
            Route::Tree { path, head, render } => RouteModel::Tree {
                path: path@,
                head: query::opt_text(*head),
                render: *render,
            },
            Route::Blame { path, head } => RouteModel::Blame {
                path: path@,
                head: query::opt_text(*head),
            },
            Route::Snapshot { head } => RouteModel::Snapshot { head: query::opt_text(*head) },
        }
    }
}

/// What follows `prefix` in `hash`, where the prefix ends where a route name
/// may end: at one of `seps`, or at the end of the hash.
pub open spec fn route_rest(hash: Seq<char>, prefix: Seq<char>, seps: Seq<char>) -> Option<
    Seq<char>,
> {
    match text::strip_prefix(hash, prefix) {
        Some(rest) => if rest.len() == 0 || seps.contains(rest[0]) {
            Some(rest)
        } else {
            None
        },
        None => None,
    }
}

/// The offset, head and `showmsg` flag that a log's query asks for.
pub open spec fn log_query(query_string: Seq<char>) -> (int, Option<Seq<char>>, bool) {
    let parts = text::split(query_string, '&');
    (
        match query::last_value(parts, "offset="@) {
            Some(v) => match number::parse_unsigned(v, usize::MAX as int) {
                Some(n) => n,
                None => 0,
            },
            None => 0,
        },
        match query::last_filled_value(parts, "h="@) {
            Some(v) => Some(encode::decoded(v)),
            None => None,
        },
        parts.contains("showmsg=1"@),
    )
}

/// The path, head and `render` flag in what follows a tree route's name.
pub open spec fn tree_rest(rest: Seq<char>) -> (Seq<char>, Option<Seq<char>>, bool) {
    let trimmed = text::trim_start(rest, '/');
    let parts = text::split(text::after(trimmed, '?'), '&');
    (
        encode::decoded_path(text::before(trimmed, '?')),
        match query::first_value(parts, "h="@) {
            Some(v) => if v.len() > 0 {
                Some(encode::decoded(v))
            } else {
                None
            },
            None => None,
        },
        parts.contains("render=1"@),
    )
}

/// The listing that the rest of a refs route names.
pub open spec fn refs_rest(rest: Seq<char>) -> RefsModel {
    if rest.len() == 0 || rest == "/"@ {
        RefsModel::All
    } else if rest == "/heads"@ || rest == "/heads/"@ {
        RefsModel::Heads
    } else if rest == "/tags"@ || rest == "/tags/"@ {
        RefsModel::Tags
    } else {
        match text::strip_prefix(rest, "/tags/"@) {
            Some(tag) => RefsModel::Tag(encode::decoded(tag)),
            None => RefsModel::All,
        }
    }
}

/// The log route whose name `rest` follows.
pub open spec fn log_rest(rest: Seq<char>) -> RouteModel {
    let (offset, head, showmsg) = log_query(text::after(rest, '?'));
    RouteModel::Log {
        offset,
        head,
        path: encode::decoded_path(text::trim_start(text::before(rest, '?'), '/')),
        showmsg,
    }
}

/// The commit route whose name `rest` follows.
pub open spec fn commit_rest(rest: Seq<char>) -> RouteModel {
    let sha = text::trim_start(text::before(rest, '?'), '/');
    let view = diff_view::asked_view(text::split(text::after(rest, '?'), '&'));
    if sha.len() == 0 {
        RouteModel::CommitHead(view)
    } else {
        RouteModel::Commit(encode::decoded(sha), view)
    }
}

/// The route that a hash without a line anchor names.
pub open spec fn plain_route(hash: Seq<char>) -> RouteModel {
    let either = seq!['/', '?'];
    if hash.len() == 0 || hash == "#"@ || hash == "#!/readme"@ {
        RouteModel::Readme
    } else if hash == "#!/about"@ {
        RouteModel::About
    } else if hash == "#!/summary"@ {
        RouteModel::Summary
    } else if let Some(rest) = route_rest(hash, "#!/log"@, either) {
        log_rest(rest)
    } else if let Some(rest) = route_rest(hash, "#!/commit"@, either) {
        commit_rest(rest)
    } else if let Some(rest) = route_rest(hash, "#!/tree"@, either) {
        let (path, head, render) = tree_rest(rest);
        RouteModel::Tree { path, head, render }
    } else if let Some(rest) = route_rest(hash, "#!/blame"@, either) {
        RouteModel::Blame { path: tree_rest(rest).0, head: tree_rest(rest).1 }
    } else if let Some(rest) = route_rest(hash, "#!/snapshot"@, either) {
        RouteModel::Snapshot { head: tree_rest(rest).1 }
    } else if let Some(rest) = route_rest(hash, "#!/refs"@, seq!['/']) {
        RouteModel::Refs(refs_rest(rest))
    } else {
        RouteModel::Readme
    }
}

/// The route that a hash names: a line anchor selects rows within a view,
/// never a different view.
pub open spec fn route_of(hash: Seq<char>) -> RouteModel {
    plain_route(anchor::route_part(hash))
}

/// Strip `prefix` off `hash`, but only when the prefix ends where a route name
/// is allowed to end: at one of `seps`, or at the end of the hash.
///
/// A plain prefix test matches mid-word, so `#!/logout` would parse as the log
/// of a path named `out`. Requiring the boundary is what lets an unrecognised
/// route reach the readme fallback instead.
pub fn strip_route_prefix<'a>(hash: &'a str, prefix: &str, seps: &[char]) -> (r: Option<&'a str>)
    ensures
        query::opt_str(r) == route_rest(hash@, prefix@, seps@),
{
    let rest = match without_prefix(hash, prefix) {
        Some(rest) => rest,
        None => {
            return None;
        },
    };
    if rest.is_empty() {
        return Some(rest);
    }
    if one_of(rest.get_char(0), seps) {
        Some(rest)
    } else {
        None
    }
}

fn one_of(c: char, set: &[char]) -> (r: bool)
    ensures
        r == set@.contains(c),
{
    let n: usize = set.len();
    let mut i: usize = 0;
    while i < n
        invariant
            n == set@.len(),
            i <= n,
            forall|j: int| 0 <= j < i ==> set@[j] != c,
        decreases n - i,
    {
        if set[i] == c {
            assert(set@[i as int] == c);
            return true;
        }
        i = i + 1;
    }
    false
}

/// `s` up to its first `?`, and what follows that.
pub fn cut_query<'a>(s: &'a str) -> (r: (&'a str, &'a str))
    ensures
        r.0@ == text::before(s@, '?'),
        r.1@ == text::after(s@, '?'),
{
    let n: usize = s.unicode_len();
    proof {
        text::lemma_first_index(s@, '?');
    }
    match find_char(s, '?') {
        Some(i) => {
            assert(s@.subrange(0, i as int) =~= s@.take(i as int));
            assert(s@.subrange(i + 1, n as int) =~= s@.skip(i + 1));
            (s.substring_char(0, i), s.substring_char(i + 1, n))
        },
        None => {
            assert(s@.take(n as int) =~= s@);
            assert(s@.subrange(n as int, n as int) =~= Seq::<char>::empty());
            (s, s.substring_char(n, n))
        },
    }
}

/// A route on the repository index. Its own grammar rather than a corner of
/// [`Route`]: the index and a repository are disjoint modes.
///
/// ```text
/// #!/index[/<section>]             the listing, scrolled to a section
/// #!/about                         the viewer-wide about page
/// ```
pub enum IndexRoute {
    /// The listing. `section` is the prefix heading to scroll to, empty for the
    /// top of the page.
    Listing { section: String },
    About,
}

/// What an [`IndexRoute`] names: a section, or the about page.
pub open spec fn index_route_of(hash: Seq<char>) -> Option<Seq<char>> {
    if hash == "#!/about"@ {
        None
    } else {
        match route_rest(hash, "#!/index"@, seq!['/']) {
            Some(rest) => Some(encode::decoded_path(text::trim_start(rest, '/'))),
            None => Some(Seq::empty()),
        }
    }
}

impl IndexRoute {
    /// The section named, or `None` for the about page.
    pub open spec fn section_named(self) -> Option<Seq<char>> {
        match self {
            IndexRoute::Listing { section } => Some(section@),
            IndexRoute::About => None,
        }
    }
}

/// The hash naming a section of the listing.
pub open spec fn index_hash(section: Seq<char>) -> Seq<char> {
    if section.len() == 0 {
        "#!/index"@
    } else {
        "#!/index/"@ + encode::encoded_path(section)
    }
}

/// The hash naming a section of the listing (the whole listing, for an empty
/// `section`).
pub fn index_url(section: &str) -> (r: String)
    ensures
        r@ == index_hash(section@),
{
    if section.is_empty() {
        "#!/index".to_string()
    } else {
        concat("#!/index/", encode_path(section).as_str())
    }
}

/// Parse `location.hash` on the repository index; see [`IndexRoute`].
pub fn parse_index_hash(hash: &str) -> (r: IndexRoute)
    ensures
        r.section_named() == index_route_of(hash@),
{
    if text_eq(hash, "#!/about") {
        return IndexRoute::About;
    }
    let seps: [char; 1] = ['/'];
    assert(seps@ =~= seq!['/']);
    match strip_route_prefix(hash, "#!/index", &seps) {
        Some(rest) => IndexRoute::Listing { section: decode_path(trim_start_of(rest, '/')) },
        None => IndexRoute::Listing { section: String::new() },
    }
}

/// Parse `location.hash` into the route it names.
///
/// The grammar, where `<…>` is percent-encoded ([`encode_component`]) and every
/// route name must be followed by `/`, `?` or the end of the hash:
///
/// ```text
/// (empty) | #  | #!/readme         the README at HEAD
/// #!/about                         the about page
/// #!/summary                       the summary
/// #!/log[/<path>][?…]              the log; query: h=<rev>, offset=<n>, showmsg=1
/// #!/commit[/][?…]                 HEAD's commit
/// #!/commit/<sha>[?…]              one commit
///                                  query: dt=<0|1|2>, context=<n>,
///                                         ignorews=1, ss=1
/// #!/refs[/]                       all refs
/// #!/refs/heads[/]                 the branch list
/// #!/refs/tags[/]                  the tag list
/// #!/refs/tags/<tag>               one tag
/// #!/tree[/<path>][?…]             the tree, or a blob; query: h=<rev>, render=1
/// #!/blame/<path>[?h=<rev>]        per-line blame for one file
/// #!/snapshot[/…][?h=<ref>]        a .tar.gz of a revision's tree (path ignored)
/// ```
///
/// Any of these may carry a trailing `#n<A>[-n<B>]` line anchor, which selects
/// lines within the blob view and names the same route with or without it.
///
/// Anything else falls back to the readme, so a hand-edited or stale URL lands
/// on a real page rather than an error.
pub fn parse_hash(hash: &str) -> (r: Route)
    ensures
        r@ == route_of(hash@),
{
    let (hash, _lines) = split_line_anchor(hash);
    if hash.is_empty() || text_eq(hash, "#") || text_eq(hash, "#!/readme") {
        return Route::Readme;
    }
    if text_eq(hash, "#!/about") {
        return Route::About;
    }
    if text_eq(hash, "#!/summary") {
        return Route::Summary;
    }
    let either: [char; 2] = ['/', '?'];
    let slash: [char; 1] = ['/'];
    assert(either@ =~= seq!['/', '?']);
    assert(slash@ =~= seq!['/']);
    if let Some(rest) = strip_route_prefix(hash, "#!/log", &either) {
        let (path_part, query_string) = cut_query(rest);
        let path = decode_path(trim_start_of(path_part, '/'));
        let (offset, head, showmsg) = parse_log_query(query_string);
        return Route::Log { offset, head, path, showmsg };
    }
    // The id runs to the query, if there is one; an empty id means HEAD's
    // commit.

    if let Some(rest) = strip_route_prefix(hash, "#!/commit", &either) {
        let (sha_part, query_string) = cut_query(rest);
        let sha = trim_start_of(sha_part, '/');
        let view = DiffView::parse(query_string);
        return if sha.is_empty() {
            Route::CommitHead(view)
        } else {
            Route::Commit(decode_component(sha), view)
        };
    }
    if let Some(rest) = strip_route_prefix(hash, "#!/tree", &either) {
        let (path, head, render) = parse_tree_rest(rest);
        return Route::Tree { path, head, render };
    }
    if let Some(rest) = strip_route_prefix(hash, "#!/blame", &either) {
        // Blame is always of one file, so `render=1` has nothing to mean here.
        let (path, head, _render) = parse_tree_rest(rest);
        return Route::Blame { path, head };
    }
    if let Some(rest) = strip_route_prefix(hash, "#!/snapshot", &either) {
        // Only the ref matters here: a snapshot is always of a whole tree.
        let (_path, head, _render) = parse_tree_rest(rest);
        return Route::Snapshot { head };
    }
    if let Some(rest) = strip_route_prefix(hash, "#!/refs", &slash) {
        return Route::Refs(parse_refs_rest(rest));
    }
    Route::Readme
}

/// A listing prefix with nothing left after it names the listing, with or
/// without a trailing slash; a tag name may contain `/`, so the whole
/// remainder is the name.
fn parse_refs_rest(rest: &str) -> (r: RefsRoute)
    ensures
        r@ == refs_rest(rest@),
{
    if rest.is_empty() || text_eq(rest, "/") {
        RefsRoute::All
    } else if text_eq(rest, "/heads") || text_eq(rest, "/heads/") {
        RefsRoute::Heads
    } else if text_eq(rest, "/tags") || text_eq(rest, "/tags/") {
        RefsRoute::Tags
    } else {
        match without_prefix(rest, "/tags/") {
            Some(tag) => RefsRoute::Tag(decode_component(tag)),
            None => RefsRoute::All,
        }
    }
}

/// The path, head and `render` flag in what follows a tree route's name.
pub fn parse_tree_rest(rest: &str) -> (r: (String, Option<String>, bool))
    ensures
        (r.0@, query::opt_text(r.1), r.2) == tree_rest(rest@),
{
    let rest = trim_start_of(rest, '/');
    let (path_part, query_string) = cut_query(rest);
    let parts = split_on(query_string, '&');
    let head: Option<String> = match find_first_value(&parts, "h=") {
        Some(v) => if v.is_empty() {
            None
        } else {
            Some(decode_component(v))
        },
        None => None,
    };
    let render = has_part(&parts, "render=1");
    (decode_path(path_part), head, render)
}

/// The offset, head and `showmsg` flag that a log's query asks for.
pub fn parse_log_query(query_string: &str) -> (r: (usize, Option<String>, bool))
    ensures
        (r.0 as int, query::opt_text(r.1), r.2) == log_query(query_string@),
{
    let parts = split_on(query_string, '&');
    let offset: usize = match find_last_value(&parts, "offset=") {
        Some(v) => match parse_usize(v) {
            Some(n) => n,
            None => 0,
        },
        None => 0,
    };
    let head: Option<String> = match find_last_filled_value(&parts, "h=") {
        Some(v) => Some(decode_component(v)),
        None => None,
    };
    (offset, head, has_part(&parts, "showmsg=1"))
}

/// The nav tab a route lives under, used for the `active` highlight.
pub fn active_tab(route: &Route) -> (r: &'static str)
    ensures
        r@ == tab_of(route@),
{
    match route {
        Route::About => "#!/about",
        Route::Readme => "#!/readme",
        Route::Summary => "#!/summary",
        Route::Log { .. } => "#!/log",
        Route::CommitHead(_) | Route::Commit(..) => "#!/commit",
        Route::Refs(_) => "#!/refs",
        // A snapshot is an action on the tree being browsed, and blame is a
        // way of reading one of its files, so the tree tab stays lit for both.
        Route::Tree { .. } | Route::Snapshot { .. } | Route::Blame { .. } => "#!/tree",
    }
}

/// The nav tab a route lives under.
pub open spec fn tab_of(route: RouteModel) -> Seq<char> {
    match route {
        RouteModel::About => "#!/about"@,
        RouteModel::Readme => "#!/readme"@,
        RouteModel::Summary => "#!/summary"@,
        RouteModel::Log { .. } => "#!/log"@,
        RouteModel::CommitHead(_) | RouteModel::Commit(..) => "#!/commit"@,
        RouteModel::Refs(_) => "#!/refs"@,
        RouteModel::Tree { .. } | RouteModel::Snapshot { .. } | RouteModel::Blame { .. } =>
            "#!/tree"@,
    }
}

/// `?` and the parts joined by `&`, or nothing where there are none.
pub open spec fn query_suffix(parts: Seq<Seq<char>>) -> Seq<char> {
    if parts.len() == 0 {
        Seq::empty()
    } else {
        "?"@ + text::join(parts, "&"@)
    }
}

/// The `h=` part for a head, where there is one.
pub open spec fn head_part(head: Option<Seq<char>>) -> Seq<Seq<char>> {
    diff_view::when(head is Some, "h="@ + encode::encoded(head->0))
}

/// A route's name, and the path under it where there is one.
pub open spec fn named_path(name: Seq<char>, path: Seq<char>) -> Seq<char> {
    if path.len() == 0 {
        name
    } else {
        name + "/"@ + encode::encoded_path(path)
    }
}

/// The hash of a snapshot.
pub open spec fn snapshot_hash(head: Seq<char>) -> Seq<char> {
    "#!/snapshot"@ + query_suffix(head_part(Some(head)))
}

/// The hash of a tree view.
pub open spec fn tree_hash(path: Seq<char>, head: Option<Seq<char>>, render: bool) -> Seq<char> {
    named_path("#!/tree"@, path) + query_suffix(
        head_part(head) + diff_view::when(render, "render=1"@),
    )
}

/// The hash of a blame view.
pub open spec fn blame_hash(path: Seq<char>, head: Option<Seq<char>>) -> Seq<char> {
    "#!/blame/"@ + encode::encoded_path(path) + query_suffix(head_part(head))
}

/// The hash of a log view.
pub open spec fn log_hash(
    path: Seq<char>,
    offset: int,
    head: Option<Seq<char>>,
    showmsg: bool,
) -> Seq<char> {
    named_path("#!/log"@, path) + query_suffix(
        head_part(head) + diff_view::when(
            offset != 0,
            "offset="@ + number::decimal(offset as nat),
        ) + diff_view::when(showmsg, "showmsg=1"@),
    )
}

/// The hash of a commit view; HEAD's commit, for an empty `sha`.
pub open spec fn commit_hash(sha: Seq<char>, view: DiffView) -> Seq<char> {
    (if sha.len() == 0 {
        "#!/commit"@
    } else {
        "#!/commit/"@ + encode::encoded(sha)
    }) + diff_view::query_text(view)
}

/// The hash of a tag's page.
pub open spec fn tag_hash(tag: Seq<char>) -> Seq<char> {
    "#!/refs/tags/"@ + encode::encoded(tag)
}

fn with_query(base: String, parts: &Vec<String>) -> (r: String)
    ensures
        r@ == base@ + query_suffix(text::texts(parts@)),
{
    if parts.len() == 0 {
        assert(base@ + Seq::<char>::empty() =~= base@);
        base
    } else {
        let mut out: String = base;
        out.append("?");
        out.append(join_with(parts, "&").as_str());
        assert(out@ =~= base@ + ("?"@ + text::join(text::texts(parts@), "&"@)));
        out
    }
}

fn push_head(parts: &mut Vec<String>, head: Option<&str>)
    ensures
        text::texts(final(parts)@) == text::texts(old(parts)@) + head_part(query::opt_str(head)),
{
    match head {
        Some(head) => {
            parts.push(concat("h=", encode_component(head).as_str()));
        },
        None => {},
    }
    assert(text::texts(parts@) =~= text::texts(old(parts)@) + head_part(query::opt_str(head)));
}

fn path_under(name: &str, path: &str) -> (r: String)
    ensures
        r@ == named_path(name@, path@),
{
    if path.is_empty() {
        name.to_string()
    } else {
        let mut out: String = concat(name, "/");
        out.append(encode_path(path).as_str());
        out
    }
}

/// The URL of a ref's `.tar.gz`. The ref name passed in is the real (decoded)
/// one; the encoding happens here.
pub fn snapshot_url(head: &str) -> (r: String)
    ensures
        r@ == snapshot_hash(head@),
{
    let mut parts: Vec<String> = Vec::new();
    push_head(&mut parts, Some(head));
    assert(text::texts(parts@) =~= head_part(Some(head@)));
    with_query("#!/snapshot".to_string(), &parts)
}

/// The URL for a tree view — a directory listing, or a blob. `path` and `head`
/// are the decoded values; both are encoded here. `render` asks for a blob's
/// rendered form.
pub fn tree_url(path: &str, head: Option<&str>, render: bool) -> (r: String)
    ensures
        r@ == tree_hash(path@, query::opt_str(head), render),
{
    let base = path_under("#!/tree", path);
    let mut parts: Vec<String> = Vec::new();
    push_head(&mut parts, head);
    if render {
        parts.push("render=1".to_string());
    }
    assert(text::texts(parts@) =~= head_part(query::opt_str(head)) + diff_view::when(
        render,
        "render=1"@,
    ));
    with_query(base, &parts)
}

/// The URL for a blame view. `path` and `head` are the decoded values.
pub fn blame_url(path: &str, head: Option<&str>) -> (r: String)
    ensures
        r@ == blame_hash(path@, query::opt_str(head)),
{
    let base = concat("#!/blame/", encode_path(path).as_str());
    let mut parts: Vec<String> = Vec::new();
    push_head(&mut parts, head);
    assert(text::texts(parts@) =~= head_part(query::opt_str(head)));
    with_query(base, &parts)
}

/// The URL for a log view. `path` and `head` are the decoded values; both are
/// encoded here.
pub fn log_url(path: &str, offset: usize, head: Option<&str>, showmsg: bool) -> (r: String)
    ensures
        r@ == log_hash(path@, offset as int, query::opt_str(head), showmsg),
{
    let base = path_under("#!/log", path);
    let mut parts: Vec<String> = Vec::new();
    push_head(&mut parts, head);
    if offset != 0 {
        parts.push(concat("offset=", decimal_text(offset as u64).as_str()));
    }
    assert(text::texts(parts@) =~= head_part(query::opt_str(head)) + diff_view::when(
        offset != 0,
        "offset="@ + number::decimal(offset as nat),
    ));
    if showmsg {
        parts.push("showmsg=1".to_string());
    }
    assert(text::texts(parts@) =~= head_part(query::opt_str(head)) + diff_view::when(
        offset != 0,
        "offset="@ + number::decimal(offset as nat),
    ) + diff_view::when(showmsg, "showmsg=1"@));
    with_query(base, &parts)
}

/// The URL for a commit, viewed with `view`. An empty `sha` names HEAD's
/// commit.
pub fn commit_url(sha: &str, view: DiffView) -> (r: String)
    ensures
        r@ == commit_hash(sha@, view),
{
    let base = if sha.is_empty() {
        "#!/commit".to_string()
    } else {
        concat("#!/commit/", encode_component(sha).as_str())
    };
    concat(base.as_str(), view.query().as_str())
}

/// The URL of a tag's page.
pub fn tag_url(tag: &str) -> (r: String)
    ensures
        r@ == tag_hash(tag@),
{
    concat("#!/refs/tags/", encode_component(tag).as_str())
}

/// A route's name ends at the end of the hash or at a separator, and what follows
/// is its rest; inside a longer word it is no name.
pub proof fn route_names_are_whole_words(prefix: Seq<char>, rest: Seq<char>, seps: Seq<char>)
    ensures
        rest.len() == 0 || seps.contains(rest[0]) ==> route_rest(prefix + rest, prefix, seps)
            == Some(rest),
        rest.len() > 0 && !seps.contains(rest[0]) ==> route_rest(prefix + rest, prefix, seps) is None,
        !prefix.is_prefix_of(rest) ==> route_rest(rest, prefix, seps) is None,
{
    let all = prefix + rest;
    assert(all.subrange(0, prefix.len() as int) =~= prefix);
    assert(all.skip(prefix.len() as int) =~= rest);
}

} // verus!
