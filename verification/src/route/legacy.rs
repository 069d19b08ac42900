//! cgit's and Forgejo's URLs, which name the route in the path rather than the
//! fragment. They are translated into a hash before the router reads them.

use vstd::prelude::*;
use vstd::utf8::*;
use crate::number;
use crate::number::parse_usize;
use crate::render::blob;
use crate::render::blob::has_rendered_form;
use crate::render::log::PAGE_SIZE;
use crate::route;
use crate::route::diff_view;
use crate::route::diff_view::DiffView;
use crate::route::encode;
use crate::route::encode::{decode_component, decode_path};
use crate::route::query;
use crate::route::query::{
    as_opt_str, find_first_value, find_last_filled_value, find_last_value, has_part,
};
use crate::route::round_trip;
use crate::route::RouteModel;
use crate::route::{commit_url, cut_query, log_url, strip_route_prefix, tree_url};
use crate::text;
use crate::text::{
    concat, contains_char, find_text, has_suffix, split_on, split_once, text_eq, trim_end_of,
    trim_start_of, without_prefix,
};

verus! {

/// The repository that a URL's path names, up to and including `.git`, and
/// what trails it.
pub open spec fn repo_split(bare: Seq<char>) -> Option<(Seq<char>, Seq<char>)> {
    match text::find(bare, ".git/"@) {
        Some(i) => Some((bare.take(i + 4), bare.skip(i + 5))),
        None => if ".git"@.is_suffix_of(bare) {
            Some((bare, Seq::empty()))
        } else {
            None
        },
    }
}

/// Split the repository that a URL names from what trails it. `.git` has to
/// end a component, not merely start one.
pub fn split_repo_url<'a>(bare: &'a str) -> (r: Option<(&'a str, &'a str)>)
    ensures
        match r {
            Some((repo, rest)) => repo_split(bare@) == Some((repo@, rest@)),
            None => repo_split(bare@) is None,
        },
{
    let n: usize = bare.unicode_len();
    match find_text(bare, ".git/") {
        Some(i) => {
            proof {
                reveal_strlit(".git/");
                text::lemma_find(bare@, ".git/"@);
                assert(bare@.subrange(0, i + 4) =~= bare@.take(i + 4));
                assert(bare@.subrange(i + 5, n as int) =~= bare@.skip(i + 5));
            }
            Some((bare.substring_char(0, i + 4), bare.substring_char(i + 5, n)))
        },
        None => if has_suffix(bare, ".git") {
            assert(bare@.subrange(n as int, n as int) =~= Seq::<char>::empty());
            Some((bare, bare.substring_char(n, n)))
        } else {
            None
        },
    }
}

/// A URL that names a repository and something under it.
#[derive(Debug, PartialEq)]
pub enum PathRoute {
    /// A route this app has, as the hash naming it.
    Known { repo: String, hash: String },
    /// A route it doesn't, as the path that was asked for.
    Unknown { repo: String, path: String },
}

/// What a [`PathRoute`] says.
pub enum PathModel {
    Known { repo: Seq<char>, hash: Seq<char> },
    Unknown { repo: Seq<char>, path: Seq<char> },
}

impl View for PathRoute {
    type V = PathModel;

    open spec fn view(&self) -> PathModel {
        match self {
            PathRoute::Known { repo, hash } => PathModel::Known { repo: repo@, hash: hash@ },
            PathRoute::Unknown { repo, path } => PathModel::Unknown { repo: repo@, path: path@ },
        }
    }
}

/// What the path and the query of a URL name, where they name something under
/// a repository.
pub open spec fn path_route_of(path: Seq<char>, search: Seq<char>) -> Option<PathModel> {
    match repo_split(path) {
        None => None,
        Some((repo, rest)) => if rest.len() == 0 || rest == "index.html"@ {
            None
        } else {
            Some(
                match path_hash(rest + search) {
                    Some(hash) => PathModel::Known { repo: repo + "/"@, hash },
                    None => PathModel::Unknown { repo: repo + "/"@, path: rest + search },
                },
            )
        },
    }
}

/// Read the path and the query of a URL as a route, where they name something
/// under a repository.
pub fn path_route(path: &str, search: &str) -> (r: Option<PathRoute>)
    ensures
        match r {
            Some(route) => path_route_of(path@, search@) == Some(route@),
            None => path_route_of(path@, search@) is None,
        },
{
    let (repo, rest) = match split_repo_url(path) {
        Some(pair) => pair,
        None => {
            return None;
        },
    };
    if rest.is_empty() || text_eq(rest, "index.html") {
        return None;
    }
    let repo = concat(repo, "/");
    let path = concat(rest, search);
    Some(
        match path_route_hash(path.as_str()) {
            Some(hash) => PathRoute::Known { repo, hash },
            None => PathRoute::Unknown { repo, path },
        },
    )
}

/// The hash that the path and query trailing the repository name.
pub open spec fn path_hash(rest: Seq<char>) -> Option<Seq<char>> {
    let path = text::trim_end(text::trim_start(text::before(rest, '?'), '/'), '/');
    let query = text::after(rest, '?');
    let slash = seq!['/'];
    if let Some(rest) = route::route_rest(path, "commit"@, slash) {
        commit_path(text::trim_start(rest, '/'), query)
    } else if let Some(rest) = route::route_rest(path, "commits"@, slash) {
        commits_path(text::trim_start(rest, '/'), query)
    } else if let Some(rest) = route::route_rest(path, "log"@, slash) {
        log_path(text::trim_start(rest, '/'), query)
    } else if let Some(rest) = route::route_rest(path, "src"@, slash) {
        src_path(text::trim_start(rest, '/'), query)
    } else if let Some(rest) = route::route_rest(path, "tree"@, slash) {
        tree_path(text::trim_start(rest, '/'), query)
    } else {
        None
    }
}

/// Translate the path and query trailing the repository.
pub fn path_route_hash(rest: &str) -> (r: Option<String>)
    ensures
        query::opt_text(r) == path_hash(rest@),
{
    let (path, query_string) = cut_query(rest);
    let path = trim_end_of(trim_start_of(path, '/'), '/');
    let slash: [char; 1] = ['/'];
    assert(slash@ =~= seq!['/']);
    if let Some(rest) = strip_route_prefix(path, "commit", &slash) {
        return commit_route(trim_start_of(rest, '/'), query_string);
    }
    if let Some(rest) = strip_route_prefix(path, "commits", &slash) {
        return commits_route(trim_start_of(rest, '/'), query_string);
    }
    if let Some(rest) = strip_route_prefix(path, "log", &slash) {
        return log_route(trim_start_of(rest, '/'), query_string);
    }
    if let Some(rest) = strip_route_prefix(path, "src", &slash) {
        return src_route(trim_start_of(rest, '/'), query_string);
    }
    if let Some(rest) = strip_route_prefix(path, "tree", &slash) {
        return tree_route(trim_start_of(rest, '/'), query_string);
    }
    None
}

/// The revision that cgit's `?id=` names.
pub open spec fn id_of(query: Seq<char>) -> Option<Seq<char>> {
    match query::first_value(text::split(query, '&'), "id="@) {
        Some(v) => if v.len() > 0 {
            Some(v)
        } else {
            None
        },
        None => None,
    }
}

/// The revision that a commit URL names, where it names one commit whole:
/// alongside `?id=`, the path scopes the diff to one file.
pub open spec fn commit_revision(rest: Seq<char>, query: Seq<char>) -> Option<Seq<char>> {
    match id_of(query) {
        Some(id) => if rest.len() > 0 {
            None
        } else {
            Some(encode::decoded(id))
        },
        None => Some(encode::decoded(rest)),
    }
}

pub open spec fn commit_path(rest: Seq<char>, query: Seq<char>) -> Option<Seq<char>> {
    match commit_revision(rest, query) {
        Some(rev) => Some(
            route::commit_hash(rev, diff_view::asked_view(text::split(query, '&'))),
        ),
        None => None,
    }
}

/// A commit: Forgejo's `commit/<rev>`, or cgit's `commit/?id=<rev>`.
pub fn commit_route(rest: &str, query: &str) -> (r: Option<String>)
    ensures
        query::opt_text(r) == commit_path(rest@, query@),
{
    let parts = split_on(query, '&');
    let id: Option<&str> = match find_first_value(&parts, "id=") {
        Some(v) => if v.is_empty() {
            None
        } else {
            Some(v)
        },
        None => None,
    };
    let rev = match id {
        // This viewer cannot scope a diff to one file, so such a URL is
        // refused rather than widened.
        Some(id) => {
            if !rest.is_empty() {
                return None;
            }
            id
        },
        None => rest,
    };
    Some(commit_url(decode_component(rev).as_str(), DiffView::parse(query)))
}

/// The revision that cgit's query names: `id=`, or else `h=`.
pub open spec fn id_or_head(query: Seq<char>) -> Option<Seq<char>> {
    let parts = text::split(query, '&');
    match query::last_filled_value(parts, "id="@) {
        Some(id) => Some(encode::decoded(id)),
        None => match query::last_filled_value(parts, "h="@) {
            Some(head) => Some(encode::decoded(head)),
            None => None,
        },
    }
}

fn find_id_or_head(parts: &Vec<String>) -> (r: Option<String>)
    ensures
        query::opt_text(r) == (match query::last_filled_value(text::texts(parts@), "id="@) {
            Some(id) => Some(encode::decoded(id)),
            None => match query::last_filled_value(text::texts(parts@), "h="@) {
                Some(head) => Some(encode::decoded(head)),
                None => None,
            },
        }),
{
    match find_last_filled_value(parts, "id=") {
        Some(id) => Some(decode_component(id)),
        None => match find_last_filled_value(parts, "h=") {
            Some(head) => Some(decode_component(head)),
            None => None,
        },
    }
}

/// Whether a log URL asks for a view this app does not have: a search, or one
/// file followed across renames.
pub open spec fn log_refused(path: Seq<char>, query: Seq<char>) -> bool {
    let parts = text::split(query, '&');
    query::last_filled_value(parts, "q="@) is Some || (parts.contains("follow=1"@) && path.len()
        > 0)
}

/// The number that the last `key` in a query spells, or `default`.
pub open spec fn number_of(parts: Seq<Seq<char>>, key: Seq<char>, default: int) -> int {
    match query::last_value(parts, key) {
        Some(v) => match number::parse_unsigned(v, usize::MAX as int) {
            Some(n) => n,
            None => default,
        },
        None => default,
    }
}

fn find_number(parts: &Vec<String>, key: &str, default: usize) -> (r: usize)
    ensures
        r == number_of(text::texts(parts@), key@, default as int),
{
    match find_last_value(parts, key) {
        Some(v) => match parse_usize(v) {
            Some(n) => n,
            None => default,
        },
        None => default,
    }
}

pub open spec fn log_path(path: Seq<char>, query: Seq<char>) -> Option<Seq<char>> {
    let parts = text::split(query, '&');
    if log_refused(path, query) {
        None
    } else {
        Some(
            route::log_hash(
                encode::decoded_path(path),
                number_of(parts, "ofs="@, 0),
                id_or_head(query),
                parts.contains("showmsg=1"@),
            ),
        )
    }
}

/// cgit's log: `log/<path>`, with the rest in the query — `h=` the ref the page
/// is on, `id=` where the walk starts, `ofs=` the offset, `showmsg=1`.
pub fn log_route(path: &str, query: &str) -> (r: Option<String>)
    ensures
        query::opt_text(r) == log_path(path@, query@),
{
    let parts = split_on(query, '&');
    // cgit's log search, and `--follow`, are views this app doesn't have.
    if find_last_filled_value(&parts, "q=").is_some() {
        return None;
    }
    if has_part(&parts, "follow=1") && !path.is_empty() {
        return None;
    }
    let offset: usize = find_number(&parts, "ofs=", 0);
    let head = find_id_or_head(&parts);
    Some(
        log_url(
            decode_path(path).as_str(),
            offset,
            as_opt_str(&head),
            has_part(&parts, "showmsg=1"),
        ),
    )
}

/// Whether a part asks for pages of a size the log does not have.
pub open spec fn other_page_size(part: Seq<char>) -> bool {
    match text::strip_prefix(part, "limit="@) {
        Some(v) => match number::parse_unsigned(v, usize::MAX as int) {
            Some(n) => n > 0 && n != PAGE_SIZE,
            None => false,
        },
        None => false,
    }
}

/// The offset at which a page begins, counting pages from one.
pub open spec fn page_offset(page: int) -> int {
    let first = if page >= 1 {
        page
    } else {
        1
    };
    if (first - 1) * PAGE_SIZE <= usize::MAX {
        (first - 1) * PAGE_SIZE
    } else {
        usize::MAX as int
    }
}

pub open spec fn commits_path(rest: Seq<char>, query: Seq<char>) -> Option<Seq<char>> {
    let parts = text::split(query, '&');
    match forgejo_split(rest) {
        None => None,
        Some((rev, path)) => if path == "search"@ || exists|i: int|
            0 <= i < parts.len() && other_page_size(#[trigger] parts[i]) {
            None
        } else {
            Some(
                route::log_hash(
                    encode::decoded_path(path),
                    page_offset(number_of(parts, "page="@, 1)),
                    Some(encode::decoded(rev)),
                    false,
                ),
            )
        },
    }
}

fn asks_other_page_size(parts: &Vec<String>) -> (r: bool)
    ensures
        r == exists|i: int|
            0 <= i < parts@.len() && other_page_size(#[trigger] text::texts(parts@)[i]),
{
    let n: usize = parts.len();
    let mut i: usize = 0;
    let ghost all = text::texts(parts@);
    while i < n
        invariant
            n == parts@.len(),
            i <= n,
            all == text::texts(parts@),
            forall|j: int| 0 <= j < i ==> !other_page_size(#[trigger] all[j]),
        decreases n - i,
    {
        if let Some(v) = without_prefix(parts[i].as_str(), "limit=") {
            if let Some(k) = parse_usize(v) {
                if k > 0 && k != PAGE_SIZE {
                    assert(other_page_size(all[i as int]));
                    return true;
                }
            }
        }
        assert(!other_page_size(all[i as int]));
        i = i + 1;
    }
    false
}

/// Forgejo's log: `commits/<branch|tag|commit>/<rev>[/<path>]`, paged by
/// `?page=`. Only the forms whose ref reads without its ref list are taken.
pub fn commits_route(rest: &str, query: &str) -> (r: Option<String>)
    ensures
        query::opt_text(r) == commits_path(rest@, query@),
{
    let (rev, path) = match forgejo_ref(rest) {
        Some(pair) => pair,
        None => {
            return None;
        },
    };
    // Forgejo reads this one path as commit search rather than a file, and
    // there is no such view here.
    if text_eq(path, "search") {
        return None;
    }
    let parts = split_on(query, '&');
    // A page size this app has no way to render.
    if asks_other_page_size(&parts) {
        return None;
    }
    let page: usize = find_number(&parts, "page=", 1);
    let first: usize = if page >= 1 {
        page
    } else {
        1
    };
    let offset: usize = match (first - 1).checked_mul(PAGE_SIZE) {
        Some(n) => n,
        None => usize::MAX,
    };
    Some(
        log_url(
            decode_path(path).as_str(),
            offset,
            Some(decode_component(rev).as_str()),
            false,
        ),
    )
}

/// The revision and the path in Forgejo's `<branch|tag|commit>/<rev>[/<path>]`,
/// where telling the two apart needs no ref list.
pub open spec fn forgejo_split(rest: Seq<char>) -> Option<(Seq<char>, Seq<char>)> {
    let kind = text::before(rest, '/');
    let tail = text::after(rest, '/');
    if !rest.contains('/') {
        None
    } else if kind == "commit"@ {
        if 4 <= encode_utf8(text::before(tail, '/')).len() <= 64 {
            Some((text::before(tail, '/'), text::after(tail, '/')))
        } else {
            None
        }
    } else if (kind == "branch"@ || kind == "tag"@) && tail.len() > 0 && !tail.contains('/') {
        Some((tail, Seq::empty()))
    } else {
        None
    }
}

/// The revision and the path in Forgejo's `<branch|tag|commit>/<rev>[/<path>]`,
/// or `None` where telling the two apart would need its own ref list.
pub fn forgejo_ref<'a>(rest: &'a str) -> (r: Option<(&'a str, &'a str)>)
    ensures
        match r {
            Some((rev, path)) => forgejo_split(rest@) == Some((rev@, path@)),
            None => forgejo_split(rest@) is None,
        },
{
    let (kind, tail) = match split_once(rest, '/') {
        Some(pair) => pair,
        None => {
            return None;
        },
    };
    let n: usize = tail.unicode_len();
    let nothing = tail.substring_char(n, n);
    assert(nothing@ =~= Seq::<char>::empty());
    if text_eq(kind, "commit") {
        proof {
            text::lemma_first_index(tail@, '/');
        }
        let (rev, path) = match split_once(tail, '/') {
            Some(pair) => pair,
            None => (tail, nothing),
        };
        // The lengths an id may have, as Forgejo bounds them: four to a full
        // sha256. Whether it names an object is resolved later.
        let len: usize = rev.as_bytes().len();
        return if 4 <= len && len <= 64 {
            Some((rev, path))
        } else {
            None
        };
    }
    // A name may contain '/', so past one segment the name and the path cannot
    // be told apart without the ref list. One segment is the name.

    if (text_eq(kind, "branch") || text_eq(kind, "tag")) && !tail.is_empty() && !contains_char(
        tail,
        '/',
    ) {
        return Some((tail, nothing));
    }
    None
}

pub open spec fn tree_path(path: Seq<char>, query: Seq<char>) -> Option<Seq<char>> {
    Some(route::tree_hash(encode::decoded_path(path), id_or_head(query), false))
}

/// cgit's tree: `tree/<path>`, with `h=` the ref the page is on and `id=` the
/// revision to read it at, which wins as it does in the log.
pub fn tree_route(path: &str, query: &str) -> (r: Option<String>)
    ensures
        query::opt_text(r) == tree_path(path@, query@),
{
    let parts = split_on(query, '&');
    let head = find_id_or_head(&parts);
    // cgit shows a file as its source, which is this app's own default.
    Some(tree_url(decode_path(path).as_str(), as_opt_str(&head), false))
}

pub open spec fn src_path(rest: Seq<char>, query: Seq<char>) -> Option<Seq<char>> {
    match forgejo_split(rest) {
        None => None,
        Some((rev, path)) => {
            let path = encode::decoded_path(path);
            let source = text::split(query, '&').contains("display=source"@);
            Some(
                route::tree_hash(
                    path,
                    Some(encode::decoded(rev)),
                    !source && (blob::markdown_name(path) || blob::svg_name(path)),
                ),
            )
        },
    }
}

/// Forgejo's tree: `src/<branch|tag|commit>/<rev>[/<path>]`. A file it has a
/// rendered form of is shown rendered unless `?display=source` asks otherwise.
pub fn src_route(rest: &str, query: &str) -> (r: Option<String>)
    ensures
        query::opt_text(r) == src_path(rest@, query@),
{
    let (rev, path) = match forgejo_ref(rest) {
        Some(pair) => pair,
        None => {
            return None;
        },
    };
    let path = decode_path(path);
    let parts = split_on(query, '&');
    let source = has_part(&parts, "display=source");
    let render = !source && has_rendered_form(path.as_str());
    Some(tree_url(path.as_str(), Some(decode_component(rev).as_str()), render))
}

/// A commit's URL becomes a hash that parses back as the commit it named.
pub proof fn commit_path_names_the_commit(rest: Seq<char>, query: Seq<char>)
    ensures
        match (commit_revision(rest, query), commit_path(rest, query)) {
            (Some(rev), Some(hash)) => route::route_of(hash) == ({
                let view = diff_view::url_view(
                    diff_view::asked_view(text::split(query, '&')),
                );
                if rev.len() == 0 {
                    RouteModel::CommitHead(view)
                } else {
                    RouteModel::Commit(rev, view)
                }
            }),
            (None, None) => true,
            _ => false,
        },
{
    match commit_revision(rest, query) {
        Some(rev) => {
            round_trip::commit_url_round_trips(
                rev,
                diff_view::asked_view(text::split(query, '&')),
            );
        },
        None => {},
    }
}

/// A log's URL becomes a hash that parses back as that page of that log.
pub proof fn log_path_names_the_log(path: Seq<char>, query: Seq<char>)
    requires
        round_trip::plain_path(encode::decoded_path(path)),
        round_trip::plain_head(id_or_head(query)),
    ensures
        match log_path(path, query) {
            Some(hash) => !log_refused(path, query) && route::route_of(hash) == (RouteModel::Log {
                offset: number_of(text::split(query, '&'), "ofs="@, 0),
                head: id_or_head(query),
                path: encode::decoded_path(path),
                showmsg: text::split(query, '&').contains("showmsg=1"@),
            }),
            None => log_refused(path, query),
        },
{
    let parts = text::split(query, '&');
    lemma_number_of(parts, "ofs="@, 0);
    round_trip::log_url_round_trips(
        encode::decoded_path(path),
        number_of(parts, "ofs="@, 0),
        id_or_head(query),
        parts.contains("showmsg=1"@),
    );
}

proof fn lemma_number_of(parts: Seq<Seq<char>>, key: Seq<char>, default: int)
    requires
        0 <= default <= usize::MAX,
    ensures
        0 <= number_of(parts, key, default) <= usize::MAX,
{
    match query::last_value(parts, key) {
        Some(v) => {
            number::lemma_parse_range(v, usize::MAX as int);
        },
        None => {},
    }
}

/// A tree's URL becomes a hash that parses back as that tree.
pub proof fn tree_path_names_the_tree(path: Seq<char>, query: Seq<char>)
    requires
        round_trip::plain_path(encode::decoded_path(path)),
        round_trip::plain_head(id_or_head(query)),
    ensures
        tree_path(path, query) is Some,
        route::route_of(tree_path(path, query)->0) == (RouteModel::Tree {
            path: encode::decoded_path(path),
            head: id_or_head(query),
            render: false,
        }),
{
    round_trip::tree_url_round_trips(encode::decoded_path(path), id_or_head(query), false);
}

/// Forgejo's log URL becomes a hash that parses back as the log of the
/// revision and file it named.
pub proof fn commits_path_names_the_log(
    rest: Seq<char>,
    query: Seq<char>,
    rev: Seq<char>,
    path: Seq<char>,
)
    requires
        forgejo_split(rest) == Some((rev, path)),
        encode::decoded(rev).len() > 0,
        round_trip::plain_path(encode::decoded_path(path)),
    ensures
        commits_path(rest, query) matches Some(hash) ==> route::route_of(hash) == (
        RouteModel::Log {
            offset: page_offset(number_of(text::split(query, '&'), "page="@, 1)),
            head: Some(encode::decoded(rev)),
            path: encode::decoded_path(path),
            showmsg: false,
        }),
{
    let parts = text::split(query, '&');
    lemma_number_of(parts, "page="@, 1);
    round_trip::log_url_round_trips(
        encode::decoded_path(path),
        page_offset(number_of(parts, "page="@, 1)),
        Some(encode::decoded(rev)),
        false,
    );
}

/// Forgejo's tree URL becomes a hash that parses back as the file it named, at
/// the revision it named.
pub proof fn src_path_names_the_tree(
    rest: Seq<char>,
    query: Seq<char>,
    rev: Seq<char>,
    path: Seq<char>,
)
    requires
        forgejo_split(rest) == Some((rev, path)),
        encode::decoded(rev).len() > 0,
        round_trip::plain_path(encode::decoded_path(path)),
    ensures
        src_path(rest, query) is Some,
        route::route_of(src_path(rest, query)->0) == (RouteModel::Tree {
            path: encode::decoded_path(path),
            head: Some(encode::decoded(rev)),
            render: !text::split(query, '&').contains("display=source"@) && (blob::markdown_name(
                encode::decoded_path(path),
            ) || blob::svg_name(encode::decoded_path(path))),
        }),
{
    let path = encode::decoded_path(path);
    let source = text::split(query, '&').contains("display=source"@);
    round_trip::tree_url_round_trips(
        path,
        Some(encode::decoded(rev)),
        !source && (blob::markdown_name(path) || blob::svg_name(path)),
    );
}

/// A repository's path ends in the first `.git` that a slash or the end follows,
/// and what is asked of it follows that.
pub proof fn repositories_end_in_git(front: Seq<char>, rest: Seq<char>)
    requires
        text::find(front + seq!['.', 'g', 'i', 't'], seq!['.', 'g', 'i', 't', '/']) is None,
    ensures
        repo_split(front + seq!['.', 'g', 'i', 't', '/'] + rest) == Some(
            (front + seq!['.', 'g', 'i', 't'], rest),
        ),
        repo_split(front + seq!['.', 'g', 'i', 't']) == Some(
            (front + seq!['.', 'g', 'i', 't'], Seq::<char>::empty()),
        ),
{
    reveal_strlit(".git");
    reveal_strlit(".git/");
    let git = seq!['.', 'g', 'i', 't'];
    let mark = seq!['.', 'g', 'i', 't', '/'];
    assert(".git"@ =~= git);
    assert(".git/"@ =~= mark);
    lemma_git_found(front, rest);
    let s = front + mark + rest;
    let n = front.len() as int;
    assert(s.take(n + 4) =~= front + git);
    assert(s.skip(n + 5) =~= rest);
    text::lemma_suffix(front, git, front);
}

proof fn lemma_git_found(front: Seq<char>, rest: Seq<char>)
    requires
        text::find(front + seq!['.', 'g', 'i', 't'], seq!['.', 'g', 'i', 't', '/']) is None,
    ensures
        text::find(front + seq!['.', 'g', 'i', 't', '/'] + rest, seq!['.', 'g', 'i', 't', '/'])
            == Some(front.len() as int),
    decreases front.len(),
{
    let git = seq!['.', 'g', 'i', 't'];
    let mark = seq!['.', 'g', 'i', 't', '/'];
    let s = front + mark + rest;
    if front.len() == 0 {
        assert(s.subrange(0, 5) =~= mark);
    } else {
        let short = front + git;
        assert(!mark.is_prefix_of(s)) by {
            assert(short.subrange(0, 5) =~= s.subrange(0, 5));
        }
        assert(short.drop_first() =~= front.drop_first() + git);
        assert(s.drop_first() =~= front.drop_first() + mark + rest);
        lemma_git_found(front.drop_first(), rest);
    }
}

/// What is asked of a repository goes by its first word, the words of cgit and of
/// Forgejo; no other word is known.
pub proof fn words_say_what_is_asked(word: Seq<char>, rest: Seq<char>, query: Seq<char>)
    requires
        word.len() > 0,
        !word.contains('/'),
        !word.contains('?'),
        rest.len() > 0,
        rest[0] != '/',
        rest.last() != '/',
        !rest.contains('?'),
    ensures
        path_hash(word + seq!['/'] + rest + seq!['?'] + query) == (if word == "commit"@ {
            commit_path(rest, query)
        } else if word == "commits"@ {
            commits_path(rest, query)
        } else if word == "log"@ {
            log_path(rest, query)
        } else if word == "src"@ {
            src_path(rest, query)
        } else if word == "tree"@ {
            tree_path(rest, query)
        } else {
            None
        }),
{
    let path = word + seq!['/'] + rest;
    let all = path + seq!['?'] + query;
    let n = path.len() as int;
    assert(!path.contains('?')) by {
        if path.contains('?') {
            let k = path.index_of('?');
            if k < word.len() {
                assert(word[k] == '?');
            } else {
                assert(rest[k - word.len() - 1] == '?');
            }
        }
    }
    assert(all[n] == '?');
    assert forall|j: int| 0 <= j < n implies all[j] != '?' by {
        assert(all[j] == path[j]);
        assert(path.contains(path[j]));
    }
    text::lemma_first_index_is(all, '?', n);
    assert(text::before(all, '?') =~= path);
    assert(text::after(all, '?') =~= query);
    assert(path[0] == word[0]);
    assert(word.contains(word[0]));
    assert(path.last() == rest.last());
    assert(text::trim_start(path, '/') == path);
    assert(text::trim_end(path, '/') == path);
    lemma_word(word, rest, "commit"@);
    lemma_word(word, rest, "commits"@);
    lemma_word(word, rest, "log"@);
    lemma_word(word, rest, "src"@);
    lemma_word(word, rest, "tree"@);
    let tail = seq!['/'] + rest;
    assert(tail.drop_first() =~= rest);
    assert(text::trim_start(tail, '/') == text::trim_start(rest, '/'));
}

proof fn lemma_word(word: Seq<char>, rest: Seq<char>, name: Seq<char>)
    requires
        !word.contains('/'),
        name == "commit"@ || name == "commits"@ || name == "log"@ || name == "src"@ || name
            == "tree"@,
    ensures
        route::route_rest(word + seq!['/'] + rest, name, seq!['/']) == (if word == name {
            Some(seq!['/'] + rest)
        } else {
            None
        }),
{
    reveal_strlit("commit");
    reveal_strlit("commits");
    reveal_strlit("log");
    reveal_strlit("src");
    reveal_strlit("tree");
    let path = word + seq!['/'] + rest;
    let slash = seq!['/'];
    assert(slash[0] == '/');
    let n = name.len() as int;
    text::lemma_prefix(name, path);
    assert(forall|i: int| 0 <= i < n ==> name[i] != '/');
    if word == name {
        assert(path.skip(n) =~= seq!['/'] + rest);
        assert(slash.contains((seq!['/'] + rest)[0]));
        assert forall|i: int| 0 <= i < n implies path[i] == name[i] by {}
    } else if name.is_prefix_of(path) {
        if n > word.len() {
            assert(path[word.len() as int] == '/');
            assert(name[word.len() as int] == '/');
        } else if n == word.len() {
            assert(word =~= name);
        } else {
            let behind = path.skip(n);
            assert(behind[0] == word[n]);
            assert(word.contains(word[n]));
            if slash.contains(behind[0]) {
                let k = slash.index_of(behind[0]);
                assert(slash[k] == '/');
            }
        }
    }
}

/// Forgejo names a branch or a tag in one part, and a commit by four characters
/// and up to sixty-four, with a path behind it.
pub proof fn forgejo_names_revisions(rev: Seq<char>, path: Seq<char>)
    requires
        !rev.contains('/'),
    ensures
        rev.len() > 0 ==> forgejo_split("branch"@ + seq!['/'] + rev) == Some(
            (rev, Seq::<char>::empty()),
        ),
        rev.len() > 0 ==> forgejo_split("tag"@ + seq!['/'] + rev) == Some(
            (rev, Seq::<char>::empty()),
        ),
        forgejo_split("branch"@ + seq!['/'] + rev + seq!['/'] + path) is None,
        forgejo_split("tag"@ + seq!['/'] + rev + seq!['/'] + path) is None,
        4 <= encode_utf8(rev).len() <= 64 ==> forgejo_split("commit"@ + seq!['/'] + rev) == Some(
            (rev, Seq::<char>::empty()),
        ),
        4 <= encode_utf8(rev).len() <= 64 ==> forgejo_split(
            "commit"@ + seq!['/'] + rev + seq!['/'] + path,
        ) == Some((rev, path)),
        !(4 <= encode_utf8(rev).len() <= 64) ==> forgejo_split("commit"@ + seq!['/'] + rev) is None,
        forgejo_split(rev) is None,
{
    reveal_strlit("branch");
    reveal_strlit("tag");
    reveal_strlit("commit");
    assert("branch"@[0] == 'b' && "tag"@[0] == 't' && "commit"@[0] == 'c');
    let tail = rev + seq!['/'] + path;
    lemma_kind("branch"@, rev);
    lemma_kind("tag"@, rev);
    lemma_kind("commit"@, rev);
    lemma_kind("branch"@, tail);
    lemma_kind("tag"@, tail);
    lemma_kind("commit"@, tail);
    assert("branch"@ + seq!['/'] + rev + seq!['/'] + path =~= "branch"@ + seq!['/'] + tail);
    assert("tag"@ + seq!['/'] + rev + seq!['/'] + path =~= "tag"@ + seq!['/'] + tail);
    assert("commit"@ + seq!['/'] + rev + seq!['/'] + path =~= "commit"@ + seq!['/'] + tail);
    assert(tail[rev.len() as int] == '/');
    lemma_kind(rev, path);
    text::lemma_first_index(rev, '/');
    assert(rev.take(rev.len() as int) =~= rev);
}

proof fn lemma_kind(kind: Seq<char>, tail: Seq<char>)
    requires
        !kind.contains('/'),
    ensures
        (kind + seq!['/'] + tail).contains('/'),
        text::before(kind + seq!['/'] + tail, '/') == kind,
        text::after(kind + seq!['/'] + tail, '/') == tail,
{
    let s = kind + seq!['/'] + tail;
    let n = kind.len() as int;
    assert(s[n] == '/');
    assert forall|j: int| 0 <= j < n implies s[j] != '/' by {
        assert(s[j] == kind[j]);
        assert(kind.contains(kind[j]));
    }
    text::lemma_first_index_is(s, '/', n);
    assert(s.take(n) =~= kind);
    assert(s.skip(n + 1) =~= tail);
}

/// Pages are counted from one, fifty commits each, and no other size is taken.
pub proof fn pages_are_counted_from_one(page: int, n: nat)
    requires
        page >= 0,
        n <= usize::MAX,
    ensures
        page <= 1 ==> page_offset(page) == 0,
        1 <= page && 50 * page <= usize::MAX ==> page_offset(page) == 50 * (page - 1),
        other_page_size("limit="@ + number::decimal(n)) <==> n != 0 && n != 50,
        !other_page_size("page="@ + number::decimal(n)),
{
    reveal_strlit("limit=");
    reveal_strlit("page=");
    let part = "limit="@ + number::decimal(n);
    assert(part.subrange(0, 6) =~= "limit="@);
    assert(part.skip(6) =~= number::decimal(n));
    number::decimal_text_parses_back(n, usize::MAX as int);
    let other = "page="@ + number::decimal(n);
    assert(other[0] == 'p');
    assert("limit="@[0] == 'l');
    text::lemma_other_beginning("limit="@, other);
}

/// The revision of a cgit page is its `id=`, and its `h=` where it has none,
/// whichever of them stands first.
pub proof fn ids_come_before_heads(id: Seq<char>, head: Seq<char>)
    requires
        id.len() > 0,
        head.len() > 0,
        !id.contains('&'),
        !head.contains('&'),
    ensures
        id_or_head("id="@ + id) == Some(encode::decoded(id)),
        id_or_head("h="@ + head) == Some(encode::decoded(head)),
        id_or_head("id="@ + id + seq!['&'] + ("h="@ + head)) == Some(encode::decoded(id)),
        id_or_head("h="@ + head + seq!['&'] + ("id="@ + id)) == Some(encode::decoded(id)),
        id_or_head(Seq::empty()) is None,
{
    reveal_strlit("id=");
    reveal_strlit("h=");
    assert("id="@[0] == 'i' && "h="@[0] == 'h');
    let a = "id="@ + id;
    let b = "h="@ + head;
    assert(!a.contains('&')) by {
        if a.contains('&') {
            let k = a.index_of('&');
            if k >= 3 {
                assert(id[k - 3] == '&');
            }
        }
    }
    assert(!b.contains('&')) by {
        if b.contains('&') {
            let k = b.index_of('&');
            if k >= 2 {
                assert(head[k - 2] == '&');
            }
        }
    }
    lemma_one_part(a);
    lemma_one_part(b);
    lemma_two_parts(a, b);
    lemma_two_parts(b, a);
    text::lemma_other_beginning("id="@, b);
    text::lemma_other_beginning("h="@, a);
    query::parameters_are_read_by_their_key(seq![a], "id="@, id, 0);
    query::parameters_are_read_by_their_key(seq![b], "h="@, head, 0);
    query::missing_parameters_say_nothing(seq![b], "id="@);
    query::parameters_are_read_by_their_key(seq![a, b], "id="@, id, 0);
    query::parameters_are_read_by_their_key(seq![b, a], "id="@, id, 1);
    let none = Seq::<char>::empty();
    lemma_one_part(none);
    text::lemma_other_beginning("id="@, none);
    text::lemma_other_beginning("h="@, none);
    query::missing_parameters_say_nothing(seq![none], "id="@);
    query::missing_parameters_say_nothing(seq![none], "h="@);
}

proof fn lemma_one_part(a: Seq<char>)
    requires
        !a.contains('&'),
    ensures
        text::split(a, '&') == seq![a],
{
    text::lemma_first_index(a, '&');
    assert(text::split(a, '&') =~= seq![a]);
}

proof fn lemma_two_parts(a: Seq<char>, b: Seq<char>)
    requires
        !a.contains('&'),
        !b.contains('&'),
    ensures
        text::split(a + seq!['&'] + b, '&') == seq![a, b],
{
    let s = a + seq!['&'] + b;
    let n = a.len() as int;
    assert(s[n] == '&');
    assert forall|j: int| 0 <= j < n implies s[j] != '&' by {
        assert(s[j] == a[j]);
        assert(a.contains(a[j]));
    }
    text::lemma_first_index_is(s, '&', n);
    assert(text::before(s, '&') =~= a);
    assert(text::after(s, '&') =~= b);
    lemma_one_part(b);
    assert(text::split(s, '&') =~= seq![a, b]);
}

/// A log is refused only where it is searched, or one file of it followed.
pub proof fn logs_are_refused_only_for_searches(path: Seq<char>, query: Seq<char>)
    requires
        forall|j: int|
            0 <= j < text::split(query, '&').len() ==> !"q="@.is_prefix_of(
                #[trigger] text::split(query, '&')[j],
            ),
        path.len() == 0 || !text::split(query, '&').contains("follow=1"@),
    ensures
        !log_refused(path, query),
        log_path(path, query) is Some,
{
    query::missing_parameters_say_nothing(text::split(query, '&'), "q="@);
}

/// Forgejo's log is refused only where it is searched or asked for in other
/// pages.
pub proof fn forgejo_logs_are_refused_only_for_searches(
    rest: Seq<char>,
    query: Seq<char>,
    rev: Seq<char>,
    path: Seq<char>,
)
    requires
        forgejo_split(rest) == Some((rev, path)),
        path != "search"@,
        forall|j: int|
            0 <= j < text::split(query, '&').len() ==> !"limit="@.is_prefix_of(
                #[trigger] text::split(query, '&')[j],
            ),
    ensures
        commits_path(rest, query) is Some,
        src_path(rest, query) is Some,
{
    let parts = text::split(query, '&');
    assert forall|i: int| 0 <= i < parts.len() implies !other_page_size(#[trigger] parts[i]) by {
        assert(!"limit="@.is_prefix_of(parts[i]));
    }
}

/// A commit is named by its path, or by its `id=` where it has no path; with both
/// it names one file's diff, which there is no view of.
pub proof fn commits_are_named_by_path_or_id(rest: Seq<char>, id: Seq<char>)
    requires
        id.len() > 0,
        !id.contains('&'),
    ensures
        commit_revision(rest, Seq::empty()) == Some(encode::decoded(rest)),
        commit_revision(Seq::empty(), "id="@ + id) == Some(encode::decoded(id)),
        rest.len() > 0 ==> commit_revision(rest, "id="@ + id) is None,
{
    reveal_strlit("id=");
    assert("id="@[0] == 'i');
    let a = "id="@ + id;
    assert(!a.contains('&')) by {
        if a.contains('&') {
            let k = a.index_of('&');
            if k >= 3 {
                assert(id[k - 3] == '&');
            }
        }
    }
    lemma_one_part(a);
    query::parameters_are_read_by_their_key(seq![a], "id="@, id, 0);
    let none = Seq::<char>::empty();
    lemma_one_part(none);
    text::lemma_other_beginning("id="@, none);
    query::missing_parameters_say_nothing(seq![none], "id="@);
}

/// A number in a query is read wherever its parameter stands, the last of them,
/// and the default where there is none.
pub proof fn numbers_are_read_from_queries(
    parts: Seq<Seq<char>>,
    key: Seq<char>,
    n: nat,
    default: int,
    i: int,
)
    requires
        n <= usize::MAX,
    ensures
        0 <= i < parts.len() && parts[i] == key + number::decimal(n) && (forall|j: int|
            i < j < parts.len() ==> !key.is_prefix_of(#[trigger] parts[j])) ==> number_of(
            parts,
            key,
            default,
        ) == n,
        (forall|j: int| 0 <= j < parts.len() ==> !key.is_prefix_of(#[trigger] parts[j]))
            ==> number_of(parts, key, default) == default,
{
    number::decimal_text_parses_back(n, usize::MAX as int);
    if 0 <= i < parts.len() && parts[i] == key + number::decimal(n) {
        query::parameters_are_read_by_their_key(parts, key, number::decimal(n), i);
    }
    if forall|j: int| 0 <= j < parts.len() ==> !key.is_prefix_of(#[trigger] parts[j]) {
        query::missing_parameters_say_nothing(parts, key);
    }
}

/// What is asked of a repository in a URL's path is known by its hash or passed
/// on as it is; the repository's own page asks nothing.
pub proof fn paths_below_repositories_are_routes(
    front: Seq<char>,
    rest: Seq<char>,
    search: Seq<char>,
)
    requires
        text::find(front + seq!['.', 'g', 'i', 't'], seq!['.', 'g', 'i', 't', '/']) is None,
    ensures
        ({
            let repo = front + seq!['.', 'g', 'i', 't'];
            let named = path_route_of(repo + seq!['/'] + rest, search);
            &&& rest.len() == 0 || rest == "index.html"@ ==> named is None
            &&& rest.len() > 0 && rest != "index.html"@ ==> (match path_hash(rest + search) {
                Some(hash) => named == Some(PathModel::Known { repo: repo + seq!['/'], hash }),
                None => named == Some(
                    PathModel::Unknown { repo: repo + seq!['/'], path: rest + search },
                ),
            })
            &&& path_route_of(repo, search) is None
        }),
{
    reveal_strlit("/");
    assert("/"@ =~= seq!['/']);
    repositories_end_in_git(front, rest);
    let repo = front + seq!['.', 'g', 'i', 't'];
    assert(repo + seq!['/'] + rest =~= front + seq!['.', 'g', 'i', 't', '/'] + rest);
}

/// Pages are refused by their size where it is a number, and neither none nor
/// fifty, the size that there is.
pub proof fn only_pages_of_fifty_are_shown(n: nat, words: Seq<char>)
    requires
        n <= usize::MAX,
    ensures
        other_page_size("limit="@ + number::decimal(n)) <==> n != 0 && n != 50,
        number::parse_unsigned(words, usize::MAX as int) is None ==> !other_page_size(
            "limit="@ + words,
        ),
{
    number::decimal_text_parses_back(n, usize::MAX as int);
    let key = "limit="@;
    let a = key + number::decimal(n);
    let b = key + words;
    assert(a.subrange(0, key.len() as int) =~= key);
    assert(b.subrange(0, key.len() as int) =~= key);
    assert(a.skip(key.len() as int) =~= number::decimal(n));
    assert(b.skip(key.len() as int) =~= words);
}

/// A tree that was asked for is a tree here, at the same path and shown as it is.
pub proof fn trees_are_trees(path: Seq<char>, query: Seq<char>)
    requires
        round_trip::plain_path(encode::decoded_path(path)),
        round_trip::plain_head(id_or_head(query)),
    ensures
        tree_path(path, query) matches Some(hash) && route::route_of(hash) == (RouteModel::Tree {
            path: encode::decoded_path(path),
            head: id_or_head(query),
            render: false,
        }),
{
    round_trip::tree_url_round_trips(encode::decoded_path(path), id_or_head(query), false);
}

/// A log is refused where it is searched for words, and where one file of it, not
/// all of it, is followed.
pub proof fn searches_and_followed_files_are_refused(path: Seq<char>, words: Seq<char>)
    requires
        words.len() > 0,
        !words.contains('&'),
    ensures
        log_refused(path, "q="@ + words),
        path.len() > 0 ==> log_refused(path, "follow=1"@),
        !log_refused(Seq::empty(), "follow=1"@),
{
    reveal_strlit("q=");
    reveal_strlit("follow=1");
    assert("q="@[0] == 'q' && "follow=1"@[0] == 'f');
    let a = "q="@ + words;
    assert(!a.contains('&')) by {
        if a.contains('&') {
            let k = a.index_of('&');
            if k >= 2 {
                assert(words[k - 2] == '&');
            }
        }
    }
    lemma_one_part(a);
    query::parameters_are_read_by_their_key(seq![a], "q="@, words, 0);
    assert(!"follow=1"@.contains('&'));
    lemma_one_part("follow=1"@);
    let one = seq!["follow=1"@];
    assert(one[0] == "follow=1"@);
    text::lemma_prefix("q="@, "follow=1"@);
    query::missing_parameters_say_nothing(one, "q="@);
}

} // verus!
