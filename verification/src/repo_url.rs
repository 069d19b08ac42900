//! Which repository a page's URL names, and what the repository is called.

use vstd::prelude::*;
use crate::route::query;
use crate::text;
use crate::text::{
    find_text,
    has_suffix,
    rfind_char,
    split_on,
    split_once,
    text_eq,
    trim_end_of,
    trim_of,
    trim_start_of,
    without_prefix,
};

verus! {

/// What follows the last `/` of `s`; all of it where there is none.
pub open spec fn last_part(s: Seq<char>) -> Seq<char> {
    s.skip(text::last_index(s, '/') + 1)
}

/// `s` without `.git` at its end, where that is there.
pub open spec fn without_git(s: Seq<char>) -> Seq<char> {
    if ".git"@.is_suffix_of(s) {
        s.take(s.len() - 4)
    } else {
        s
    }
}

/// The repository's own name, from its URL.
pub open spec fn name_in(url: Seq<char>) -> Seq<char> {
    let name = without_git(last_part(text::trim_end(url, '/')));
    if name.len() == 0 {
        "repository"@
    } else {
        name
    }
}

/// The repository's own name, from its URL: the last path component, without
/// the `.git` suffix — `…/public/webgit.git/` becomes `webgit`.
pub fn repo_name(url: &str) -> (r: String)
    ensures
        r@ == name_in(url@),
{
    let trimmed = trim_end_of(url, '/');
    let len: usize = trimmed.unicode_len();
    proof {
        text::lemma_last_index(trimmed@, '/');
        reveal_strlit(".git");
    }
    let last = match rfind_char(trimmed, '/') {
        Some(i) => trimmed.substring_char(i + 1, len),
        None => trimmed,
    };
    proof {
        assert(last@ =~= last_part(trimmed@));
    }
    let name = if has_suffix(last, ".git") {
        let n: usize = last.unicode_len();
        let name = last.substring_char(0, n - 4);
        proof {
            assert(name@ =~= last@.take(last@.len() - 4));
        }
        name
    } else {
        last
    };
    if name.is_empty() {
        "repository".to_string()
    } else {
        name.to_string()
    }
}

/// `url` without its scheme, where it has one.
pub open spec fn without_scheme(url: Seq<char>) -> Seq<char> {
    match text::find(url, "://"@) {
        Some(i) => url.skip(i + 3),
        None => url,
    }
}

/// `s` without its host: everything up to the first `/`. With no `/`, there is
/// no host in it.
pub open spec fn without_host(s: Seq<char>) -> Seq<char> {
    if s.contains('/') {
        text::after(s, '/')
    } else {
        s
    }
}

/// The path portion of a URL.
pub open spec fn path_in(url: Seq<char>) -> Seq<char> {
    text::trim(without_host(without_scheme(url)), '/')
}

/// The path portion of the repository URL, used as its display name —
/// e.g. `https://git.example.com/public/webgit.git/` becomes
/// `public/webgit.git`.
pub fn repo_path(url: &str) -> (r: String)
    ensures
        r@ == path_in(url@),
{
    let len: usize = url.unicode_len();
    proof {
        text::lemma_find(url@, "://"@);
        reveal_strlit("://");
    }
    let rest = match find_text(url, "://") {
        Some(i) => url.substring_char(i + 3, len),
        None => url,
    };
    proof {
        assert(rest@ =~= without_scheme(url@));
        text::lemma_first_index(rest@, '/');
    }
    let path = match split_once(rest, '/') {
        Some((_, path)) => path,
        None => rest,
    };
    trim_of(path, '/').to_string()
}

/// The name a page goes by when it has a prefix: what is in front of the first
/// `/`, and what is behind it.
pub fn split_name(name: &str) -> (r: Option<(String, String)>)
    ensures
        match r {
            Some((prefix, rest)) => name@.contains('/') && prefix@ == text::before(name@, '/')
                && rest@ == text::after(name@, '/'),
            None => !name@.contains('/'),
        },
{
    proof {
        text::lemma_first_index(name@, '/');
    }
    match split_once(name, '/') {
        Some((prefix, rest)) => Some((prefix.to_string(), rest.to_string())),
        None => None,
    }
}

/// A page's URL without its query and its fragment.
pub open spec fn bare(href: Seq<char>) -> Seq<char> {
    text::before(text::before(href, '?'), '#')
}

/// The repository that a page's URL names: where its path ends in `.git`, with
/// or without a slash behind, the URL itself.
pub open spec fn named_by(href: Seq<char>) -> Option<Seq<char>> {
    if ".git"@.is_suffix_of(bare(href)) || ".git/"@.is_suffix_of(bare(href)) {
        Some(text::trim_end(bare(href), '/'))
    } else {
        None
    }
}

fn cut_at<'a>(s: &'a str, c: char) -> (r: &'a str)
    ensures
        r@ == text::before(s@, c),
{
    proof {
        text::lemma_first_index(s@, c);
    }
    match split_once(s, c) {
        Some((front, _)) => front,
        None => {
            proof {
                assert(text::before(s@, c) =~= s@);
            }
            s
        },
    }
}

/// The repository that a page's URL names.
pub fn repo_from_href(href: &str) -> (r: Option<String>)
    ensures
        query::opt_text(r) == named_by(href@),
{
    let bare = cut_at(cut_at(href, '?'), '#');
    if has_suffix(bare, ".git") || has_suffix(bare, ".git/") {
        Some(trim_end_of(bare, '/').to_string())
    } else {
        None
    }
}

/// Whether a host is the machine itself.
pub fn is_loopback(hostname: &str) -> (r: bool)
    ensures
        r == (hostname@ == "127.0.0.1"@ || hostname@ == "localhost"@),
{
    text_eq(hostname, "127.0.0.1") || text_eq(hostname, "localhost")
}

/// The values of the `url=` parameters among `parts`, in their order.
pub open spec fn url_values(parts: Seq<Seq<char>>) -> Seq<Seq<char>>
    decreases parts.len(),
{
    if parts.len() == 0 {
        Seq::empty()
    } else {
        match text::strip_prefix(parts.last(), "url="@) {
            Some(value) => url_values(parts.drop_last()).push(value),
            None => url_values(parts.drop_last()),
        }
    }
}

/// The values of a query's `url=` parameters, still encoded.
pub fn url_parameters(search: &str) -> (r: Vec<String>)
    ensures
        text::texts(r@) == url_values(text::split(text::trim_start(search@, '?'), '&')),
{
    let parts = split_on(trim_start_of(search, '?'), '&');
    let ghost all = text::texts(parts@);
    let mut out: Vec<String> = Vec::new();
    let mut i: usize = 0;
    proof {
        assert(text::texts(out@) =~= url_values(all.take(0)));
    }
    while i < parts.len()
        invariant
            i <= parts@.len(),
            all == text::texts(parts@),
            text::texts(out@) == url_values(all.take(i as int)),
        decreases parts@.len() - i,
    {
        let ghost was = text::texts(out@);
        proof {
            assert(all.take(i + 1).drop_last() =~= all.take(i as int));
            assert(all.take(i + 1).last() == parts@[i as int]@);
        }
        if let Some(value) = without_prefix(parts[i].as_str(), "url=") {
            out.push(value.to_string());
            assert(text::texts(out@) =~= was.push(value@));
        }
        i = i + 1;
    }
    proof {
        assert(all.take(i as int) =~= all);
    }
    out
}

/// What the value of a parameter says: what it decodes to, or itself where it
/// does not decode.
pub open spec fn said(value: (String, Option<String>)) -> Seq<char> {
    match value.1 {
        Some(decoded) => decoded@,
        None => value.0@,
    }
}

/// The first value that says anything.
pub open spec fn first_said(values: Seq<(String, Option<String>)>) -> Option<Seq<char>>
    decreases values.len(),
{
    if values.len() == 0 {
        None
    } else if said(values[0]).len() > 0 {
        Some(said(values[0]))
    } else {
        first_said(values.drop_first())
    }
}

/// The first value that says anything.
fn find_said(values: &Vec<(String, Option<String>)>) -> (r: Option<String>)
    ensures
        query::opt_text(r) == first_said(values@),
{
    let mut i: usize = 0;
    proof {
        assert(values@.skip(0) =~= values@);
    }
    while i < values.len()
        invariant
            i <= values@.len(),
            first_said(values@) == first_said(values@.skip(i as int)),
        decreases values@.len() - i,
    {
        proof {
            assert(values@.skip(i as int)[0] == values@[i as int]);
            assert(values@.skip(i as int).drop_first() =~= values@.skip(i + 1));
        }
        let value: &String = match &values[i].1 {
            Some(decoded) => decoded,
            None => &values[i].0,
        };
        if !value.as_str().is_empty() {
            return Some(value.clone());
        }
        i = i + 1;
    }
    None
}

/// The repository that a page shows: the one its URL names, or, on a loopback
/// host only, the one a `url=` parameter names. A deployed instance can't be
/// coaxed into fetching arbitrary URLs on a visitor's behalf.
pub fn resolve_repo_url(
    href: Option<&str>,
    hostname: Option<&str>,
    values: &Vec<(String, Option<String>)>,
) -> (r: Option<String>)
    ensures
        query::opt_text(r) == (match href {
            Some(h) if named_by(h@) is Some => named_by(h@),
            _ => match hostname {
                Some(host) if host@ == "127.0.0.1"@ || host@ == "localhost"@ => first_said(
                    values@,
                ),
                _ => None,
            },
        }),
{
    if let Some(h) = href {
        if let Some(url) = repo_from_href(h) {
            return Some(url);
        }
    }
    let loopback = match hostname {
        Some(host) => is_loopback(host),
        None => false,
    };
    if !loopback {
        return None;
    }
    find_said(values)
}

/// Away from a loopback host, the query of a page's URL names no repository:
/// only the path does.
pub proof fn query_names_no_repository(href: Seq<char>, query: Seq<char>)
    requires
        !href.contains('?'),
        !href.contains('#'),
    ensures
        named_by(href + "?"@ + query) == named_by(href),
{
    reveal_strlit("?");
    let whole = href + "?"@ + query;
    assert(whole[href.len() as int] == '?');
    assert forall|j: int| 0 <= j < href.len() implies whole[j] != '?' by {
        assert(href.contains(href[j]));
    }
    text::lemma_first_index_is(whole, '?', href.len() as int);
    assert(text::before(whole, '?') =~= href);
    text::lemma_first_index(href, '?');
    assert(text::before(href, '?') =~= href);
}

/// A repository is called by the last part of its URL, without the slashes and
/// the `.git` that may stand behind it.
pub proof fn repositories_are_called_by_their_last_part(
    front: Seq<char>,
    name: Seq<char>,
    slashes: Seq<char>,
)
    requires
        name.len() > 0,
        !name.contains('/'),
        forall|i: int| 0 <= i < slashes.len() ==> slashes[i] == '/',
    ensures
        name_in(front + seq!['/'] + name + seq!['.', 'g', 'i', 't'] + slashes) == name,
        name_in(name + seq!['.', 'g', 'i', 't'] + slashes) == name,
        !seq!['.', 'g', 'i', 't'].is_suffix_of(name) ==> name_in(front + seq!['/'] + name + slashes)
            == name && name_in(name + slashes) == name,
{
    reveal_strlit(".git");
    let git = seq!['.', 'g', 'i', 't'];
    assert(".git"@ =~= git);
    let full = name + git;
    assert(!full.contains('/')) by {
        if full.contains('/') {
            let k = full.index_of('/');
            if k < name.len() {
                assert(name[k] == '/');
                assert(name.contains(name[k]));
            } else {
                assert(git[k - name.len()] == '/');
            }
        }
    }
    text::lemma_suffix(name, git, name);
    assert(full.take(full.len() - 4) =~= name);
    assert(full.last() == 't');
    assert(name.last() != '/') by {
        assert(name.contains(name.last()));
    }
    lemma_last_part(front, full, slashes);
    lemma_last_part(front, name, slashes);
    assert(front + seq!['/'] + name + git + slashes =~= front + seq!['/'] + full + slashes);
}

proof fn lemma_last_part(front: Seq<char>, name: Seq<char>, slashes: Seq<char>)
    requires
        name.len() > 0,
        !name.contains('/'),
        name.last() != '/',
        forall|i: int| 0 <= i < slashes.len() ==> slashes[i] == '/',
    ensures
        last_part(text::trim_end(front + seq!['/'] + name + slashes, '/')) == name,
        last_part(text::trim_end(name + slashes, '/')) == name,
{
    let url = front + seq!['/'] + name;
    text::lemma_trim_run(url, slashes, '/');
    text::lemma_trim_run(name, slashes, '/');
    text::paths_end_in_their_names(front, name);
}

/// A repository is shown by what follows the host in its URL, without the
/// slashes around that.
pub proof fn repositories_are_shown_by_their_path(
    scheme: Seq<char>,
    host: Seq<char>,
    path: Seq<char>,
    slashes: Seq<char>,
)
    requires
        !scheme.contains(':'),
        !host.contains('/'),
        path.len() > 0 ==> path[0] != '/' && path.last() != '/',
        forall|i: int| 0 <= i < slashes.len() ==> slashes[i] == '/',
    ensures
        path_in(scheme + seq![':', '/', '/'] + host + seq!['/'] + path + slashes) == path,
{
    let rest = host + seq!['/'] + path + slashes;
    assert(scheme + seq![':', '/', '/'] + host + seq!['/'] + path + slashes =~= scheme + seq![
        ':',
        '/',
        '/',
    ] + rest);
    lemma_scheme_off(scheme, rest);
    lemma_host_off(host, path + slashes);
    assert(host + seq!['/'] + (path + slashes) =~= rest);
    lemma_slashes_off(path, slashes);
}

proof fn lemma_scheme_off(scheme: Seq<char>, rest: Seq<char>)
    requires
        !scheme.contains(':'),
    ensures
        without_scheme(scheme + seq![':', '/', '/'] + rest) == rest,
{
    reveal_strlit("://");
    let mark = seq![':', '/', '/'];
    assert("://"@ =~= mark);
    lemma_mark_found(scheme, rest);
    assert((scheme + mark + rest).skip(scheme.len() as int + 3) =~= rest);
}

proof fn lemma_mark_found(scheme: Seq<char>, rest: Seq<char>)
    requires
        !scheme.contains(':'),
    ensures
        text::find(scheme + seq![':', '/', '/'] + rest, seq![':', '/', '/']) == Some(
            scheme.len() as int,
        ),
    decreases scheme.len(),
{
    let mark = seq![':', '/', '/'];
    let url = scheme + mark + rest;
    if scheme.len() == 0 {
        assert(url.subrange(0, 3) =~= mark);
    } else {
        let later = scheme.drop_first();
        assert(scheme.contains(scheme[0]));
        assert(!later.contains(':')) by {
            if later.contains(':') {
                let k = later.index_of(':');
                assert(scheme[k + 1] == ':');
            }
        }
        text::lemma_other_beginning(mark, url);
        assert(url.drop_first() =~= later + mark + rest);
        lemma_mark_found(later, rest);
    }
}

proof fn lemma_host_off(host: Seq<char>, path: Seq<char>)
    requires
        !host.contains('/'),
    ensures
        without_host(host + seq!['/'] + path) == path,
{
    let rest = host + seq!['/'] + path;
    let m = host.len() as int;
    assert(rest[m] == '/');
    assert forall|j: int| 0 <= j < m implies rest[j] != '/' by {
        assert(rest[j] == host[j]);
        assert(host.contains(host[j]));
    }
    text::lemma_first_index_is(rest, '/', m);
    text::lemma_first_index(rest, '/');
    assert(text::after(rest, '/') =~= path);
}

proof fn lemma_slashes_off(path: Seq<char>, slashes: Seq<char>)
    requires
        path.len() > 0 ==> path[0] != '/' && path.last() != '/',
        forall|i: int| 0 <= i < slashes.len() ==> slashes[i] == '/',
    ensures
        text::trim(path + slashes, '/') == path,
{
    if path.len() > 0 {
        assert((path + slashes)[0] == path[0]);
        text::lemma_trim_run(path, slashes, '/');
    } else {
        assert(path + slashes =~= slashes);
        text::only_a_run_is_trimmed_off_the_start(slashes, '/');
        let kept = text::trim_start(slashes, '/');
        if kept.len() > 0 {
            assert(kept[0] == slashes[slashes.len() - kept.len()]);
        }
        assert(kept =~= path);
    }
}

/// A page below a path that ends in `.git` shows that repository, whatever query
/// or fragment follows; below any other path it shows none.
pub proof fn git_paths_name_repositories(path: Seq<char>, rest: Seq<char>)
    requires
        !path.contains('?'),
        !path.contains('#'),
    ensures
        ({
            let git = seq!['.', 'g', 'i', 't'];
            &&& named_by(path + git) == Some(path + git)
            &&& named_by(path + git + seq!['/']) == Some(path + git)
            &&& named_by(path + git + seq!['#'] + rest) == Some(path + git)
            &&& named_by(path + git + seq!['/', '?'] + rest) == Some(path + git)
            &&& !git.is_suffix_of(path) && !(git + seq!['/']).is_suffix_of(path) ==> named_by(path)
                is None && named_by(path + seq!['?'] + rest) is None
        }),
{
    reveal_strlit(".git");
    reveal_strlit(".git/");
    let git = seq!['.', 'g', 'i', 't'];
    assert(".git"@ =~= git);
    assert(".git/"@ =~= git + seq!['/']);
    let full = path + git;
    let slashed = full + seq!['/'];
    assert forall|c: char| (c == '?' || c == '#') implies !full.contains(c) && !slashed.contains(c) by {
        if full.contains(c) {
            let k = full.index_of(c);
            if k < path.len() {
                assert(path[k] == c);
            } else {
                assert(git[k - path.len()] == c);
            }
        }
        if slashed.contains(c) {
            let k = slashed.index_of(c);
            if k < full.len() {
                assert(full[k] == c);
            }
        }
    }
    text::lemma_suffix(path, git, full);
    text::lemma_suffix(path, git + seq!['/'], slashed);
    assert(path + (git + seq!['/']) =~= slashed);
    assert(full.last() == 't');
    text::lemma_trim_run(full, Seq::empty(), '/');
    text::lemma_trim_run(full, seq!['/'], '/');
    assert(full + Seq::<char>::empty() =~= full);
    lemma_bare(full, rest);
    lemma_bare(slashed, rest);
    lemma_bare(path, rest);
    assert(path + git + seq!['/', '?'] + rest =~= slashed + seq!['?'] + rest);
}

proof fn lemma_bare(path: Seq<char>, rest: Seq<char>)
    requires
        !path.contains('?'),
        !path.contains('#'),
    ensures
        bare(path) == path,
        bare(path + seq!['?'] + rest) == path,
        bare(path + seq!['#'] + rest) == path,
{
    let n = path.len() as int;
    text::lemma_first_index(path, '?');
    text::lemma_first_index(path, '#');
    assert(path.take(n) =~= path);
    let asked = path + seq!['?'] + rest;
    assert(asked[n] == '?');
    assert forall|j: int| 0 <= j < n implies asked[j] != '?' by {
        assert(asked[j] == path[j]);
        assert(path.contains(path[j]));
    }
    text::lemma_first_index_is(asked, '?', n);
    assert(asked.take(n) =~= path);
    let marked = path + seq!['#'] + rest;
    text::lemma_first_index(marked, '?');
    let k = text::first_index(marked, '?');
    if k < n {
        assert(marked[k] == path[k]);
        assert(path.contains(path[k]));
    } else if k == n {
        assert(marked[k] == '#');
    }
    let front = text::before(marked, '?');
    assert(front[n] == '#');
    assert forall|j: int| 0 <= j < n implies front[j] != '#' by {
        assert(front[j] == path[j]);
        assert(path.contains(path[j]));
    }
    text::lemma_first_index_is(front, '#', n);
    assert(front.take(n) =~= path);
}

/// Every `url=` parameter is looked at, in its order, and no other parameter.
pub proof fn every_url_parameter_is_read(
    a: Seq<Seq<char>>,
    b: Seq<Seq<char>>,
    value: Seq<char>,
    other: Seq<char>,
)
    ensures
        url_values(a + b) == url_values(a) + url_values(b),
        url_values(seq![seq!['u', 'r', 'l', '='] + value]) == seq![value],
        !seq!['u', 'r', 'l', '='].is_prefix_of(other) ==> url_values(seq![other]).len() == 0,
    decreases b.len(),
{
    reveal_strlit("url=");
    let key = seq!['u', 'r', 'l', '='];
    assert("url="@ =~= key);
    let none = Seq::<Seq<char>>::empty();
    assert(url_values(none) =~= none);
    let one = seq![key + value];
    assert(one.drop_last() =~= none);
    assert((key + value).subrange(0, 4) =~= key);
    assert((key + value).skip(4) =~= value);
    assert(url_values(one) =~= seq![value]);
    assert(seq![other].drop_last() =~= none);
    if b.len() == 0 {
        assert(a + b =~= a);
        assert(url_values(a) + url_values(b) =~= url_values(a));
    } else {
        assert((a + b).drop_last() =~= a + b.drop_last());
        every_url_parameter_is_read(a, b.drop_last(), value, other);
        assert(url_values(a + b) =~= url_values(a) + url_values(b));
    }
}

/// The first parameter that says anything is the one that counts.
pub proof fn first_parameter_that_says_anything_counts(
    values: Seq<(String, Option<String>)>,
    i: int,
)
    requires
        0 <= i < values.len(),
        forall|j: int|
            0 <= j < i ==> (match (#[trigger] values[j]).1 {
                Some(decoded) => decoded@.len() == 0,
                None => values[j].0@.len() == 0,
            }),
    ensures
        values[i].1 matches Some(decoded) && decoded@.len() > 0 ==> first_said(values) == Some(
            values[i].1->0@,
        ),
        values[i].1 is None && values[i].0@.len() > 0 ==> first_said(values) == Some(
            values[i].0@,
        ),
    decreases values.len(),
{
    if i > 0 {
        let rest = values.drop_first();
        assert(said(values[0]).len() == 0);
        assert forall|j: int| 0 <= j < i - 1 implies (match (#[trigger] rest[j]).1 {
            Some(decoded) => decoded@.len() == 0,
            None => rest[j].0@.len() == 0,
        }) by {
            assert(rest[j] == values[j + 1]);
        }
        assert(rest[i - 1] == values[i]);
        first_parameter_that_says_anything_counts(rest, i - 1);
    }
}

/// A URL that names nothing is called a repository: one of slashes alone, or one
/// whose last part is nothing but the ending.
pub proof fn nameless_urls_are_repositories(n: nat, front: Seq<char>)
    ensures
        name_in(Seq::new(n, |i: int| '/')) == "repository"@,
        name_in(front + seq!['/', '.', 'g', 'i', 't']) == "repository"@,
{
    reveal_strlit(".git");
    let none = Seq::<char>::empty();
    lemma_all_slashes(n);
    text::lemma_last_index(none, '/');
    assert(last_part(none) =~= none);
    let ending = seq!['.', 'g', 'i', 't'];
    assert(".git"@ =~= ending);
    let url = front + seq!['/', '.', 'g', 'i', 't'];
    text::lemma_trim_run(url, none, '/');
    assert(url + none =~= url);
    text::lemma_last_index(url, '/');
    let k = text::last_index(url, '/');
    assert(url[front.len() as int] == '/');
    assert(k == front.len());
    assert(last_part(url) =~= ending);
    text::lemma_suffix(none, ending, ending);
    assert(none + ending =~= ending);
    assert(ending.is_suffix_of(ending)) by {
        assert(ending.subrange(0, 4) =~= ending);
    }
    assert(without_git(ending) =~= none);
}

proof fn lemma_all_slashes(n: nat)
    ensures
        text::trim_end(Seq::new(n, |i: int| '/'), '/') == Seq::<char>::empty(),
    decreases n,
{
    let s = Seq::new(n, |i: int| '/');
    if n == 0 {
        assert(s =~= Seq::<char>::empty());
    } else {
        lemma_all_slashes((n - 1) as nat);
        assert(s.drop_last() =~= Seq::new((n - 1) as nat, |i: int| '/'));
    }
}

} // verus!
