//! What stands around a page's content: the tabs, the path bar, and the line
//! that says what has been fetched.

use vstd::prelude::*;
use crate::number;
use crate::number::decimal_text;
use crate::paths;
use crate::render::tree;
use crate::render::tree::head_suffix;
use crate::repo_url;
use crate::repo_url::repo_path;
use crate::route;
use crate::route::encode;
use crate::route::encode::encode_component;
use crate::route::load::{path_components, RefKind};
use crate::route::query;
use crate::route::query::as_opt_str;
use crate::route::round_trip;
use crate::route::{
    active_tab,
    index_url,
    log_url,
    parse_hash,
    parse_index_hash,
    tree_url,
    IndexRoute,
    Route,
    RouteModel,
};
use crate::text;
use crate::text::{concat, concat3, text_eq};

verus! {

/// How long, in milliseconds, the fetch line waits with no new fetches before
/// "Loading…" becomes "Loaded".
pub const STATS_SETTLE_MS: i32 = 200;

/// What the content area shows.
pub enum Shown<'a> {
    Loading,
    /// The repository at this URL.
    Repo(&'a str),
    /// The repository index.
    Index,
    /// What went wrong.
    Error,
}

/// What the page is called: the repository's path, or "repositories" for the
/// index. It has no name while it loads, or where that failed.
pub fn doc_name(shown: Shown<'_>) -> (r: Option<String>)
    ensures
        match shown {
            Shown::Repo(url) => r matches Some(name) && name@ == repo_url::path_in(url@),
            Shown::Index => r matches Some(name) && name@ == "repositories"@,
            Shown::Loading | Shown::Error => r is None,
        },
{
    match shown {
        Shown::Repo(url) => Some(repo_path(url)),
        Shown::Index => Some("repositories".to_string()),
        Shown::Loading | Shown::Error => None,
    }
}

/// The section of the index to scroll to: the one that the hash names, once the
/// listing is there.
pub fn scroll_target(listed: bool, hash: &str) -> (r: Option<String>)
    ensures
        match r {
            Some(section) => {
                &&& listed
                &&& route::index_route_of(hash@) == Some(section@)
                &&& section@.len() > 0
            },
            None => !listed || route::index_route_of(hash@) is None || route::index_route_of(
                hash@,
            ) == Some(Seq::<char>::empty()),
        },
{
    if !listed {
        return None;
    }
    match parse_index_hash(hash) {
        IndexRoute::Listing { section } => {
            if section.as_str().is_empty() {
                assert(section@ =~= Seq::<char>::empty());
                None
            } else {
                Some(section)
            }
        },
        IndexRoute::About => None,
    }
}

/// A tab.
pub struct Tab {
    pub href: String,
    pub label: &'static str,
    /// Whether the route lives under it.
    pub active: bool,
}

/// What a [`Tab`] says.
pub type TabModel = (Seq<char>, Seq<char>, bool);

pub open spec fn tabs_view(tabs: Seq<Tab>) -> Seq<TabModel> {
    tabs.map_values(|t: Tab| (t.href@, t.label@, t.active))
}

/// The head and the path that the tabs stay on.
pub open spec fn scope_of(route: RouteModel) -> (Option<Seq<char>>, Seq<char>) {
    match route {
        RouteModel::Log { head, path, .. } => (head, path),
        RouteModel::Tree { head, path, .. } => (head, path),
        _ => (None, Seq::empty()),
    }
}

/// Whether the route is a log that shows whole messages.
pub open spec fn is_expanded(route: RouteModel) -> bool {
    match route {
        RouteModel::Log { showmsg, .. } => showmsg,
        _ => false,
    }
}

/// A tab of the repository.
pub open spec fn tab(base: Seq<char>, href: Seq<char>, label: Seq<char>, route: RouteModel) -> TabModel {
    (href, label, base == route::tab_of(route))
}

/// The tabs of the repository.
pub open spec fn repo_tabs(route: RouteModel) -> Seq<TabModel> {
    let (head, path) = scope_of(route);
    seq![
        tab("#!/readme"@, "#!/readme"@, "readme"@, route),
        tab("#!/summary"@, "#!/summary"@, "summary"@, route),
        tab("#!/refs"@, "#!/refs"@, "refs"@, route),
        tab("#!/log"@, route::log_hash(path, 0, head, is_expanded(route)), "log"@, route),
        tab("#!/tree"@, route::tree_hash(Seq::empty(), head, false), "tree"@, route),
        tab("#!/commit"@, "#!/commit"@, "commit"@, route),
        tab("#!/about"@, "#!/about"@, "about"@, route),
    ]
}

fn plain_tab(base: &'static str, label: &'static str, active: &str) -> (r: Tab)
    ensures
        (r.href@, r.label@, r.active) == (base@, label@, base@ == active@),
{
    Tab { href: base.to_string(), label, active: text_eq(base, active) }
}

/// The tabs of the repository. The log and the tree stay on the ref that the
/// route is on, and the log on its path and its expanded messages.
pub fn nav_bar(hash: &str) -> (r: Vec<Tab>)
    ensures
        tabs_view(r@) == repo_tabs(route::route_of(hash@)),
{
    let route = parse_hash(hash);
    let (head, path, expanded): (Option<&str>, &str, bool) = match &route {
        Route::Log { head, path, showmsg, .. } => (as_opt_str(head), path.as_str(), *showmsg),
        Route::Tree { head, path, .. } => (as_opt_str(head), path.as_str(), false),
        _ => (None, "", false),
    };
    proof {
        reveal_strlit("");
        assert(""@ =~= Seq::<char>::empty());
    }
    let active = active_tab(&route);
    let mut tabs: Vec<Tab> = Vec::new();
    tabs.push(plain_tab("#!/readme", "readme", active));
    tabs.push(plain_tab("#!/summary", "summary", active));
    tabs.push(plain_tab("#!/refs", "refs", active));
    tabs.push(
        Tab { href: log_url(path, 0, head, expanded), label: "log", active: text_eq("#!/log", active) },
    );
    tabs.push(
        Tab { href: tree_url("", head, false), label: "tree", active: text_eq("#!/tree", active) },
    );
    tabs.push(plain_tab("#!/commit", "commit", active));
    tabs.push(plain_tab("#!/about", "about", active));
    assert(tabs_view(tabs@) =~= repo_tabs(route::route_of(hash@)));
    tabs
}

/// The tabs of the repository index: the listing itself, and the about page.
pub fn index_nav_bar(hash: &str) -> (r: Vec<Tab>)
    ensures
        ({
            let about = route::index_route_of(hash@) is None;
            tabs_view(r@) == seq![
                ("#!/index"@, "index"@, !about),
                ("#!/about"@, "about"@, about),
            ]
        }),
{
    let about = match parse_index_hash(hash) {
        IndexRoute::About => true,
        _ => false,
    };
    proof {
        reveal_strlit("");
    }
    let mut tabs: Vec<Tab> = Vec::new();
    tabs.push(Tab { href: index_url(""), label: "index", active: !about });
    tabs.push(Tab { href: "#!/about".to_string(), label: "about", active: about });
    assert(tabs_view(tabs@) =~= seq![
        ("#!/index"@, "index"@, !about),
        ("#!/about"@, "about"@, about),
    ]);
    tabs
}

/// What the path bar needs to know before it is drawn.
pub enum PathBarPlan {
    /// It stays hidden.
    Hidden,
    /// A trail back out of `path`, behind the label of the revision.
    Crumbs { path: String, head: Option<String> },
    /// The label of the revision alone.
    RefOnly { head: Option<String> },
}

/// The path bar of a route: a trail (a tree, a blame, or a log on a path), the
/// label of the revision (a log of the whole history), or nothing.
pub fn plan_path_bar(hash: &str) -> (r: PathBarPlan)
    ensures
        match route::route_of(hash@) {
            RouteModel::Tree { path: p, head: h, .. } => r matches PathBarPlan::Crumbs {
                path,
                head,
            } && path@ == p && query::opt_text(head) == h,
            RouteModel::Blame { path: p, head: h } => r matches PathBarPlan::Crumbs { path, head }
                && path@ == p && query::opt_text(head) == h,
            RouteModel::Log { path: p, head: h, .. } => if p.len() > 0 {
                r matches PathBarPlan::Crumbs { path, head } && path@ == p && query::opt_text(head)
                    == h
            } else {
                r matches PathBarPlan::RefOnly { head } && query::opt_text(head) == h
            },
            _ => r is Hidden,
        },
{
    match parse_hash(hash) {
        Route::Tree { path, head, .. } => PathBarPlan::Crumbs { path, head },
        // Blame is a way of reading one file in the tree, so it gets the
        // tree's trail.
        Route::Blame { path, head } => PathBarPlan::Crumbs { path, head },
        Route::Log { path, head, .. } => if path.as_str().is_empty() {
            PathBarPlan::RefOnly { head }
        } else {
            PathBarPlan::Crumbs { path, head }
        },
        _ => PathBarPlan::Hidden,
    }
}

/// What kind of revision the label names.
pub fn ref_label(kind: RefKind) -> (r: &'static str)
    ensures
        r@ == kind_word(kind),
{
    match kind {
        RefKind::Tag => "tag",
        RefKind::Branch => "branch",
        RefKind::Commit => "commit",
    }
}

/// What kind of revision the label names.
pub open spec fn kind_word(kind: RefKind) -> Seq<char> {
    match kind {
        RefKind::Tag => "tag"@,
        RefKind::Branch => "branch"@,
        RefKind::Commit => "commit"@,
    }
}

/// The label of a revision.
pub fn ref_text(name: &str, kind: RefKind) -> (r: String)
    ensures
        r@ == kind_word(kind) + ": "@ + name@,
{
    concat3(ref_label(kind), ": ", name)
}

/// A step of the trail.
pub struct Crumb {
    pub href: String,
    pub label: String,
}

/// The root of the trail.
pub fn root_href(head: Option<&str>) -> (r: String)
    ensures
        r@ == "#!/tree"@ + tree::head_query(query::opt_str(head)),
{
    concat("#!/tree", head_suffix(head).as_str())
}

/// The names with each of them encoded.
pub open spec fn encoded_names(names: Seq<Seq<char>>) -> Seq<Seq<char>> {
    names.map_values(|n: Seq<char>| encode::encoded(n))
}

/// The trail along `names`.
pub open spec fn trail(names: Seq<Seq<char>>, suffix: Seq<char>) -> Seq<(Seq<char>, Seq<char>)> {
    Seq::new(
        names.len(),
        |i: int|
            (
                "#!/tree/"@ + text::join(encoded_names(names.take(i + 1)), "/"@) + suffix,
                names[i],
            ),
    )
}

pub open spec fn crumbs_view(crumbs: Seq<Crumb>) -> Seq<(Seq<char>, Seq<char>)> {
    crumbs.map_values(|c: Crumb| (c.href@, c.label@))
}

/// The links of the trail after the root, each leading to the tree so far. The
/// link's text is the name as it really is; only its target is encoded.
pub fn crumb_links(path: &str, suffix: &str) -> (r: Vec<Crumb>)
    ensures
        crumbs_view(r@) == trail(paths::filled(text::split(path@, '/')), suffix@),
{
    let names = path_components(path);
    let ghost all = text::texts(names@);
    let mut so_far = String::new();
    let mut out: Vec<Crumb> = Vec::new();
    let mut i: usize = 0;
    proof {
        assert(encoded_names(all.take(0)) =~= Seq::empty());
        assert(crumbs_view(out@) =~= trail(all, suffix@).take(0));
    }
    while i < names.len()
        invariant
            i <= names@.len(),
            all == text::texts(names@),
            so_far@ == text::join(encoded_names(all.take(i as int)), "/"@),
            crumbs_view(out@) == trail(all, suffix@).take(i as int),
        decreases names@.len() - i,
    {
        let ghost was = crumbs_view(out@);
        let ghost before = encoded_names(all.take(i as int));
        let name = names[i].as_str();
        if i > 0 {
            so_far.append("/");
        }
        so_far.append(encode_component(name).as_str());
        proof {
            assert(encoded_names(all.take(i + 1)) =~= before.push(encode::encoded(name@)));
            if i > 0 {
                text::lemma_join_push(before, encode::encoded(name@), "/"@);
            } else {
                assert(before.push(encode::encoded(name@)) =~= seq![encode::encoded(name@)]);
            }
            assert(so_far@ =~= text::join(encoded_names(all.take(i + 1)), "/"@));
        }
        out.push(
            Crumb {
                href: concat3("#!/tree/", so_far.as_str(), suffix),
                label: name.to_string(),
            },
        );
        proof {
            let step = trail(all, suffix@)[i as int];
            assert(step.1 == name@);
            assert(crumbs_view(out@) =~= was.push(step));
            assert(trail(all, suffix@).take(i + 1) =~= trail(all, suffix@).take(i as int).push(
                step,
            ));
        }
        i = i + 1;
    }
    proof {
        assert(trail(all, suffix@).take(i as int) =~= trail(all, suffix@));
    }
    out
}

/// What the console is told of the commit-graph.
pub fn graph_report(graph: Option<(usize, bool)>) -> (r: String)
    ensures
        r@ == (match graph {
            Some((commits, bloom)) => "webgit: commit-graph present ("@ + number::decimal(
                commits as nat,
            ) + " commits, changed-path filters: "@ + (if bloom {
                "yes"@
            } else {
                "no"@
            }) + ")"@,
            None => "webgit: no commit-graph; walking commit objects directly"@,
        }),
{
    match graph {
        Some((commits, bloom)) => {
            let mut out = concat3(
                "webgit: commit-graph present (",
                decimal_text(commits as u64).as_str(),
                " commits, changed-path filters: ",
            );
            out.append(
                if bloom {
                    "yes"
                } else {
                    "no"
                },
            );
            out.append(")");
            out
        },
        None => "webgit: no commit-graph; walking commit objects directly".to_string(),
    }
}

/// Which of the tabs a route lives under.
pub open spec fn lit(route: RouteModel) -> int {
    match route {
        RouteModel::Readme => 0,
        RouteModel::Summary => 1,
        RouteModel::Refs(_) => 2,
        RouteModel::Log { .. } => 3,
        RouteModel::Tree { .. } | RouteModel::Snapshot { .. } | RouteModel::Blame { .. } => 4,
        RouteModel::CommitHead(_) | RouteModel::Commit(..) => 5,
        RouteModel::About => 6,
    }
}

/// One tab is lit, whatever the route, and no other.
pub proof fn one_tab_is_lit(route: RouteModel)
    ensures
        forall|i: int| 0 <= i < 7 ==> (#[trigger] repo_tabs(route)[i]).2 == (i == lit(route)),
{
    reveal_strlit("#!/readme");
    reveal_strlit("#!/summary");
    reveal_strlit("#!/refs");
    reveal_strlit("#!/log");
    reveal_strlit("#!/tree");
    reveal_strlit("#!/commit");
    reveal_strlit("#!/about");
    assert("#!/readme"@.len() == 9 && "#!/readme"@[4] == 'e');
    assert("#!/summary"@.len() == 10);
    assert("#!/refs"@.len() == 7 && "#!/refs"@[3] == 'r');
    assert("#!/log"@.len() == 6);
    assert("#!/tree"@.len() == 7 && "#!/tree"@[3] == 't');
    assert("#!/commit"@.len() == 9 && "#!/commit"@[4] == 'o');
    assert("#!/about"@.len() == 8);
}

/// Following a tab lights it, from a route with a path that a tree holds and a
/// head that has a name.
pub proof fn tabs_lead_to_themselves(route: RouteModel, i: int)
    requires
        0 <= i < 7,
        round_trip::plain_head(scope_of(route).0),
        round_trip::plain_path(scope_of(route).1),
    ensures
        lit(route::route_of(repo_tabs(route)[i].0)) == i,
{
    let (head, path) = scope_of(route);
    let target = repo_tabs(route)[i].0;
    if i == 3 {
        round_trip::log_url_round_trips(path, 0, head, is_expanded(route));
        assert(target == route::log_hash(path, 0, head, is_expanded(route)));
    } else if i == 4 {
        round_trip::tree_url_round_trips(Seq::empty(), head, false);
        assert(target == route::tree_hash(Seq::empty(), head, false));
    } else {
        lemma_bare_tabs(route, i);
    }
}

/// The tabs that are bare names lead to themselves.
proof fn lemma_bare_tabs(route: RouteModel, i: int)
    requires
        0 <= i < 7,
        i != 3,
        i != 4,
    ensures
        lit(route::route_of(repo_tabs(route)[i].0)) == i,
{
    round_trip::bare_names_are_routes();
    let target = repo_tabs(route)[i].0;
    if i == 0 {
        assert(target == "#!/readme"@);
    } else if i == 1 {
        assert(target == "#!/summary"@);
    } else if i == 2 {
        assert(target == "#!/refs"@);
    } else if i == 5 {
        assert(target == "#!/commit"@);
    } else {
        assert(target == "#!/about"@);
    }
}

/// Each name on the trail leads to the tree at the path so far, on the same
/// head.
pub proof fn crumbs_lead_along_the_path(path: Seq<char>, head: Option<Seq<char>>, i: int)
    requires
        0 <= i < paths::filled(text::split(path, '/')).len(),
        round_trip::plain_head(head),
    ensures
        ({
            let names = paths::filled(text::split(path, '/'));
            route::route_of(trail(names, tree::head_query(head))[i].0) == (RouteModel::Tree {
                path: text::join(names.take(i + 1), "/"@),
                head,
                render: false,
            })
        }),
{
    let parts = text::split(path, '/');
    let names = paths::filled(parts);
    let so_far = names.take(i + 1);
    let here = text::join(so_far, "/"@);
    text::lemma_split_pieces(path, '/');
    paths::lemma_filled(parts);
    reveal_strlit("/");
    assert("/"@ =~= seq!['/']);
    assert forall|k: int| 0 <= k < so_far.len() implies !(#[trigger] so_far[k]).contains('/') by {
        assert(so_far[k] == names[k]);
    }
    text::splitting_a_join_gives_the_pieces_back(so_far, '/');
    assert(encoded_names(so_far) =~= so_far.map_values(|p: Seq<char>| encode::encoded(p)));
    assert(so_far[0] == names[0]);
    assert(here[0] == names[0][0]);
    assert(names[0].contains(names[0][0]));
    tree::row_links_name_their_paths(here, head);
    round_trip::tree_url_round_trips(here, head, false);
}

/// The tabs of the log and the tree stay on the ref that is looked at, and the
/// log stays on the path and with its messages as they are; both begin at the
/// top.
pub proof fn tabs_stay_on_the_ref(route: RouteModel)
    requires
        round_trip::plain_head(scope_of(route).0),
        round_trip::plain_path(scope_of(route).1),
    ensures
        match route {
            RouteModel::Log { head, path, showmsg, .. } => {
                &&& route::route_of(repo_tabs(route)[3].0) == (RouteModel::Log {
                    offset: 0,
                    head,
                    path,
                    showmsg,
                })
                &&& route::route_of(repo_tabs(route)[4].0) == (RouteModel::Tree {
                    path: Seq::empty(),
                    head,
                    render: false,
                })
            },
            RouteModel::Tree { head, path, .. } => {
                &&& route::route_of(repo_tabs(route)[3].0) == (RouteModel::Log {
                    offset: 0,
                    head,
                    path,
                    showmsg: false,
                })
                &&& route::route_of(repo_tabs(route)[4].0) == (RouteModel::Tree {
                    path: Seq::empty(),
                    head,
                    render: false,
                })
            },
            _ => {
                &&& route::route_of(repo_tabs(route)[3].0) == (RouteModel::Log {
                    offset: 0,
                    head: None,
                    path: Seq::empty(),
                    showmsg: false,
                })
                &&& route::route_of(repo_tabs(route)[4].0) == (RouteModel::Tree {
                    path: Seq::empty(),
                    head: None,
                    render: false,
                })
            },
        },
{
    let (head, path) = scope_of(route);
    round_trip::log_url_round_trips(path, 0, head, is_expanded(route));
    round_trip::tree_url_round_trips(Seq::empty(), head, false);
}

/// Each route lights the tab that it is read from: a blame and an archive that
/// of the tree, any commit that of HEAD's.
pub proof fn routes_light_their_tabs(route: RouteModel)
    ensures
        repo_tabs(route).len() == 7,
        repo_tabs(route)[0].2 <==> route is Readme,
        repo_tabs(route)[1].2 <==> route is Summary,
        repo_tabs(route)[2].2 <==> route is Refs,
        repo_tabs(route)[3].2 <==> route is Log,
        repo_tabs(route)[4].2 <==> route is Tree || route is Blame || route is Snapshot,
        repo_tabs(route)[5].2 <==> route is Commit || route is CommitHead,
        repo_tabs(route)[6].2 <==> route is About,
{
    one_tab_is_lit(route);
}

/// A tab that stays on nothing leads to the page that it is called by.
pub proof fn tabs_are_called_by_their_pages(route: RouteModel, i: int)
    requires
        0 <= i < 7,
    ensures
        i != 3 && i != 4 ==> repo_tabs(route)[i].0 == seq!['#', '!', '/'] + repo_tabs(route)[i].1,
{
    reveal_strlit("#!/readme");
    reveal_strlit("#!/summary");
    reveal_strlit("#!/refs");
    reveal_strlit("#!/commit");
    reveal_strlit("#!/about");
    reveal_strlit("readme");
    reveal_strlit("summary");
    reveal_strlit("refs");
    reveal_strlit("commit");
    reveal_strlit("about");
    let mark = seq!['#', '!', '/'];
    assert("#!/readme"@ =~= mark + "readme"@);
    assert("#!/summary"@ =~= mark + "summary"@);
    assert("#!/refs"@ =~= mark + "refs"@);
    assert("#!/commit"@ =~= mark + "commit"@);
    assert("#!/about"@ =~= mark + "about"@);
}

/// Each kind of revision has its own word.
pub proof fn kinds_have_their_words(kind: RefKind)
    ensures
        kind_word(kind) == (match kind {
            RefKind::Tag => seq!['t', 'a', 'g'],
            RefKind::Branch => seq!['b', 'r', 'a', 'n', 'c', 'h'],
            RefKind::Commit => seq!['c', 'o', 'm', 'm', 'i', 't'],
        }),
{
    reveal_strlit("tag");
    reveal_strlit("branch");
    reveal_strlit("commit");
    assert("tag"@ =~= seq!['t', 'a', 'g']);
    assert("branch"@ =~= seq!['b', 'r', 'a', 'n', 'c', 'h']);
    assert("commit"@ =~= seq!['c', 'o', 'm', 'm', 'i', 't']);
}

} // verus!
