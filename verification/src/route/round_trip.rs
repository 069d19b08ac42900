//! Every hash the app writes comes back out of the router as the route it
//! named.

use vstd::prelude::*;
use crate::number;
use crate::route;
use crate::route::RouteModel;
use crate::route::RefsModel;
use crate::route::anchor;
use crate::route::anchor::LineRange;
use crate::route::diff_view;
use crate::route::diff_view::DiffView;
use crate::route::encode;
use crate::route::query;
use crate::text;

verus! {

/// A path as a tree holds it: one that does not begin with the separator.
pub open spec fn plain_path(path: Seq<char>) -> bool {
    path.len() == 0 || path[0] != '/'
}

/// A head that a query can carry: none, or one with a name.
pub open spec fn plain_head(head: Option<Seq<char>>) -> bool {
    head matches Some(name) ==> name.len() > 0
}

proof fn lemma_concat_lacks(a: Seq<char>, b: Seq<char>, c: char)
    requires
        !a.contains(c),
        !b.contains(c),
    ensures
        !(a + b).contains(c),
{
    if (a + b).contains(c) {
        let k = (a + b).index_of(c);
        if k < a.len() {
            assert(a[k] == c);
        } else {
            assert(b[k - a.len()] == c);
        }
    }
}

/// A hash with no `#` but its own carries no line anchor.
proof fn lemma_no_anchor(hash: Seq<char>)
    requires
        hash.len() > 0,
        !hash.skip(1).contains('#'),
    ensures
        anchor::route_part(hash) == hash,
        anchor::selected_lines(hash) is None,
{
    text::lemma_last_index(hash, '#');
    let i = text::last_index(hash, '#');
    if i >= 1 {
        assert(hash.skip(1)[i - 1] == '#');
    }
}

/// A name that differs from the hash anywhere is no prefix of it.
proof fn lemma_other_name(hash: Seq<char>, name: Seq<char>, k: int)
    requires
        0 <= k < name.len(),
        k < hash.len(),
        hash[k] != name[k],
    ensures
        text::strip_prefix(hash, name) is None,
{
    if name.is_prefix_of(hash) {
        assert(hash.subrange(0, name.len() as int)[k] == name[k]);
    }
}

/// The name a hash begins with, and what follows it.
proof fn lemma_own_name(name: Seq<char>, rest: Seq<char>, seps: Seq<char>)
    requires
        rest.len() == 0 || seps.contains(rest[0]),
    ensures
        route::route_rest(name + rest, name, seps) == Some(rest),
{
    assert((name + rest).subrange(0, name.len() as int) =~= name);
    assert((name + rest).skip(name.len() as int) =~= rest);
}

/// Which route a hash that begins with a route's name is read as.
proof fn lemma_dispatch(rest: Seq<char>)
    requires
        rest.len() == 0 || rest[0] == '/' || rest[0] == '?',
    ensures
        route::plain_route("#!/log"@ + rest) == route::log_rest(rest),
        route::plain_route("#!/commit"@ + rest) == route::commit_rest(rest),
        route::plain_route("#!/tree"@ + rest) == (RouteModel::Tree {
            path: route::tree_rest(rest).0,
            head: route::tree_rest(rest).1,
            render: route::tree_rest(rest).2,
        }),
        route::plain_route("#!/blame"@ + rest) == (RouteModel::Blame {
            path: route::tree_rest(rest).0,
            head: route::tree_rest(rest).1,
        }),
        route::plain_route("#!/snapshot"@ + rest) == (RouteModel::Snapshot {
            head: route::tree_rest(rest).1,
        }),
        rest.len() == 0 || rest[0] == '/' ==> route::plain_route("#!/refs"@ + rest)
            == RouteModel::Refs(route::refs_rest(rest)),
{
    reveal_strlit("#");
    reveal_strlit("#!/readme");
    reveal_strlit("#!/about");
    reveal_strlit("#!/summary");
    reveal_strlit("#!/log");
    reveal_strlit("#!/commit");
    reveal_strlit("#!/tree");
    reveal_strlit("#!/blame");
    reveal_strlit("#!/snapshot");
    reveal_strlit("#!/refs");
    let either = seq!['/', '?'];
    let slash = seq!['/'];
    assert(either[0] == '/' && either[1] == '?');
    assert(slash[0] == '/');
    let log = "#!/log"@ + rest;
    let commit = "#!/commit"@ + rest;
    let tree = "#!/tree"@ + rest;
    let blame = "#!/blame"@ + rest;
    let snapshot = "#!/snapshot"@ + rest;
    let refs = "#!/refs"@ + rest;
    assert(log[3] == 'l' && commit[3] == 'c' && tree[3] == 't' && blame[3] == 'b');
    assert(snapshot[3] == 's' && snapshot[4] == 'n' && refs[3] == 'r' && refs[5] == 'f');
    assert("#!/readme"@[3] == 'r' && "#!/readme"@[5] == 'a');
    assert("#!/about"@[3] == 'a');
    assert("#!/summary"@[3] == 's' && "#!/summary"@[4] == 'u');
    lemma_own_name("#!/log"@, rest, either);
    lemma_own_name("#!/commit"@, rest, either);
    lemma_other_name(commit, "#!/log"@, 3);
    lemma_own_name("#!/tree"@, rest, either);
    lemma_other_name(tree, "#!/log"@, 3);
    lemma_other_name(tree, "#!/commit"@, 3);
    lemma_own_name("#!/blame"@, rest, either);
    lemma_other_name(blame, "#!/log"@, 3);
    lemma_other_name(blame, "#!/commit"@, 3);
    lemma_other_name(blame, "#!/tree"@, 3);
    lemma_own_name("#!/snapshot"@, rest, either);
    lemma_other_name(snapshot, "#!/log"@, 3);
    lemma_other_name(snapshot, "#!/commit"@, 3);
    lemma_other_name(snapshot, "#!/tree"@, 3);
    lemma_other_name(snapshot, "#!/blame"@, 3);
    if rest.len() == 0 || rest[0] == '/' {
        lemma_own_name("#!/refs"@, rest, slash);
        lemma_other_name(refs, "#!/log"@, 3);
        lemma_other_name(refs, "#!/commit"@, 3);
        lemma_other_name(refs, "#!/tree"@, 3);
        lemma_other_name(refs, "#!/blame"@, 3);
        lemma_other_name(refs, "#!/snapshot"@, 3);
    }
}

/// A path and the parts of a query come apart again as they were put together.
proof fn lemma_path_and_query(path_part: Seq<char>, parts: Seq<Seq<char>>)
    requires
        !path_part.contains('?'),
        forall|i: int| 0 <= i < parts.len() ==> !(#[trigger] parts[i]).contains('&'),
    ensures
        ({
            let rest = path_part + route::query_suffix(parts);
            &&& text::before(rest, '?') == path_part
            &&& text::split(text::after(rest, '?'), '&') == (if parts.len() == 0 {
                seq![Seq::<char>::empty()]
            } else {
                parts
            })
        }),
{
    reveal_strlit("?");
    reveal_strlit("&");
    let rest = path_part + route::query_suffix(parts);
    let n = path_part.len() as int;
    assert forall|j: int| 0 <= j < n implies rest[j] != '?' by {
        assert(rest[j] == path_part[j]);
    }
    if parts.len() == 0 {
        assert(rest =~= path_part);
        text::lemma_first_index_is(rest, '?', n);
        assert(rest.take(n) =~= path_part);
        assert(text::split(Seq::<char>::empty(), '&') =~= seq![Seq::<char>::empty()]);
    } else {
        assert("&"@ =~= seq!['&']);
        assert(rest[n] == '?');
        text::lemma_first_index_is(rest, '?', n);
        assert(rest.take(n) =~= path_part);
        assert(rest.skip(n + 1) =~= text::join(parts, seq!['&']));
        text::splitting_a_join_gives_the_pieces_back(parts, '&');
    }
}

/// A query whose parts hold no `#` holds none.
proof fn lemma_suffix_lacks_hash(parts: Seq<Seq<char>>)
    requires
        forall|i: int| 0 <= i < parts.len() ==> !(#[trigger] parts[i]).contains('#'),
    ensures
        !route::query_suffix(parts).contains('#'),
{
    reveal_strlit("?");
    reveal_strlit("&");
    text::lemma_join_lacks(parts, "&"@, '#');
    lemma_concat_lacks("?"@, text::join(parts, "&"@), '#');
}

/// What a head's part of a written query holds and says.
proof fn lemma_head_part(head: Seq<char>)
    ensures
        ({
            let h = "h="@ + encode::encoded(head);
            &&& !h.contains('#') && !h.contains('&')
            &&& text::strip_prefix(h, "h="@) == Some(encode::encoded(head))
            &&& text::strip_prefix(h, "offset="@) is None
            &&& h != "showmsg=1"@
            &&& h != "render=1"@
        }),
{
    reveal_strlit("h=");
    reveal_strlit("offset=");
    reveal_strlit("showmsg=1");
    reveal_strlit("render=1");
    let h = "h="@ + encode::encoded(head);
    encode::lemma_encoded_lacks(head, '#');
    encode::lemma_encoded_lacks(head, '&');
    lemma_concat_lacks("h="@, encode::encoded(head), '#');
    lemma_concat_lacks("h="@, encode::encoded(head), '&');
    assert(h.subrange(0, 2) =~= "h="@);
    assert(h.skip(2) =~= encode::encoded(head));
    assert(h[0] == 'h');
    assert("showmsg=1"@[0] == 's');
    assert("render=1"@[0] == 'r');
    lemma_other_name(h, "offset="@, 0);
}

/// What an offset's part of a written query holds and says.
proof fn lemma_offset_part(offset: nat)
    ensures
        ({
            let o = "offset="@ + number::decimal(offset);
            &&& !o.contains('#') && !o.contains('&')
            &&& text::strip_prefix(o, "h="@) is None
            &&& text::strip_prefix(o, "offset="@) == Some(number::decimal(offset))
            &&& o != "showmsg=1"@
        }),
{
    reveal_strlit("h=");
    reveal_strlit("offset=");
    reveal_strlit("showmsg=1");
    let d = number::decimal(offset);
    let o = "offset="@ + d;
    number::lemma_decimal(offset);
    assert(!d.contains('#') && !d.contains('&')) by {
        if d.contains('#') {
            assert(number::is_digit(d[d.index_of('#')]));
        }
        if d.contains('&') {
            assert(number::is_digit(d[d.index_of('&')]));
        }
    }
    lemma_concat_lacks("offset="@, d, '#');
    lemma_concat_lacks("offset="@, d, '&');
    assert(o.subrange(0, 7) =~= "offset="@);
    assert(o.skip(7) =~= d);
    assert(o[0] == 'o');
    assert("showmsg=1"@[0] == 's');
    lemma_other_name(o, "h="@, 0);
}

/// What the flags of a written query, and an empty query, hold and say.
proof fn lemma_flag_parts()
    ensures
        !"showmsg=1"@.contains('#') && !"showmsg=1"@.contains('&'),
        text::strip_prefix("showmsg=1"@, "h="@) is None,
        text::strip_prefix("showmsg=1"@, "offset="@) is None,
        !"render=1"@.contains('#') && !"render=1"@.contains('&'),
        text::strip_prefix("render=1"@, "h="@) is None,
        text::strip_prefix(Seq::<char>::empty(), "h="@) is None,
        text::strip_prefix(Seq::<char>::empty(), "offset="@) is None,
        Seq::<char>::empty() != "showmsg=1"@,
        Seq::<char>::empty() != "render=1"@,
{
    reveal_strlit("h=");
    reveal_strlit("offset=");
    reveal_strlit("showmsg=1");
    reveal_strlit("render=1");
    assert("showmsg=1"@[0] == 's');
    assert("render=1"@[0] == 'r');
    lemma_other_name("showmsg=1"@, "h="@, 0);
    lemma_other_name("showmsg=1"@, "offset="@, 0);
    lemma_other_name("render=1"@, "h="@, 0);
}

/// An encoded path begins with the separator only where the path does, is
/// empty only where the path is, and ends at no `?` or `#`.
proof fn lemma_encoded_path_shape(path: Seq<char>)
    ensures
        !encode::encoded_path(path).contains('?'),
        !encode::encoded_path(path).contains('#'),
        plain_path(path) ==> plain_path(encode::encoded_path(path)),
{
    encode::lemma_encoded_path_lacks(path, '?');
    encode::lemma_encoded_path_lacks(path, '#');
    let parts = text::split(path, '/');
    let enc = parts.map_values(|p: Seq<char>| encode::encoded(p));
    text::lemma_first_index(path, '/');
    text::lemma_split_pieces(path, '/');
    encode::lemma_encoded_lacks(parts[0], '/');
    if plain_path(path) && path.len() > 0 {
        assert(parts[0] == text::before(path, '/'));
        assert(parts[0].len() > 0) by {
            if text::first_index(path, '/') == path.len() {
                assert(path.take(path.len() as int) =~= path);
            }
        }
        lemma_encoded_filled(parts[0]);
        assert(enc[0] == encode::encoded(parts[0]));
        let whole = encode::encoded_path(path);
        assert(whole == text::join(enc, seq!['/']));
        assert(whole[0] == enc[0][0]);
        assert(enc[0].contains(enc[0][0]));
    } else if path.len() == 0 {
        assert(parts =~= seq![path]);
        assert(enc =~= seq![encode::encoded(path)]);
        assert(encode::encoded_path(path) =~= path);
    }
}

/// Something encodes to something.
proof fn lemma_encoded_filled(s: Seq<char>)
    ensures
        s.len() > 0 ==> encode::encoded(s).len() > 0,
{
    if s.len() > 0 {
        encode::component_round_trips(s);
        if encode::encoded(s).len() == 0 {
            assert(encode::encoded(s) =~= Seq::<char>::empty());
            encode::unescaped_text_decodes_to_itself(Seq::<char>::empty());
        }
    }
}

/// The separator ahead of a path that does not begin with one is all that
/// trimming takes off.
proof fn lemma_trim_one(path: Seq<char>)
    requires
        plain_path(path),
    ensures
        text::trim_start("/"@ + path, '/') == path,
        text::trim_start(path, '/') == path,
{
    reveal_strlit("/");
    let whole = "/"@ + path;
    assert(text::trim_start(path, '/') == path);
    assert(whole[0] == '/');
    assert(whole.drop_first() =~= path);
    assert(text::trim_start(whole, '/') == text::trim_start(whole.drop_first(), '/'));
}

/// What the parts of a tree or blame query say.
proof fn lemma_tree_parts(head: Option<Seq<char>>, render: bool)
    requires
        plain_head(head),
    ensures
        ({
            let parts = route::head_part(head) + diff_view::when(render, "render=1"@);
            let read = if parts.len() == 0 {
                seq![Seq::<char>::empty()]
            } else {
                parts
            };
            &&& forall|i: int|
                0 <= i < parts.len() ==> !(#[trigger] parts[i]).contains('&')
                    && !parts[i].contains('#')
            &&& query::first_value(read, "h="@) == (match head {
                Some(name) => Some(encode::encoded(name)),
                None => None,
            })
            &&& read.contains("render=1"@) == render
        }),
{
    let name = match head {
        Some(name) => name,
        None => Seq::empty(),
    };
    lemma_head_part(name);
    lemma_flag_parts();
    let h = "h="@ + encode::encoded(name);
    let parts = route::head_part(head) + diff_view::when(render, "render=1"@);
    let read = if parts.len() == 0 {
        seq![Seq::<char>::empty()]
    } else {
        parts
    };
    if head is Some && render {
        assert(parts =~= seq![h, "render=1"@]);
        assert(read[1] == "render=1"@);
    } else if head is Some {
        assert(parts =~= seq![h]);
    } else if render {
        assert(parts =~= seq!["render=1"@]);
        assert(read[0] == "render=1"@);
        assert(read.drop_first() =~= Seq::<Seq<char>>::empty());
        assert(query::first_value(read.drop_first(), "h="@) is None);
    } else {
        assert(parts =~= Seq::<Seq<char>>::empty());
        assert(read.drop_first() =~= Seq::<Seq<char>>::empty());
        assert(query::first_value(read.drop_first(), "h="@) is None);
    }
}

/// What follows a tree route's name reads back as what was written there.
proof fn lemma_tree_rest(path_part: Seq<char>, path: Seq<char>, head: Option<Seq<char>>, render: bool)
    requires
        path_part == "/"@ + encode::encoded_path(path) || (path.len() == 0 && path_part.len() == 0),
        plain_path(path),
        plain_head(head),
    ensures
        ({
            let suffix = route::query_suffix(
                route::head_part(head) + diff_view::when(render, "render=1"@),
            );
            &&& route::tree_rest(path_part + suffix) == (path, head, render)
            &&& !(path_part + suffix).contains('#')
            &&& (path_part + suffix).len() == 0 || (path_part + suffix)[0] == '/' || (path_part
                + suffix)[0] == '?'
        }),
{
    reveal_strlit("/");
    reveal_strlit("?");
    let parts = route::head_part(head) + diff_view::when(render, "render=1"@);
    let suffix = route::query_suffix(parts);
    let rest = path_part + suffix;
    let enc = encode::encoded_path(path);
    lemma_tree_parts(head, render);
    lemma_encoded_path_shape(path);
    lemma_suffix_lacks_hash(parts);
    // Trimming takes off the one separator, and the path part then ends at the
    // first `?`.
    let plain = if path_part.len() == 0 {
        path_part
    } else {
        enc
    };
    assert(!path_part.contains('#')) by {
        if path_part.len() > 0 {
            lemma_concat_lacks("/"@, enc, '#');
        }
    }
    lemma_concat_lacks(path_part, suffix, '#');
    assert(plain_path(plain + suffix)) by {
        if plain.len() == 0 {
            assert(plain + suffix =~= suffix);
        }
    }
    lemma_trim_one(plain + suffix);
    assert(text::trim_start(rest, '/') == plain + suffix) by {
        if path_part.len() == 0 {
            assert(rest =~= plain + suffix);
        } else {
            assert(rest =~= "/"@ + (plain + suffix));
        }
    }
    lemma_path_and_query(plain, parts);
    encode::path_round_trips(path);
    assert(encode::decoded_path(plain) == path) by {
        if path_part.len() == 0 {
            assert(plain =~= Seq::<char>::empty());
            assert(path =~= Seq::<char>::empty());
            assert(enc =~= plain) by {
                let split = text::split(path, '/');
                assert(split =~= seq![path]);
                assert(split.map_values(|p: Seq<char>| encode::encoded(p)) =~= seq![
                    encode::encoded(path),
                ]);
            }
        }
    }
    match head {
        Some(name) => {
            encode::component_round_trips(name);
            lemma_encoded_filled(name);
        },
        None => {},
    }
}

/// A tree URL names the tree it was written for.
///
/// The path is one as a tree holds it, and the head, where there is one, has a
/// name: a leading separator and an empty `h=` are what the grammar drops.
pub proof fn tree_url_round_trips(path: Seq<char>, head: Option<Seq<char>>, render: bool)
    requires
        plain_path(path),
        plain_head(head),
    ensures
        route::route_of(route::tree_hash(path, head, render)) == (RouteModel::Tree {
            path,
            head,
            render,
        }),
        anchor::selected_lines(route::tree_hash(path, head, render)) is None,
{
    reveal_strlit("#!/tree");
    let suffix = route::query_suffix(
        route::head_part(head) + diff_view::when(render, "render=1"@),
    );
    let path_part = if path.len() == 0 {
        Seq::<char>::empty()
    } else {
        "/"@ + encode::encoded_path(path)
    };
    let rest = path_part + suffix;
    let hash = route::tree_hash(path, head, render);
    assert(hash =~= "#!/tree"@ + rest);
    lemma_tree_rest(path_part, path, head, render);
    assert(hash.skip(1) =~= "#!/tree"@.skip(1) + rest);
    assert(!"#!/tree"@.skip(1).contains('#'));
    lemma_concat_lacks("#!/tree"@.skip(1), rest, '#');
    lemma_no_anchor(hash);
    lemma_dispatch(rest);
}

/// A blame URL names the blame it was written for.
pub proof fn blame_url_round_trips(path: Seq<char>, head: Option<Seq<char>>)
    requires
        plain_path(path),
        plain_head(head),
    ensures
        route::route_of(route::blame_hash(path, head)) == (RouteModel::Blame { path, head }),
        anchor::selected_lines(route::blame_hash(path, head)) is None,
{
    reveal_strlit("#!/blame");
    reveal_strlit("#!/blame/");
    reveal_strlit("/");
    let parts = route::head_part(head) + diff_view::when(false, "render=1"@);
    assert(parts =~= route::head_part(head));
    let suffix = route::query_suffix(parts);
    let path_part = "/"@ + encode::encoded_path(path);
    let rest = path_part + suffix;
    let hash = route::blame_hash(path, head);
    assert(hash =~= "#!/blame"@ + rest);
    lemma_tree_rest(path_part, path, head, false);
    assert(hash.skip(1) =~= "#!/blame"@.skip(1) + rest);
    assert(!"#!/blame"@.skip(1).contains('#'));
    lemma_concat_lacks("#!/blame"@.skip(1), rest, '#');
    lemma_no_anchor(hash);
    lemma_dispatch(rest);
}

/// A snapshot URL names the ref it was written for.
pub proof fn snapshot_url_round_trips(head: Seq<char>)
    requires
        head.len() > 0,
    ensures
        route::route_of(route::snapshot_hash(head)) == (RouteModel::Snapshot { head: Some(head) }),
{
    reveal_strlit("#!/snapshot");
    let parts = route::head_part(Some(head)) + diff_view::when(false, "render=1"@);
    assert(parts =~= route::head_part(Some(head)));
    let none = Seq::<char>::empty();
    let rest = none + route::query_suffix(parts);
    let hash = route::snapshot_hash(head);
    assert(hash =~= "#!/snapshot"@ + rest);
    lemma_tree_rest(none, none, Some(head), false);
    assert(hash.skip(1) =~= "#!/snapshot"@.skip(1) + rest);
    assert(!"#!/snapshot"@.skip(1).contains('#'));
    lemma_concat_lacks("#!/snapshot"@.skip(1), rest, '#');
    lemma_no_anchor(hash);
    lemma_dispatch(rest);
}

/// What one more part says of a log's query.
proof fn lemma_log_push(parts: Seq<Seq<char>>, part: Seq<char>)
    ensures
        query::last_value(parts.push(part), "offset="@) == (match text::strip_prefix(
            part,
            "offset="@,
        ) {
            Some(v) => Some(v),
            None => query::last_value(parts, "offset="@),
        }),
        query::last_filled_value(parts.push(part), "h="@) == (match text::strip_prefix(
            part,
            "h="@,
        ) {
            Some(v) => if v.len() > 0 {
                Some(v)
            } else {
                query::last_filled_value(parts, "h="@)
            },
            None => query::last_filled_value(parts, "h="@),
        }),
        parts.push(part).contains("showmsg=1"@) == (part == "showmsg=1"@ || parts.contains(
            "showmsg=1"@,
        )),
{
    let all = parts.push(part);
    assert(all.drop_last() =~= parts);
    assert(all[parts.len() as int] == part);
    if parts.contains("showmsg=1"@) {
        let k = parts.index_of("showmsg=1"@);
        assert(all[k] == "showmsg=1"@);
    }
}

/// The parts of a log's query, in the order in which they are written.
spec fn log_parts(offset: int, head: Option<Seq<char>>, showmsg: bool) -> Seq<Seq<char>> {
    route::head_part(head) + diff_view::when(
        offset != 0,
        "offset="@ + number::decimal(offset as nat),
    ) + diff_view::when(showmsg, "showmsg=1"@)
}

/// What the parts of a log's query say.
proof fn lemma_log_parts(offset: int, head: Option<Seq<char>>, showmsg: bool)
    requires
        plain_head(head),
        0 <= offset <= usize::MAX,
    ensures
        ({
            let parts = log_parts(offset, head, showmsg);
            let read = if parts.len() == 0 {
                seq![Seq::<char>::empty()]
            } else {
                parts
            };
            &&& forall|i: int|
                0 <= i < parts.len() ==> !(#[trigger] parts[i]).contains('&')
                    && !parts[i].contains('#')
            &&& query::last_value(read, "offset="@) == (if offset != 0 {
                Some(number::decimal(offset as nat))
            } else {
                None
            })
            &&& query::last_filled_value(read, "h="@) == (match head {
                Some(name) => Some(encode::encoded(name)),
                None => None,
            })
            &&& read.contains("showmsg=1"@) == showmsg
        }),
{
    let name = match head {
        Some(name) => name,
        None => Seq::empty(),
    };
    let h = "h="@ + encode::encoded(name);
    let o = "offset="@ + number::decimal(offset as nat);
    lemma_head_part(name);
    lemma_offset_part(offset as nat);
    lemma_flag_parts();
    lemma_encoded_filled(name);
    let p0 = Seq::<Seq<char>>::empty();
    let p1 = p0 + route::head_part(head);
    let p2 = p1 + diff_view::when(offset != 0, o);
    let p3 = p2 + diff_view::when(showmsg, "showmsg=1"@);
    lemma_log_push(p0, h);
    lemma_log_push(p1, o);
    lemma_log_push(p2, "showmsg=1"@);
    lemma_log_push(p0, Seq::empty());
    assert(p1 =~= if head is Some {
        p0.push(h)
    } else {
        p0
    });
    assert(p2 =~= if offset != 0 {
        p1.push(o)
    } else {
        p1
    });
    assert(p3 =~= if showmsg {
        p2.push("showmsg=1"@)
    } else {
        p2
    });
    assert(p3 =~= log_parts(offset, head, showmsg));
    assert(p3.len() == 0 ==> seq![Seq::<char>::empty()] =~= p0.push(Seq::empty()));
    assert forall|i: int| 0 <= i < p3.len() implies !(#[trigger] p3[i]).contains('&')
        && !p3[i].contains('#') by {
        assert(p3[i] == h || p3[i] == o || p3[i] == "showmsg=1"@);
    }
}

/// An encoded path under its separator, or nothing for the empty path, reads
/// back as the path.
proof fn lemma_path_part(path: Seq<char>)
    requires
        plain_path(path),
    ensures
        ({
            let path_part = if path.len() == 0 {
                Seq::<char>::empty()
            } else {
                "/"@ + encode::encoded_path(path)
            };
            &&& !path_part.contains('#')
            &&& !path_part.contains('?')
            &&& path_part.len() > 0 ==> path_part[0] == '/'
            &&& encode::decoded_path(text::trim_start(path_part, '/')) == path
        }),
{
    reveal_strlit("/");
    let enc = encode::encoded_path(path);
    lemma_encoded_path_shape(path);
    lemma_concat_lacks("/"@, enc, '#');
    lemma_concat_lacks("/"@, enc, '?');
    lemma_trim_one(enc);
    encode::path_round_trips(path);
    if path.len() == 0 {
        assert(path =~= Seq::<char>::empty());
        let split = text::split(path, '/');
        assert(split =~= seq![path]);
        assert(split.map_values(|p: Seq<char>| encode::encoded(p)) =~= seq![encode::encoded(path)]);
        assert(enc =~= path);
    }
}

/// A log URL names the page of the log it was written for.
pub proof fn log_url_round_trips(
    path: Seq<char>,
    offset: int,
    head: Option<Seq<char>>,
    showmsg: bool,
)
    requires
        plain_path(path),
        plain_head(head),
        0 <= offset <= usize::MAX,
    ensures
        route::route_of(route::log_hash(path, offset, head, showmsg)) == (RouteModel::Log {
            offset,
            head,
            path,
            showmsg,
        }),
{
    reveal_strlit("#!/log");
    reveal_strlit("?");
    let parts = log_parts(offset, head, showmsg);
    let path_part = if path.len() == 0 {
        Seq::<char>::empty()
    } else {
        "/"@ + encode::encoded_path(path)
    };
    let suffix = route::query_suffix(parts);
    let rest = path_part + suffix;
    let hash = route::log_hash(path, offset, head, showmsg);
    assert(hash =~= "#!/log"@ + rest);
    lemma_log_parts(offset, head, showmsg);
    lemma_path_part(path);
    lemma_suffix_lacks_hash(parts);
    lemma_concat_lacks(path_part, suffix, '#');
    assert(hash.skip(1) =~= "#!/log"@.skip(1) + rest);
    assert(!"#!/log"@.skip(1).contains('#'));
    lemma_concat_lacks("#!/log"@.skip(1), rest, '#');
    lemma_no_anchor(hash);
    lemma_path_and_query(path_part, parts);
    match head {
        Some(name) => {
            encode::component_round_trips(name);
        },
        None => {},
    }
    number::decimal_text_parses_back(offset as nat, usize::MAX as int);
    lemma_dispatch(rest);
}

/// A commit URL names the commit it was written for, and as much of the view
/// as a URL carries.
pub proof fn commit_url_round_trips(sha: Seq<char>, view: DiffView)
    ensures
        route::route_of(route::commit_hash(sha, view)) == (if sha.len() == 0 {
            RouteModel::CommitHead(diff_view::url_view(view))
        } else {
            RouteModel::Commit(sha, diff_view::url_view(view))
        }),
{
    reveal_strlit("#!/commit");
    reveal_strlit("#!/commit/");
    reveal_strlit("/");
    reveal_strlit("?");
    let enc = encode::encoded(sha);
    let path_part = if sha.len() == 0 {
        Seq::<char>::empty()
    } else {
        "/"@ + enc
    };
    let suffix = diff_view::query_text(view);
    let rest = path_part + suffix;
    let hash = route::commit_hash(sha, view);
    assert(hash =~= "#!/commit"@ + rest);
    encode::lemma_encoded_lacks(sha, '#');
    encode::lemma_encoded_lacks(sha, '?');
    encode::lemma_encoded_lacks(sha, '/');
    lemma_concat_lacks("/"@, enc, '#');
    lemma_concat_lacks("/"@, enc, '?');
    lemma_view_query(view);
    lemma_concat_lacks(path_part, suffix, '#');
    assert(hash.skip(1) =~= "#!/commit"@.skip(1) + rest);
    assert(!"#!/commit"@.skip(1).contains('#'));
    lemma_concat_lacks("#!/commit"@.skip(1), rest, '#');
    lemma_no_anchor(hash);
    let n = path_part.len() as int;
    assert forall|j: int| 0 <= j < n implies rest[j] != '?' by {
        assert(rest[j] == path_part[j]);
    }
    diff_view::view_round_trips(view);
    text::lemma_first_index_is(rest, '?', n);
    assert(rest.take(n) =~= path_part);
    if suffix.len() > 0 {
        assert(rest.skip(n + 1) =~= suffix.skip(1));
    }
    lemma_encoded_filled(sha);
    assert(plain_path(enc)) by {
        if enc.len() > 0 {
            assert(enc.contains(enc[0]));
        }
    }
    lemma_trim_one(enc);
    encode::component_round_trips(sha);
    lemma_dispatch(rest);
}

/// The query of a view holds no `#`.
proof fn lemma_view_query(view: DiffView)
    ensures
        !diff_view::query_text(view).contains('#'),
{
    reveal_strlit("dt=2");
    reveal_strlit("context=");
    reveal_strlit("ignorews=1");
    reveal_strlit("ss=1");
    let parts = diff_view::query_parts(view);
    let n = match diff_view::written_context(view) {
        Some(n) => n as nat,
        None => 0,
    };
    let c = "context="@ + number::decimal(n);
    number::lemma_decimal(n);
    assert(!c.contains('#')) by {
        if c.contains('#') {
            let k = c.index_of('#');
            if k >= 8 {
                assert(number::is_digit(number::decimal(n)[k - 8]));
            }
        }
    }
    assert forall|i: int| 0 <= i < parts.len() implies !(#[trigger] parts[i]).contains('#') by {
        assert(parts[i] == "dt=2"@ || parts[i] == c || parts[i] == "ignorews=1"@ || parts[i]
            == "ss=1"@);
    }
    lemma_suffix_lacks_hash(parts);
}

/// A tag's page names the tag it was written for.
pub proof fn tag_url_round_trips(tag: Seq<char>)
    requires
        tag.len() > 0,
    ensures
        route::route_of(route::tag_hash(tag)) == RouteModel::Refs(RefsModel::Tag(tag)),
{
    reveal_strlit("#!/refs");
    reveal_strlit("#!/refs/tags/");
    reveal_strlit("/");
    reveal_strlit("/heads");
    reveal_strlit("/heads/");
    reveal_strlit("/tags");
    reveal_strlit("/tags/");
    let enc = encode::encoded(tag);
    let rest = "/tags/"@ + enc;
    let hash = route::tag_hash(tag);
    assert(hash =~= "#!/refs"@ + rest);
    encode::lemma_encoded_lacks(tag, '#');
    lemma_concat_lacks("/tags/"@, enc, '#');
    assert(hash.skip(1) =~= "#!/refs"@.skip(1) + rest);
    assert(!"#!/refs"@.skip(1).contains('#'));
    lemma_concat_lacks("#!/refs"@.skip(1), rest, '#');
    lemma_no_anchor(hash);
    lemma_encoded_filled(tag);
    encode::component_round_trips(tag);
    assert(rest[1] == 't');
    assert(rest.subrange(0, 6) =~= "/tags/"@);
    assert(rest.skip(6) =~= enc);
    assert("/heads"@[1] == 'h' && "/heads/"@[1] == 'h');
    lemma_dispatch(rest);
}

/// The hash of a section of the index names that section.
pub proof fn index_url_round_trips(section: Seq<char>)
    requires
        plain_path(section),
    ensures
        route::index_route_of(route::index_hash(section)) == Some(section),
{
    reveal_strlit("#!/index");
    reveal_strlit("#!/index/");
    reveal_strlit("#!/about");
    reveal_strlit("/");
    let slash = seq!['/'];
    assert(slash[0] == '/');
    let rest = if section.len() == 0 {
        Seq::<char>::empty()
    } else {
        "/"@ + encode::encoded_path(section)
    };
    let hash = route::index_hash(section);
    assert(hash =~= "#!/index"@ + rest);
    assert(hash[3] == 'i' && "#!/about"@[3] == 'a');
    lemma_path_part(section);
    lemma_own_name("#!/index"@, rest, slash);
}

/// A line anchor selects lines within a view and never names a different one.
pub proof fn line_anchor_keeps_the_route(hash: Seq<char>, range: LineRange)
    requires
        hash.len() > 0,
        hash[0] as u32 <= 0x7f,
        anchor::selected_lines(hash) is None,
        range.wf(),
    ensures
        route::route_of(hash + range.anchor_text()) == route::route_of(hash),
        anchor::selected_lines(hash + range.anchor_text()) == Some(range),
{
    anchor::line_anchor_round_trips(hash, range);
}

/// The hashes that carry nothing but a route's name are read as that route.
pub proof fn bare_names_are_routes()
    ensures
        route::route_of("#!/readme"@) is Readme,
        route::route_of("#!/about"@) is About,
        route::route_of("#!/summary"@) is Summary,
        route::route_of("#!/refs"@) == RouteModel::Refs(RefsModel::All),
        route::route_of("#!/commit"@) is CommitHead,
{
    lemma_bare_names();
    lemma_bare_dispatch();
}

proof fn lemma_bare_names()
    ensures
        anchor::route_part("#!/readme"@) == "#!/readme"@,
        anchor::route_part("#!/about"@) == "#!/about"@,
        anchor::route_part("#!/summary"@) == "#!/summary"@,
        anchor::route_part("#!/refs"@) == "#!/refs"@,
        anchor::route_part("#!/commit"@) == "#!/commit"@,
        "#!/about"@ != "#!/readme"@,
        "#!/summary"@ != "#!/readme"@,
        "#!/summary"@ != "#!/about"@,
        "#!/about"@ != "#"@,
        "#!/summary"@ != "#"@,
        "#!/about"@.len() > 0,
        "#!/summary"@.len() > 0,
{
    reveal_strlit("#");
    reveal_strlit("#!/readme");
    reveal_strlit("#!/about");
    reveal_strlit("#!/summary");
    reveal_strlit("#!/refs");
    reveal_strlit("#!/commit");
    assert(!"#!/readme"@.skip(1).contains('#'));
    assert(!"#!/about"@.skip(1).contains('#'));
    assert(!"#!/summary"@.skip(1).contains('#'));
    assert(!"#!/refs"@.skip(1).contains('#'));
    assert(!"#!/commit"@.skip(1).contains('#'));
    lemma_no_anchor("#!/readme"@);
    lemma_no_anchor("#!/about"@);
    lemma_no_anchor("#!/summary"@);
    lemma_no_anchor("#!/refs"@);
    lemma_no_anchor("#!/commit"@);
    assert("#!/about"@[3] != "#!/readme"@[3]);
    assert("#!/summary"@[3] != "#!/readme"@[3] && "#!/summary"@[3] != "#!/about"@[3]);
}

proof fn lemma_bare_dispatch()
    ensures
        route::plain_route("#!/refs"@) == RouteModel::Refs(RefsModel::All),
        route::plain_route("#!/commit"@) is CommitHead,
{
    let nothing = Seq::<char>::empty();
    assert("#!/refs"@ + nothing =~= "#!/refs"@);
    assert("#!/commit"@ + nothing =~= "#!/commit"@);
    text::lemma_first_index(nothing, '?');
    assert(text::before(nothing, '?') =~= nothing);
    assert(text::trim_start(nothing, '/') =~= nothing);
    lemma_dispatch(nothing);
}

/// Every way of showing a diff that the page offers comes back out of its URL as
/// it went in; git's own width is the one that is not written.
pub proof fn diff_settings_come_back(sha: Seq<char>, view: DiffView)
    requires
        view.context matches Some(n) ==> 1 <= n <= 40,
        view.side_by_side ==> view.mode == diff_view::DiffMode::Unified,
    ensures
        ({
            let read = DiffView {
                context: if view.context == Some(3usize) {
                    None
                } else {
                    view.context
                },
                ..view
            };
            route::route_of(route::commit_hash(sha, view)) == (if sha.len() == 0 {
                RouteModel::CommitHead(read)
            } else {
                RouteModel::Commit(sha, read)
            })
        }),
{
    commit_url_round_trips(sha, view);
}

/// A layout is not written where no diff is shown.
pub proof fn hidden_diffs_have_no_layout(sha: Seq<char>, view: DiffView)
    requires
        view.mode == diff_view::DiffMode::StatOnly,
    ensures
        route::commit_hash(sha, view) == route::commit_hash(
            sha,
            (DiffView { side_by_side: !view.side_by_side, ..view }),
        ),
{
    let other = DiffView { side_by_side: !view.side_by_side, ..view };
    assert(diff_view::query_parts(view) =~= diff_view::query_parts(other));
}

/// A hash that does not begin as a route does, or that names none, is the
/// readme's.
pub proof fn other_hashes_are_the_readme(hash: Seq<char>)
    requires
        !seq!['#', '!', '/'].is_prefix_of(hash),
        anchor::selected_lines(hash) is None,
    ensures
        route::route_of(hash) is Readme,
{
    lemma_other_hash(hash, "#!/about"@);
    lemma_other_hash(hash, "#!/summary"@);
    lemma_other_hash(hash, "#!/log"@);
    lemma_other_hash(hash, "#!/commit"@);
    lemma_other_hash(hash, "#!/tree"@);
    lemma_other_hash(hash, "#!/blame"@);
    lemma_other_hash(hash, "#!/snapshot"@);
    lemma_other_hash(hash, "#!/refs"@);
}

proof fn lemma_other_hash(hash: Seq<char>, name: Seq<char>)
    requires
        !seq!['#', '!', '/'].is_prefix_of(hash),
        name == "#!/about"@ || name == "#!/summary"@ || name == "#!/log"@ || name == "#!/commit"@
            || name == "#!/tree"@ || name == "#!/blame"@ || name == "#!/snapshot"@ || name
            == "#!/refs"@,
    ensures
        !name.is_prefix_of(hash),
        hash != name,
{
    reveal_strlit("#!/about");
    reveal_strlit("#!/summary");
    reveal_strlit("#!/log");
    reveal_strlit("#!/commit");
    reveal_strlit("#!/tree");
    reveal_strlit("#!/blame");
    reveal_strlit("#!/snapshot");
    reveal_strlit("#!/refs");
    assert(name.len() >= 3 && name[0] == '#' && name[1] == '!' && name[2] == '/');
    text::lemma_prefix(name, hash);
    text::lemma_prefix(seq!['#', '!', '/'], hash);
    text::lemma_prefix(seq!['#', '!', '/'], name);
}

/// A parameter that a log page does not know changes nothing of it.
pub proof fn unknown_parameters_change_no_log(query_string: Seq<char>, other: Seq<char>)
    requires
        !other.contains('&'),
        !"offset="@.is_prefix_of(other),
        !"h="@.is_prefix_of(other),
        other != "showmsg=1"@,
    ensures
        route::log_query(query_string + seq!['&'] + other) == route::log_query(query_string),
{
    let parts = text::split(query_string, '&');
    text::lemma_split_pieces(query_string, '&');
    text::joining_a_split_gives_the_text_back(query_string, '&');
    text::lemma_join_push(parts, other, seq!['&']);
    let more = parts.push(other);
    assert forall|i: int| 0 <= i < more.len() implies !(#[trigger] more[i]).contains('&') by {
        if i < parts.len() {
            assert(more[i] == parts[i]);
        }
    }
    text::splitting_a_join_gives_the_pieces_back(more, '&');
    assert(more.drop_last() =~= parts);
    assert(more.contains("showmsg=1"@) == parts.contains("showmsg=1"@)) by {
        if more.contains("showmsg=1"@) {
            let k = more.index_of("showmsg=1"@);
            assert(parts[k] == "showmsg=1"@);
        }
        if parts.contains("showmsg=1"@) {
            let k = parts.index_of("showmsg=1"@);
            assert(more[k] == "showmsg=1"@);
        }
    }
}

/// A listing of refs is the same with a slash behind its name.
pub proof fn listings_may_end_in_a_slash()
    ensures
        route::refs_rest("/"@) is All,
        route::refs_rest("/heads"@) is Heads,
        route::refs_rest("/heads/"@) is Heads,
        route::refs_rest("/tags"@) is Tags,
        route::refs_rest("/tags/"@) is Tags,
{
    reveal_strlit("/");
    reveal_strlit("/heads");
    reveal_strlit("/heads/");
    reveal_strlit("/tags");
    reveal_strlit("/tags/");
    assert("/heads"@[1] == 'h' && "/heads/"@[1] == 'h');
    assert("/tags"@[1] == 't' && "/tags/"@[1] == 't');
}

} // verus!
