//! The repository index: the sections of `listing.json`, in the order the file
//! gives them.

use vstd::prelude::*;
use crate::text;
use crate::text::{concat, concat3, trim_of};

verus! {

/// One element of `listing.json`: an object mapping prefixes to the
/// repositories under them, e.g. `{"public": ["foo.git", "bar.git"]}`, in the
/// order written.
pub struct ListingEntry {
    pub sections: Vec<(String, Vec<String>)>,
}

#[derive(PartialEq, Debug)]
pub struct RepoEntry {
    /// Basename within its section, e.g. `foo.git`.
    pub name: String,
    /// Root-absolute link to the repository's view.
    pub href: String,
}

#[derive(PartialEq, Debug)]
pub struct RepoGroup {
    /// The prefix the repositories live under; empty for top-level ones.
    pub section: String,
    pub repos: Vec<RepoEntry>,
}

/// A repository's name, and where it is.
pub type RepoModel = (Seq<char>, Seq<char>);

/// A section, and the repositories in it.
pub type GroupModel = (Seq<char>, Seq<RepoModel>);

pub open spec fn repos_view(repos: Seq<RepoEntry>) -> Seq<RepoModel> {
    repos.map_values(|e: RepoEntry| (e.name@, e.href@))
}

pub open spec fn groups_view(groups: Seq<RepoGroup>) -> Seq<GroupModel> {
    groups.map_values(|g: RepoGroup| (g.section@, repos_view(g.repos@)))
}

/// Where the repository `name` of a section is.
pub open spec fn repo_href(section: Seq<char>, name: Seq<char>) -> Seq<char> {
    if section.len() == 0 {
        "/"@ + name + "/"@
    } else {
        "/"@ + section + "/"@ + name + "/"@
    }
}

/// The repositories of a section. Slashes around a name are no part of it, and
/// an empty name is none.
pub open spec fn repos_of(section: Seq<char>, names: Seq<Seq<char>>) -> Seq<RepoModel>
    decreases names.len(),
{
    if names.len() == 0 {
        Seq::empty()
    } else {
        let earlier = repos_of(section, names.drop_last());
        let name = text::trim(names.last(), '/');
        if name.len() == 0 {
            earlier
        } else {
            earlier.push((name, repo_href(section, name)))
        }
    }
}

/// The sections that are listed: those with a repository in them.
pub open spec fn groups_of_sections(sections: Seq<(String, Vec<String>)>) -> Seq<GroupModel>
    decreases sections.len(),
{
    if sections.len() == 0 {
        Seq::empty()
    } else {
        let earlier = groups_of_sections(sections.drop_last());
        let section = text::trim(sections.last().0@, '/');
        let repos = repos_of(section, text::texts(sections.last().1@));
        if repos.len() == 0 {
            earlier
        } else {
            earlier.push((section, repos))
        }
    }
}

/// The sections of a whole listing.
pub open spec fn groups_of(entries: Seq<ListingEntry>) -> Seq<GroupModel>
    decreases entries.len(),
{
    if entries.len() == 0 {
        Seq::empty()
    } else {
        groups_of(entries.drop_last()) + groups_of_sections(entries.last().sections@)
    }
}

fn href_of(section: &str, name: &str) -> (r: String)
    ensures
        r@ == repo_href(section@, name@),
{
    if section.is_empty() {
        concat3("/", name, "/")
    } else {
        let head = concat3("/", section, "/");
        concat3(head.as_str(), name, "/")
    }
}

fn section_repos(section: &str, names: &Vec<String>) -> (r: Vec<RepoEntry>)
    ensures
        repos_view(r@) == repos_of(section@, text::texts(names@)),
{
    let mut out: Vec<RepoEntry> = Vec::new();
    let ghost all = text::texts(names@);
    let mut i: usize = 0;
    proof {
        assert(repos_view(out@) =~= repos_of(section@, all.take(0)));
    }
    while i < names.len()
        invariant
            i <= names@.len(),
            all == text::texts(names@),
            repos_view(out@) == repos_of(section@, all.take(i as int)),
        decreases names@.len() - i,
    {
        let ghost was = repos_view(out@);
        proof {
            assert(all.take(i + 1).drop_last() =~= all.take(i as int));
            assert(all.take(i + 1).last() == names@[i as int]@);
        }
        let name = trim_of(names[i].as_str(), '/');
        if !name.is_empty() {
            out.push(RepoEntry { name: name.to_string(), href: href_of(section, name) });
            assert(repos_view(out@) =~= was.push((name@, repo_href(section@, name@))));
        }
        i = i + 1;
    }
    proof {
        assert(all.take(i as int) =~= all);
    }
    out
}

/// Add the sections of one element.
fn add_sections(groups: &mut Vec<RepoGroup>, sections: &Vec<(String, Vec<String>)>)
    ensures
        groups_view(final(groups)@) == groups_view(old(groups)@) + groups_of_sections(sections@),
{
    let ghost before = groups_view(groups@);
    let mut i: usize = 0;
    proof {
        assert(before + groups_of_sections(sections@.take(0)) =~= before);
    }
    while i < sections.len()
        invariant
            i <= sections@.len(),
            groups_view(groups@) == before + groups_of_sections(sections@.take(i as int)),
        decreases sections@.len() - i,
    {
        let ghost was = groups_view(groups@);
        proof {
            assert(sections@.take(i + 1).drop_last() =~= sections@.take(i as int));
            assert(sections@.take(i + 1).last() == sections@[i as int]);
        }
        let section = trim_of(sections[i].0.as_str(), '/');
        let repos = section_repos(section, &sections[i].1);
        if repos.len() > 0 {
            let ghost model = (section@, repos_view(repos@));
            groups.push(RepoGroup { section: section.to_string(), repos });
            proof {
                assert(groups_view(groups@) =~= was.push(model));
                assert(was.push(model) =~= before + groups_of_sections(
                    sections@.take(i as int),
                ).push(model));
            }
        }
        i = i + 1;
    }
    proof {
        assert(sections@.take(i as int) =~= sections@);
    }
}

/// Turn the parsed file into groups, one per section, keeping both the section
/// order and the repository order the file gave. Sections with nothing in them
/// are dropped so the table never shows a dangling header.
pub fn listing_groups(entries: &Vec<ListingEntry>) -> (r: Vec<RepoGroup>)
    ensures
        groups_view(r@) == groups_of(entries@),
{
    let mut groups: Vec<RepoGroup> = Vec::new();
    let mut i: usize = 0;
    proof {
        assert(groups_view(groups@) =~= groups_of(entries@.take(0)));
    }
    while i < entries.len()
        invariant
            i <= entries@.len(),
            groups_view(groups@) == groups_of(entries@.take(i as int)),
        decreases entries@.len() - i,
    {
        proof {
            assert(entries@.take(i + 1).drop_last() =~= entries@.take(i as int));
            assert(entries@.take(i + 1).last() == entries@[i as int]);
        }
        add_sections(&mut groups, &entries[i].sections);
        i = i + 1;
    }
    proof {
        assert(entries@.take(i as int) =~= entries@);
    }
    groups
}

/// Where the listing is.
pub fn listing_url(origin: &str) -> (r: String)
    ensures
        r@ == origin@ + "/listing.json"@,
{
    concat(origin, "/listing.json")
}

/// No group that is listed is empty.
pub proof fn no_group_is_empty(entries: Seq<ListingEntry>, i: int)
    requires
        0 <= i < groups_of(entries).len(),
    ensures
        groups_of(entries)[i].1.len() > 0,
    decreases entries.len(),
{
    let before = groups_of(entries.drop_last());
    if i < before.len() {
        assert(groups_of(entries)[i] == before[i]);
        no_group_is_empty(entries.drop_last(), i);
    } else {
        let last = groups_of_sections(entries.last().sections@);
        assert(groups_of(entries)[i] == last[i - before.len()]);
        lemma_sections_filled(entries.last().sections@, i - before.len());
    }
}

proof fn lemma_sections_filled(sections: Seq<(String, Vec<String>)>, i: int)
    requires
        0 <= i < groups_of_sections(sections).len(),
    ensures
        groups_of_sections(sections)[i].1.len() > 0,
    decreases sections.len(),
{
    let before = groups_of_sections(sections.drop_last());
    if i < before.len() {
        assert(groups_of_sections(sections)[i] == before[i]);
        lemma_sections_filled(sections.drop_last(), i);
    }
}

/// The repositories of a section are listed one behind the other, each without
/// the slashes around its name, and linked below its section; only empty names
/// are left out.
pub proof fn every_repository_is_listed(
    section: Seq<char>,
    a: Seq<Seq<char>>,
    b: Seq<Seq<char>>,
    name: Seq<char>,
)
    ensures
        repos_of(section, a + b) == repos_of(section, a) + repos_of(section, b),
        name.len() > 0 && name[0] != '/' && name.last() != '/' ==> {
            let link = if section.len() == 0 {
                seq!['/'] + name + seq!['/']
            } else {
                seq!['/'] + section + seq!['/'] + name + seq!['/']
            };
            &&& repos_of(section, seq![name]) == seq![(name, link)]
            &&& repos_of(section, seq![name + seq!['/']]) == seq![(name, link)]
            &&& repos_of(section, seq![seq!['/'] + name]) == seq![(name, link)]
        },
        name.len() == 0 ==> repos_of(section, seq![name]).len() == 0,
    decreases b.len(),
{
    reveal_strlit("/");
    assert("/"@ =~= seq!['/']);
    lemma_one_repository(section, name);
    lemma_one_repository(section, name + seq!['/']);
    lemma_one_repository(section, seq!['/'] + name);
    if name.len() > 0 && name[0] != '/' && name.last() != '/' {
        lemma_slash_behind(name);
        lemma_slash_before(name);
    }
    if b.len() == 0 {
        assert(a + b =~= a);
        assert(repos_of(section, a) + repos_of(section, b) =~= repos_of(section, a));
    } else {
        assert((a + b).drop_last() =~= a + b.drop_last());
        every_repository_is_listed(section, a, b.drop_last(), name);
        assert(repos_of(section, a + b) =~= repos_of(section, a) + repos_of(section, b));
    }
}

proof fn lemma_one_repository(section: Seq<char>, name: Seq<char>)
    ensures
        ({
            let bare = text::trim(name, '/');
            repos_of(section, seq![name]) == (if bare.len() == 0 {
                Seq::<RepoModel>::empty()
            } else {
                seq![(bare, repo_href(section, bare))]
            })
        }),
{
    let one = seq![name];
    assert(one.drop_last() =~= Seq::empty());
    assert(repos_of(section, Seq::<Seq<char>>::empty()) =~= Seq::empty());
    let bare = text::trim(name, '/');
    assert(repos_of(section, one) =~= (if bare.len() == 0 {
        Seq::<RepoModel>::empty()
    } else {
        seq![(bare, repo_href(section, bare))]
    }));
}

proof fn lemma_slash_behind(s: Seq<char>)
    requires
        s.len() > 0,
        s[0] != '/',
        s.last() != '/',
    ensures
        text::trim(s + seq!['/'], '/') == s,
        text::trim(s, '/') == s,
{
    let t = s + seq!['/'];
    assert(t[0] == s[0]);
    assert(t.drop_last() =~= s);
    assert(text::trim_end(t, '/') == text::trim_end(s, '/'));
}

proof fn lemma_slash_before(s: Seq<char>)
    requires
        s.len() > 0,
        s[0] != '/',
        s.last() != '/',
    ensures
        text::trim(seq!['/'] + s, '/') == s,
{
    let t = seq!['/'] + s;
    assert(t.drop_first() =~= s);
    assert(text::trim_start(t, '/') == text::trim_start(s, '/'));
}

/// The sections of a listing stand one behind the other, each under its name
/// without the slashes around it and with all its repositories.
pub proof fn every_section_is_listed(
    a: Seq<(String, Vec<String>)>,
    b: Seq<(String, Vec<String>)>,
    one: (String, Vec<String>),
)
    ensures
        groups_of_sections(a + b) == groups_of_sections(a) + groups_of_sections(b),
        one.0@.len() == 0 || (one.0@[0] != '/' && one.0@.last() != '/') ==> {
            let repos = repos_of(one.0@, text::texts(one.1@));
            &&& repos.len() > 0 ==> groups_of_sections(seq![one]) == seq![(one.0@, repos)]
            &&& repos.len() == 0 ==> groups_of_sections(seq![one]).len() == 0
        },
    decreases b.len(),
{
    let single = seq![one];
    assert(single.drop_last() =~= Seq::empty());
    assert(groups_of_sections(Seq::<(String, Vec<String>)>::empty()) =~= Seq::empty());
    if one.0@.len() == 0 || (one.0@[0] != '/' && one.0@.last() != '/') {
        if one.0@.len() > 0 {
            lemma_slash_behind(one.0@);
        }
        assert(text::trim(one.0@, '/') == one.0@);
        let repos = repos_of(one.0@, text::texts(one.1@));
        if repos.len() > 0 {
            assert(groups_of_sections(single) =~= seq![(one.0@, repos)]);
        }
    }
    if b.len() == 0 {
        assert(a + b =~= a);
        assert(groups_of_sections(a) + groups_of_sections(b) =~= groups_of_sections(a));
    } else {
        assert((a + b).drop_last() =~= a + b.drop_last());
        every_section_is_listed(a, b.drop_last(), one);
        assert(groups_of_sections(a + b) =~= groups_of_sections(a) + groups_of_sections(b));
    }
}

/// The elements of a listing stand one behind the other, each with all its
/// sections.
pub proof fn every_element_is_listed(
    a: Seq<ListingEntry>,
    b: Seq<ListingEntry>,
    one: ListingEntry,
)
    ensures
        groups_of(a + b) == groups_of(a) + groups_of(b),
        groups_of(seq![one]) == groups_of_sections(one.sections@),
    decreases b.len(),
{
    assert(seq![one].drop_last() =~= Seq::empty());
    assert(groups_of(Seq::<ListingEntry>::empty()) =~= Seq::empty());
    assert(groups_of(seq![one]) =~= groups_of_sections(one.sections@));
    if b.len() == 0 {
        assert(a + b =~= a);
        assert(groups_of(a) + groups_of(b) =~= groups_of(a));
    } else {
        assert((a + b).drop_last() =~= a + b.drop_last());
        every_element_is_listed(a, b.drop_last(), one);
        assert(groups_of(a + b) =~= groups_of(a) + groups_of(b));
    }
}

} // verus!
