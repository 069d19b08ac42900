//! Turning a parsed [`Route`] into the view it names. What reads the repository
//! is asked to; what is decided from what it says is here.

use vstd::prelude::*;
use crate::object;
use crate::object::{find_entry, ObjectId, ObjectIdPrefix, TreeEntry, TreeEntryType};
use crate::paths;
use crate::paths::filled_parts;
use crate::render::commit::{resolve_sha, ShaStep};
use crate::render::query;
use crate::render::query::{RefEntry, RefName};
use crate::route::diff_view::DiffView;
use crate::route::query as url_query;
use crate::route::{RefsRoute, Route};
use crate::text;
use crate::text::{bytes_eq, concat, concat3, split_on, split_path, text_eq};

verus! {

/// What a revision was named by.
#[derive(Clone, Copy, PartialEq, Eq, Structural, Debug)]
pub enum RefKind {
    Tag,
    Branch,
    /// A commit named directly by its hash in `?h=`, belonging to no branch or
    /// tag it was resolved through.
    Commit,
}

/// The abbreviated form of a hash, as shown wherever a full one would crowd out
/// what surrounds it: its first eight characters.
pub fn short_hash(hash: &str) -> (r: String)
    ensures
        r@ == (if hash@.len() <= 8 {
            hash@
        } else {
            hash@.take(8)
        }),
{
    let n: usize = hash.unicode_len();
    if n <= 8 {
        hash.to_string()
    } else {
        assert(hash@.subrange(0, 8) =~= hash@.take(8));
        hash.substring_char(0, 8).to_string()
    }
}

/// The entry of the ref that is called `name` below `refs/`.
pub open spec fn ref_named(refs: Seq<(RefName, RefEntry)>, name: Seq<u8>) -> Option<RefEntry>
    decreases refs.len(),
{
    if refs.len() == 0 {
        None
    } else if refs[0].0 matches RefName::Ref(b) && b@ == name {
        Some(refs[0].1)
    } else {
        ref_named(refs.drop_first(), name)
    }
}

/// The entry of the ref that is called `name` below `refs/`.
pub fn find_ref(refs: &Vec<(RefName, RefEntry)>, name: &str) -> (r: Option<RefEntry>)
    ensures
        r == ref_named(refs@, vstd::utf8::encode_utf8(name@)),
{
    let bytes = name.as_bytes();
    let mut i: usize = 0;
    proof {
        assert(refs@.skip(0) =~= refs@);
    }
    while i < refs.len()
        invariant
            i <= refs@.len(),
            bytes@ == vstd::utf8::encode_utf8(name@),
            ref_named(refs@, bytes@) == ref_named(refs@.skip(i as int), bytes@),
        decreases refs@.len() - i,
    {
        proof {
            assert(refs@.skip(i as int)[0] == refs@[i as int]);
            assert(refs@.skip(i as int).drop_first() =~= refs@.skip(i + 1));
        }
        if let RefName::Ref(b) = &refs[i].0 {
            if bytes_eq(b.as_slice(), bytes) {
                return Some(refs[i].1);
            }
        }
        i = i + 1;
    }
    None
}

/// The entry of the tag called `name`.
pub open spec fn tag_named(refs: Seq<(RefName, RefEntry)>, name: Seq<char>) -> Option<RefEntry> {
    ref_named(refs, vstd::utf8::encode_utf8("tags/"@ + name))
}

/// The entry of the branch called `name`.
pub open spec fn branch_named(refs: Seq<(RefName, RefEntry)>, name: Seq<char>) -> Option<RefEntry> {
    ref_named(refs, vstd::utf8::encode_utf8("heads/"@ + name))
}

/// The refs, where they could be listed.
pub open spec fn listed(refs: Option<&Vec<(RefName, RefEntry)>>) -> Option<
    Seq<(RefName, RefEntry)>,
> {
    match refs {
        Some(refs) => Some(refs@),
        None => None,
    }
}

/// Whether the repository has a branch or a tag whose short name is `name`; it
/// has none where its refs cannot be listed.
pub open spec fn names_a_ref(refs: Option<Seq<(RefName, RefEntry)>>, name: Seq<char>) -> bool {
    match refs {
        Some(refs) => branch_named(refs, name) is Some || tag_named(refs, name) is Some,
        None => false,
    }
}

/// Whether the repository has a branch or a tag whose short name is `name`.
pub fn has_ref_named(refs: Option<&Vec<(RefName, RefEntry)>>, name: &str) -> (r: bool)
    ensures
        r == names_a_ref(listed(refs), name@),
{
    match refs {
        Some(refs) => find_ref(refs, concat("heads/", name).as_str()).is_some() || find_ref(
            refs,
            concat("tags/", name).as_str(),
        ).is_some(),
        None => false,
    }
}

/// The `?h=` value to load from: a literal `HEAD` is HEAD, unless a ref is
/// called that.
pub open spec fn loaded_head(
    refs: Option<Seq<(RefName, RefEntry)>>,
    head: Option<Seq<char>>,
) -> Option<Seq<char>> {
    match head {
        Some(name) => if name == "HEAD"@ && !names_a_ref(refs, "HEAD"@) {
            None
        } else {
            Some(name)
        },
        None => None,
    }
}

/// The `?h=` value to load from, with a literal `HEAD` folded away to `None`.
pub fn effective_head<'a>(
    refs: Option<&Vec<(RefName, RefEntry)>>,
    head: Option<&'a str>,
) -> (r: Option<&'a str>)
    ensures
        url_query::opt_str(r) == loaded_head(listed(refs), url_query::opt_str(head)),
{
    match head {
        Some(name) => if text_eq(name, "HEAD") && !has_ref_named(refs, "HEAD") {
            None
        } else {
            Some(name)
        },
        None => None,
    }
}

/// What to ask of the repository to resolve a revision.
pub enum RevisionStep {
    /// Peel the tag's object to a commit. Where it comes down to none, the
    /// revision is resolved without the tag.
    Tag(ObjectId),
    /// Peel the branch's object to a commit.
    Branch(ObjectId),
    /// Look the object up, and peel it to a commit.
    Hash(ObjectId),
    /// Expand the hash against the repository.
    Expand(ObjectIdPrefix),
    /// The revision names nothing.
    Failed(String),
}

/// What to ask of the repository to resolve the revision `name`: a tag, a
/// branch, or a commit hash, whole or abbreviated.
///
/// Refs are consulted first: only a value naming no ref is read as an object
/// id. A tag that comes down to no commit is passed over, `without_tag`.
pub fn resolve_revision(
    refs: &Vec<(RefName, RefEntry)>,
    name: &str,
    without_tag: bool,
) -> (r: RevisionStep)
    ensures
        asks(refs@, name@, without_tag, r),
{
    if !without_tag {
        if let Some(entry) = find_ref(refs, concat("tags/", name).as_str()) {
            return RevisionStep::Tag(entry.commit_target());
        }
    }
    if let Some(entry) = find_ref(refs, concat("heads/", name).as_str()) {
        return RevisionStep::Branch(entry.commit_target());
    }
    // A value that isn't hash-shaped at all is a misspelled ref far more often
    // than a broken hash, so it gets the error naming everything `?h=` accepts.
    if ObjectIdPrefix::from_hex(name.as_bytes()).is_none() {
        return RevisionStep::Failed(
            concat("not a branch, a tag, HEAD, or a commit hash: ", name),
        );
    }
    match resolve_sha(name) {
        ShaStep::Full(id) => RevisionStep::Hash(id),
        ShaStep::Expand(prefix) => RevisionStep::Expand(prefix),
        ShaStep::Invalid(why) => RevisionStep::Failed(why),
    }
}

/// What a revision that was looked for through a branch comes to.
pub fn branch_commit(name: &str, commit: Option<ObjectId>) -> (r: Result<ObjectId, String>)
    ensures
        match commit {
            Some(id) => r == Ok::<ObjectId, String>(id),
            None => r matches Err(why) && why@ == "ref "@ + name@
                + " does not point to a commit"@,
        },
{
    match commit {
        Some(id) => Ok(id),
        None => Err(concat3("ref ", name, " does not point to a commit")),
    }
}

/// What a revision that was looked for by its hash comes to. A hash may name an
/// annotated tag object as readily as a commit, so what was found has been
/// peeled.
pub fn hash_commit(name: &str, commit: Option<ObjectId>) -> (r: Result<ObjectId, String>)
    ensures
        match commit {
            Some(id) => r == Ok::<ObjectId, String>(id),
            None => r matches Err(why) && why@ == name@ + " is not a commit"@,
        },
{
    match commit {
        Some(id) => Ok(id),
        None => Err(concat(name, " is not a commit")),
    }
}

/// The label of a revision in the path bar and in the name of an archive. A ref
/// is labelled by the name that was asked for; a commit by the short hash of
/// what it resolved *to*.
pub fn revision_label(name: &str, kind: RefKind, commit: ObjectId) -> (r: String)
    ensures
        r@ == (match kind {
            RefKind::Commit => object::hex_text(commit@).take(8),
            _ => name@,
        }),
{
    match kind {
        RefKind::Tag | RefKind::Branch => name.to_string(),
        RefKind::Commit => commit.short(),
    }
}

/// The label and kind shown in the path bar and the log header: of the revision
/// asked for, or of the branch HEAD is on. `None` if it can't be resolved — the
/// content reports the real error.
pub fn display_head(
    head: Option<&str>,
    resolved: Option<(ObjectId, RefKind)>,
    head_branch: Option<String>,
) -> (r: Option<(String, RefKind)>)
    ensures
        match head {
            Some(name) => match resolved {
                Some((commit, kind)) => r matches Some(label) && label.1 == kind && label.0@ == (
                match kind {
                    RefKind::Commit => object::hex_text(commit@).take(8),
                    _ => name@,
                }),
                None => r is None,
            },
            None => match head_branch {
                Some(branch) => r matches Some(label) && label.0@ == branch@ && label.1
                    == RefKind::Branch,
                None => r is None,
            },
        },
{
    match head {
        Some(name) => match resolved {
            Some((commit, kind)) => Some((revision_label(name, kind, commit), kind)),
            None => None,
        },
        None => match head_branch {
            Some(branch) => Some((branch, RefKind::Branch)),
            None => None,
        },
    }
}

/// What the archive is named after: the ref asked for, the branch HEAD is on,
/// or — for a `?h=` that named a commit outright, and for a detached HEAD — the
/// commit itself, abbreviated.
pub fn snapshot_label(
    head: Option<(&str, RefKind)>,
    commit: ObjectId,
    head_branch: Option<String>,
) -> (r: String)
    ensures
        r@ == (match head {
            Some((name, RefKind::Commit)) => object::hex_text(commit@).take(8),
            Some((name, _)) => name@,
            None => match head_branch {
                Some(branch) => branch@,
                None => object::hex_text(commit@).take(8),
            },
        }),
{
    match head {
        Some((name, kind)) => revision_label(name, kind, commit),
        None => match head_branch {
            Some(branch) => branch,
            None => commit.short(),
        },
    }
}

/// The names on the way along a path.
pub open spec fn path_names(path: Seq<char>) -> Seq<Seq<char>> {
    paths::filled(text::split(path, '/'))
}

/// The names on the way along a path.
pub fn path_components(path: &str) -> (r: Vec<String>)
    ensures
        text::texts(r@) == path_names(path@),
{
    filled_parts(split_on(path, '/'))
}

/// The subtree of that name, where there is one.
pub open spec fn subtree(entries: Seq<TreeEntry>, name: Seq<char>) -> Option<ObjectId> {
    match object::entry_named(entries, vstd::utf8::encode_utf8(name)) {
        Some(entry) => if entry.entry_type == TreeEntryType::Tree {
            Some(entry.id)
        } else {
            None
        },
        None => None,
    }
}

/// One step of walking to a tree: the subtree of that name.
pub fn step_into(entries: &Vec<TreeEntry>, name: &str) -> (r: Option<ObjectId>)
    ensures
        r == subtree(entries@, name@),
{
    match find_entry(entries, name.as_bytes()) {
        Some(entry) => if entry.entry_type == TreeEntryType::Tree {
            Some(entry.id)
        } else {
            None
        },
        None => None,
    }
}

/// How a walk to a blob goes: the directory to walk to, and the name to look up
/// in it.
pub fn blob_walk<'a>(path: &'a str) -> (r: (&'a str, &'a str))
    ensures
        r.0@ == text::dir_name(path@),
        r.1@ == text::base_name(path@),
{
    split_path(path)
}

/// The last step of walking to a blob: the entry of that name, whatever it is.
pub fn step_to_blob(entries: &Vec<TreeEntry>, name: &str) -> (r: Option<ObjectId>)
    ensures
        r == (match object::entry_named(entries@, vstd::utf8::encode_utf8(name@)) {
            Some(entry) => Some(entry.id),
            None => None,
        }),
{
    match find_entry(entries, name.as_bytes()) {
        Some(entry) => Some(entry.id),
        None => None,
    }
}

/// A walk along a path, one tree at a time.
pub struct TreeWalk {
    pub names: Vec<String>,
    /// How many of the names the walk has gone along.
    pub gone: usize,
}

/// Where a walk goes from the tree it is at.
#[derive(Clone, Copy, Debug)]
pub enum WalkStep {
    /// This is the tree that the path names.
    Here,
    /// On into this subtree.
    Into(ObjectId),
    /// The path names no tree.
    Lost,
}

impl TreeWalk {
    pub open spec fn wf(self) -> bool {
        self.gone <= self.names@.len()
    }

    /// The names that are still ahead.
    pub open spec fn ahead(self) -> Seq<Seq<char>> {
        text::texts(self.names@).skip(self.gone as int)
    }

    /// A walk along `path`, at the root.
    pub fn along(path: &str) -> (r: Self)
        ensures
            r.wf(),
            r.ahead() == path_names(path@),
    {
        let names = path_components(path);
        let r = TreeWalk { names, gone: 0 };
        assert(r.ahead() =~= path_names(path@));
        r
    }

    /// Where the walk goes from a tree with these entries.
    pub fn step(&mut self, entries: &Vec<TreeEntry>) -> (r: WalkStep)
        requires
            old(self).wf(),
        ensures
            final(self).wf(),
            r == next_step(entries@, old(self).ahead()),
            final(self).ahead() == (if r is Into {
                old(self).ahead().drop_first()
            } else {
                old(self).ahead()
            }),
    {
        proof {
            if self.gone < self.names@.len() {
                assert(self.ahead()[0] == self.names@[self.gone as int]@);
            }
        }
        if self.gone == self.names.len() {
            return WalkStep::Here;
        }
        match step_into(entries, self.names[self.gone].as_str()) {
            Some(id) => {
                self.gone = self.gone + 1;
                assert(self.ahead() =~= old(self).ahead().drop_first());
                WalkStep::Into(id)
            },
            None => WalkStep::Lost,
        }
    }
}

/// Where a walk goes from a tree with these entries and these names ahead.
pub open spec fn next_step(entries: Seq<TreeEntry>, ahead: Seq<Seq<char>>) -> WalkStep {
    if ahead.len() == 0 {
        WalkStep::Here
    } else {
        match subtree(entries, ahead[0]) {
            Some(id) => WalkStep::Into(id),
            None => WalkStep::Lost,
        }
    }
}

/// Where the view of a route comes from.
pub enum Load {
    About,
    /// The README always comes from HEAD's tree, never a `?h=` ref.
    Readme,
    Summary,
    RefsHeads,
    RefsTags,
    RefsAll,
    Tag(String),
    /// HEAD's own commit. `#!/commit` with no id follows HEAD, so the diff
    /// controls have to rebuild it without an id too.
    HeadCommit(DiffView),
    Commit { sha: String, view: DiffView },
    /// A revision has to be resolved first, for what stands in it.
    At { head: Option<String>, goal: Goal },
}

/// What is shown of a revision.
pub enum Goal {
    Log { offset: usize, path: String, showmsg: bool },
    Tree { path: String, render: bool },
    Blame { path: String },
    Snapshot,
    /// What the revision itself is called, for the path bar.
    Label,
}

/// Where the view of `route` comes from.
pub fn load(route: Route) -> (r: Load)
    ensures
        match route {
            Route::About => r is About,
            Route::Readme => r is Readme,
            Route::Summary => r is Summary,
            Route::Log { offset, head, path, showmsg } => r == (Load::At {
                head,
                goal: Goal::Log { offset, path, showmsg },
            }),
            Route::CommitHead(view) => r == Load::HeadCommit(view),
            Route::Commit(sha, view) => r == (Load::Commit { sha, view }),
            Route::Refs(RefsRoute::All) => r is RefsAll,
            Route::Refs(RefsRoute::Heads) => r is RefsHeads,
            Route::Refs(RefsRoute::Tags) => r is RefsTags,
            Route::Refs(RefsRoute::Tag(tag)) => r == Load::Tag(tag),
            Route::Tree { path, head, render } => r == (Load::At {
                head,
                goal: Goal::Tree { path, render },
            }),
            Route::Blame { path, head } => r == (Load::At { head, goal: Goal::Blame { path } }),
            Route::Snapshot { head } => r == (Load::At { head, goal: Goal::Snapshot }),
        },
{
    match route {
        Route::About => Load::About,
        Route::Readme => Load::Readme,
        Route::Summary => Load::Summary,
        Route::Log { offset, head, path, showmsg } => Load::At {
            head,
            goal: Goal::Log { offset, path, showmsg },
        },
        Route::CommitHead(view) => Load::HeadCommit(view),
        Route::Commit(sha, view) => Load::Commit { sha, view },
        Route::Refs(RefsRoute::All) => Load::RefsAll,
        Route::Refs(RefsRoute::Heads) => Load::RefsHeads,
        Route::Refs(RefsRoute::Tags) => Load::RefsTags,
        Route::Refs(RefsRoute::Tag(tag)) => Load::Tag(tag),
        Route::Tree { path, head, render } => Load::At { head, goal: Goal::Tree { path, render } },
        Route::Blame { path, head } => Load::At { head, goal: Goal::Blame { path } },
        Route::Snapshot { head } => Load::At { head, goal: Goal::Snapshot },
    }
}

/// The commit that a commit view is built from, and the id that its controls
/// rebuild the URL with: HEAD's own commit is named by none.
pub fn commit_names(sha: Option<&str>, head: ObjectId) -> (r: (String, String))
    ensures
        match sha {
            Some(s) => r.0@ == s@ && r.1@ == s@,
            None => r.0@ == object::hex_text(head@) && r.1@.len() == 0,
        },
{
    match sha {
        Some(s) => (s.to_string(), s.to_string()),
        None => (head.to_hex(), String::new()),
    }
}

/// Which tree a goal needs once its revision is known.
pub enum TreeStep {
    /// None: a log starts from the commit, and a label needs no more than it.
    Nothing,
    /// HEAD's tree, which is at hand.
    Root,
    /// The commit's tree, looked up. What fails is put down to the first where
    /// the object cannot be read, and to the second where it is no tree.
    LookUp { read: String, expect: String },
}

/// Which tree a goal needs once its revision, `head`, is known. Blame always
/// looks the tree up: it starts from the commit rather than from its tree.
pub fn tree_step(goal: &Goal, head: Option<&str>) -> (r: TreeStep)
    ensures
        match (*goal, head) {
            (Goal::Log { .. }, _) | (Goal::Label, _) => r is Nothing,
            (Goal::Tree { .. }, None) => r is Root,
            (Goal::Tree { .. }, Some(name)) => r matches TreeStep::LookUp { read, expect } && read@
                == "lookup tree for "@ + name@ && expect@ == "expected tree for "@ + name@,
            (Goal::Blame { .. }, _) => r matches TreeStep::LookUp { read, expect } && read@
                == "lookup tree to blame"@ && expect@ == "expected a tree to blame"@,
            (Goal::Snapshot, None) => r is Root,
            (Goal::Snapshot, Some(_)) => r matches TreeStep::LookUp { read, expect } && read@
                == "lookup tree to archive"@ && expect@ == "expected a tree to archive"@,
        },
{
    match (goal, head) {
        (Goal::Log { .. }, _) | (Goal::Label, _) => TreeStep::Nothing,
        (Goal::Tree { .. }, None) => TreeStep::Root,
        (Goal::Tree { .. }, Some(name)) => TreeStep::LookUp {
            read: concat("lookup tree for ", name),
            expect: concat("expected tree for ", name),
        },
        (Goal::Blame { .. }, _) => TreeStep::LookUp {
            read: "lookup tree to blame".to_string(),
            expect: "expected a tree to blame".to_string(),
        },
        (Goal::Snapshot, None) => TreeStep::Root,
        (Goal::Snapshot, Some(_)) => TreeStep::LookUp {
            read: "lookup tree to archive".to_string(),
            expect: "expected a tree to archive".to_string(),
        },
    }
}

/// What is said of a path that names nothing.
pub fn not_found(path: &str) -> (r: String)
    ensures
        r@ == "Not found: "@ + path@,
{
    concat("Not found: ", path)
}

/// What to ask of the repository next, of a revision.
pub open spec fn asks(
    refs: Seq<(RefName, RefEntry)>,
    name: Seq<char>,
    without_tag: bool,
    step: RevisionStep,
) -> bool {
    let bytes = vstd::utf8::encode_utf8(name);
    let tag = tag_named(refs, name);
    let branch = branch_named(refs, name);
    if !without_tag && tag is Some {
        step == RevisionStep::Tag(query::target_of(tag->0))
    } else if branch is Some {
        step == RevisionStep::Branch(query::target_of(branch->0))
    } else if !object::abbreviates(bytes) {
        step matches RevisionStep::Failed(why) && why@
            == "not a branch, a tag, HEAD, or a commit hash: "@ + name
    } else if object::named_object(bytes) is Some {
        step matches RevisionStep::Hash(id) && object::named_object(bytes) == Some(id@)
    } else {
        step matches RevisionStep::Expand(prefix) && prefix.wf() && prefix.digits@ == Seq::new(
            bytes.len(),
            |i: int| crate::route::encode::nibble(bytes[i])->0,
        )
    }
}

/// A name names the first ref that is called so, and none where none is.
pub proof fn names_name_their_first_ref(
    refs: Seq<(RefName, RefEntry)>,
    name: Seq<char>,
    raw: Vec<u8>,
    entry: RefEntry,
    i: int,
)
    requires
        0 <= i < refs.len(),
        refs[i] == (RefName::Ref(raw), entry),
    ensures
        (forall|j: int|
            0 <= j < i ==> !((#[trigger] refs[j]).0 matches RefName::Ref(b) && b@ == raw@)) ==> {
            &&& ref_named(refs, raw@) == Some(entry)
            &&& raw@ == vstd::utf8::encode_utf8(seq!['t', 'a', 'g', 's', '/'] + name) ==> tag_named(
                refs,
                name,
            ) == Some(entry)
            &&& raw@ == vstd::utf8::encode_utf8(seq!['h', 'e', 'a', 'd', 's', '/'] + name)
                ==> branch_named(refs, name) == Some(entry)
        },
    decreases refs.len(),
{
    reveal_strlit("tags/");
    reveal_strlit("heads/");
    assert("tags/"@ =~= seq!['t', 'a', 'g', 's', '/']);
    assert("heads/"@ =~= seq!['h', 'e', 'a', 'd', 's', '/']);
    if i > 0 && forall|j: int|
        0 <= j < i ==> !((#[trigger] refs[j]).0 matches RefName::Ref(b) && b@ == raw@) {
        let rest = refs.drop_first();
        assert(rest[i - 1] == refs[i]);
        assert(!(refs[0].0 matches RefName::Ref(b) && b@ == raw@));
        assert forall|j: int| 0 <= j < i - 1 implies !((#[trigger] rest[j]).0 matches RefName::Ref(b)
            && b@ == raw@) by {
            assert(rest[j] == refs[j + 1]);
        }
        names_name_their_first_ref(rest, name, raw, entry, i - 1);
    }
}

/// A name that no ref is called by names none.
pub proof fn other_names_name_no_ref(refs: Seq<(RefName, RefEntry)>, raw: Seq<u8>)
    requires
        forall|j: int|
            0 <= j < refs.len() ==> !((#[trigger] refs[j]).0 matches RefName::Ref(b) && b@ == raw),
    ensures
        ref_named(refs, raw) is None,
    decreases refs.len(),
{
    if refs.len() > 0 {
        let rest = refs.drop_first();
        assert(!(refs[0].0 matches RefName::Ref(b) && b@ == raw));
        assert forall|j: int| 0 <= j < rest.len() implies !((
        #[trigger] rest[j]).0 matches RefName::Ref(b) && b@ == raw) by {
            assert(rest[j] == refs[j + 1]);
        }
        other_names_name_no_ref(rest, raw);
    }
}

/// A walk goes into the first entry that is called as the next name is, where
/// that is a tree, and stops where no name is left.
pub proof fn walks_go_into_trees(entries: Seq<TreeEntry>, ahead: Seq<Seq<char>>, i: int)
    requires
        0 <= i < entries.len(),
        ahead.len() > 0,
        entries[i].name@ == vstd::utf8::encode_utf8(ahead[0]),
        forall|j: int|
            0 <= j < i ==> (#[trigger] entries[j]).name@ != vstd::utf8::encode_utf8(ahead[0]),
    ensures
        entries[i].entry_type == TreeEntryType::Tree ==> next_step(entries, ahead)
            == WalkStep::Into(entries[i].id),
        entries[i].entry_type != TreeEntryType::Tree ==> next_step(entries, ahead) is Lost,
        next_step(entries, Seq::empty()) is Here,
{
    object::names_name_their_first_entry(entries, vstd::utf8::encode_utf8(ahead[0]), i);
}

/// A literal `HEAD` is HEAD where no branch and no tag is called so; every other
/// name stays what it is.
pub proof fn only_head_is_head(refs: Option<Seq<(RefName, RefEntry)>>, name: Seq<char>)
    ensures
        name != "HEAD"@ ==> loaded_head(refs, Some(name)) == Some(name),
        loaded_head(refs, None) is None,
        refs is None ==> loaded_head(refs, Some("HEAD"@)) is None,
        refs matches Some(listed) ==> (loaded_head(refs, Some("HEAD"@)) is None) == (branch_named(
            listed,
            "HEAD"@,
        ) is None && tag_named(listed, "HEAD"@) is None),
{
}

/// A revision is looked for as a tag, as a branch and as a hash, in that order.
pub proof fn revisions_are_looked_for_in_order(
    refs: Seq<(RefName, RefEntry)>,
    name: Seq<char>,
    without_tag: bool,
    step: RevisionStep,
)
    requires
        asks(refs, name, without_tag, step),
    ensures
        ({
            let bytes = vstd::utf8::encode_utf8(name);
            let tag = tag_named(refs, name);
            let branch = branch_named(refs, name);
            &&& tag is Some && !without_tag ==> step == RevisionStep::Tag(query::target_of(tag->0))
            &&& (tag is None || without_tag) && branch is Some ==> step == RevisionStep::Branch(
                query::target_of(branch->0),
            )
            &&& (tag is None || without_tag) && branch is None ==> {
                &&& object::named_object(bytes) is Some ==> (step matches RevisionStep::Hash(id)
                    && object::named_object(bytes) == Some(id@))
                &&& object::named_object(bytes) is None && object::abbreviates(bytes) ==> step
                    is Expand
                &&& object::named_object(bytes) is None && !object::abbreviates(bytes) ==> step
                    is Failed
            }
        }),
{
}

} // verus!
