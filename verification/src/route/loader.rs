//! Loading what a route shows of a revision: what the repository is asked, one
//! thing at a time, and the page that the answers come to.

use vstd::prelude::*;
use crate::object;
use crate::object::{ObjectId, ObjectIdPrefix, PrefixResolution, TreeEntry, TreeEntryType};
use crate::paths;
use crate::render::commit::{expanded_sha, resolve_sha, ShaStep};
use crate::render::query;
use crate::render::query::{RefEntry, RefName};
use crate::route::load;
use crate::route::load::{
    blob_walk,
    branch_commit,
    display_head,
    effective_head,
    hash_commit,
    resolve_revision,
    snapshot_label,
    step_to_blob,
    tree_step,
    Goal,
    RefKind,
    RevisionStep,
    TreeStep,
    TreeWalk,
    WalkStep,
};
use crate::route::query as url_query;
use crate::route::query::as_opt_str;
use crate::text;
use crate::text::concat;

verus! {

/// A commit, as loading reads it: its own id and its tree's.
#[derive(Clone, Copy, Debug)]
pub struct CommitRef {
    pub id: ObjectId,
    pub tree: ObjectId,
}

/// A commit's id and its tree's.
pub struct CommitModel {
    pub id: Seq<u8>,
    pub tree: Seq<u8>,
}

impl View for CommitRef {
    type V = CommitModel;

    open spec fn view(&self) -> CommitModel {
        CommitModel { id: self.id@, tree: self.tree@ }
    }
}

/// The revision that is loaded from.
#[derive(Clone, Copy, Debug)]
pub enum Revision {
    /// HEAD's own.
    Home,
    /// The one that `?h=` names.
    Named(RefKind, CommitRef),
}

/// What has been asked of the repository, and is to be answered next.
#[derive(Clone, Copy, Debug)]
pub enum Place {
    /// The refs, which say how `?h=` is to be read.
    Refs,
    /// The commit of the tag that `?h=` names.
    Tag(ObjectId),
    /// The commit of the branch that `?h=` names.
    Branch(ObjectId),
    /// The object that `?h=` abbreviates.
    Prefix,
    /// That object; `None` is the one that `?h=` spells out.
    Object(Option<ObjectId>),
    /// The commit that it peels to.
    Peel(Option<ObjectId>),
    /// The revision's tree.
    Tree(Revision),
    /// A directory on the way to the path's.
    Folder(Revision, ObjectId),
    /// A directory on the way to the path's file.
    FileFolder(Revision, ObjectId),
    /// The path's file.
    File(Revision, ObjectId),
    /// The branch that HEAD is on.
    HeadBranch,
}

/// What the repository is asked.
pub enum Ask {
    /// The refs.
    Refs,
    /// The commit that the object peels to, where both can be read.
    Commit(ObjectId),
    /// The object that the digits abbreviate.
    Expand(ObjectIdPrefix),
    /// The object itself.
    Object(ObjectId),
    /// The commit that the object that was read last peels to.
    Peel,
    /// The entries of the tree.
    Tree(ObjectId),
    /// The bytes of the blob.
    Blob(ObjectId),
    /// The branch that HEAD is on.
    HeadBranch,
}

/// What the repository answers. An answer to something else than was asked is
/// as good as none.
pub enum Reply {
    Refs(Vec<(RefName, RefEntry)>),
    /// The commit, or that there is none.
    Commit(Option<CommitRef>),
    Expanded(PrefixResolution),
    /// The object is there.
    Object,
    Tree(Vec<TreeEntry>),
    Blob(Vec<u8>),
    HeadBranch(Option<String>),
    /// It could not be read.
    Failed,
    /// It is an object of another kind.
    Mistyped,
}

/// What a route comes to.
pub enum Page {
    /// The history from this commit.
    Log(CommitRef),
    /// The listing of this tree.
    Tree(ObjectId),
    /// This file, with its bytes.
    Blob(ObjectId, Vec<u8>),
    /// This file, blamed from the commit.
    Blame(CommitRef, ObjectId, Vec<u8>),
    /// The commit's tree as an archive, under this label.
    Snapshot(CommitRef, String),
    /// What the revision is called, where it can be.
    Label(Option<(String, RefKind)>),
    /// The path names neither a directory nor a file.
    NotFound,
    /// Loading fails with these words; with the failure that was answered last
    /// behind them, where `caused`.
    Failed { why: String, caused: bool },
}

/// What a route comes to, as values.
pub enum PageModel {
    Log(CommitModel),
    Tree(Seq<u8>),
    Blob(Seq<u8>, Seq<u8>),
    Blame(CommitModel, Seq<u8>, Seq<u8>),
    Snapshot(CommitModel, Seq<char>),
    Label(Option<(Seq<char>, RefKind)>),
    NotFound,
    Failed(Seq<char>, bool),
}

impl View for Page {
    type V = PageModel;

    open spec fn view(&self) -> PageModel {
        match *self {
            Page::Log(commit) => PageModel::Log(commit@),
            Page::Tree(id) => PageModel::Tree(id@),
            Page::Blob(id, data) => PageModel::Blob(id@, data@),
            Page::Blame(commit, id, data) => PageModel::Blame(commit@, id@, data@),
            Page::Snapshot(commit, label) => PageModel::Snapshot(commit@, label@),
            Page::Label(label) => PageModel::Label(
                match label {
                    Some(label) => Some((label.0@, label.1)),
                    None => None,
                },
            ),
            Page::NotFound => PageModel::NotFound,
            Page::Failed { why, caused } => PageModel::Failed(why@, caused),
        }
    }
}

/// A route on its way to its page.
pub struct Loader {
    pub goal: Goal,
    /// The `?h=` value.
    pub head: Option<String>,
    /// HEAD's commit.
    pub home: CommitRef,
    /// The refs, once they are known.
    pub refs: Vec<(RefName, RefEntry)>,
    /// The tree that paths start from: HEAD's, until another has been read.
    pub root: Vec<TreeEntry>,
    /// The way that is left along the path.
    pub walk: TreeWalk,
    pub at: Place,
}

/// A route on its way to its page, as values.
pub struct LoaderModel {
    pub goal: Goal,
    pub head: Option<String>,
    pub home: CommitRef,
    pub refs: Seq<(RefName, RefEntry)>,
    pub root: Seq<TreeEntry>,
    pub ahead: Seq<Seq<char>>,
    pub at: Place,
}

impl View for Loader {
    type V = LoaderModel;

    open spec fn view(&self) -> LoaderModel {
        LoaderModel {
            goal: self.goal,
            head: self.head,
            home: self.home,
            refs: self.refs@,
            root: self.root@,
            ahead: self.walk.ahead(),
            at: self.at,
        }
    }
}

/// How far a route has got.
pub enum Progress {
    /// The repository is to be asked more.
    More(Loader),
    /// The page is known.
    Done { goal: Goal, head: Option<String>, page: Page },
}

/// How far a route has got, as values.
pub enum Next {
    More(LoaderModel),
    Done(PageModel),
}

impl Progress {
    /// Whether the route has got as far as `next`, with its goal and its `?h=`
    /// as they were.
    pub open spec fn is_next(self, goal: Goal, head: Option<String>, next: Next) -> bool {
        match (self, next) {
            (Progress::More(loader), Next::More(model)) => loader.wf() && loader@ == model
                && loader.goal == goal && loader.head == head,
            (Progress::Done { goal: g, head: h, page }, Next::Done(model)) => page@ == model
                && g == goal && h == head,
            _ => false,
        }
    }
}

/// The `?h=` value, empty where there is none.
pub open spec fn name_of(head: Option<String>) -> Seq<char> {
    match head {
        Some(name) => name@,
        None => Seq::empty(),
    }
}

/// The path of a goal, empty where it has none.
pub open spec fn path_of(goal: Goal) -> Seq<char> {
    match goal {
        Goal::Tree { path, .. } => path@,
        Goal::Blame { path } => path@,
        _ => Seq::empty(),
    }
}

/// The commit of a revision.
pub open spec fn commit_of(home: CommitRef, from: Revision) -> CommitRef {
    match from {
        Revision::Home => home,
        Revision::Named(_, commit) => commit,
    }
}

/// The name of the object that `found` stands for.
pub open spec fn object_of(head: Option<String>, found: Option<ObjectId>) -> Seq<u8> {
    match found {
        Some(id) => id@,
        None => object::named_object(vstd::utf8::encode_utf8(name_of(head)))->0,
    }
}

/// Whether HEAD's tree, which is at hand, is the one that a goal needs.
pub open spec fn at_hand(goal: Goal, from: Revision) -> bool {
    from is Home && (goal is Tree || goal is Snapshot)
}

/// The words for a tree that cannot be read.
pub open spec fn read_words(goal: Goal, head: Option<String>) -> Seq<char> {
    match goal {
        Goal::Tree { .. } => "lookup tree for "@ + name_of(head),
        Goal::Blame { .. } => "lookup tree to blame"@,
        _ => "lookup tree to archive"@,
    }
}

/// The words for a tree that is something else.
pub open spec fn expect_words(goal: Goal, head: Option<String>) -> Seq<char> {
    match goal {
        Goal::Tree { .. } => "expected tree for "@ + name_of(head),
        Goal::Blame { .. } => "expected a tree to blame"@,
        _ => "expected a tree to archive"@,
    }
}

/// What a named revision is called: a ref by its name, a commit by its short
/// hash.
pub open spec fn named_label(name: Seq<char>, kind: RefKind, commit: CommitRef) -> Seq<char> {
    match kind {
        RefKind::Commit => object::hex_text(commit.id@).take(8),
        _ => name,
    }
}

/// The file page of a goal.
pub open spec fn file_page(
    goal: Goal,
    commit: CommitModel,
    id: Seq<u8>,
    data: Seq<u8>,
) -> PageModel {
    if goal is Blame {
        PageModel::Blame(commit, id, data)
    } else {
        PageModel::Blob(id, data)
    }
}

/// The page whose only open question was the branch that HEAD is on.
pub open spec fn home_page(
    goal: Goal,
    home: CommitRef,
    branch: Option<Seq<char>>,
) -> PageModel {
    if goal is Snapshot {
        PageModel::Snapshot(
            home@,
            match branch {
                Some(branch) => branch,
                None => object::hex_text(home.id@).take(8),
            },
        )
    } else {
        PageModel::Label(
            match branch {
                Some(branch) => Some((branch, RefKind::Branch)),
                None => None,
            },
        )
    }
}

// ---------------------------------------------------------------------------
// What follows an answer
// ---------------------------------------------------------------------------

/// Asking for the next thing.
pub open spec fn asks_for(m: LoaderModel, at: Place) -> Next {
    Next::More(LoaderModel { at, ..m })
}

/// What is asked next of the `?h=` value, once the refs are known.
pub open spec fn after_refs(m: LoaderModel, without_tag: bool) -> Next {
    let name = name_of(m.head);
    let bytes = vstd::utf8::encode_utf8(name);
    let tag = load::tag_named(m.refs, name);
    let branch = load::branch_named(m.refs, name);
    if !without_tag && tag is Some {
        asks_for(m, Place::Tag(query::target_of(tag->0)))
    } else if branch is Some {
        asks_for(m, Place::Branch(query::target_of(branch->0)))
    } else if !object::abbreviates(bytes) {
        Next::Done(
            PageModel::Failed(
                "not a branch, a tag, HEAD, or a commit hash: "@ + name,
                false,
            ),
        )
    } else if object::named_object(bytes) is Some {
        asks_for(m, Place::Object(None))
    } else {
        asks_for(m, Place::Prefix)
    }
}

/// A step of the walk to the path's file, from a directory with these entries.
pub open spec fn after_file_folder(m: LoaderModel, from: Revision, entries: Seq<TreeEntry>) -> Next {
    match load::next_step(entries, m.ahead) {
        WalkStep::Into(id) => Next::More(
            LoaderModel { ahead: m.ahead.drop_first(), at: Place::FileFolder(from, id), ..m },
        ),
        WalkStep::Lost => Next::Done(PageModel::NotFound),
        WalkStep::Here => match object::entry_named(
            entries,
            vstd::utf8::encode_utf8(text::base_name(path_of(m.goal))),
        ) {
            Some(entry) => asks_for(m, Place::File(from, entry.id)),
            None => Next::Done(PageModel::NotFound),
        },
    }
}

/// The walk to the path's file, from the root.
pub open spec fn to_file(m: LoaderModel, from: Revision) -> Next {
    after_file_folder(
        LoaderModel { ahead: load::path_names(text::dir_name(path_of(m.goal))), ..m },
        from,
        m.root,
    )
}

/// A step of the walk to the path's directory, from the directory `here` with
/// these entries. Where the path names no directory, it may name a file.
pub open spec fn after_folder(
    m: LoaderModel,
    from: Revision,
    here: ObjectId,
    entries: Seq<TreeEntry>,
) -> Next {
    match load::next_step(entries, m.ahead) {
        WalkStep::Into(id) => Next::More(
            LoaderModel { ahead: m.ahead.drop_first(), at: Place::Folder(from, id), ..m },
        ),
        WalkStep::Lost => to_file(m, from),
        WalkStep::Here => Next::Done(PageModel::Tree(here@)),
    }
}

/// What follows once the tree that paths start from is known.
pub open spec fn after_tree(m: LoaderModel, from: Revision) -> Next {
    match m.goal {
        Goal::Tree { path, .. } => after_folder(
            LoaderModel { ahead: load::path_names(path@), ..m },
            from,
            commit_of(m.home, from).tree,
            m.root,
        ),
        Goal::Blame { .. } => to_file(m, from),
        _ => match from {
            Revision::Home => asks_for(m, Place::HeadBranch),
            Revision::Named(kind, commit) => Next::Done(
                PageModel::Snapshot(commit@, named_label(name_of(m.head), kind, commit)),
            ),
        },
    }
}

/// What follows once the revision is known.
pub open spec fn after_revision(m: LoaderModel, from: Revision) -> Next {
    match m.goal {
        Goal::Log { .. } => Next::Done(PageModel::Log(commit_of(m.home, from)@)),
        Goal::Label => match from {
            Revision::Home => asks_for(m, Place::HeadBranch),
            Revision::Named(kind, commit) => Next::Done(
                PageModel::Label(Some((named_label(name_of(m.head), kind, commit), kind))),
            ),
        },
        _ => if at_hand(m.goal, from) {
            after_tree(m, from)
        } else {
            asks_for(m, Place::Tree(from))
        },
    }
}

/// What follows an answer.
pub open spec fn after(m: LoaderModel, reply: Reply) -> Next {
    let name = name_of(m.head);
    match m.at {
        Place::Refs => {
            let refs = match reply {
                Reply::Refs(refs) => Some(refs@),
                _ => None,
            };
            if load::loaded_head(refs, url_query::opt_text(m.head)) is None {
                after_revision(m, Revision::Home)
            } else {
                match refs {
                    Some(refs) => after_refs(LoaderModel { refs, ..m }, false),
                    None => Next::Done(PageModel::Failed("list refs"@, true)),
                }
            }
        },
        Place::Tag(_) => match reply {
            Reply::Commit(Some(commit)) => after_revision(m, Revision::Named(RefKind::Tag, commit)),
            _ => after_refs(m, true),
        },
        Place::Branch(_) => match reply {
            Reply::Commit(Some(commit)) => after_revision(
                m,
                Revision::Named(RefKind::Branch, commit),
            ),
            _ => Next::Done(
                PageModel::Failed("ref "@ + name + " does not point to a commit"@, false),
            ),
        },
        Place::Prefix => match reply {
            Reply::Expanded(PrefixResolution::Found(id)) => asks_for(m, Place::Object(Some(id))),
            Reply::Expanded(PrefixResolution::Ambiguous) => Next::Done(
                PageModel::Failed("ambiguous SHA: "@ + name, false),
            ),
            Reply::Expanded(PrefixResolution::NotFound) => Next::Done(
                PageModel::Failed("unknown SHA: "@ + name, false),
            ),
            _ => Next::Done(PageModel::Failed("resolve "@ + name, true)),
        },
        Place::Object(found) => match reply {
            Reply::Object => asks_for(m, Place::Peel(found)),
            _ => Next::Done(PageModel::Failed("lookup "@ + name, true)),
        },
        Place::Peel(_) => match reply {
            Reply::Commit(Some(commit)) => after_revision(
                m,
                Revision::Named(RefKind::Commit, commit),
            ),
            Reply::Commit(None) => Next::Done(PageModel::Failed(name + " is not a commit"@, false)),
            _ => Next::Done(PageModel::Failed("peel "@ + name, true)),
        },
        Place::Tree(from) => match reply {
            Reply::Tree(entries) => after_tree(LoaderModel { root: entries@, ..m }, from),
            Reply::Mistyped => Next::Done(
                PageModel::Failed(expect_words(m.goal, m.head), true),
            ),
            _ => Next::Done(PageModel::Failed(read_words(m.goal, m.head), true)),
        },
        Place::Folder(from, id) => match reply {
            Reply::Tree(entries) => after_folder(m, from, id, entries@),
            _ => to_file(m, from),
        },
        Place::FileFolder(from, _) => match reply {
            Reply::Tree(entries) => after_file_folder(m, from, entries@),
            _ => Next::Done(PageModel::NotFound),
        },
        Place::File(from, id) => match reply {
            Reply::Blob(data) => Next::Done(
                file_page(m.goal, commit_of(m.home, from)@, id@, data@),
            ),
            _ => Next::Done(PageModel::NotFound),
        },
        Place::HeadBranch => Next::Done(
            home_page(
                m.goal,
                m.home,
                match reply {
                    Reply::HeadBranch(branch) => url_query::opt_text(branch),
                    _ => None,
                },
            ),
        ),
    }
}

/// How a route sets out. Without a `?h=` value HEAD is loaded, and the refs are
/// not asked for.
pub open spec fn set_out(m: LoaderModel) -> Next {
    if m.head is None {
        after_revision(m, Revision::Home)
    } else {
        asks_for(m, Place::Refs)
    }
}

impl Loader {
    /// What has been asked can be asked: a hash to be expanded is abbreviated,
    /// and one that is spelled out is whole. A tree is asked for by what needs
    /// one that is not at hand.
    pub open spec fn wf(self) -> bool {
        let bytes = vstd::utf8::encode_utf8(name_of(self.head));
        &&& self.walk.wf()
        &&& self.at is Prefix ==> object::abbreviates(bytes) && object::named_object(bytes) is None
        &&& self.at matches Place::Object(None) ==> object::named_object(bytes) is Some
        &&& self.at matches Place::Tree(from) ==> !at_hand(self.goal, from) && (self.goal is Tree
            || self.goal is Blame || self.goal is Snapshot)
    }

    /// Set out for what `goal` wants of the revision `head`. `home` is HEAD's
    /// commit, and `home_tree` its tree.
    pub fn start(
        home: CommitRef,
        home_tree: Vec<TreeEntry>,
        head: Option<String>,
        goal: Goal,
    ) -> (r: Progress)
        ensures
            r.is_next(
                goal,
                head,
                set_out(
                    LoaderModel {
                        goal,
                        head,
                        home,
                        refs: Seq::empty(),
                        root: home_tree@,
                        ahead: Seq::empty(),
                        at: Place::Refs,
                    },
                ),
            ),
    {
        let named = head.is_some();
        let walk = TreeWalk { names: Vec::new(), gone: 0 };
        let loader = Loader {
            goal,
            head,
            home,
            refs: Vec::new(),
            root: home_tree,
            walk,
            at: Place::Refs,
        };
        assert(loader.walk.ahead() =~= Seq::<Seq<char>>::empty());
        if named {
            Progress::More(loader)
        } else {
            loader.from_revision(Revision::Home)
        }
    }

    /// The `?h=` value, empty where there is none.
    fn name(&self) -> (r: &str)
        ensures
            r@ == name_of(self.head),
    {
        match &self.head {
            Some(name) => name.as_str(),
            None => {
                proof {
                    reveal_strlit("");
                    assert(""@ =~= Seq::<char>::empty());
                }
                ""
            },
        }
    }

    /// The goal's path, empty where it has none.
    fn path(&self) -> (r: &str)
        ensures
            r@ == path_of(self.goal),
    {
        match &self.goal {
            Goal::Tree { path, .. } => path.as_str(),
            Goal::Blame { path } => path.as_str(),
            _ => {
                proof {
                    reveal_strlit("");
                    assert(""@ =~= Seq::<char>::empty());
                }
                ""
            },
        }
    }

    fn commit(&self, from: Revision) -> (r: CommitRef)
        ensures
            r == commit_of(self.home, from),
    {
        match from {
            Revision::Home => self.home,
            Revision::Named(_, commit) => commit,
        }
    }

    fn now_at(self, at: Place) -> (r: Progress)
        requires
            (Loader { at, ..self }).wf(),
        ensures
            r.is_next(self.goal, self.head, asks_for(self@, at)),
    {
        let mut loader = self;
        loader.at = at;
        Progress::More(loader)
    }

    fn done(self, page: Page) -> (r: Progress)
        ensures
            r.is_next(self.goal, self.head, Next::Done(page@)),
    {
        Progress::Done { goal: self.goal, head: self.head, page }
    }

    fn failed(self, why: String, caused: bool) -> (r: Progress)
        ensures
            r.is_next(self.goal, self.head, Next::Done(PageModel::Failed(why@, caused))),
    {
        self.done(Page::Failed { why, caused })
    }

    /// What the repository is to be asked.
    pub fn ask(&self) -> (r: Ask)
        requires
            self.wf(),
        ensures
            match self.at {
                Place::Refs => r is Refs,
                Place::Tag(id) | Place::Branch(id) => r == Ask::Commit(id),
                Place::Prefix => r matches Ask::Expand(prefix) && prefix.wf() && prefix.digits@
                    == Seq::new(
                    vstd::utf8::encode_utf8(name_of(self.head)).len(),
                    |i: int|
                        crate::route::encode::nibble(
                            vstd::utf8::encode_utf8(name_of(self.head))[i],
                        )->0,
                ),
                Place::Object(found) => r matches Ask::Object(id) && id@ == object_of(
                    self.head,
                    found,
                ),
                Place::Peel(_) => r is Peel,
                Place::Tree(from) => r == Ask::Tree(commit_of(self.home, from).tree),
                Place::Folder(_, id) | Place::FileFolder(_, id) => r == Ask::Tree(id),
                Place::File(_, id) => r == Ask::Blob(id),
                Place::HeadBranch => r is HeadBranch,
            },
    {
        match self.at {
            Place::Refs => Ask::Refs,
            Place::Tag(id) => Ask::Commit(id),
            Place::Branch(id) => Ask::Commit(id),
            Place::Prefix => match resolve_sha(self.name()) {
                ShaStep::Expand(prefix) => Ask::Expand(prefix),
                _ => Ask::Refs,
            },
            Place::Object(Some(id)) => Ask::Object(id),
            Place::Object(None) => match resolve_sha(self.name()) {
                ShaStep::Full(id) => Ask::Object(id),
                _ => Ask::Refs,
            },
            Place::Peel(_) => Ask::Peel,
            Place::Tree(from) => Ask::Tree(self.commit(from).tree),
            Place::Folder(_, id) => Ask::Tree(id),
            Place::FileFolder(_, id) => Ask::Tree(id),
            Place::File(_, id) => Ask::Blob(id),
            Place::HeadBranch => Ask::HeadBranch,
        }
    }

    /// What the `?h=` value is looked for by, once the refs are known.
    fn by_name(self, without_tag: bool) -> (r: Progress)
        requires
            self.walk.wf(),
        ensures
            r.is_next(self.goal, self.head, after_refs(self@, without_tag)),
    {
        let step = resolve_revision(&self.refs, self.name(), without_tag);
        match step {
            RevisionStep::Tag(id) => self.now_at(Place::Tag(id)),
            RevisionStep::Branch(id) => self.now_at(Place::Branch(id)),
            RevisionStep::Hash(_) => self.now_at(Place::Object(None)),
            RevisionStep::Expand(_) => self.now_at(Place::Prefix),
            RevisionStep::Failed(why) => self.failed(why, false),
        }
    }

    /// What follows once the revision is known.
    fn from_revision(self, from: Revision) -> (r: Progress)
        requires
            self.walk.wf(),
        ensures
            r.is_next(self.goal, self.head, after_revision(self@, from)),
    {
        let commit = self.commit(from);
        let name = match from {
            Revision::Home => None,
            Revision::Named(..) => Some(self.name()),
        };
        let step = tree_step(&self.goal, name);
        match step {
            TreeStep::Nothing => {},
            TreeStep::Root => return self.from_tree(from),
            TreeStep::LookUp { .. } => return self.now_at(Place::Tree(from)),
        }
        let is_log = matches!(self.goal, Goal::Log { .. });
        if is_log {
            return self.done(Page::Log(commit));
        }
        match from {
            Revision::Home => self.now_at(Place::HeadBranch),
            Revision::Named(kind, commit) => {
                let label = display_head(Some(self.name()), Some((commit.id, kind)), None);
                self.done(Page::Label(label))
            },
        }
    }

    /// What follows once the tree that paths start from is known.
    fn from_tree(self, from: Revision) -> (r: Progress)
        requires
            self.walk.wf(),
            self.goal is Tree || self.goal is Blame || self.goal is Snapshot,
        ensures
            r.is_next(self.goal, self.head, after_tree(self@, from)),
    {
        let is_tree = matches!(self.goal, Goal::Tree { .. });
        let is_blame = matches!(self.goal, Goal::Blame { .. });
        if is_tree {
            let mut loader = self;
            loader.walk = TreeWalk::along(loader.path());
            let step = loader.walk.step(&loader.root);
            let here = loader.commit(from).tree;
            return loader.in_folder(from, here, step);
        }
        if is_blame {
            return self.in_root(from);
        }
        match from {
            Revision::Home => self.now_at(Place::HeadBranch),
            Revision::Named(kind, commit) => {
                let label = snapshot_label(Some((self.name(), kind)), commit.id, None);
                self.done(Page::Snapshot(commit, label))
            },
        }
    }

    /// Where a walk to the path's directory has got, at the directory `here`.
    fn in_folder(self, from: Revision, here: ObjectId, step: WalkStep) -> (r: Progress)
        requires
            self.walk.wf(),
        ensures
            r.is_next(
                self.goal,
                self.head,
                match step {
                    WalkStep::Into(id) => asks_for(self@, Place::Folder(from, id)),
                    WalkStep::Lost => to_file(self@, from),
                    WalkStep::Here => Next::Done(PageModel::Tree(here@)),
                },
            ),
    {
        match step {
            WalkStep::Here => self.done(Page::Tree(here)),
            WalkStep::Into(id) => self.now_at(Place::Folder(from, id)),
            WalkStep::Lost => self.in_root(from),
        }
    }

    /// The walk to the path's file, from the root.
    fn in_root(self, from: Revision) -> (r: Progress)
        ensures
            r.is_next(self.goal, self.head, to_file(self@, from)),
    {
        let mut loader = self;
        let (dir, name) = blob_walk(loader.path());
        let mut walk = TreeWalk::along(dir);
        let step = walk.step(&loader.root);
        let entry = step_to_blob(&loader.root, name);
        loader.walk = walk;
        loader.in_file_folder(from, step, entry)
    }

    /// Where a walk to the path's file has got, at a directory whose entry of
    /// the file's name is `entry`.
    fn in_file_folder(self, from: Revision, step: WalkStep, entry: Option<ObjectId>) -> (r: Progress)
        requires
            self.walk.wf(),
        ensures
            r.is_next(
                self.goal,
                self.head,
                match step {
                    WalkStep::Into(id) => asks_for(self@, Place::FileFolder(from, id)),
                    WalkStep::Lost => Next::Done(PageModel::NotFound),
                    WalkStep::Here => match entry {
                        Some(id) => asks_for(self@, Place::File(from, id)),
                        None => Next::Done(PageModel::NotFound),
                    },
                },
            ),
    {
        match (step, entry) {
            (WalkStep::Into(id), _) => self.now_at(Place::FileFolder(from, id)),
            (WalkStep::Here, Some(id)) => self.now_at(Place::File(from, id)),
            _ => self.done(Page::NotFound),
        }
    }

    /// What follows an answer.
    pub fn step(self, reply: Reply) -> (r: Progress)
        requires
            self.wf(),
        ensures
            r.is_next(self.goal, self.head, after(self@, reply)),
    {
        match self.at {
            Place::Refs => self.take_refs(reply),
            Place::Tag(_) => match reply {
                Reply::Commit(Some(commit)) => self.from_revision(
                    Revision::Named(RefKind::Tag, commit),
                ),
                _ => self.by_name(true),
            },
            Place::Branch(_) => match reply {
                Reply::Commit(Some(commit)) => self.from_revision(
                    Revision::Named(RefKind::Branch, commit),
                ),
                _ => match branch_commit(self.name(), None) {
                    Ok(_) => self.done(Page::NotFound),
                    Err(why) => self.failed(why, false),
                },
            },
            Place::Prefix => match reply {
                Reply::Expanded(resolution) => match expanded_sha(self.name(), resolution) {
                    Ok(id) => self.now_at(Place::Object(Some(id))),
                    Err(why) => self.failed(why, false),
                },
                _ => {
                    let why = concat("resolve ", self.name());
                    self.failed(why, true)
                },
            },
            Place::Object(found) => match reply {
                Reply::Object => self.now_at(Place::Peel(found)),
                _ => {
                    let why = concat("lookup ", self.name());
                    self.failed(why, true)
                },
            },
            Place::Peel(_) => match reply {
                Reply::Commit(Some(commit)) => self.from_revision(
                    Revision::Named(RefKind::Commit, commit),
                ),
                Reply::Commit(None) => match hash_commit(self.name(), None) {
                    Ok(_) => self.done(Page::NotFound),
                    Err(why) => self.failed(why, false),
                },
                _ => {
                    let why = concat("peel ", self.name());
                    self.failed(why, true)
                },
            },
            Place::Tree(from) => self.take_tree(from, reply),
            Place::Folder(from, id) => match reply {
                Reply::Tree(entries) => {
                    let mut loader = self;
                    let mut walk = loader.walk;
                    let step = walk.step(&entries);
                    loader.walk = walk;
                    loader.in_folder(from, id, step)
                },
                _ => self.in_root(from),
            },
            Place::FileFolder(from, _) => match reply {
                Reply::Tree(entries) => {
                    let mut loader = self;
                    let (_, name) = blob_walk(loader.path());
                    let entry = step_to_blob(&entries, name);
                    let mut walk = loader.walk;
                    let step = walk.step(&entries);
                    loader.walk = walk;
                    loader.in_file_folder(from, step, entry)
                },
                _ => self.done(Page::NotFound),
            },
            Place::File(from, id) => match reply {
                Reply::Blob(data) => {
                    let commit = self.commit(from);
                    let is_blame = matches!(self.goal, Goal::Blame { .. });
                    if is_blame {
                        self.done(Page::Blame(commit, id, data))
                    } else {
                        self.done(Page::Blob(id, data))
                    }
                },
                _ => self.done(Page::NotFound),
            },
            Place::HeadBranch => {
                let branch = match reply {
                    Reply::HeadBranch(branch) => branch,
                    _ => None,
                };
                let home = self.home;
                let is_snapshot = matches!(self.goal, Goal::Snapshot);
                if is_snapshot {
                    let label = snapshot_label(None, home.id, branch);
                    self.done(Page::Snapshot(home, label))
                } else {
                    let label = display_head(None, None, branch);
                    self.done(Page::Label(label))
                }
            },
        }
    }

    /// What follows once the refs are known, or that they cannot be listed.
    fn take_refs(self, reply: Reply) -> (r: Progress)
        requires
            self.wf(),
            self.at is Refs,
        ensures
            r.is_next(self.goal, self.head, after(self@, reply)),
    {
        match reply {
            Reply::Refs(refs) => {
                let home = effective_head(Some(&refs), as_opt_str(&self.head)).is_none();
                if home {
                    return self.from_revision(Revision::Home);
                }
                let mut loader = self;
                loader.refs = refs;
                loader.by_name(false)
            },
            _ => {
                let home = effective_head(None, as_opt_str(&self.head)).is_none();
                if home {
                    self.from_revision(Revision::Home)
                } else {
                    self.failed("list refs".to_string(), true)
                }
            },
        }
    }

    /// What follows once the revision's tree has been read, or that it cannot be.
    fn take_tree(self, from: Revision, reply: Reply) -> (r: Progress)
        requires
            self.wf(),
            self.at == Place::Tree(from),
        ensures
            r.is_next(self.goal, self.head, after(self@, reply)),
    {
        let name = match from {
            Revision::Home => None,
            Revision::Named(..) => Some(self.name()),
        };
        let step = tree_step(&self.goal, name);
        match reply {
            Reply::Tree(entries) => {
                let mut loader = self;
                loader.root = entries;
                loader.from_tree(from)
            },
            Reply::Mistyped => match step {
                TreeStep::LookUp { expect, .. } => self.failed(expect, true),
                _ => self.failed(String::new(), true),
            },
            _ => match step {
                TreeStep::LookUp { read, .. } => self.failed(read, true),
                _ => self.failed(String::new(), true),
            },
        }
    }
}

// ---------------------------------------------------------------------------
// The page that the answers come to
// ---------------------------------------------------------------------------

/// What is found where a tree is looked for.
pub enum TreeRead {
    Failed,
    Mistyped,
    Entries(Seq<TreeEntry>),
}

/// What a repository holds, as far as loading asks it. `None` is what cannot be
/// read.
pub struct Holdings {
    pub refs: Option<Seq<(RefName, RefEntry)>>,
    pub expanded: spec_fn(Seq<char>) -> Option<PrefixResolution>,
    pub readable: spec_fn(Seq<u8>) -> bool,
    /// The commit that an object peels to, or that there is none.
    pub peeled: spec_fn(Seq<u8>) -> Option<Option<CommitRef>>,
    pub tree: spec_fn(Seq<u8>) -> TreeRead,
    pub blob: spec_fn(Seq<u8>) -> Option<Seq<u8>>,
    pub head_branch: Option<Seq<char>>,
}

impl Holdings {
    /// The commit that an object peels to, where both can be read.
    pub open spec fn commit_at(self, id: Seq<u8>) -> Option<CommitRef> {
        if (self.readable)(id) && (self.peeled)(id) is Some {
            (self.peeled)(id)->0
        } else {
            None
        }
    }

    /// Whether the repository answers `reply` to what has been asked.
    pub open spec fn answers(self, m: LoaderModel, reply: Reply) -> bool {
        match m.at {
            Place::Refs => match self.refs {
                Some(refs) => reply matches Reply::Refs(listed) && listed@ == refs,
                None => reply is Failed,
            },
            Place::Tag(id) | Place::Branch(id) => match self.commit_at(id@) {
                Some(commit) => reply == Reply::Commit(Some(commit)),
                None => reply == Reply::Commit(None) || reply is Failed,
            },
            Place::Prefix => match (self.expanded)(name_of(m.head)) {
                Some(resolution) => reply == Reply::Expanded(resolution),
                None => reply is Failed,
            },
            Place::Object(found) => if (self.readable)(object_of(m.head, found)) {
                reply is Object
            } else {
                reply is Failed
            },
            Place::Peel(found) => match (self.peeled)(object_of(m.head, found)) {
                Some(commit) => reply == Reply::Commit(commit),
                None => reply is Failed,
            },
            Place::Tree(from) => self.gives_tree(commit_of(m.home, from).tree@, reply),
            Place::Folder(_, id) | Place::FileFolder(_, id) => self.gives_tree(id@, reply),
            Place::File(_, id) => match (self.blob)(id@) {
                Some(data) => reply matches Reply::Blob(bytes) && bytes@ == data,
                None => reply is Failed || reply is Mistyped,
            },
            Place::HeadBranch => reply matches Reply::HeadBranch(branch) && url_query::opt_text(
                branch,
            ) == self.head_branch,
        }
    }

    /// Whether `reply` is what is found where the tree `id` is looked for.
    pub open spec fn gives_tree(self, id: Seq<u8>, reply: Reply) -> bool {
        match (self.tree)(id) {
            TreeRead::Entries(entries) => reply matches Reply::Tree(read) && read@ == entries,
            TreeRead::Failed => reply is Failed,
            TreeRead::Mistyped => reply is Mistyped,
        }
    }

    /// The directory that `names` lead to from the directory `here`, and its
    /// entries.
    pub open spec fn reached(
        self,
        here: Seq<u8>,
        entries: Seq<TreeEntry>,
        names: Seq<Seq<char>>,
    ) -> Option<(Seq<u8>, Seq<TreeEntry>)>
        decreases names.len(),
    {
        if names.len() == 0 {
            Some((here, entries))
        } else {
            match load::subtree(entries, names[0]) {
                Some(id) => match (self.tree)(id@) {
                    TreeRead::Entries(inside) => self.reached(id@, inside, names.drop_first()),
                    _ => None,
                },
                None => None,
            }
        }
    }

    /// The file called `name` in a directory, where it can be read.
    pub open spec fn file_in(
        self,
        folder: Option<(Seq<u8>, Seq<TreeEntry>)>,
        name: Seq<char>,
    ) -> Option<(Seq<u8>, Seq<u8>)> {
        match folder {
            Some((_, entries)) => match object::entry_named(
                entries,
                vstd::utf8::encode_utf8(name),
            ) {
                Some(entry) => match (self.blob)(entry.id@) {
                    Some(data) => Some((entry.id@, data)),
                    None => None,
                },
                None => None,
            },
            None => None,
        }
    }
}

/// What a `?h=` value comes to.
pub enum Named {
    Revision(Revision),
    /// Loading fails with these words, with a failure behind them or not.
    Bad(Seq<char>, bool),
}

/// What a hash names, by the object that it stands for.
pub open spec fn object_names(repo: Holdings, name: Seq<char>, id: Seq<u8>) -> Named {
    if !(repo.readable)(id) {
        Named::Bad("lookup "@ + name, true)
    } else {
        match (repo.peeled)(id) {
            Some(Some(commit)) => Named::Revision(Revision::Named(RefKind::Commit, commit)),
            Some(None) => Named::Bad(name + " is not a commit"@, false),
            None => Named::Bad("peel "@ + name, true),
        }
    }
}

/// What an abbreviated hash names.
pub open spec fn prefix_names(repo: Holdings, name: Seq<char>) -> Named {
    match (repo.expanded)(name) {
        Some(PrefixResolution::Found(id)) => object_names(repo, name, id@),
        Some(PrefixResolution::Ambiguous) => Named::Bad("ambiguous SHA: "@ + name, false),
        Some(PrefixResolution::NotFound) => Named::Bad("unknown SHA: "@ + name, false),
        None => Named::Bad("resolve "@ + name, true),
    }
}

/// What a name that is no tag comes to: its branch, or else the commit that it
/// spells out or abbreviates.
pub open spec fn untagged(
    repo: Holdings,
    refs: Seq<(RefName, RefEntry)>,
    name: Seq<char>,
) -> Named {
    let bytes = vstd::utf8::encode_utf8(name);
    match load::branch_named(refs, name) {
        Some(branch) => match repo.commit_at(query::target_of(branch)@) {
            Some(commit) => Named::Revision(Revision::Named(RefKind::Branch, commit)),
            None => Named::Bad("ref "@ + name + " does not point to a commit"@, false),
        },
        None => if !object::abbreviates(bytes) {
            Named::Bad("not a branch, a tag, HEAD, or a commit hash: "@ + name, false)
        } else {
            match object::named_object(bytes) {
                Some(id) => object_names(repo, name, id),
                None => prefix_names(repo, name),
            }
        },
    }
}

/// What a `?h=` value comes to: HEAD, where there is none; a tag; a branch,
/// where the tag comes down to no commit or is none; or a hash.
pub open spec fn head_names(repo: Holdings, head: Option<String>) -> Named {
    match load::loaded_head(repo.refs, url_query::opt_text(head)) {
        None => Named::Revision(Revision::Home),
        Some(name) => match repo.refs {
            None => Named::Bad("list refs"@, true),
            Some(refs) => {
                let tag = load::tag_named(refs, name);
                if tag is Some && repo.commit_at(query::target_of(tag->0)@) is Some {
                    Named::Revision(
                        Revision::Named(
                            RefKind::Tag,
                            repo.commit_at(query::target_of(tag->0)@)->0,
                        ),
                    )
                } else {
                    untagged(repo, refs, name)
                }
            },
        },
    }
}

/// The page of a file, where there is one.
pub open spec fn page_of_file(
    goal: Goal,
    commit: CommitModel,
    file: Option<(Seq<u8>, Seq<u8>)>,
) -> PageModel {
    match file {
        Some((id, data)) => file_page(goal, commit, id, data),
        None => PageModel::NotFound,
    }
}

/// The page of the file that a goal's path names below a tree.
pub open spec fn page_at_file(
    repo: Holdings,
    goal: Goal,
    commit: CommitModel,
    root: Seq<TreeEntry>,
) -> PageModel {
    let folder = repo.reached(
        commit.tree,
        root,
        load::path_names(text::dir_name(path_of(goal))),
    );
    page_of_file(goal, commit, repo.file_in(folder, text::base_name(path_of(goal))))
}

/// The page of a goal below the tree `root`: the directory that its path names,
/// or else the file; or the tree as an archive.
pub open spec fn page_in_tree(
    repo: Holdings,
    m: LoaderModel,
    from: Revision,
    root: Seq<TreeEntry>,
) -> PageModel {
    let commit = commit_of(m.home, from);
    match m.goal {
        Goal::Tree { path, .. } => match repo.reached(
            commit.tree@,
            root,
            load::path_names(path@),
        ) {
            Some((id, _)) => PageModel::Tree(id),
            None => page_at_file(repo, m.goal, commit@, root),
        },
        Goal::Blame { .. } => page_at_file(repo, m.goal, commit@, root),
        _ => match from {
            Revision::Home => home_page(m.goal, m.home, repo.head_branch),
            Revision::Named(kind, commit) => PageModel::Snapshot(
                commit@,
                named_label(name_of(m.head), kind, commit),
            ),
        },
    }
}

/// The page of a goal that has to read the revision's tree.
pub open spec fn page_with_tree(repo: Holdings, m: LoaderModel, from: Revision) -> PageModel {
    match (repo.tree)(commit_of(m.home, from).tree@) {
        TreeRead::Entries(entries) => page_in_tree(repo, m, from, entries),
        TreeRead::Mistyped => PageModel::Failed(expect_words(m.goal, m.head), true),
        TreeRead::Failed => PageModel::Failed(read_words(m.goal, m.head), true),
    }
}

/// The page of a goal at a revision.
pub open spec fn page_at(repo: Holdings, m: LoaderModel, from: Revision) -> PageModel {
    match m.goal {
        Goal::Log { .. } => PageModel::Log(commit_of(m.home, from)@),
        Goal::Label => match from {
            Revision::Home => home_page(m.goal, m.home, repo.head_branch),
            Revision::Named(kind, commit) => PageModel::Label(
                Some((named_label(name_of(m.head), kind, commit), kind)),
            ),
        },
        _ => if at_hand(m.goal, from) {
            page_in_tree(repo, m, from, m.root)
        } else {
            page_with_tree(repo, m, from)
        },
    }
}

/// The page of a goal at what a `?h=` value comes to.
pub open spec fn page_at_named(repo: Holdings, m: LoaderModel, named: Named) -> PageModel {
    match named {
        Named::Revision(from) => page_at(repo, m, from),
        Named::Bad(why, caused) => PageModel::Failed(why, caused),
    }
}

/// The page that a route comes to.
pub open spec fn page(repo: Holdings, m: LoaderModel) -> PageModel {
    page_at_named(repo, m, head_names(repo, m.head))
}

/// The page that a route comes to from where it has got.
pub open spec fn comes_to(repo: Holdings, m: LoaderModel) -> PageModel {
    let name = name_of(m.head);
    match m.at {
        Place::Refs => page(repo, m),
        Place::Tag(id) => match repo.commit_at(id@) {
            Some(commit) => page_at(repo, m, Revision::Named(RefKind::Tag, commit)),
            None => page_at_named(repo, m, untagged(repo, m.refs, name)),
        },
        Place::Branch(id) => match repo.commit_at(id@) {
            Some(commit) => page_at(repo, m, Revision::Named(RefKind::Branch, commit)),
            None => PageModel::Failed("ref "@ + name + " does not point to a commit"@, false),
        },
        Place::Prefix => page_at_named(repo, m, prefix_names(repo, name)),
        Place::Object(found) => page_at_named(
            repo,
            m,
            object_names(repo, name, object_of(m.head, found)),
        ),
        Place::Peel(found) => match (repo.peeled)(object_of(m.head, found)) {
            Some(Some(commit)) => page_at(repo, m, Revision::Named(RefKind::Commit, commit)),
            Some(None) => PageModel::Failed(name + " is not a commit"@, false),
            None => PageModel::Failed("peel "@ + name, true),
        },
        Place::Tree(from) => page_with_tree(repo, m, from),
        Place::Folder(from, id) => {
            let folder = match (repo.tree)(id@) {
                TreeRead::Entries(entries) => repo.reached(id@, entries, m.ahead),
                _ => None,
            };
            match folder {
                Some((id, _)) => PageModel::Tree(id),
                None => page_at_file(repo, m.goal, commit_of(m.home, from)@, m.root),
            }
        },
        Place::FileFolder(from, id) => {
            let folder = match (repo.tree)(id@) {
                TreeRead::Entries(entries) => repo.reached(id@, entries, m.ahead),
                _ => None,
            };
            page_of_file(
                m.goal,
                commit_of(m.home, from)@,
                repo.file_in(folder, text::base_name(path_of(m.goal))),
            )
        },
        Place::File(from, id) => page_of_file(
            m.goal,
            commit_of(m.home, from)@,
            match (repo.blob)(id@) {
                Some(data) => Some((id@, data)),
                None => None,
            },
        ),
        Place::HeadBranch => home_page(m.goal, m.home, repo.head_branch),
    }
}

/// The page that a route comes to from where an answer takes it.
pub open spec fn ends(repo: Holdings, next: Next) -> PageModel {
    match next {
        Next::Done(page) => page,
        Next::More(m) => comes_to(repo, m),
    }
}

/// How far a place is from the page.
pub open spec fn distance(at: Place) -> int {
    match at {
        Place::Refs => 10,
        Place::Tag(_) => 9,
        Place::Branch(_) => 8,
        Place::Prefix => 7,
        Place::Object(_) => 6,
        Place::Peel(_) => 5,
        Place::Tree(_) => 4,
        Place::Folder(..) => 3,
        Place::FileFolder(..) => 2,
        Place::File(..) => 1,
        Place::HeadBranch => 0,
    }
}

/// Whether `n` is closer to the page than `m`: at a place nearer to it, or at
/// one as near with less of the path ahead.
pub open spec fn closer(n: LoaderModel, m: LoaderModel) -> bool {
    distance(n.at) < distance(m.at) || (distance(n.at) == distance(m.at) && n.ahead.len()
        < m.ahead.len())
}

proof fn lemma_file_folder(
    repo: Holdings,
    m: LoaderModel,
    from: Revision,
    here: Seq<u8>,
    entries: Seq<TreeEntry>,
)
    ensures
        ends(repo, after_file_folder(m, from, entries)) == page_of_file(
            m.goal,
            commit_of(m.home, from)@,
            repo.file_in(
                repo.reached(here, entries, m.ahead),
                text::base_name(path_of(m.goal)),
            ),
        ),
{
}

proof fn lemma_to_file(repo: Holdings, m: LoaderModel, from: Revision)
    ensures
        ends(repo, to_file(m, from)) == page_at_file(
            repo,
            m.goal,
            commit_of(m.home, from)@,
            m.root,
        ),
{
    let start = LoaderModel { ahead: load::path_names(text::dir_name(path_of(m.goal))), ..m };
    lemma_file_folder(repo, start, from, commit_of(m.home, from).tree@, m.root);
}

proof fn lemma_folder(
    repo: Holdings,
    m: LoaderModel,
    from: Revision,
    here: ObjectId,
    entries: Seq<TreeEntry>,
)
    ensures
        ends(repo, after_folder(m, from, here, entries)) == (match repo.reached(
            here@,
            entries,
            m.ahead,
        ) {
            Some((id, _)) => PageModel::Tree(id),
            None => page_at_file(repo, m.goal, commit_of(m.home, from)@, m.root),
        }),
{
    lemma_to_file(repo, m, from);
}

proof fn lemma_tree(repo: Holdings, m: LoaderModel, from: Revision)
    ensures
        ends(repo, after_tree(m, from)) == page_in_tree(repo, m, from, m.root),
        after_tree(m, from) matches Next::More(n) ==> distance(n.at) <= 3,
{
    lemma_to_file(repo, m, from);
    if let Goal::Tree { path, .. } = m.goal {
        let start = LoaderModel { ahead: load::path_names(path@), ..m };
        lemma_folder(repo, start, from, commit_of(m.home, from).tree, m.root);
    }
}

proof fn lemma_revision(repo: Holdings, m: LoaderModel, from: Revision)
    ensures
        ends(repo, after_revision(m, from)) == page_at(repo, m, from),
        after_revision(m, from) matches Next::More(n) ==> distance(n.at) <= 4,
{
    lemma_tree(repo, m, from);
}

proof fn lemma_untagged(repo: Holdings, m: LoaderModel)
    ensures
        ends(repo, after_refs(m, true)) == page_at_named(
            repo,
            m,
            untagged(repo, m.refs, name_of(m.head)),
        ),
        after_refs(m, true) matches Next::More(n) ==> distance(n.at) <= 8,
{
}

proof fn lemma_refs_answered(repo: Holdings, m: LoaderModel, reply: Reply)
    requires
        m.at is Refs,
        repo.answers(m, reply),
    ensures
        ends(repo, after(m, reply)) == comes_to(repo, m),
        after(m, reply) matches Next::More(n) ==> closer(n, m),
{
    lemma_revision(repo, m, Revision::Home);
    if let Reply::Refs(refs) = reply {
        lemma_untagged(repo, LoaderModel { refs: refs@, ..m });
    }
}

/// A route sets out for the page it comes to.
pub proof fn setting_out_comes_to_the_page(repo: Holdings, m: LoaderModel)
    ensures
        ends(repo, set_out(m)) == page(repo, m),
{
    lemma_revision(repo, m, Revision::Home);
}

/// Whatever the repository holds, as long as it answers what it is asked, each
/// answer takes a route to the page it comes to: the page that is built in the
/// end is the one that the `?h=` value and the path name. Each answer takes it
/// closer, so the end is reached.
pub proof fn answers_lead_to_the_page(repo: Holdings, m: LoaderModel, reply: Reply)
    requires
        repo.answers(m, reply),
    ensures
        ends(repo, after(m, reply)) == comes_to(repo, m),
        after(m, reply) matches Next::More(n) ==> closer(n, m),
{
    match m.at {
        Place::Refs => lemma_refs_answered(repo, m, reply),
        Place::Tag(_) => match reply {
            Reply::Commit(Some(commit)) => {
                lemma_revision(repo, m, Revision::Named(RefKind::Tag, commit));
            },
            _ => lemma_untagged(repo, m),
        },
        Place::Branch(_) => match reply {
            Reply::Commit(Some(commit)) => {
                lemma_revision(repo, m, Revision::Named(RefKind::Branch, commit));
            },
            _ => {},
        },
        Place::Prefix => {},
        Place::Object(_) => {},
        Place::Peel(_) => match reply {
            Reply::Commit(Some(commit)) => {
                lemma_revision(repo, m, Revision::Named(RefKind::Commit, commit));
            },
            _ => {},
        },
        Place::Tree(from) => match reply {
            Reply::Tree(entries) => {
                lemma_tree(repo, LoaderModel { root: entries@, ..m }, from);
            },
            _ => {},
        },
        Place::Folder(from, id) => match reply {
            Reply::Tree(entries) => lemma_folder(repo, m, from, id, entries@),
            _ => lemma_to_file(repo, m, from),
        },
        Place::FileFolder(from, id) => match reply {
            Reply::Tree(entries) => lemma_file_folder(repo, m, from, id@, entries@),
            _ => {},
        },
        Place::File(..) => {},
        Place::HeadBranch => {},
    }
}

/// A path is walked name by name, from one tree to the next.
pub proof fn trees_are_reached_name_by_name(
    repo: Holdings,
    here: Seq<u8>,
    entries: Seq<TreeEntry>,
    first: Seq<Seq<char>>,
    then: Seq<Seq<char>>,
)
    ensures
        repo.reached(here, entries, first + then) == (match repo.reached(here, entries, first) {
            Some((there, inside)) => repo.reached(there, inside, then),
            None => None,
        }),
        repo.reached(here, entries, Seq::empty()) == Some((here, entries)),
    decreases first.len(),
{
    if first.len() == 0 {
        assert(first + then =~= then);
    } else {
        assert((first + then).drop_first() =~= first.drop_first() + then);
        assert((first + then)[0] == first[0]);
        match load::subtree(entries, first[0]) {
            Some(id) => {
                match (repo.tree)(id@) {
                    TreeRead::Entries(inside) => {
                        trees_are_reached_name_by_name(
                            repo,
                            id@,
                            inside,
                            first.drop_first(),
                            then,
                        );
                    },
                    _ => {},
                }
            },
            None => {},
        }
    }
}

/// The page of a path is the tree that it leads to; where it leads to none, the
/// file of its last name in the directory that the names before lead to.
pub proof fn paths_lead_to_trees_and_files(
    repo: Holdings,
    m: LoaderModel,
    from: Revision,
    root: Seq<TreeEntry>,
    dir: Seq<char>,
    folder: Seq<u8>,
    entries: Seq<TreeEntry>,
    name: Seq<char>,
    i: int,
)
    requires
        m.goal matches Goal::Tree { path, .. } && path@ == dir + seq!['/'] + name,
        paths::proper_name(name),
        repo.reached(
            commit_of(m.home, from).tree@,
            root,
            paths::filled(text::split(dir, '/')),
        ) == Some((folder, entries)),
        0 <= i < entries.len(),
        entries[i].name@ == vstd::utf8::encode_utf8(name),
        forall|j: int|
            0 <= j < i ==> (#[trigger] entries[j]).name@ != vstd::utf8::encode_utf8(name),
    ensures
        ({
            let entry = entries[i];
            &&& entry.entry_type == TreeEntryType::Tree && (repo.tree)(entry.id@) is Entries
                ==> page_in_tree(repo, m, from, root) == PageModel::Tree(entry.id@)
            &&& entry.entry_type != TreeEntryType::Tree && (repo.blob)(entry.id@) is Some
                ==> page_in_tree(repo, m, from, root) == PageModel::Blob(
                entry.id@,
                (repo.blob)(entry.id@)->0,
            )
            &&& entry.entry_type != TreeEntryType::Tree && (repo.blob)(entry.id@) is None
                ==> page_in_tree(repo, m, from, root) is NotFound
        }),
{
    let here = commit_of(m.home, from).tree@;
    let path = dir + seq!['/'] + name;
    let dirs = paths::filled(text::split(dir, '/'));
    let entry = entries[i];
    text::paths_end_in_their_names(dir, name);
    lemma_names_of(dir, name);
    trees_are_reached_name_by_name(repo, here, root, dirs, seq![name]);
    object::names_name_their_first_entry(entries, vstd::utf8::encode_utf8(name), i);
    let one = seq![name];
    assert(one[0] == name);
    assert(one.drop_first() =~= Seq::empty());
    assert(load::path_names(path) == dirs + one);
    match (repo.tree)(entry.id@) {
        TreeRead::Entries(inside) => {
            trees_are_reached_name_by_name(repo, entry.id@, inside, Seq::empty(), Seq::empty());
        },
        _ => {},
    }
}

proof fn lemma_names_of(dir: Seq<char>, name: Seq<char>)
    requires
        paths::proper_name(name),
    ensures
        load::path_names(dir + seq!['/'] + name) == paths::filled(text::split(dir, '/')) + seq![name],
{
    let parts = text::split(dir, '/');
    let all = parts.push(name);
    text::lemma_split_pieces(dir, '/');
    assert forall|i: int| 0 <= i < all.len() implies !(#[trigger] all[i]).contains('/') by {
        if i < parts.len() {
            assert(all[i] == parts[i]);
        }
    }
    text::lemma_join_push(parts, name, seq!['/']);
    text::joining_a_split_gives_the_text_back(dir, '/');
    text::splitting_a_join_gives_the_pieces_back(all, '/');
    paths::only_empty_parts_are_left_out(parts, seq![name], name);
    assert(all =~= parts + seq![name]);
}

/// A `?h=` value is a tag where it names one that has a commit, else a branch
/// where it names one, else a hash; `HEAD` is HEAD where no ref is called so.
pub proof fn tags_come_before_branches_and_branches_before_hashes(
    repo: Holdings,
    head: String,
    refs: Seq<(RefName, RefEntry)>,
)
    requires
        repo.refs == Some(refs),
        head@ != "HEAD"@,
    ensures
        ({
            let tag = load::tag_named(refs, head@);
            let branch = load::branch_named(refs, head@);
            let named = head_names(repo, Some(head));
            let tagged = tag is Some && repo.commit_at(query::target_of(tag->0)@) is Some;
            &&& tagged ==> named == Named::Revision(
                Revision::Named(RefKind::Tag, repo.commit_at(query::target_of(tag->0)@)->0),
            )
            &&& !tagged && branch is Some && repo.commit_at(query::target_of(branch->0)@) is Some
                ==> named == Named::Revision(
                Revision::Named(RefKind::Branch, repo.commit_at(query::target_of(branch->0)@)->0),
            )
            &&& !tagged && branch is Some && repo.commit_at(query::target_of(branch->0)@) is None
                ==> named is Bad
            &&& !tagged && branch is None ==> (named matches Named::Revision(rev) ==> rev
                matches Revision::Named(RefKind::Commit, _))
        }),
        head_names(repo, None) == Named::Revision(Revision::Home),
{
}

/// The blame of a path is that of the file of its last name, in the directory
/// that the names before lead to.
pub proof fn blames_are_of_files(
    repo: Holdings,
    m: LoaderModel,
    from: Revision,
    root: Seq<TreeEntry>,
    dir: Seq<char>,
    folder: Seq<u8>,
    entries: Seq<TreeEntry>,
    name: Seq<char>,
    i: int,
)
    requires
        m.goal matches Goal::Blame { path } && path@ == dir + seq!['/'] + name,
        paths::proper_name(name),
        repo.reached(
            commit_of(m.home, from).tree@,
            root,
            paths::filled(text::split(dir, '/')),
        ) == Some((folder, entries)),
        0 <= i < entries.len(),
        entries[i].name@ == vstd::utf8::encode_utf8(name),
        forall|j: int|
            0 <= j < i ==> (#[trigger] entries[j]).name@ != vstd::utf8::encode_utf8(name),
    ensures
        (repo.blob)(entries[i].id@) matches Some(data) ==> page_in_tree(repo, m, from, root)
            == PageModel::Blame(commit_of(m.home, from)@, entries[i].id@, data),
        (repo.blob)(entries[i].id@) is None ==> page_in_tree(repo, m, from, root) is NotFound,
{
    text::paths_end_in_their_names(dir, name);
    object::names_name_their_first_entry(entries, vstd::utf8::encode_utf8(name), i);
}

/// A log begins at the revision's commit, and an archive and a label are called
/// by the ref, or by the first eight digits of a commit.
pub proof fn revisions_are_called_by_their_refs(
    repo: Holdings,
    m: LoaderModel,
    kind: RefKind,
    commit: CommitRef,
)
    ensures
        m.goal is Log ==> page_at(repo, m, Revision::Named(kind, commit)) == PageModel::Log(commit@),
        m.goal is Log ==> page_at(repo, m, Revision::Home) == PageModel::Log(m.home@),
        m.goal is Label ==> page_at(repo, m, Revision::Named(kind, commit)) == PageModel::Label(
            Some(
                (
                    if kind == RefKind::Commit {
                        object::hex_text(commit.id@).take(8)
                    } else {
                        name_of(m.head)
                    },
                    kind,
                ),
            ),
        ),
        m.goal is Snapshot && (repo.tree)(commit.tree@) is Entries ==> page_at(
            repo,
            m,
            Revision::Named(kind, commit),
        ) == PageModel::Snapshot(
            commit@,
            if kind == RefKind::Commit {
                object::hex_text(commit.id@).take(8)
            } else {
                name_of(m.head)
            },
        ),
        m.goal is Snapshot ==> page_at(repo, m, Revision::Home) == PageModel::Snapshot(
            m.home@,
            match repo.head_branch {
                Some(branch) => branch,
                None => object::hex_text(m.home.id@).take(8),
            },
        ),
{
}

/// What cannot be read is no commit, whatever it would peel to, and what peels to
/// none is none either.
pub proof fn only_read_objects_are_commits(repo: Holdings, id: Seq<u8>, commit: CommitRef)
    ensures
        !(repo.readable)(id) ==> repo.commit_at(id) is None,
        (repo.peeled)(id) is None || (repo.peeled)(id) == Some(None::<CommitRef>)
            ==> repo.commit_at(id) is None,
        (repo.readable)(id) && (repo.peeled)(id) == Some(Some(commit)) ==> repo.commit_at(id)
            == Some(commit),
{
}

/// A named revision is read from its own tree, and HEAD from the tree that is at
/// hand; only a blame reads HEAD's anew.
pub proof fn revisions_are_read_from_their_own_trees(
    repo: Holdings,
    m: LoaderModel,
    kind: RefKind,
    commit: CommitRef,
    entries: Seq<TreeEntry>,
)
    requires
        m.goal is Tree || m.goal is Blame || m.goal is Snapshot,
    ensures
        (repo.tree)(commit.tree@) == TreeRead::Entries(entries) ==> page_at(
            repo,
            m,
            Revision::Named(kind, commit),
        ) == page_in_tree(repo, m, Revision::Named(kind, commit), entries),
        !((repo.tree)(commit.tree@) is Entries) ==> page_at(
            repo,
            m,
            Revision::Named(kind, commit),
        ) is Failed,
        m.goal is Blame && (repo.tree)(m.home.tree@) == TreeRead::Entries(entries) ==> page_at(
            repo,
            m,
            Revision::Home,
        ) == page_in_tree(repo, m, Revision::Home, entries),
        !(m.goal is Blame) ==> page_at(repo, m, Revision::Home) == page_in_tree(
            repo,
            m,
            Revision::Home,
            m.root,
        ),
{
}

} // verus!
