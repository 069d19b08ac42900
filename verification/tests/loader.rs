use webgit::object::{ObjectId, PrefixResolution, TreeEntry, TreeEntryType};
use webgit::render::query::{RefEntry, RefName};
use webgit::route::load::{Goal, RefKind};
use webgit::route::loader::{Ask, CommitRef, Loader, Page, Progress, Reply};

const SHA: &str = "6121d0b97779278fcc32cc8a02754e7c588d9c18";

fn id(byte: u8) -> ObjectId {
    ObjectId::from_bytes([byte; 20])
}

fn entry(name: &str, entry_type: TreeEntryType, byte: u8) -> TreeEntry {
    TreeEntry { name: name.as_bytes().to_vec(), entry_type, id: id(byte) }
}

/// A repository in memory. Commits are told from their ids: commit `n` has the
/// tree `n + 100`.
struct Fake {
    refs: Option<Vec<(&'static str, u8)>>,
    commits: Vec<ObjectId>,
    /// Objects that can be read and are no commits.
    others: Vec<ObjectId>,
    expanded: Option<PrefixResolution>,
    branch: Option<&'static str>,
    asked: Vec<&'static str>,
}

fn fake() -> Fake {
    Fake {
        refs: Some(vec![
            ("heads/main", 1),
            ("heads/v1", 2),
            ("tags/v1", 3),
            ("heads/bad", 50),
            ("tags/odd", 50),
            ("heads/odd", 2),
        ]),
        commits: vec![id(1), id(2), id(3), ObjectId::from_hex(SHA.as_bytes()).unwrap()],
        others: vec![id(50)],
        expanded: None,
        branch: Some("main"),
        asked: Vec::new(),
    }
}

fn home() -> CommitRef {
    CommitRef { id: id(1), tree: id(101) }
}

fn root() -> Vec<TreeEntry> {
    vec![
        entry("src", TreeEntryType::Tree, 110),
        entry("README", TreeEntryType::File, 120),
        entry("sub", TreeEntryType::Commit, 99),
    ]
}

impl Fake {
    fn commit(&self, at: ObjectId) -> Option<CommitRef> {
        let tree = id(at.bytes[0].wrapping_add(100));
        self.commits.contains(&at).then_some(CommitRef { id: at, tree })
    }

    fn answer(&mut self, ask: Ask, read: &mut Option<ObjectId>) -> Reply {
        match ask {
            Ask::Refs => {
                self.asked.push("refs");
                match &self.refs {
                    None => Reply::Failed,
                    Some(refs) => Reply::Refs(
                        refs.iter()
                            .map(|(name, byte)| {
                                (
                                    RefName::Ref(name.as_bytes().to_vec()),
                                    RefEntry { target: id(*byte), peeled: None },
                                )
                            })
                            .collect(),
                    ),
                }
            }
            Ask::Commit(at) => {
                self.asked.push("commit");
                Reply::Commit(self.commit(at))
            }
            Ask::Expand(_) => {
                self.asked.push("expand");
                match self.expanded {
                    Some(resolution) => Reply::Expanded(resolution),
                    None => Reply::Failed,
                }
            }
            Ask::Object(at) => {
                self.asked.push("object");
                *read = Some(at);
                if self.commits.contains(&at) || self.others.contains(&at) {
                    Reply::Object
                } else {
                    Reply::Failed
                }
            }
            Ask::Peel => {
                self.asked.push("peel");
                Reply::Commit(self.commit(read.unwrap()))
            }
            Ask::Tree(at) => {
                self.asked.push("tree");
                match at.bytes[0] {
                    101 | 102 => Reply::Tree(root()),
                    103 => Reply::Mistyped,
                    110 => Reply::Tree(vec![
                        entry("lib.rs", TreeEntryType::File, 121),
                        entry("deep", TreeEntryType::Tree, 111),
                    ]),
                    111 => Reply::Tree(Vec::new()),
                    _ => Reply::Failed,
                }
            }
            Ask::Blob(at) => {
                self.asked.push("blob");
                match at.bytes[0] {
                    120 | 121 => Reply::Blob(vec![at.bytes[0]]),
                    _ => Reply::Mistyped,
                }
            }
            Ask::HeadBranch => {
                self.asked.push("head branch");
                Reply::HeadBranch(self.branch.map(|b| b.to_string()))
            }
        }
    }

    fn load(&mut self, head: Option<&str>, goal: Goal) -> Page {
        let mut progress = Loader::start(home(), root(), head.map(|h| h.to_string()), goal);
        let mut read = None;
        loop {
            match progress {
                Progress::Done { head: kept, page, .. } => {
                    assert_eq!(kept.as_deref(), head);
                    return page;
                }
                Progress::More(loader) => {
                    let reply = self.answer(loader.ask(), &mut read);
                    progress = loader.step(reply);
                }
            }
        }
    }
}

fn log() -> Goal {
    Goal::Log { offset: 0, path: String::new(), showmsg: false }
}

fn tree(path: &str) -> Goal {
    Goal::Tree { path: path.to_string(), render: false }
}

fn blame(path: &str) -> Goal {
    Goal::Blame { path: path.to_string() }
}

fn log_from(page: Page) -> ObjectId {
    match page {
        Page::Log(commit) => commit.id,
        Page::Failed { why, .. } => panic!("{why}"),
        _ => panic!("expected a log"),
    }
}

fn failure(page: Page) -> (String, bool) {
    match page {
        Page::Failed { why, caused } => (why, caused),
        _ => panic!("expected a failure"),
    }
}

#[test]
fn head_is_loaded_without_asking() {
    let mut repo = fake();
    assert_eq!(log_from(repo.load(None, log())), id(1));
    assert!(matches!(repo.load(None, tree("")), Page::Tree(t) if t == id(101)));
    assert!(repo.asked.is_empty());
}

#[test]
fn named_revision_is_a_tag_then_a_branch_then_a_hash() {
    assert_eq!(log_from(fake().load(Some("v1"), log())), id(3));
    assert_eq!(log_from(fake().load(Some("main"), log())), id(1));
    // The tag comes down to no commit, so the branch counts.
    let mut repo = fake();
    assert_eq!(log_from(repo.load(Some("odd"), log())), id(2));
    assert_eq!(repo.asked, ["refs", "commit", "commit"]);
    let mut repo = fake();
    assert_eq!(
        log_from(repo.load(Some(SHA), log())),
        ObjectId::from_hex(SHA.as_bytes()).unwrap()
    );
    assert_eq!(repo.asked, ["refs", "object", "peel"]);
    let mut repo = fake();
    repo.expanded = Some(PrefixResolution::Found(id(2)));
    assert_eq!(log_from(repo.load(Some("6121"), log())), id(2));
    assert_eq!(repo.asked, ["refs", "expand", "object", "peel"]);
}

#[test]
fn literal_head_asks_for_the_refs_alone() {
    let mut repo = fake();
    assert_eq!(log_from(repo.load(Some("HEAD"), log())), id(1));
    assert_eq!(repo.asked, ["refs"]);
    repo.refs = None;
    assert_eq!(log_from(repo.load(Some("HEAD"), log())), id(1));
    repo.refs = Some(vec![("tags/HEAD", 2)]);
    assert_eq!(log_from(repo.load(Some("HEAD"), log())), id(2));
}

#[test]
fn bad_revisions_say_what_is_wrong() {
    let said = |repo: &mut Fake, head: &str| failure(repo.load(Some(head), log()));
    let mut unlisted = fake();
    unlisted.refs = None;
    assert_eq!(said(&mut unlisted, "main"), ("list refs".to_string(), true));
    assert_eq!(
        said(&mut fake(), "nope"),
        ("not a branch, a tag, HEAD, or a commit hash: nope".to_string(), false)
    );
    assert_eq!(
        said(&mut fake(), "bad"),
        ("ref bad does not point to a commit".to_string(), false)
    );
    let mut repo = fake();
    assert_eq!(said(&mut repo, "6121"), ("resolve 6121".to_string(), true));
    repo.expanded = Some(PrefixResolution::Ambiguous);
    assert_eq!(said(&mut repo, "6121"), ("ambiguous SHA: 6121".to_string(), false));
    repo.expanded = Some(PrefixResolution::NotFound);
    assert_eq!(said(&mut repo, "6121"), ("unknown SHA: 6121".to_string(), false));
    repo.expanded = Some(PrefixResolution::Found(id(77)));
    assert_eq!(said(&mut repo, "6121"), ("lookup 6121".to_string(), true));
    repo.expanded = Some(PrefixResolution::Found(id(50)));
    assert_eq!(said(&mut repo, "6121"), ("6121 is not a commit".to_string(), false));
}

#[test]
fn path_is_a_directory_or_else_a_file() {
    assert!(matches!(fake().load(None, tree("src")), Page::Tree(t) if t == id(110)));
    assert!(matches!(fake().load(None, tree("/src//deep/")), Page::Tree(t) if t == id(111)));
    assert!(matches!(
        fake().load(None, tree("README")),
        Page::Blob(b, data) if b == id(120) && data == [120]
    ));
    let mut repo = fake();
    assert!(matches!(
        repo.load(Some("v1"), tree("src/lib.rs")),
        Page::Failed { why, caused: true } if why == "expected tree for v1"
    ));
    assert!(matches!(
        repo.load(Some("odd"), tree("src/lib.rs")),
        Page::Blob(b, data) if b == id(121) && data == [121]
    ));
    for nothing in ["gone", "src/gone", "gone/x", "sub", "README/x"] {
        assert!(matches!(fake().load(None, tree(nothing)), Page::NotFound), "{nothing}");
    }
    assert!(matches!(
        fake().load(Some(SHA), tree("src")),
        Page::Failed { why, caused: true } if why == format!("lookup tree for {SHA}")
    ));
}

#[test]
fn blame_reads_the_tree_of_the_commit_it_starts_from() {
    let mut repo = fake();
    assert!(matches!(
        repo.load(None, blame("src/lib.rs")),
        Page::Blame(commit, b, data) if commit.id == id(1) && b == id(121) && data == [121]
    ));
    assert_eq!(repo.asked, ["tree", "tree", "blob"]);
    assert!(matches!(fake().load(None, blame("src")), Page::NotFound));
    assert_eq!(
        failure(fake().load(Some("v1"), blame("README"))),
        ("expected a tree to blame".to_string(), true)
    );
    assert_eq!(
        failure(fake().load(Some(SHA), blame("README"))),
        ("lookup tree to blame".to_string(), true)
    );
}

#[test]
fn archive_and_path_bar_are_labelled_by_the_revision() {
    let label = |repo: &mut Fake, head: Option<&str>| match repo.load(head, Goal::Snapshot) {
        Page::Snapshot(_, label) => label,
        _ => panic!("expected an archive"),
    };
    let bar = |repo: &mut Fake, head: Option<&str>| match repo.load(head, Goal::Label) {
        Page::Label(label) => label,
        _ => None,
    };
    let mut detached = fake();
    detached.branch = None;
    assert_eq!(label(&mut fake(), None), "main");
    assert_eq!(label(&mut detached, None), "01010101");
    assert_eq!(label(&mut fake(), Some("odd")), "odd");
    let mut short = fake();
    short.expanded = Some(PrefixResolution::Found(id(2)));
    assert_eq!(label(&mut short, Some("0202")), "02020202");
    assert_eq!(
        failure(fake().load(Some("v1"), Goal::Snapshot)),
        ("expected a tree to archive".to_string(), true)
    );
    assert_eq!(bar(&mut fake(), None), Some(("main".to_string(), RefKind::Branch)));
    assert_eq!(bar(&mut detached, None), None);
    assert_eq!(bar(&mut fake(), Some("v1")), Some(("v1".to_string(), RefKind::Tag)));
    assert_eq!(bar(&mut fake(), Some("main")), Some(("main".to_string(), RefKind::Branch)));
    assert_eq!(bar(&mut short, Some("0202")), Some(("02020202".to_string(), RefKind::Commit)));
    assert_eq!(bar(&mut fake(), Some("nope")), None);
}

#[test]
fn answer_to_something_else_is_as_good_as_none() {
    let Progress::More(loader) = Loader::start(home(), root(), Some("main".to_string()), log())
    else {
        panic!("expected to be asked");
    };
    let Progress::Done { page, .. } = loader.step(Reply::Object) else {
        panic!("expected an end");
    };
    assert_eq!(failure(page), ("list refs".to_string(), true));
}
