use webgit::object::{ObjectId, TreeEntry, TreeEntryType};
use webgit::render::query::{RefEntry, RefName};
use webgit::route::load::{
    blob_walk, branch_commit, commit_names, display_head, effective_head, has_ref_named,
    hash_commit, load, not_found, path_components, resolve_revision, short_hash, snapshot_label,
    step_into, step_to_blob, tree_step, Goal, Load, RefKind, RevisionStep, TreeStep,
    TreeWalk, WalkStep,
};
use webgit::route::parse_hash;

#[test]
fn test_short_hash() {
    assert_eq!(
        short_hash("6121d0b97779278fcc32cc8a02754e7c588d9c18"),
        "6121d0b9"
    );
    // Shorter than the abbreviation: itself, not a panic.
    assert_eq!(short_hash("abc"), "abc");
    assert_eq!(short_hash(""), "");
}

const SHA: &str = "6121d0b97779278fcc32cc8a02754e7c588d9c18";

fn id(byte: u8) -> ObjectId {
    ObjectId::from_bytes([byte; 20])
}

fn refs(names: &[(&str, u8)]) -> Vec<(RefName, RefEntry)> {
    names
        .iter()
        .map(|(name, byte)| {
            (
                RefName::Ref(name.as_bytes().to_vec()),
                RefEntry { target: id(*byte), peeled: None },
            )
        })
        .collect()
}

#[test]
fn literal_head_is_head_unless_a_ref_is_called_that() {
    let none = refs(&[("heads/main", 1)]);
    assert_eq!(effective_head(Some(&none), Some("HEAD")), None);
    assert_eq!(effective_head(Some(&none), Some("main")), Some("main"));
    assert_eq!(effective_head(Some(&none), Some("gone")), Some("gone"));
    assert_eq!(effective_head(Some(&none), None), None);
    assert_eq!(effective_head(None, Some("HEAD")), None);
    for called in ["heads/HEAD", "tags/HEAD"] {
        let refs = refs(&[(called, 1)]);
        assert!(has_ref_named(Some(&refs), "HEAD"), "{called}");
        assert_eq!(effective_head(Some(&refs), Some("HEAD")), Some("HEAD"), "{called}");
    }
}

#[test]
fn revision_is_a_tag_before_a_branch_before_a_hash() {
    let both = refs(&[("heads/v1", 1), ("tags/v1", 2), ("heads/deadbeef", 3)]);
    assert!(matches!(resolve_revision(&both, "v1", false), RevisionStep::Tag(i) if i == id(2)));
    // A tag that comes down to no commit is passed over.
    assert!(matches!(resolve_revision(&both, "v1", true), RevisionStep::Branch(i) if i == id(1)));
    // A ref that is shaped like a hash is still the ref.
    assert!(matches!(
        resolve_revision(&both, "deadbeef", false),
        RevisionStep::Branch(i) if i == id(3)
    ));
    let named = ObjectId::from_hex(SHA.as_bytes()).unwrap();
    assert!(matches!(
        resolve_revision(&both, SHA, false),
        RevisionStep::Hash(i) if i == named
    ));
    assert!(matches!(
        resolve_revision(&both, "6121d0", false),
        RevisionStep::Expand(p) if p.digits == [6, 1, 2, 1, 13, 0]
    ));
    let RevisionStep::Failed(why) = resolve_revision(&both, "nope", false) else {
        panic!("expected a failure");
    };
    assert_eq!(why, "not a branch, a tag, HEAD, or a commit hash: nope");
}

#[test]
fn revision_that_comes_down_to_no_commit_is_an_error() {
    assert_eq!(branch_commit("main", Some(id(1))), Ok(id(1)));
    assert_eq!(
        branch_commit("main", None),
        Err("ref main does not point to a commit".to_string())
    );
    assert_eq!(hash_commit("abcd", Some(id(1))), Ok(id(1)));
    assert_eq!(hash_commit("abcd", None), Err("abcd is not a commit".to_string()));
}

#[test]
fn ref_is_labelled_by_its_name_and_a_commit_by_its_hash() {
    let commit = ObjectId::from_hex(SHA.as_bytes()).unwrap();
    assert_eq!(
        display_head(Some("v1"), Some((commit, RefKind::Tag)), None),
        Some(("v1".to_string(), RefKind::Tag))
    );
    assert_eq!(
        display_head(Some(SHA), Some((commit, RefKind::Commit)), None),
        Some(("6121d0b9".to_string(), RefKind::Commit))
    );
    assert_eq!(display_head(Some("gone"), None, Some("main".to_string())), None);
    assert_eq!(
        display_head(None, None, Some("main".to_string())),
        Some(("main".to_string(), RefKind::Branch))
    );
    assert_eq!(display_head(None, None, None), None);
}

#[test]
fn archive_is_named_after_the_ref_or_the_commit() {
    let commit = ObjectId::from_hex(SHA.as_bytes()).unwrap();
    let main = || Some("main".to_string());
    assert_eq!(snapshot_label(Some(("v1", RefKind::Tag)), commit, main()), "v1");
    assert_eq!(snapshot_label(Some((SHA, RefKind::Commit)), commit, main()), "6121d0b9");
    assert_eq!(snapshot_label(None, commit, main()), "main");
    assert_eq!(snapshot_label(None, commit, None), "6121d0b9");
}

fn tree(entries: &[(&str, TreeEntryType, u8)]) -> Vec<TreeEntry> {
    entries
        .iter()
        .map(|(name, entry_type, byte)| TreeEntry {
            name: name.as_bytes().to_vec(),
            entry_type: *entry_type,
            id: id(*byte),
        })
        .collect()
}

#[test]
fn walk_goes_along_directories_alone() {
    let root = tree(&[("src", TreeEntryType::Tree, 1), ("README", TreeEntryType::File, 2)]);
    let src = tree(&[("render", TreeEntryType::Tree, 3)]);
    assert_eq!(path_components("/src//render/"), ["src", "render"]);
    assert_eq!(step_into(&root, "src"), Some(id(1)));
    assert_eq!(step_into(&root, "README"), None);
    assert_eq!(step_to_blob(&root, "README"), Some(id(2)));
    assert_eq!(step_to_blob(&root, "gone"), None);
    assert_eq!(blob_walk("src/render/mod.rs"), ("src/render", "mod.rs"));
    assert_eq!(blob_walk("README"), ("", "README"));

    let mut walk = TreeWalk::along("src/render");
    assert!(matches!(walk.step(&root), WalkStep::Into(i) if i == id(1)));
    assert!(matches!(walk.step(&src), WalkStep::Into(i) if i == id(3)));
    assert!(matches!(walk.step(&tree(&[])), WalkStep::Here));
    let mut lost = TreeWalk::along("README/x");
    assert!(matches!(lost.step(&root), WalkStep::Lost));
    assert!(matches!(TreeWalk::along("").step(&root), WalkStep::Here));
}

#[test]
fn each_route_is_loaded_from_somewhere() {
    assert!(matches!(load(parse_hash("#!/about")), Load::About));
    assert!(matches!(load(parse_hash("")), Load::Readme));
    assert!(matches!(load(parse_hash("#!/summary")), Load::Summary));
    assert!(matches!(load(parse_hash("#!/refs")), Load::RefsAll));
    assert!(matches!(load(parse_hash("#!/refs/heads")), Load::RefsHeads));
    assert!(matches!(load(parse_hash("#!/refs/tags")), Load::RefsTags));
    assert!(matches!(load(parse_hash("#!/refs/tags/v1")), Load::Tag(t) if t == "v1"));
    assert!(matches!(load(parse_hash("#!/commit")), Load::HeadCommit(_)));
    assert!(matches!(load(parse_hash("#!/commit/abc")), Load::Commit { sha, .. } if sha == "abc"));
    assert!(matches!(
        load(parse_hash("#!/log/src?h=main&offset=50")),
        Load::At { head: Some(h), goal: Goal::Log { offset: 50, path, showmsg: false } }
            if h == "main" && path == "src"
    ));
    assert!(matches!(
        load(parse_hash("#!/tree/a.md?render=1")),
        Load::At { head: None, goal: Goal::Tree { path, render: true } } if path == "a.md"
    ));
    assert!(matches!(
        load(parse_hash("#!/blame/a.rs")),
        Load::At { head: None, goal: Goal::Blame { path } } if path == "a.rs"
    ));
    assert!(matches!(
        load(parse_hash("#!/snapshot?h=v1")),
        Load::At { head: Some(_), goal: Goal::Snapshot }
    ));
}

#[test]
fn head_commit_is_rebuilt_without_an_id() {
    let head = ObjectId::from_hex(SHA.as_bytes()).unwrap();
    assert_eq!(commit_names(None, head), (SHA.to_string(), String::new()));
    assert_eq!(
        commit_names(Some("abc"), head),
        ("abc".to_string(), "abc".to_string())
    );
}

#[test]
fn tree_is_looked_up_where_it_is_not_at_hand() {
    let log = Goal::Log { offset: 0, path: String::new(), showmsg: false };
    assert!(matches!(tree_step(&log, Some("main")), TreeStep::Nothing));
    let goal = Goal::Tree { path: "src".to_string(), render: false };
    assert!(matches!(tree_step(&goal, None), TreeStep::Root));
    let TreeStep::LookUp { read, expect } = tree_step(&goal, Some("main")) else {
        panic!("expected a look-up");
    };
    assert_eq!(read, "lookup tree for main");
    assert_eq!(expect, "expected tree for main");
    let blame = Goal::Blame { path: "a".to_string() };
    assert!(matches!(tree_step(&blame, None), TreeStep::LookUp { .. }));
    assert!(matches!(tree_step(&Goal::Snapshot, None), TreeStep::Root));
    let TreeStep::LookUp { read, expect } = tree_step(&Goal::Snapshot, Some("v1")) else {
        panic!("expected a look-up");
    };
    assert_eq!(read, "lookup tree to archive");
    assert_eq!(expect, "expected a tree to archive");
}

#[test]
fn path_that_names_nothing_is_said_to() {
    assert_eq!(not_found("a/b"), "Not found: a/b");
}
