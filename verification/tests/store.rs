use webgit::archive::{after_entry, browser_error, pushes, WriteStep, FLUSH_BYTES};
use webgit::bundle::after_object;
use webgit::cache::codec::{
    cached_object_stats, object_from_record, object_record, object_type_to_u8, oid_from_bytes,
    settings_tag, u8_to_object_type, BloomSettings,
};
use webgit::cache::graph::{
    build_graph_record, parse_graph_record, parse_stored, GraphRecord, GraphState, GraphStep,
};
use webgit::cache::idb::{
    bare_key, migration_steps, store_name, MigrationStep, Store, DB_VERSION,
};
use webgit::cache::{
    fetched_object, lookup_object, peel_step, resolve_prefix, FetchedStep, LookupStep, PeelStep,
};
use webgit::import::{check_size, Batch, BATCH_BYTES, BATCH_OBJECTS};
use webgit::object::{ObjectId, ObjectIdPrefix, ObjectType, PrefixResolution, RawObject};
use webgit::pace::Pace;

fn id(byte: u8) -> ObjectId {
    ObjectId::from_bytes([byte; 20])
}

fn record(tree: u8, parents: &[u8], bloom: Option<&[u8]>) -> GraphRecord {
    GraphRecord {
        tree: id(tree),
        parents: parents.iter().map(|p| id(*p)).collect(),
        commit_time: -5,
        bloom: bloom.map(|b| b.to_vec()),
    }
}

const REPO: &str = "https://example.org/a.git";

#[test]
fn graph_record_reads_back_as_it_was_written() {
    let rec = record(1, &[2, 3], Some(b"bloom"));
    let stored = build_graph_record(REPO, id(9), &rec, 7);
    assert_eq!(stored.key, format!("{REPO}::{}", "09".repeat(20)));
    assert_eq!(stored.parents.as_ref().unwrap().len(), 40);
    let (read_id, read) = parse_stored(REPO, stored, 7).unwrap();
    assert_eq!(read_id, id(9));
    assert_eq!(read.tree, rec.tree);
    assert_eq!(read.parents, rec.parents);
    assert_eq!(read.commit_time, -5);
    assert_eq!(read.bloom.as_deref(), Some(b"bloom".as_slice()));
}

/// A filter is trusted only under the settings it was written under.
#[test]
fn filter_of_other_settings_is_dropped() {
    let stored = build_graph_record(REPO, id(9), &record(1, &[], Some(b"bloom")), 7);
    let read = parse_graph_record(stored, 8).unwrap();
    assert_eq!(read.bloom, None);
    assert!(read.parents.is_empty());
}

#[test]
fn record_without_a_tree_or_a_time_is_none() {
    let full = || build_graph_record(REPO, id(9), &record(1, &[2], None), 7);
    let mut r = full();
    r.tree = None;
    assert!(parse_graph_record(r, 7).is_none());
    let mut r = full();
    r.tree = Some(vec![1; 19]);
    assert!(parse_graph_record(r, 7).is_none());
    let mut r = full();
    r.time = None;
    assert!(parse_graph_record(r, 7).is_none());
    // Parents that are missing are none; a run cut short is left out.
    let mut r = full();
    r.parents = None;
    assert!(parse_graph_record(r, 7).unwrap().parents.is_empty());
    let mut r = full();
    r.parents = Some(vec![4; 39]);
    assert_eq!(parse_graph_record(r, 7).unwrap().parents, [id(4)]);
}

/// The store's range of keys may admit another repository's.
#[test]
fn record_of_another_repository_is_not_this_ones() {
    let other = format!("{REPO}::fork");
    let stored = build_graph_record(&other, id(9), &record(1, &[], None), 7);
    assert!(parse_stored(REPO, stored, 7).is_none());
    let stored = build_graph_record(REPO, id(9), &record(1, &[], None), 7);
    assert!(parse_stored("https://example.org/b.git", stored, 7).is_none());
}

#[test]
fn empty_store_asks_for_the_whole_graph() {
    let mut graph = GraphState::new();
    assert_eq!(graph.ensure_graph_loaded(true), GraphStep::ReadStore);
    assert_eq!(graph.ensure_graph_loaded(true), GraphStep::Done);
    assert_eq!(graph.take_stored(Vec::new(), 3), GraphStep::BulkLoad);
    // Until the load has finished nothing is written.
    assert!(!graph.take_record(id(1), record(1, &[], None)));
    assert_eq!(graph.take_bulk(None), GraphStep::Done);
    assert!(!graph.take_record(id(2), record(2, &[], None)));
    assert_eq!(
        graph.take_bulk(Some(vec![(id(1), record(8, &[], None))])),
        GraphStep::PersistAll
    );
    assert!(graph.take_record(id(3), record(3, &[], None)));
    // What came last of a commit is what counts.
    let at = graph.find(&id(1)).unwrap();
    assert_eq!(graph.records[at].1.tree, id(8));
    assert!(graph.find(&id(2)).is_some());
    assert!(graph.find(&id(4)).is_none());

    graph.clear_cache();
    assert!(graph.find(&id(1)).is_none());
    assert!(!graph.take_record(id(1), record(1, &[], None)));
    assert_eq!(graph.ensure_graph_loaded(true), GraphStep::ReadStore);
}

#[test]
fn filled_store_is_taken_as_complete() {
    let mut graph = GraphState::new();
    assert_eq!(
        graph.take_stored(vec![(id(1), record(1, &[], None))], 3),
        GraphStep::Done
    );
    assert!(graph.take_record(id(2), record(2, &[], None)));
    assert_eq!(GraphState::new().ensure_graph_loaded(false), GraphStep::Done);
    assert_eq!(GraphState::new().take_stored(Vec::new(), 0), GraphStep::Done);
}

/// However a commit's record comes in, the commit is held once.
#[test]
fn commit_is_held_once() {
    let mut graph = GraphState::new();
    graph.ensure_graph_loaded(true);
    graph.take_stored(Vec::new(), 3);
    graph.take_record(id(0x12), record(1, &[], None));
    graph.take_bulk(Some(vec![
        (id(0x30), record(3, &[], None)),
        (id(0x12), record(2, &[], None)),
        (id(0x20), record(4, &[], None)),
        (id(0x12), record(5, &[], None)),
    ]));
    graph.take_record(id(0x30), record(6, &[], None));
    let held: Vec<ObjectId> = graph.records.iter().map(|r| r.0).collect();
    assert_eq!(held, [id(0x12), id(0x20), id(0x30)]);
    let tree = |i: u8| graph.records[graph.find(&id(i)).unwrap()].1.tree;
    assert_eq!(tree(0x12), id(5));
    assert_eq!(tree(0x20), id(4));
    assert_eq!(tree(0x30), id(6));
    let prefix = ObjectIdPrefix::from_hex(b"1212").unwrap();
    assert_eq!(
        resolve_prefix(&graph.records, &prefix),
        Some(PrefixResolution::Found(id(0x12)))
    );
    // An ID given twice is one all the same.
    let twice = vec![(id(0x12), record(1, &[], None)), (id(0x12), record(2, &[], None))];
    assert_eq!(resolve_prefix(&twice, &prefix), Some(PrefixResolution::Found(id(0x12))));
}

#[test]
fn abbreviation_is_looked_for_in_the_graph_first() {
    let graph = vec![(id(0x12), record(1, &[], None)), (id(0x13), record(1, &[], None))];
    let prefix = |hex: &str| ObjectIdPrefix::from_hex(hex.as_bytes()).unwrap();
    assert_eq!(resolve_prefix(&graph, &prefix("1212")), Some(PrefixResolution::Found(id(0x12))));
    assert_eq!(resolve_prefix(&graph, &prefix("abcd")), None);
    let mut twin = [0x12; 20];
    twin[19] = 0;
    let graph = vec![
        (id(0x12), record(1, &[], None)),
        (ObjectId::from_bytes(twin), record(1, &[], None)),
    ];
    assert_eq!(resolve_prefix(&graph, &prefix("1212")), Some(PrefixResolution::Ambiguous));
}

#[test]
fn lookup_asks_the_network_on_a_miss() {
    assert_eq!(lookup_object(true), LookupStep::Hit);
    assert_eq!(lookup_object(false), LookupStep::Fetch);
    assert_eq!(fetched_object(true, true), FetchedStep::StoreAndReturn);
    assert_eq!(fetched_object(true, false), FetchedStep::Corrupt);
    assert_eq!(fetched_object(false, true), FetchedStep::Missing);
    assert_eq!(peel_step(ObjectType::Commit), PeelStep::Commit);
    assert_eq!(peel_step(ObjectType::Tag), PeelStep::Follow);
    assert_eq!(peel_step(ObjectType::Blob), PeelStep::NotACommit);
    assert_eq!(peel_step(ObjectType::Tree), PeelStep::NotACommit);
}

fn raw(object_type: ObjectType, body: &[u8]) -> RawObject {
    RawObject { object_type, body: body.to_vec() }
}

#[test]
fn object_record_reads_back_as_the_object() {
    for kind in [ObjectType::Commit, ObjectType::Tree, ObjectType::Blob, ObjectType::Tag] {
        let stored = object_record(id(0xab), &raw(kind, b"body"));
        assert_eq!(stored.id, "ab".repeat(20));
        let read = object_from_record(Some(stored.kind), Some(stored.data)).unwrap();
        assert_eq!(read.object_type, kind);
        assert_eq!(read.body, b"body");
        assert_eq!(u8_to_object_type(object_type_to_u8(kind)), Some(kind));
    }
    assert!(object_from_record(None, Some(Vec::new())).is_none());
    assert!(object_from_record(Some(1), None).is_none());
    assert!(object_from_record(Some(5), Some(Vec::new())).is_none());
    assert_eq!(u8_to_object_type(0), None);
    assert_eq!(object_type_to_u8(ObjectType::Commit), 1);
    assert_eq!(object_type_to_u8(ObjectType::Tag), 4);
}

#[test]
fn name_has_twenty_bytes() {
    assert_eq!(oid_from_bytes(&[7; 20]), Some(id(7)));
    assert_eq!(oid_from_bytes(&[7; 19]), None);
    assert_eq!(oid_from_bytes(&[7; 21]), None);
}

#[test]
fn settings_fit_one_number() {
    let tag = |hash_version, num_hashes, bits_per_entry| {
        settings_tag(BloomSettings { hash_version, num_hashes, bits_per_entry })
    };
    assert_eq!(tag(1, 7, 10), 0x000a_0701);
    assert_eq!(tag(0x1ff, 0x107, 0x1_000a), 0x000a_07ff);
}

#[test]
fn cache_is_counted_in_objects_and_bytes() {
    assert_eq!(cached_object_stats(&vec![3, 4, 5]), (3, 12));
    assert_eq!(cached_object_stats(&Vec::new()), (0, 0));
}

#[test]
fn every_version_is_brought_up_to_date() {
    let objects = MigrationStep::Create(Store::Objects);
    let graph = MigrationStep::Create(Store::Graph);
    assert_eq!(migration_steps(0), [objects, graph]);
    assert_eq!(migration_steps(1), [MigrationStep::Delete(Store::Objects), objects, graph]);
    assert_eq!(
        migration_steps(2),
        [
            MigrationStep::Delete(Store::Objects),
            objects,
            MigrationStep::Delete(Store::TagRefs),
            graph
        ]
    );
    assert_eq!(
        migration_steps(3),
        [MigrationStep::Delete(Store::TagRefs), graph, MigrationStep::DropObjectPrefixes]
    );
    assert_eq!(migration_steps(4), [graph, MigrationStep::DropObjectPrefixes]);
    assert_eq!(migration_steps(5), [MigrationStep::DropObjectPrefixes]);
    assert!(migration_steps(DB_VERSION).is_empty());
    assert_eq!(store_name(Store::Objects), "objects");
    assert_eq!(store_name(Store::TagRefs), "tag_refs");
    assert_eq!(store_name(Store::Graph), "graph");
}

#[test]
fn key_is_rewritten_to_the_bare_name() {
    assert_eq!(bare_key("https://a::b::0123").as_deref(), Some("0123"));
    assert_eq!(bare_key("a:::b").as_deref(), Some("b"));
    assert_eq!(bare_key("a::").as_deref(), Some(""));
    assert_eq!(bare_key("0123"), None);
    assert_eq!(bare_key("a:b"), None);
    assert_eq!(bare_key(":"), None);
}

/// An object is found while it is held back, and not after.
#[test]
fn batch_holds_objects_until_they_are_written() {
    let mut batch = Batch::new();
    assert!(batch.take().is_none());
    assert!(!batch.put(id(1), &raw(ObjectType::Blob, b"one")));
    assert!(!batch.put(id(2), &raw(ObjectType::Tree, b"two")));
    assert!(!batch.put(id(1), &raw(ObjectType::Blob, b"uno")));
    // Of two objects of one name, the first is found.
    assert_eq!(batch.get(&id(1)).unwrap().body, b"one");
    assert_eq!(batch.get(&id(2)).unwrap().object_type, ObjectType::Tree);
    assert!(batch.get(&id(3)).is_none());
    assert_eq!(batch.bytes, 9);
    let written = batch.take().unwrap();
    assert_eq!(written.len(), 3);
    assert_eq!(written[1].0, id(2));
    assert!(batch.get(&id(1)).is_none());
    assert_eq!(batch.bytes, 0);
}

#[test]
fn batch_is_full_by_weight_or_by_count() {
    let mut batch = Batch::new();
    assert!(!batch.put(id(1), &raw(ObjectType::Blob, &vec![0; BATCH_BYTES - 1])));
    assert!(batch.put(id(2), &raw(ObjectType::Blob, b"x")));
    let mut batch = Batch::new();
    for i in 1..BATCH_OBJECTS {
        assert!(!batch.put(id(1), &raw(ObjectType::Blob, b"")), "{i}");
    }
    assert!(batch.put(id(1), &raw(ObjectType::Blob, b"")));
}

#[test]
fn file_too_large_to_read_is_refused() {
    assert_eq!(check_size(10, 10), Ok(()));
    assert_eq!(
        check_size(2048, 1024),
        Err("that file is 2 KB, which is more than the 1 KB this can read at once".to_string())
    );
}

#[test]
fn reports_keep_the_interval() {
    let mut pace = Pace::since(1_000);
    assert!(!pace.due(1_049));
    assert!(pace.due(1_050));
    assert!(!pace.due(1_099));
    // A clock that is set back reports nothing.
    assert!(!pace.due(0));
    assert!(pace.due(1_100));
    assert!(Pace::since(0).is_due(50));
}

/// An archive reports with its flushes; a bundle on the clock alone.
#[test]
fn writing_is_paced() {
    let mut pace = Pace::since(0);
    assert_eq!(
        after_entry(FLUSH_BYTES - 1, 0, 3, 1_000, &mut pace),
        WriteStep { flush: false, report: None }
    );
    assert_eq!(
        after_entry(FLUSH_BYTES, 1, 3, 1_000, &mut pace),
        WriteStep { flush: true, report: Some((2, 3)) }
    );
    assert_eq!(
        after_entry(FLUSH_BYTES, 2, 3, 1_001, &mut pace),
        WriteStep { flush: true, report: None }
    );
    let mut pace = Pace::since(0);
    assert_eq!(
        after_object(0, 1, 3, 1_000, &mut pace),
        WriteStep { flush: false, report: Some((1, 3)) }
    );
    assert_eq!(
        after_object(FLUSH_BYTES, 2, 3, 1_001, &mut pace),
        WriteStep { flush: true, report: None }
    );
    assert!(pushes(b"x"));
    assert!(!pushes(b""));
    assert_eq!(browser_error("compress", "no"), "Failed to compress: no");
}
