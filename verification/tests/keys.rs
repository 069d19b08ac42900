use webgit::cache::keys::{graph_key_bounds, resolve_prefix_in_map};
use webgit::object::{ObjectId, ObjectIdPrefix, PrefixResolution};

/// An object ID written as a short hex string, right-padded with zeroes.
fn oid(hex: &str) -> ObjectId {
    let mut padded = hex.as_bytes().to_vec();
    padded.resize(40, b'0');
    ObjectId::from_hex(&padded).unwrap()
}

fn prefix(hex: &str) -> ObjectIdPrefix {
    ObjectIdPrefix::from_hex(hex.as_bytes()).unwrap()
}

/// Stands in for the commit-graph map; only its keys matter here.
fn map(ids: &[ObjectId]) -> Vec<(ObjectId, ())> {
    ids.iter().map(|id| (*id, ())).collect()
}

#[test]
fn resolve_prefix_in_map_unique() {
    let map = map(&[oid("00"), oid("12ab34"), oid("12ff"), oid("ff")]);
    assert_eq!(
        resolve_prefix_in_map(&map, &prefix("12ab34")),
        PrefixResolution::Found(oid("12ab34"))
    );
    // An odd-length abbreviation covers half a byte's worth of IDs.
    assert_eq!(
        resolve_prefix_in_map(&map, &prefix("12ab3")),
        PrefixResolution::Found(oid("12ab34"))
    );
    // The first and last keys of the map.
    assert_eq!(
        resolve_prefix_in_map(&map, &prefix("0000")),
        PrefixResolution::Found(oid("00"))
    );
    assert_eq!(
        resolve_prefix_in_map(&map, &prefix("ff00")),
        PrefixResolution::Found(oid("ff"))
    );
}

#[test]
fn resolve_prefix_in_map_not_found() {
    let map = map(&[oid("00"), oid("12ab34"), oid("ff")]);
    assert_eq!(
        resolve_prefix_in_map(&map, &prefix("12ac")),
        PrefixResolution::NotFound
    );
    assert_eq!(
        resolve_prefix_in_map(&map, &prefix("9999")),
        PrefixResolution::NotFound
    );
    assert_eq!(
        resolve_prefix_in_map(&Vec::<(ObjectId, ())>::new(), &prefix("12ab34")),
        PrefixResolution::NotFound
    );
}

#[test]
fn resolve_prefix_in_map_ambiguous() {
    let map = map(&[oid("12ab34"), oid("12ab35"), oid("13")]);
    assert_eq!(
        resolve_prefix_in_map(&map, &prefix("12ab3")),
        PrefixResolution::Ambiguous
    );
    // The neighbouring `13…` key is outside the range and must not count.
    assert_eq!(
        resolve_prefix_in_map(&map, &prefix("12ab35")),
        PrefixResolution::Found(oid("12ab35"))
    );
}

#[test]
fn graph_key_bounds_cover_one_repo() {
    let (lower, upper) = graph_key_bounds("https://example.org/a.git");
    let key = |repo: &str| format!("{repo}::{}", oid("12ab34").to_hex());
    let in_range = |k: &String| *k >= lower && *k <= upper;

    assert!(in_range(&key("https://example.org/a.git")));
    // A different repo, and one whose URL merely extends ours, are both out.
    assert!(!in_range(&key("https://example.org/b.git")));
    assert!(!in_range(&key("https://example.org/a.github")));
}
