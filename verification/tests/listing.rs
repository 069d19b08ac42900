use serde::de::{Deserializer, MapAccess, Visitor};
use serde::Deserialize;
use webgit::render::listing::{listing_groups, listing_url, ListingEntry, RepoGroup};

/// An object of the file, its sections in the order written.
struct Entry(ListingEntry);

struct EntryVisitor;

impl<'de> Visitor<'de> for EntryVisitor {
    type Value = Entry;

    fn expecting(&self, f: &mut std::fmt::Formatter) -> std::fmt::Result {
        f.write_str("an object mapping a prefix to a list of repositories")
    }

    fn visit_map<A: MapAccess<'de>>(self, mut map: A) -> Result<Self::Value, A::Error> {
        let mut sections = Vec::new();
        while let Some(entry) = map.next_entry::<String, Vec<String>>()? {
            sections.push(entry);
        }
        Ok(Entry(ListingEntry { sections }))
    }
}

impl<'de> Deserialize<'de> for Entry {
    fn deserialize<D: Deserializer<'de>>(deserializer: D) -> Result<Self, D::Error> {
        deserializer.deserialize_map(EntryVisitor)
    }
}

fn parse_listing(json: &str) -> serde_json::Result<Vec<RepoGroup>> {
    let entries: Vec<Entry> = serde_json::from_str(json)?;
    Ok(listing_groups(&entries.into_iter().map(|e| e.0).collect()))
}

fn groups(json: &str) -> Vec<RepoGroup> {
    parse_listing(json).unwrap()
}

fn sections(groups: &[RepoGroup]) -> Vec<&str> {
    groups.iter().map(|g| g.section.as_str()).collect()
}

fn names(group: &RepoGroup) -> Vec<&str> {
    group.repos.iter().map(|r| r.name.as_str()).collect()
}

/// The page mirrors the file: sections in the order written, repositories
/// in the order written, neither one sorted.
#[test]
fn keeps_the_files_order() {
    let groups = groups(
        r#"[
            {"public": ["foo.git", "bar.git"]},
            {"private": ["secret.git"]},
            {"a": ["z.git"]}
        ]"#,
    );
    assert_eq!(sections(&groups), ["public", "private", "a"]);
    assert_eq!(names(&groups[0]), ["foo.git", "bar.git"]);
    assert_eq!(groups[0].repos[0].href, "/public/foo.git/");
}

/// An empty prefix means the repositories sit at the web root: no section
/// header, and hrefs without a directory component.
#[test]
fn empty_prefix_is_top_level() {
    let groups = groups(r#"[{"": ["top.git"]}]"#);
    assert_eq!(sections(&groups), [""]);
    assert_eq!(groups[0].repos[0].href, "/top.git/");
}

/// A prefix may be several directories deep, and repeating one is fine —
/// it is two sections, not a regrouping.
#[test]
fn repeated_and_nested_prefixes_stay_separate() {
    let groups = groups(r#"[{"a": ["a.git"]}, {"a/b": ["y.git"]}, {"a": ["x.git"]}]"#);
    assert_eq!(sections(&groups), ["a", "a/b", "a"]);
    assert_eq!(names(&groups[2]), ["x.git"]);
    assert_eq!(groups[1].repos[0].href, "/a/b/y.git/");
}

/// Surrounding slashes on either half are tolerated, and a section left
/// with no repositories is dropped rather than rendered as a bare header.
#[test]
fn trims_slashes_and_drops_empty_sections() {
    let groups = groups(r#"[{"/public/": ["/foo.git/", ""]}, {"empty": []}]"#);
    assert_eq!(sections(&groups), ["public"]);
    assert_eq!(names(&groups[0]), ["foo.git"]);
    assert_eq!(groups[0].repos[0].href, "/public/foo.git/");
}

/// Several prefixes in one object are allowed and keep their written order.
#[test]
fn one_object_may_hold_several_sections() {
    let groups = groups(r#"[{"z": ["z.git"], "a": ["a.git"]}]"#);
    assert_eq!(sections(&groups), ["z", "a"]);
}

#[test]
fn rejects_the_old_flat_array_of_paths() {
    assert!(parse_listing(r#"["public/foo.git"]"#).is_err());
}

#[test]
fn test_listing_html() {
    let groups = groups(r#"[{"": ["top.git"]}, {"public": ["foo.git", "bar.git"]}]"#);
    assert_eq!(sections(&groups), ["", "public"]);
    assert_eq!(names(&groups[1]), ["foo.git", "bar.git"]);
    assert_eq!(groups[1].repos[1].href, "/public/bar.git/");
}

#[test]
fn test_listing_html_empty() {
    assert!(listing_groups(&Vec::new()).is_empty());
}

#[test]
fn listing_lies_at_the_web_root() {
    assert_eq!(listing_url("https://example.org"), "https://example.org/listing.json");
}
