use webgit::route::anchor::{split_line_anchor, LineRange};
use webgit::route::encode::encode_path;

#[test]
fn test_split_line_anchor_single() {
    assert_eq!(
        split_line_anchor("#!/tree/src/lib.rs#n5"),
        ("#!/tree/src/lib.rs", Some(LineRange::single(5)))
    );
}

#[test]
fn test_split_line_anchor_range() {
    assert_eq!(
        split_line_anchor("#!/tree/src/lib.rs#n5-n10"),
        ("#!/tree/src/lib.rs", Some(LineRange { start: 5, end: 10 }))
    );
}

/// The anchor comes off after the query, which is where a `?h=` leaves it.
#[test]
fn test_split_line_anchor_after_query() {
    assert_eq!(
        split_line_anchor("#!/tree/src/lib.rs?h=v1.0#n5-n10"),
        (
            "#!/tree/src/lib.rs?h=v1.0",
            Some(LineRange { start: 5, end: 10 })
        )
    );
}

/// Reversed ends name the same lines rather than an empty selection.
#[test]
fn test_split_line_anchor_reversed_is_ordered() {
    assert_eq!(
        split_line_anchor("#!/tree/f#n10-n5").1,
        Some(LineRange { start: 5, end: 10 })
    );
}

/// A hash with no anchor is returned whole, and the fragment's own leading
/// '#' is never mistaken for the separator.
#[test]
fn test_split_line_anchor_absent() {
    assert_eq!(
        split_line_anchor("#!/tree/src/lib.rs"),
        ("#!/tree/src/lib.rs", None)
    );
    assert_eq!(split_line_anchor("#n5"), ("#n5", None));
    assert_eq!(split_line_anchor(""), ("", None));
    assert_eq!(split_line_anchor("#"), ("#", None));
}

/// A suffix that isn't a well-formed anchor stays part of the route string,
/// rather than being silently discarded as if it had been one.
#[test]
fn test_split_line_anchor_malformed_is_left_alone() {
    for hash in [
        "#!/tree/f#n",
        "#!/tree/f#n0",
        "#!/tree/f#nope",
        "#!/tree/f#n5-",
        "#!/tree/f#n5-10",
        "#!/tree/f#n5-n",
        "#!/tree/f#n-5",
        "#!/tree/f#n 5",
        "#!/tree/f#n+5",
        "#!/tree/f#5",
    ] {
        assert_eq!(split_line_anchor(hash), (hash, None), "for {hash}");
    }
}

/// A `#` inside a path or ref is percent-encoded, so it can never be read
/// as the anchor separator.
#[test]
fn test_split_line_anchor_encoded_hash_in_path() {
    let hash = format!("#!/tree/{}#n5", encode_path("a#n1/b.rs"));
    assert_eq!(
        split_line_anchor(&hash),
        ("#!/tree/a%23n1/b.rs", Some(LineRange::single(5)))
    );
}

/// The anchor a range writes is the one that parses back to it, with a
/// single line taking the short `#n5` form.
#[test]
fn test_line_range_anchor_round_trips() {
    for range in [
        LineRange::single(1),
        LineRange::single(42),
        LineRange { start: 5, end: 10 },
    ] {
        let hash = format!("#!/tree/f{}", range.anchor());
        assert_eq!(split_line_anchor(&hash), ("#!/tree/f", Some(range)));
    }
    assert_eq!(LineRange::single(5).anchor(), "#n5");
    assert_eq!(LineRange { start: 5, end: 10 }.anchor(), "#n5-n10");
}

#[test]
fn test_line_range_contains() {
    let range = LineRange { start: 5, end: 10 };
    assert!(!range.contains(4));
    assert!(range.contains(5));
    assert!(range.contains(7));
    assert!(range.contains(10));
    assert!(!range.contains(11));
}
