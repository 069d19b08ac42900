use webgit::fetch::{
    classify, is_volatile_metadata, parse_byte_range, slice_range, ResponseAction,
};

#[test]
fn ranged_success_returns_the_body_verbatim() {
    // 206 is the compliant answer to a Range request: the body already is
    // the requested window, so it must not be sliced a second time.
    assert_eq!(classify(206, true), ResponseAction::Body);
    assert_eq!(classify(200, false), ResponseAction::Body);
    // A 206 nobody asked for still describes a body we can use as-is.
    assert_eq!(classify(206, false), ResponseAction::Body);
}

#[test]
fn range_ignored_is_sliced_locally() {
    assert_eq!(classify(200, true), ResponseAction::SliceRange);
}

#[test]
fn missing_and_past_eof_are_not_errors_to_the_caller() {
    assert_eq!(classify(404, false), ResponseAction::NotFound);
    assert_eq!(classify(404, true), ResponseAction::NotFound);
    assert_eq!(classify(416, true), ResponseAction::Eof);
}

#[test]
fn other_statuses_surface_as_http_errors() {
    for status in [301, 302, 400, 401, 403, 500, 502, 503] {
        assert_eq!(
            classify(status, false),
            ResponseAction::HttpError,
            "{status}"
        );
        assert_eq!(
            classify(status, true),
            ResponseAction::HttpError,
            "{status}"
        );
    }
}

#[test]
fn byte_ranges_we_emit_round_trip() {
    assert_eq!(parse_byte_range("bytes=0-0"), Some((0, Some(0))));
    assert_eq!(parse_byte_range("bytes=12-4095"), Some((12, Some(4095))));
    assert_eq!(parse_byte_range("bytes=12-"), Some((12, None)));
}

#[test]
fn unhonourable_range_specs_are_rejected() {
    for header in [
        "bytes=-500",    // suffix range: start is relative to EOF
        "bytes=0-9,20-", // multi-range: the reply would be multipart
        "bytes=9-0",     // end before start
        "items=0-9",     // not a byte range
        "0-9",           // no unit
        "bytes=a-9",
    ] {
        assert_eq!(parse_byte_range(header), None, "{header}");
    }
}

#[test]
fn slicing_a_full_body_matches_what_a_206_would_have_returned() {
    let body: Vec<u8> = (0u8..=9).collect();
    assert_eq!(slice_range(&body, "bytes=0-3"), Some(&body[0..4]));
    assert_eq!(slice_range(&body, "bytes=4-4"), Some(&body[4..5]));
    assert_eq!(slice_range(&body, "bytes=7-9"), Some(&body[7..10]));
    assert_eq!(slice_range(&body, "bytes=3-"), Some(&body[3..]));
    // Whole-file range: identical to the body.
    assert_eq!(slice_range(&body, "bytes=0-9"), Some(&body[..]));
}

#[test]
fn slicing_clamps_reads_that_run_past_eof() {
    let body: Vec<u8> = (0u8..=9).collect();
    // Short read, as a compliant server's short 206 would have given.
    assert_eq!(slice_range(&body, "bytes=8-99"), Some(&body[8..]));
    // Entirely past EOF: empty, as a 416 would have given.
    assert_eq!(slice_range(&body, "bytes=10-19"), Some(&[][..]));
    assert_eq!(slice_range(&body, "bytes=10-"), Some(&[][..]));
    assert_eq!(slice_range(&[], "bytes=0-9"), Some(&[][..]));
    // An end offset too large to index with still just means "to EOF".
    assert_eq!(
        slice_range(&body, "bytes=0-18446744073709551615"),
        Some(&body[..])
    );
}

#[test]
fn slicing_refuses_ranges_it_cannot_honour() {
    let body: Vec<u8> = (0u8..=9).collect();
    assert_eq!(slice_range(&body, "bytes=-5"), None);
}

#[test]
fn volatile_metadata_matches_mutable_manifests() {
    let base = "https://host/repo.git";
    for path in [
        "/HEAD",
        "/packed-refs",
        "/info/refs",
        "/objects/info/packs",
        // Loose refs move on every push, so they must revalidate too.
        "/refs/heads/main",
        "/refs/tags/v1.0",
        "/refs/heads/HEADER",
    ] {
        assert!(is_volatile_metadata(&format!("{base}{path}")), "{path}");
    }
    // Query/fragment suffixes (e.g. smart-HTTP service params) still match.
    assert!(is_volatile_metadata(&format!(
        "{base}/info/refs?service=git-upload-pack"
    )));
}

#[test]
fn volatile_metadata_excludes_immutable_objects() {
    let base = "https://host/repo.git";
    for path in [
        "/objects/pack/pack-52dea9ac.pack",
        "/objects/pack/pack-52dea9ac.idx",
        "/objects/ab/cdef0123456789",
    ] {
        assert!(!is_volatile_metadata(&format!("{base}{path}")), "{path}");
    }
}
