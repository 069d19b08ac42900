use webgit::route::encode::{decode_component, decode_path, encode_component, encode_path};

#[test]
fn test_encode_component_escapes_only_route_syntax() {
    // Ordinary names are left exactly as they are, so URLs stay readable.
    assert_eq!(encode_component("main"), "main");
    assert_eq!(encode_component("v1.0.0"), "v1.0.0");
    assert_eq!(encode_component("foo(1)+bar,baz=qux"), "foo(1)+bar,baz=qux");
    // The characters that carry meaning in the route grammar.
    assert_eq!(encode_component("a%b"), "a%25b");
    assert_eq!(encode_component("a#b"), "a%23b");
    assert_eq!(encode_component("a?b"), "a%3Fb");
    assert_eq!(encode_component("a&b"), "a%26b");
    assert_eq!(encode_component("a/b"), "a%2Fb");
    assert_eq!(encode_component("a b"), "a%20b");
    assert_eq!(encode_component("a\tb"), "a%09b");
    // Non-ASCII stays legible; the browser escapes it if it needs to, and
    // the decoder accepts either form.
    assert_eq!(encode_component("café"), "café");
}

#[test]
fn test_decode_component() {
    assert_eq!(decode_component("main"), "main");
    assert_eq!(decode_component("a%2Fb"), "a/b");
    assert_eq!(decode_component("a%3fb"), "a?b", "lowercase hex too");
    // Multi-byte UTF-8 split across escapes, as a browser writes it.
    assert_eq!(decode_component("caf%C3%A9"), "café");
    // A '%' that doesn't begin a valid escape is itself, not an error.
    assert_eq!(decode_component("100%"), "100%");
    assert_eq!(decode_component("50%off"), "50%off");
    assert_eq!(decode_component("%zz"), "%zz");
    assert_eq!(decode_component("%2"), "%2");
}

#[test]
fn test_encode_path_keeps_separators() {
    // Separators survive; a '/' *inside* a component would not.
    assert_eq!(encode_path("src/render/mod.rs"), "src/render/mod.rs");
    assert_eq!(encode_path("docs/a?b.md"), "docs/a%3Fb.md");
    assert_eq!(decode_path("docs/a%3Fb.md"), "docs/a?b.md");
    assert_eq!(encode_path(""), "");
}
