use mdbook_epub::naming::{hash_bytes, name_asset, push_hex, reference_is_remote};

#[test]
fn fnv1a_of_known_inputs() {
    assert_eq!(hash_bytes(b""), 0xcbf29ce484222325);
    assert_eq!(hash_bytes(b"a"), 0xaf63dc4c8601ec8c);
    assert_eq!(hash_bytes(b"foobar"), 0x85944171f73967e8);
}

#[test]
fn hexadecimal_digits_are_padded_and_lower_case() {
    let mut out = vec!['x'];
    push_hex(&mut out, 0xAB, 4);
    assert_eq!(out.iter().collect::<String>(), "x00ab");
    let mut all = Vec::new();
    push_hex(&mut all, 0x0123456789abcdef, 16);
    assert_eq!(all.iter().collect::<String>(), "0123456789abcdef");
    let mut none = Vec::new();
    push_hex(&mut none, 77, 0);
    assert!(none.is_empty());
}

#[test]
fn names_are_the_hash_and_the_extension() {
    assert_eq!(
        name_asset("https://unreachable.invalid/images/not-found.png"),
        "357745d3ff13c562.png"
    );
    assert_eq!(
        name_asset("https://www.rust-lang.org/static/images/rust-logo-blk.svg"),
        "0422a53a9554a293.svg"
    );
    assert_eq!(name_asset("images/picture.png"), "cd5d47b447dd1597.png");
    assert_eq!(name_asset("\u{e9}.png"), "f3db5a6d87fed214.png");
    assert_eq!(name_asset(""), "cbf29ce484222325");
}

#[test]
fn names_take_the_extension_of_the_path_only() {
    assert!(name_asset("https://example.com/a.png?size=2.5x").ends_with(".png"));
    assert!(name_asset("https://example.com/a.png#frag.ment").ends_with(".png"));
    assert!(name_asset("pictures/a.b.JPG").ends_with(".JPG"));
    assert_eq!(name_asset("https://example.com").len(), 16);
    assert_eq!(name_asset("https://example.com/").len(), 16);
    assert_eq!(name_asset("https://example.com/dir.d/file").len(), 16);
    assert_eq!(name_asset("a/.hidden").len(), 16);
    assert_eq!(name_asset("a/file.").len(), 16);
    assert_eq!(name_asset("a/file.p-g").len(), 16);
    assert_eq!(name_asset("mailto:someone.org").len(), 16 + 4);
}

#[test]
fn a_name_depends_on_the_reference_alone() {
    assert_eq!(name_asset("a/b.png"), name_asset("a/b.png"));
    assert_ne!(name_asset("a/b.png"), name_asset("a/c.png"));
}

#[test]
fn urls_are_told_from_paths_by_their_scheme() {
    for url in ["http://a/b.png", "https://a", "data:image/png;base64,AAAA", "x+y-z.1:rest", "c:/file"] {
        assert!(reference_is_remote(url), "{:?}", url);
    }
    for path in ["", "a/b.png", "../a.png", "/abs/a.png", "1http://a", ":a", "a b:c", "http//a", "\u{e9}:a", "a"] {
        assert!(!reference_is_remote(path), "{:?}", path);
    }
}
