use mdbook_epub::book::Config;
use mdbook_epub::files::{FileEntry, FileState, Resources};
use mdbook_epub::stylesheet::{generate_stylesheet, read_stylesheet};
use mdbook_epub::{Error, DEFAULT_CSS};

fn config(use_default_css: bool, additional_css: &[&str]) -> Config {
    Config {
        use_default_css,
        additional_css: additional_css.iter().map(|path| path.to_string()).collect(),
        additional_resources: Vec::new(),
        cover_image: None,
        curly_quotes: false,
        template: None,
    }
}

fn world(files: Vec<(&str, FileState)>) -> Resources {
    Resources {
        files: files.into_iter().map(|(path, state)| FileEntry { path: path.to_string(), state }).collect(),
        remote: Vec::new(),
    }
}

#[test]
fn one_stylesheet_without_the_default_is_that_file() {
    let resources = world(vec![("book/extra.css", FileState::Present(b"p { color: red; }".to_vec()))]);
    let stylesheet = generate_stylesheet(&config(false, &["extra.css"]), "book", &resources).unwrap();
    assert_eq!(stylesheet, b"p { color: red; }".to_vec());
}

#[test]
fn the_default_stylesheet_comes_first() {
    let resources = world(vec![("book/extra.css", FileState::Present(b"p { color: red; }".to_vec()))]);
    let stylesheet = generate_stylesheet(&config(true, &["extra.css"]), "book", &resources).unwrap();
    let mut expected = DEFAULT_CSS.as_bytes().to_vec();
    expected.extend_from_slice(b"p { color: red; }");
    assert_eq!(stylesheet, expected);
}

#[test]
fn the_default_stylesheet_alone() {
    let stylesheet = generate_stylesheet(&config(true, &[]), "book", &world(vec![])).unwrap();
    assert_eq!(stylesheet, DEFAULT_CSS.as_bytes().to_vec());
    assert!(generate_stylesheet(&config(false, &[]), "book", &world(vec![])).unwrap().is_empty());
}

#[test]
fn stylesheets_keep_the_order_of_the_settings() {
    let resources = world(vec![
        ("book/b.css", FileState::Present(b"B".to_vec())),
        ("book/a.css", FileState::Present(b"A".to_vec())),
        ("book/c.css", FileState::Present(b"C".to_vec())),
    ]);
    let stylesheet =
        generate_stylesheet(&config(false, &["c.css", "a.css", "b.css", "a.css"]), "book", &resources).unwrap();
    assert_eq!(stylesheet, b"CABA".to_vec());
}

#[test]
fn a_stylesheet_is_looked_for_in_the_root_of_the_book_first() {
    let both = world(vec![
        ("extra.css", FileState::Present(b"as it is".to_vec())),
        ("book/extra.css", FileState::Present(b"in the root".to_vec())),
    ]);
    assert_eq!(read_stylesheet("book", &"extra.css".to_string(), &both).unwrap(), &b"in the root".to_vec());
    let plain = world(vec![("extra.css", FileState::Present(b"as it is".to_vec()))]);
    assert_eq!(read_stylesheet("book", &"extra.css".to_string(), &plain).unwrap(), &b"as it is".to_vec());
}

#[test]
fn a_stylesheet_that_is_not_found_gives_css_open_with_its_path() {
    let resources = world(vec![("book/a.css", FileState::Present(b"A".to_vec()))]);
    match generate_stylesheet(&config(true, &["a.css", "missing.css"]), "book", &resources) {
        Err(Error::CssOpen(path)) => assert_eq!(path, "missing.css"),
        other => panic!("unexpected {:?}", other),
    }
}

#[test]
fn a_stylesheet_that_cannot_be_opened_gives_css_open_with_the_place() {
    let resources = world(vec![("book/a.css", FileState::OpenFailed)]);
    match generate_stylesheet(&config(false, &["a.css"]), "book", &resources) {
        Err(Error::CssOpen(path)) => assert_eq!(path, "book/a.css"),
        other => panic!("unexpected {:?}", other),
    }
}

#[test]
fn a_stylesheet_that_cannot_be_read_gives_stylesheet_read() {
    let resources = world(vec![
        ("book/a.css", FileState::Present(b"A".to_vec())),
        ("book/b.css", FileState::ReadFailed),
    ]);
    match generate_stylesheet(&config(false, &["a.css", "b.css"]), "book", &resources) {
        Err(Error::StylesheetRead(path)) => assert_eq!(path, "book/b.css"),
        other => panic!("unexpected {:?}", other),
    }
}

#[test]
fn the_first_stylesheet_that_fails_decides_the_error() {
    let resources = world(vec![("book/b.css", FileState::ReadFailed)]);
    match generate_stylesheet(&config(false, &["a.css", "b.css"]), "book", &resources) {
        Err(Error::CssOpen(path)) => assert_eq!(path, "a.css"),
        other => panic!("unexpected {:?}", other),
    }
}
