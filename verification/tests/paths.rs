use std::path::Path;

use mdbook_epub::paths::{link_from, path_depth, path_join, path_parent, path_with_extension};

const SAMPLES: [&str; 30] = [
    "chapter_1.md",
    "a/b/c.md",
    "a.b.c",
    ".hidden",
    "noext",
    "dir/",
    "dir/.",
    "..",
    "a/..",
    "",
    "/",
    "foo.",
    "...",
    "a/b.md/",
    "a/.b",
    "x/y/.z.md",
    "\u{e9}/\u{fc}.md",
    "a//b.md",
    "a/./b.md",
    "./a.md",
    "./a/b.md",
    "/a/b.md",
    "/a.md",
    "//a",
    ".",
    "./.",
    "a/b/../c.md",
    "a.tar.gz",
    "a/b.c/d",
    "a/b/",
];

#[test]
fn with_extension_agrees_with_std() {
    for path in SAMPLES {
        for extension in ["html", "", "x.y"] {
            let expected = Path::new(path).with_extension(extension);
            assert_eq!(
                path_with_extension(path, extension),
                expected.to_str().unwrap(),
                "path {:?}, extension {:?}",
                path,
                extension
            );
        }
    }
}

#[test]
fn with_extension_gives_the_page_of_a_chapter() {
    assert_eq!(path_with_extension("chapter_1.md", "html"), "chapter_1.html");
    assert_eq!(path_with_extension("part/intro.md", "html"), "part/intro.html");
    assert_eq!(path_with_extension("README", "html"), "README.html");
    assert_eq!(path_with_extension("a/..", "html"), "a/..");
    assert_eq!(path_with_extension("", "html"), "");
}

#[test]
fn depth_counts_the_components_of_the_parent_as_std_does() {
    for path in SAMPLES {
        let expected = Path::new(path).parent().map(|parent| parent.components().count()).unwrap_or(0);
        assert_eq!(path_depth(path), expected, "path {:?}", path);
    }
}

#[test]
fn depth_of_typical_chapters() {
    assert_eq!(path_depth("chapter_1.md"), 0);
    assert_eq!(path_depth("part/chapter.md"), 1);
    assert_eq!(path_depth("a/b/c/d.md"), 3);
}

#[test]
fn join_agrees_with_std() {
    for base in ["", "a", "a/", "/", "a/b", "/root/book", "."] {
        for relative in ["", "x", "x/y.png", "/abs.png", "../up.png", "./here"] {
            let expected = Path::new(base).join(relative);
            assert_eq!(path_join(base, relative), expected.to_str().unwrap(), "{:?} {:?}", base, relative);
        }
    }
}

#[test]
fn parent_agrees_with_std() {
    for path in SAMPLES {
        let expected = Path::new(path).parent().map(|parent| parent.to_str().unwrap().to_string());
        assert_eq!(path_parent(path), expected.unwrap_or_default(), "path {:?}", path);
    }
}

#[test]
fn parent_of_typical_chapters() {
    assert_eq!(path_parent("chapter_1.md"), "");
    assert_eq!(path_parent("part/one/chapter.md"), "part/one");
    assert_eq!(path_parent("./a.md"), ".");
    assert_eq!(path_parent(""), "");
    assert_eq!(path_parent("/"), "");
}

#[test]
fn links_climb_once_for_each_directory() {
    assert_eq!(link_from("chapter_1.md", "stylesheet.css"), "stylesheet.css");
    assert_eq!(link_from("part/chapter.md", "stylesheet.css"), "../stylesheet.css");
    assert_eq!(link_from("a/b/c.md", "x.png"), "../../x.png");
    assert_eq!(link_from("./a.md", "x.png"), "../x.png");
}
