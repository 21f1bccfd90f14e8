use std::io::Cursor;
use std::path::Path;

use epub::doc::EpubDoc;
use mdbook_epub::book::{Book, BookConfig, BookItem, Chapter, Config, RenderContext};
use mdbook_epub::errors::{archive_result, preprocess_result, render_result};
use mdbook_epub::files::{FetchState, FileEntry, FileState, RemoteEntry, Resources};
use mdbook_epub::generator::{NoPreprocessor, Preprocessor};
use mdbook_epub::metadata::{join_strings, metadata_entries};
use mdbook_epub::plan::requests;
use mdbook_epub::template::DEFAULT_TEMPLATE;
use mdbook_epub::generator::build;
use mdbook_epub::{generate, Error, Generator, DEFAULT_CSS};

fn chapter(name: &str, number: Vec<u32>, path: Option<&str>, content: &str, sub_items: Vec<BookItem>) -> Chapter {
    Chapter {
        name: name.to_string(),
        content: content.to_string(),
        number: Some(number),
        path: path.map(|p| p.to_string()),
        sub_items,
    }
}

fn dummy(content: &str) -> RenderContext {
    RenderContext {
        root: "tests/dummy".to_string(),
        book: Book {
            sections: vec![BookItem::Chapter(chapter("Chapter 1", vec![1], Some("chapter_1.md"), content, vec![]))],
        },
        config: BookConfig {
            title: Some("DummyBook".to_string()),
            description: None,
            authors: Vec::new(),
            language: Some("en".to_string()),
            src: "src".to_string(),
        },
        epub: Config {
            use_default_css: true,
            additional_css: Vec::new(),
            additional_resources: Vec::new(),
            cover_image: None,
            curly_quotes: true,
            template: None,
        },
    }
}

fn nothing() -> Resources {
    Resources { files: Vec::new(), remote: Vec::new() }
}

fn files(entries: Vec<(&str, FileState)>) -> Resources {
    Resources {
        files: entries.into_iter().map(|(path, state)| FileEntry { path: path.to_string(), state }).collect(),
        remote: Vec::new(),
    }
}

fn open(bytes: Vec<u8>) -> EpubDoc<Cursor<Vec<u8>>> {
    EpubDoc::from_reader(Cursor::new(bytes)).unwrap()
}

fn entry(doc: &mut EpubDoc<Cursor<Vec<u8>>>, path: &str) -> Option<String> {
    doc.get_resource_str_by_path(Path::new("OEBPS").join(path))
}

fn page(title: &str, body: &str, stylesheet: &str) -> String {
    DEFAULT_TEMPLATE
        .replace("{{title}}", title)
        .replace("{{stylesheet}}", stylesheet)
        .replace("{{{body}}}", body)
}

struct Upper;

impl Preprocessor for Upper {
    fn preprocess_chapter(&self, _name: &str, content: String) -> Result<String, String> {
        Ok(content.to_uppercase())
    }
}

struct Append(&'static str);

impl Preprocessor for Append {
    fn preprocess_chapter(&self, name: &str, content: String) -> Result<String, String> {
        Ok(format!("{}\n\n{} {}", content, self.0, name))
    }
}

struct Failing;

impl Preprocessor for Failing {
    fn preprocess_chapter(&self, name: &str, _content: String) -> Result<String, String> {
        Err(format!("cannot read {}", name))
    }
}

enum Either {
    Upper(Upper),
    Append(Append),
}

impl Preprocessor for Either {
    fn preprocess_chapter(&self, name: &str, content: String) -> Result<String, String> {
        match self {
            Either::Upper(inner) => inner.preprocess_chapter(name, content),
            Either::Append(inner) => inner.preprocess_chapter(name, content),
        }
    }
}

#[test]
fn a_dummy_book_makes_an_archive() {
    let ctx = dummy("# Chapter 1");
    let epub = generate(&ctx, Vec::<NoPreprocessor>::new(), &nothing()).unwrap();
    assert!(epub.warnings.is_empty());
    let mut doc = open(epub.bytes);
    assert_eq!(entry(&mut doc, "stylesheet.css").unwrap(), DEFAULT_CSS);
    assert_eq!(doc.mdata("title").unwrap().value, "DummyBook");
    assert_eq!(doc.mdata("language").unwrap().value, "en");
    assert_eq!(
        entry(&mut doc, "chapter_1.html").unwrap(),
        page("Chapter 1", "<h1>Chapter 1</h1>\n", "stylesheet.css")
    );
    let opf = entry(&mut doc, "content.opf").unwrap();
    assert!(opf.contains("<dc:title>DummyBook</dc:title>"));
    let nav = entry(&mut doc, "nav.xhtml").unwrap();
    assert!(nav.contains("<meta name=\"generator\" content=\"mdbook-epub\" />"));
    assert_eq!(opf.matches("href=\"chapter_1.html\"").count(), 1);
    let toc = entry(&mut doc, "toc.ncx").unwrap();
    assert!(toc.contains("1. Chapter 1"));
}

#[test]
fn the_metadata_of_a_book_in_their_order() {
    let config = BookConfig {
        title: Some("T".to_string()),
        description: Some("D".to_string()),
        authors: vec!["Ann".to_string(), "Bob".to_string(), "Cy".to_string()],
        language: None,
        src: "src".to_string(),
    };
    let settings: Vec<(String, String)> =
        metadata_entries(&config).into_iter().map(|setting| (setting.key, setting.value)).collect();
    let expected: Vec<(String, String)> = [
        ("generator", "mdbook-epub"),
        ("title", "T"),
        ("description", "D"),
        ("author", "Ann, Bob, Cy"),
        ("lang", "en"),
    ]
    .iter()
    .map(|(key, value)| (key.to_string(), value.to_string()))
    .collect();
    assert_eq!(settings, expected);
    let bare = BookConfig { title: None, description: None, authors: vec![], language: Some("fr".to_string()), src: String::new() };
    let settings: Vec<(String, String)> =
        metadata_entries(&bare).into_iter().map(|setting| (setting.key, setting.value)).collect();
    assert_eq!(
        settings,
        vec![("generator".to_string(), "mdbook-epub".to_string()), ("lang".to_string(), "fr".to_string())]
    );
}

#[test]
fn strings_are_joined_with_the_separator_between_them() {
    assert_eq!(join_strings(&vec![], ", "), "");
    assert_eq!(join_strings(&vec!["a".to_string()], ", "), "a");
    assert_eq!(join_strings(&vec!["a".to_string(), "".to_string(), "c".to_string()], ", "), "a, , c");
}

#[test]
fn the_metadata_reach_the_archive() {
    let mut ctx = dummy("# Chapter 1");
    ctx.config.description = Some("About <things>".to_string());
    ctx.config.authors = vec!["Ann".to_string(), "Bob".to_string()];
    ctx.config.language = None;
    let mut doc = open(generate(&ctx, Vec::<NoPreprocessor>::new(), &nothing()).unwrap().bytes);
    let opf = entry(&mut doc, "content.opf").unwrap();
    assert!(opf.contains("<dc:language>en</dc:language>"));
    assert!(opf.contains("<dc:creator opf:role=\"aut\">Ann, Bob</dc:creator>"));
    assert!(opf.contains("<dc:description>About &lt;things&gt;</dc:description>"));
}

#[test]
fn a_book_without_a_title_is_warned_of() {
    let mut ctx = dummy("# Chapter 1");
    ctx.config.title = None;
    let epub = generate(&ctx, Vec::<NoPreprocessor>::new(), &nothing()).unwrap();
    assert_eq!(
        epub.warnings,
        vec!["No `title` attribute found yet all EPUB documents should have a title".to_string()]
    );
}

#[test]
fn every_chapter_with_a_source_path_has_one_page() {
    let mut ctx = dummy("");
    ctx.book.sections = vec![
        BookItem::Chapter(chapter("Preface", vec![], Some("preface.md"), "pre", vec![])),
        BookItem::PartTitle("Part".to_string()),
        BookItem::Chapter(chapter(
            "One",
            vec![1],
            Some("one/index.md"),
            "one",
            vec![
                BookItem::Chapter(chapter(
                    "Draft",
                    vec![1, 1],
                    None,
                    "draft",
                    vec![BookItem::Chapter(chapter("Leaf", vec![1, 1, 1], Some("one/leaf.markdown"), "leaf", vec![]))],
                )),
                BookItem::Separator,
                BookItem::Chapter(chapter("Two", vec![1, 2], Some("one/two.md"), "two", vec![])),
            ],
        )),
    ];
    let mut doc = open(generate(&ctx, Vec::<NoPreprocessor>::new(), &nothing()).unwrap().bytes);
    let opf = entry(&mut doc, "content.opf").unwrap();
    let pages = ["preface.html", "one/index.html", "one/leaf.html", "one/two.html"];
    let mut last = 0;
    for path in pages {
        let href = format!("href=\"{}\"", path);
        assert_eq!(opf.matches(&href).count(), 1, "{}", path);
        let at = opf.find(&href).unwrap();
        assert!(at > last, "{} stands in the order of the document", path);
        last = at;
        assert!(entry(&mut doc, path).is_some());
    }
    assert!(!opf.contains("draft"));
    assert_eq!(entry(&mut doc, "one/leaf.html").unwrap(), page("Leaf", "<p>leaf</p>\n", "../stylesheet.css"));
}

#[test]
fn a_chapter_without_a_source_path_cannot_be_added_or_rendered() {
    let ctx = dummy("# Chapter 1");
    let draft = chapter("Draft", vec![2], None, "text", vec![]);
    let mut generator = Generator::new(&ctx, Vec::<NoPreprocessor>::new()).unwrap();
    match generator.add_chapter(&draft) {
        Err(Error::ContentFileNotFound(name)) => assert_eq!(name, "Draft"),
        other => panic!("unexpected {:?}", other),
    }
    assert!(matches!(generator.render_chapter(&draft), Err(Error::Render(_))));
}

#[test]
fn a_chapter_is_rendered_inside_the_template() {
    let ctx = dummy("# Chapter 1");
    let generator = Generator::new(&ctx, Vec::<NoPreprocessor>::new()).unwrap();
    let deep = chapter("A \"B\"", vec![1, 2], Some("a/b/c.md"), "It's *fine*", vec![]);
    assert_eq!(
        generator.render_chapter(&deep).unwrap(),
        page("A &quot;B&quot;", "<p>It\u{2019}s <em>fine</em></p>\n", "../../stylesheet.css")
    );
    assert_eq!(
        generator.render_page(&deep, "other").unwrap(),
        page("A &quot;B&quot;", "<p>other</p>\n", "../../stylesheet.css")
    );
}

#[test]
fn a_template_of_the_book_replaces_the_default() {
    let mut ctx = dummy("# Chapter 1");
    ctx.epub.template = Some("<html>{{title}}|{{stylesheet}}|{{{body}}}</html>".to_string());
    let mut doc = open(generate(&ctx, Vec::<NoPreprocessor>::new(), &nothing()).unwrap().bytes);
    assert_eq!(
        entry(&mut doc, "chapter_1.html").unwrap(),
        "<html>Chapter 1|stylesheet.css|<h1>Chapter 1</h1>\n</html>"
    );
}

#[test]
fn a_template_that_does_not_compile_gives_template_parse() {
    let mut ctx = dummy("# Chapter 1");
    ctx.epub.template = Some("{{#if title}}never closed".to_string());
    assert!(matches!(Generator::new(&ctx, Vec::<NoPreprocessor>::new()), Err(Error::TemplateParse)));
    assert!(matches!(generate(&ctx, Vec::<NoPreprocessor>::new(), &nothing()), Err(Error::TemplateParse)));
}

#[test]
fn a_template_with_a_partial_compiles() {
    for template in [
        "{{#*inline \"again\"}}{{> again}}{{/inline}}{{> again}}",
        "{{> other}}",
        "{{#> other}}x{{/other}}",
    ] {
        let mut ctx = dummy("# Chapter 1");
        ctx.epub.template = Some(template.to_string());
        assert!(Generator::new(&ctx, Vec::<NoPreprocessor>::new()).is_ok(), "{}", template);
    }
}

#[test]
fn a_partial_that_is_not_there_renders_its_own_block() {
    let mut ctx = dummy("# Chapter 1");
    ctx.epub.template = Some("<{{#> other}}x {{title}}{{/other}}>".to_string());
    let mut doc = open(generate(&ctx, Vec::<NoPreprocessor>::new(), &nothing()).unwrap().bytes);
    assert_eq!(entry(&mut doc, "chapter_1.html").unwrap(), "<x Chapter 1>");
    ctx.epub.template = Some("<{{> other}}>".to_string());
    let mut doc = open(generate(&ctx, Vec::<NoPreprocessor>::new(), &nothing()).unwrap().bytes);
    assert_eq!(entry(&mut doc, "chapter_1.html").unwrap(), "<>");
}

#[test]
fn a_partial_that_the_template_defines_is_rendered() {
    let mut ctx = dummy("# Chapter 1");
    ctx.epub.template =
        Some("{{#*inline \"head\"}}<h>{{title}}</h>{{/inline}}<p>{{> head}}</p>{{{body}}}".to_string());
    let mut doc = open(generate(&ctx, Vec::<NoPreprocessor>::new(), &nothing()).unwrap().bytes);
    assert_eq!(entry(&mut doc, "chapter_1.html").unwrap(), "<p><h>Chapter 1</h></p><h1>Chapter 1</h1>\n");
}

#[test]
fn a_template_whose_partial_could_include_itself_is_not_rendered() {
    for template in [
        "{{#*inline \"again\"}}{{> again}}{{/inline}}{{> again}}",
        "{{#> other}}{{> index}}{{/other}}",
        "{{> (lookup this \"title\")}}",
        "{{~ > @partial-block}}",
        "{{#*inline \"a\"}}x{{/inline}}{{#if title}}{{> a}}{{/if}}",
        "{{#*inline \"a\"}}x{{/inline}}{{#> a}}y{{/a}}",
        "{{> 'index'}}",
        "{{> [index]}}",
    ] {
        assert!(!mdbook_epub::template::template_renders_safely(template), "{}", template);
        let mut ctx = dummy("# Chapter 1");
        ctx.epub.template = Some(template.to_string());
        if Generator::new(&ctx, Vec::<NoPreprocessor>::new()).is_ok() {
            match generate(&ctx, Vec::<NoPreprocessor>::new(), &nothing()) {
                Err(Error::Render(reason)) => assert_eq!(reason, mdbook_epub::template::UNSAFE_TEMPLATE),
                other => panic!("unexpected {:?}", other.map(|epub| epub.warnings)),
            }
        }
    }
    for template in [
        "",
        "{",
        "{{",
        "{{title}}",
        "{{{body}}}",
        "{{#if title}}> {{title}}{{/if}}",
        "a > b * c {{ title }}",
        "{{> other}}",
        "{{#> other}}x{{/other}}",
        "{{> index.hbs}}",
        "{{>indexes}}",
        "{{* decorator}}",
        "{{#*inline \"a\"}}x{{/inline}}{{> a}}",
        "{{#if title}}{{> a}}{{/if}}",
        "{{> \u{e9}t\u{e9}}}",
    ] {
        assert!(mdbook_epub::template::template_renders_safely(template), "{}", template);
    }
}

#[test]
fn a_template_that_fails_gives_render() {
    let mut ctx = dummy("# Chapter 1");
    ctx.epub.template = Some("{{no_such_helper title}}".to_string());
    match generate(&ctx, Vec::<NoPreprocessor>::new(), &nothing()) {
        Err(Error::Render(reason)) => assert!(reason.contains("no_such_helper"), "{}", reason),
        other => panic!("unexpected {:?}", other.map(|epub| epub.warnings)),
    }
}

#[test]
fn preprocessors_run_in_their_order() {
    let ctx = dummy("# Chapter 1");
    let first = vec![Either::Upper(Upper), Either::Append(Append("by"))];
    let mut doc = open(generate(&ctx, first, &nothing()).unwrap().bytes);
    assert_eq!(
        entry(&mut doc, "chapter_1.html").unwrap(),
        page("Chapter 1", "<h1>CHAPTER 1</h1>\n<p>by Chapter 1</p>\n", "stylesheet.css")
    );
    let second = vec![Either::Append(Append("by")), Either::Upper(Upper)];
    let mut doc = open(generate(&ctx, second, &nothing()).unwrap().bytes);
    assert_eq!(
        entry(&mut doc, "chapter_1.html").unwrap(),
        page("Chapter 1", "<h1>CHAPTER 1</h1>\n<p>BY CHAPTER 1</p>\n", "stylesheet.css")
    );
}

#[test]
fn a_preprocessor_that_fails_ends_the_build() {
    let ctx = dummy("# Chapter 1");
    match generate(&ctx, vec![Failing], &nothing()) {
        Err(Error::Preprocess(reason)) => assert_eq!(reason, "cannot read Chapter 1"),
        other => panic!("unexpected {:?}", other.map(|epub| epub.warnings)),
    }
    let mut generator = Generator::new(&ctx, vec![Failing]).unwrap();
    let first = match &ctx.book.sections[0] {
        BookItem::Chapter(chapter) => chapter,
        _ => unreachable!(),
    };
    assert!(matches!(generator.add_chapter(first), Err(Error::Preprocess(_))));
    assert!(matches!(generator.run_preprocessors(first), Err(Error::Preprocess(_))));
}

#[test]
fn the_archive_refuses_a_path_twice_and_keeps_what_it_holds() {
    let ctx = dummy("# Chapter 1");
    let mut generator = Generator::new(&ctx, Vec::<NoPreprocessor>::new()).unwrap();
    let first = chapter("One", vec![1], Some("one.md"), "one", vec![]);
    assert!(generator.add_chapter(&first).is_ok());
    match generator.add_chapter(&first) {
        Err(Error::EpubBuilder(reason)) => assert!(reason.contains("one.html"), "{}", reason),
        other => panic!("unexpected {:?}", other),
    }
    let second = chapter("Two", vec![2], Some("two.md"), "two", vec![]);
    assert!(generator.add_chapter(&second).is_ok());
}

#[test]
fn assets_are_found_before_the_preprocessors_run() {
    let ctx = dummy("![a](a.png)");
    let world = files(vec![("tests/dummy/src/a.png", FileState::Present(vec![1, 2, 3]))]);
    let mut doc = open(generate(&ctx, vec![Append("![b](b.png)")], &world).unwrap().bytes);
    let html = entry(&mut doc, "chapter_1.html").unwrap();
    let asset = mdbook_epub::naming::name_asset("a.png");
    assert!(html.contains(&format!("<img src=\"{}\" alt=\"a\" />", asset)));
    assert!(html.contains("<img src=\"b.png\" alt=\"b\" />"));
}

#[test]
fn two_chapters_at_one_path_are_refused_by_the_archive() {
    let mut ctx = dummy("");
    ctx.book.sections = vec![
        BookItem::Chapter(chapter("One", vec![1], Some("same.md"), "one", vec![])),
        BookItem::Chapter(chapter("Two", vec![2], Some("same.markdown"), "two", vec![])),
    ];
    match generate(&ctx, Vec::<NoPreprocessor>::new(), &nothing()) {
        Err(Error::EpubBuilder(reason)) => assert!(reason.contains("same.html"), "{}", reason),
        other => panic!("unexpected {:?}", other.map(|epub| epub.warnings)),
    }
}

#[test]
fn a_missing_local_image_aborts_the_build() {
    let ctx = dummy("# Chapter 1\n\n![gone](images/gone.png)\n");
    match generate(&ctx, Vec::<NoPreprocessor>::new(), &nothing()) {
        Err(Error::AssetFileNotFound(link)) => assert_eq!(link, "images/gone.png"),
        other => panic!("unexpected {:?}", other.map(|epub| epub.warnings)),
    }
    let mut generator = Generator::new(&ctx, Vec::<NoPreprocessor>::new()).unwrap();
    assert!(matches!(generator.find_assets(&nothing()), Err(Error::AssetFileNotFound(_))));
}

#[test]
fn the_sources_are_looked_for_under_the_source_directory() {
    let mut ctx = dummy("# Chapter 1\n\n![a](a.png)\n");
    ctx.config.src = "nosuchsrc".to_string();
    let world = files(vec![("tests/dummy/src/a.png", FileState::Present(vec![1]))]);
    assert!(matches!(
        generate(&ctx, Vec::<NoPreprocessor>::new(), &world),
        Err(Error::AssetFileNotFound(_))
    ));
}

#[test]
fn the_cover_image_is_written_under_its_path() {
    let mut ctx = dummy("# Chapter 1");
    ctx.epub.cover_image = Some("images/cover.jpg".to_string());
    let world = files(vec![("tests/dummy/src/images/cover.jpg", FileState::Present(vec![0xff, 0xd8, 0xff]))]);
    let mut doc = open(generate(&ctx, Vec::<NoPreprocessor>::new(), &world).unwrap().bytes);
    assert_eq!(
        doc.get_resource_by_path(Path::new("OEBPS").join("images").join("cover.jpg")),
        Some(vec![0xff, 0xd8, 0xff])
    );
    let opf = entry(&mut doc, "content.opf").unwrap();
    assert!(opf.contains("<item media-type=\"image/jpeg\" id=\"cover-image\" href=\"images/cover.jpg\"/>"));
    assert!(opf.contains("<meta name=\"cover\" content=\"cover-image\"/>"));
}

#[test]
fn a_cover_image_that_is_not_found_gives_asset_open() {
    let mut ctx = dummy("# Chapter 1");
    ctx.epub.cover_image = Some("cover.jpg".to_string());
    match generate(&ctx, Vec::<NoPreprocessor>::new(), &nothing()) {
        Err(Error::AssetOpen(path)) => assert_eq!(path, "cover.jpg"),
        other => panic!("unexpected {:?}", other.map(|epub| epub.warnings)),
    }
    let unreadable = files(vec![("tests/dummy/src/cover.jpg", FileState::ReadFailed)]);
    match generate(&ctx, Vec::<NoPreprocessor>::new(), &unreadable) {
        Err(Error::AssetOpen(path)) => assert_eq!(path, "tests/dummy/src/cover.jpg"),
        other => panic!("unexpected {:?}", other.map(|epub| epub.warnings)),
    }
    let in_root = files(vec![("tests/dummy/cover.jpg", FileState::Present(vec![7]))]);
    let mut doc = open(generate(&ctx, Vec::<NoPreprocessor>::new(), &in_root).unwrap().bytes);
    assert_eq!(doc.get_resource_by_path(Path::new("OEBPS").join("cover.jpg")), Some(vec![7]));
}

#[test]
fn the_files_of_the_settings_are_written_under_their_paths() {
    let mut ctx = dummy("# Chapter 1");
    ctx.epub.additional_resources = vec!["fonts/a.ttf".to_string(), "notes.txt".to_string()];
    let world = files(vec![
        ("tests/dummy/fonts/a.ttf", FileState::Present(vec![1, 2])),
        ("notes.txt", FileState::Present(b"as it is".to_vec())),
        ("tests/dummy/src/notes.txt", FileState::Present(b"in src".to_vec())),
    ]);
    let mut doc = open(generate(&ctx, Vec::<NoPreprocessor>::new(), &world).unwrap().bytes);
    assert_eq!(doc.get_resource_by_path(Path::new("OEBPS").join("fonts").join("a.ttf")), Some(vec![1, 2]));
    assert_eq!(entry(&mut doc, "notes.txt").unwrap(), "as it is");
    let opf = entry(&mut doc, "content.opf").unwrap();
    assert!(opf.contains("<item media-type=\"text/plain\" id=\"id_notes.txt\" href=\"notes.txt\"/>"));
    let missing = files(vec![("tests/dummy/src/fonts/a.ttf", FileState::Present(vec![]))]);
    match generate(&ctx, Vec::<NoPreprocessor>::new(), &missing) {
        Err(Error::AssetOpen(path)) => assert_eq!(path, "notes.txt"),
        other => panic!("unexpected {:?}", other.map(|epub| epub.warnings)),
    }
}

#[test]
fn the_stylesheets_of_the_book_reach_the_archive() {
    let mut ctx = dummy("# Chapter 1");
    ctx.epub.use_default_css = false;
    ctx.epub.additional_css = vec!["extra.css".to_string()];
    let world = files(vec![("tests/dummy/extra.css", FileState::Present(b"p { color: red; }".to_vec()))]);
    let mut doc = open(generate(&ctx, Vec::<NoPreprocessor>::new(), &world).unwrap().bytes);
    assert_eq!(entry(&mut doc, "stylesheet.css").unwrap(), "p { color: red; }");
    match generate(&ctx, Vec::<NoPreprocessor>::new(), &nothing()) {
        Err(Error::CssOpen(path)) => assert_eq!(path, "extra.css"),
        other => panic!("unexpected {:?}", other.map(|epub| epub.warnings)),
    }
}

#[test]
fn the_entries_follow_the_fixed_order() {
    let mut ctx = dummy("# Chapter 1\n\n![a](a.png)\n");
    ctx.epub.cover_image = Some("cover.jpg".to_string());
    ctx.epub.additional_resources = vec!["notes.txt".to_string()];
    let world = files(vec![
        ("tests/dummy/src/a.png", FileState::Present(vec![1])),
        ("cover.jpg", FileState::Present(vec![2])),
        ("notes.txt", FileState::Present(vec![3])),
    ]);
    let mut doc = open(generate(&ctx, Vec::<NoPreprocessor>::new(), &world).unwrap().bytes);
    let opf = entry(&mut doc, "content.opf").unwrap();
    let asset = mdbook_epub::naming::name_asset("a.png");
    let order = ["chapter_1.html", "cover.jpg", "stylesheet.css", asset.as_str(), "notes.txt"];
    let mut last = 0;
    for path in order {
        let at = opf.find(&format!("href=\"{}\"", path)).unwrap();
        assert!(at > last, "{}", path);
        last = at;
    }
}

#[test]
fn an_asset_of_several_chapters_is_written_once() {
    let mut ctx = dummy("");
    ctx.book.sections = vec![
        BookItem::Chapter(chapter("One", vec![1], Some("one.md"), "![a](a.png)", vec![])),
        BookItem::Chapter(chapter("Two", vec![2], Some("two.md"), "![a](a.png) ![a](a.png)", vec![])),
    ];
    let world = files(vec![("tests/dummy/src/a.png", FileState::Present(vec![1]))]);
    let mut doc = open(generate(&ctx, Vec::<NoPreprocessor>::new(), &world).unwrap().bytes);
    let opf = entry(&mut doc, "content.opf").unwrap();
    let asset = mdbook_epub::naming::name_asset("a.png");
    assert_eq!(opf.matches(&format!("href=\"{}\"", asset)).count(), 1);
    let second = entry(&mut doc, "two.html").unwrap();
    assert_eq!(second.matches(&format!("<img src=\"{}\"", asset)).count(), 2);
}

#[test]
fn the_requests_list_what_a_build_looks_for() {
    let mut ctx = dummy("![a](img/a.png) ![b](https://x/b.png) ![a](img/a.png)");
    ctx.epub.cover_image = Some("cover.jpg".to_string());
    ctx.epub.additional_css = vec!["extra.css".to_string()];
    ctx.epub.additional_resources = vec!["notes.txt".to_string()];
    let wanted = requests(&ctx);
    assert_eq!(wanted.urls, vec!["https://x/b.png"]);
    assert_eq!(
        wanted.files,
        vec![
            "tests/dummy/src/img/a.png",
            "tests/dummy/src/img/a.png",
            "tests/dummy/img/a.png",
            "cover.jpg",
            "tests/dummy/src/cover.jpg",
            "tests/dummy/cover.jpg",
            "tests/dummy/extra.css",
            "extra.css",
            "notes.txt",
            "tests/dummy/src/notes.txt",
            "tests/dummy/notes.txt",
        ]
    );
    let bare = requests(&dummy("# Chapter 1"));
    assert!(bare.files.is_empty() && bare.urls.is_empty());
}

#[test]
fn the_world_answers_what_the_requests_ask() {
    let ctx = dummy("![a](img/a.png) ![b](https://x/b.png)");
    let wanted = requests(&ctx);
    let world = Resources {
        files: wanted
            .files
            .iter()
            .map(|path| FileEntry { path: path.clone(), state: FileState::Present(path.as_bytes().to_vec()) })
            .collect(),
        remote: wanted
            .urls
            .iter()
            .map(|url| RemoteEntry {
                url: url.clone(),
                state: FetchState::Fetched { content: url.as_bytes().to_vec(), content_type: None },
            })
            .collect(),
    };
    let epub = generate(&ctx, Vec::<NoPreprocessor>::new(), &world).unwrap();
    assert!(epub.warnings.is_empty());
    let mut doc = open(epub.bytes);
    let local = mdbook_epub::naming::name_asset("img/a.png");
    assert_eq!(entry(&mut doc, &local).unwrap(), "tests/dummy/src/img/a.png");
    let remote = mdbook_epub::naming::name_asset("https://x/b.png");
    assert_eq!(entry(&mut doc, &remote).unwrap(), "https://x/b.png");
}

#[test]
fn every_error_tells_what_went_wrong() {
    let cases = [
        (Error::EpubBuilder("zip".to_string()), "Could not write the archive: zip"),
        (Error::TemplateParse, "Could not parse the template"),
        (Error::ContentFileNotFound("Draft".to_string()), "Content file was not found: Draft"),
        (Error::AssetFileNotFound("a.png".to_string()), "Asset file was not found: a.png"),
        (Error::AssetOpen("a.png".to_string()), "Unable to open asset a.png"),
        (Error::CssOpen("a.css".to_string()), "Could not open css file a.css"),
        (Error::StylesheetRead("a.css".to_string()), "Error reading stylesheet a.css"),
        (Error::Render("why".to_string()), "Could not render a chapter: why"),
        (Error::Preprocess("why".to_string()), "A preprocessor failed: why"),
    ];
    for (error, message) in cases {
        assert_eq!(error.message(), message);
    }
}

#[test]
fn the_archive_is_named_after_the_title() {
    let mut config = dummy("").config;
    assert_eq!(
        mdbook_epub::generator::output_filename("book/epub", &config),
        "book/epub/DummyBook.epub"
    );
    config.title = Some("Notes v1.2".to_string());
    assert_eq!(
        mdbook_epub::generator::output_filename("book/epub", &config),
        "book/epub/Notes v1.epub"
    );
    config.title = None;
    assert_eq!(mdbook_epub::generator::output_filename("book/epub", &config), "book/epub/book.epub");
    assert_eq!(mdbook_epub::generator::output_filename("", &config), "book.epub");
}

#[test]
fn the_results_of_the_crates_become_errors_of_the_build() {
    assert!(archive_result(Ok(())).is_ok());
    assert!(matches!(archive_result(Err("zip".to_string())), Err(Error::EpubBuilder(reason)) if reason == "zip"));
    assert_eq!(render_result(Ok("page".to_string())).unwrap(), "page");
    assert!(matches!(render_result(Err("why".to_string())), Err(Error::Render(reason)) if reason == "why"));
    assert_eq!(preprocess_result(Ok("text".to_string())).unwrap(), "text");
    assert!(matches!(preprocess_result(Err("why".to_string())), Err(Error::Preprocess(reason)) if reason == "why"));
}

#[test]
fn what_the_build_does_not_ask_for_does_not_matter() {
    let ctx = dummy("![a](img/a.png) ![b](https://x/b.png)");
    let asked = Resources {
        files: vec![FileEntry {
            path: "tests/dummy/src/img/a.png".to_string(),
            state: FileState::Present(vec![1, 2, 3]),
        }],
        remote: vec![RemoteEntry {
            url: "https://x/b.png".to_string(),
            state: FetchState::Fetched { content: vec![4, 5], content_type: None },
        }],
    };
    let more = Resources {
        files: vec![
            FileEntry { path: "elsewhere/a.png".to_string(), state: FileState::Present(vec![9]) },
            FileEntry {
                path: "tests/dummy/src/img/a.png".to_string(),
                state: FileState::Present(vec![1, 2, 3]),
            },
            FileEntry { path: "tests/dummy/src/chapter_1.md".to_string(), state: FileState::ReadFailed },
        ],
        remote: vec![
            RemoteEntry { url: "https://x/c.png".to_string(), state: FetchState::Unreachable },
            RemoteEntry {
                url: "https://x/b.png".to_string(),
                state: FetchState::Fetched { content: vec![4, 5], content_type: None },
            },
        ],
    };
    let first = generate(&ctx, Vec::<NoPreprocessor>::new(), &asked).unwrap();
    let second = generate(&ctx, Vec::<NoPreprocessor>::new(), &more).unwrap();
    assert_eq!(first.warnings, second.warnings);
    let mut first = open(first.bytes);
    let mut second = open(second.bytes);
    let local = mdbook_epub::naming::name_asset("img/a.png");
    let remote = mdbook_epub::naming::name_asset("https://x/b.png");
    for path in ["chapter_1.html", "stylesheet.css", local.as_str(), remote.as_str()] {
        let one = first.get_resource_by_path(Path::new("OEBPS").join(path));
        assert!(one.is_some(), "{}", path);
        assert_eq!(one, second.get_resource_by_path(Path::new("OEBPS").join(path)), "{}", path);
    }
}

#[test]
fn a_build_that_fails_still_tells_what_it_warned_of() {
    let mut ctx = dummy("![a](https://x/a.png) ![b](gone.png)");
    ctx.config.title = None;
    let made = build(&ctx, Vec::<NoPreprocessor>::new(), &nothing());
    assert!(matches!(made.outcome, Err(Error::AssetFileNotFound(_))));
    assert_eq!(
        made.warnings,
        vec!["No `title` attribute found yet all EPUB documents should have a title".to_string()]
    );
    let mut ctx = dummy("![a](https://x/a.png)");
    ctx.epub.cover_image = Some("gone.jpg".to_string());
    let made = build(&ctx, Vec::<NoPreprocessor>::new(), &nothing());
    assert!(matches!(made.outcome, Err(Error::AssetOpen(_))));
    assert_eq!(made.warnings, vec!["Could not fetch the remote resource https://x/a.png".to_string()]);
    let made = build(&dummy("# Chapter 1"), Vec::<NoPreprocessor>::new(), &nothing());
    assert!(made.outcome.unwrap().len() > 0 && made.warnings.is_empty());
    let mut ctx = dummy("# Chapter 1");
    ctx.config.title = None;
    ctx.epub.template = Some("{{#if}}".to_string());
    let made = build(&ctx, Vec::<NoPreprocessor>::new(), &nothing());
    assert!(matches!(made.outcome, Err(Error::TemplateParse)) && made.warnings.is_empty());
}
