use std::io::Cursor;
use std::path::{Path, PathBuf};

use epub::doc::EpubDoc;
use mdbook_epub::book::{Book, BookConfig, BookItem, Chapter, Config, RenderContext};
use mdbook_epub::files::{FileEntry, FileState, Resources};
use mdbook_epub::generator::NoPreprocessor;
use mdbook_epub::{generate, Error};

const EMBEDDED_IMAGE: &str =
    "<img src=\"data:image/jpeg;base64,/9j/4AAQSkZJRgABAQEASABIAAD\" alt=\"Embedded\" />";

fn generate_epub(name: &str) -> Result<(EpubDoc<Cursor<Vec<u8>>>, PathBuf), Error> {
    let content = format!(
        "# Chapter 1\n\n```rust\nfn main() {{\n    println!(\"Hello\");\n}}\n```\n\n{}\n\n![Local](images/picture.png)\n",
        EMBEDDED_IMAGE
    );
    let ctx = RenderContext {
        root: format!("tests/{}", name),
        book: Book {
            sections: vec![BookItem::Chapter(Chapter {
                name: "Chapter 1".to_string(),
                content,
                number: Some(vec![1]),
                path: Some("chapter_1.md".to_string()),
                sub_items: Vec::new(),
            })],
        },
        config: BookConfig {
            title: Some("DummyBook".to_string()),
            description: None,
            authors: Vec::new(),
            language: Some("en".to_string()),
            src: "src".to_string(),
        },
        epub: Config {
            use_default_css: true,
            additional_css: Vec::new(),
            additional_resources: Vec::new(),
            cover_image: None,
            curly_quotes: true,
            template: None,
        },
    };
    let resources = Resources {
        files: vec![FileEntry {
            path: format!("tests/{}/src/images/picture.png", name),
            state: FileState::Present(vec![0x89, b'P', b'N', b'G']),
        }],
        remote: Vec::new(),
    };
    let epub = generate(&ctx, Vec::<NoPreprocessor>::new(), &resources)?;
    let doc = EpubDoc::from_reader(Cursor::new(epub.bytes)).expect("the archive can be read back");
    Ok((doc, Path::new(&ctx.root).join("book").join("DummyBook.epub")))
}

#[test]
fn test_embedded_image_tag() {
    println!("test_include_code_example...");
    let doc = generate_epub("include_code_example");
    println!("{:?}", doc);
    assert!(doc.is_ok());
    let mut doc = doc.unwrap();
    println!("doc current path = {:?}", doc.1);

    let path = Path::new("OEBPS").join("chapter_1.html");
    let file = doc.0.get_resource_str_by_path(path);
    let content = file.unwrap();
    println!("content =\n{:?}", content);
}

#[test]
fn an_embedded_image_tag_is_kept_and_a_local_image_is_led_to_its_asset() {
    let mut doc = generate_epub("include_code_example").unwrap();
    let content = doc.0.get_resource_str_by_path(Path::new("OEBPS").join("chapter_1.html")).unwrap();
    assert!(content.contains("<img src=\"data:image/jpeg;base64,/9j/4AAQSkZJRgABAQEASABIAAD"));
    assert!(content.contains("<img src=\"cd5d47b447dd1597.png\" alt=\"Local\" />"));
    assert!(content.contains("println!(&quot;Hello&quot;);"));
    let picture = doc.0.get_resource_by_path(Path::new("OEBPS").join("cd5d47b447dd1597.png"));
    assert_eq!(picture, Some(vec![0x89, b'P', b'N', b'G']));
}
