use mdbook_epub::markdown::{find_images, find_link, render_markdown, rewrite_events, Link};
use mdbook_epub::{EventQuoteConverter, Generator};
use mdbook_epub::generator::NoPreprocessor;
use pulldown_cmark::{CodeBlockKind, CowStr, Event, Tag};

fn link(from: &str, to: &str) -> Link {
    Link { from: from.to_string(), to: to.to_string() }
}

#[test]
fn markdown_is_written_as_html() {
    assert_eq!(render_markdown("# Chapter 1", false, &vec![]), "<h1>Chapter 1</h1>\n");
    assert_eq!(render_markdown("", false, &vec![]), "");
}

#[test]
fn the_extensions_are_enabled() {
    let table = render_markdown("| a | b |\n|---|---|\n| 1 | 2 |\n", false, &vec![]);
    assert!(table.contains("<table>"));
    assert!(render_markdown("~~gone~~", false, &vec![]).contains("<del>gone</del>"));
    assert!(render_markdown("- [x] done", false, &vec![]).contains("type=\"checkbox\""));
    assert!(render_markdown("text[^1]\n\n[^1]: note", false, &vec![]).contains("footnote-definition"));
}

#[test]
fn quotes_become_curly_outside_code_blocks_only() {
    let text = "He said \"hi\".\n\n```\nlet s = \"raw\";\n```\n\nIt's \"over\".\n";
    let html = render_markdown(text, true, &vec![]);
    assert!(html.contains("<p>He said \u{201C}hi\u{201D}.</p>"));
    assert!(html.contains("let s = &quot;raw&quot;;"));
    assert!(html.contains("<p>It\u{2019}s \u{201C}over\u{201D}.</p>"));
}

#[test]
fn curly_text_inside_a_fenced_block_is_unmodified() {
    let text = "```\n\u{201C}already\u{201D} 'curly' \"text\"\n```\n";
    assert_eq!(render_markdown(text, true, &vec![]), render_markdown(text, false, &vec![]));
    assert!(render_markdown(text, true, &vec![]).contains("\u{201C}already\u{201D} 'curly' &quot;text&quot;"));
}

#[test]
fn quotes_are_kept_where_the_converter_is_disabled() {
    assert_eq!(render_markdown("a \"b\" c", false, &vec![]), "<p>a &quot;b&quot; c</p>\n");
}

#[test]
fn images_are_led_to_their_links() {
    let links = vec![link("a.png", "../0123.png"), link("http://x/y.svg", "ffff.svg"), link("a.png", "other.png")];
    let html = render_markdown("![A](a.png) ![Y](http://x/y.svg \"T\") ![Z](z.png)", false, &links);
    assert_eq!(
        html,
        "<p><img src=\"../0123.png\" alt=\"A\" /> <img src=\"ffff.svg\" alt=\"Y\" title=\"T\" /> <img src=\"z.png\" alt=\"Z\" /></p>\n"
    );
}

#[test]
fn links_that_are_not_images_are_kept() {
    let links = vec![link("a.png", "0123.png")];
    assert_eq!(render_markdown("[A](a.png)", false, &links), "<p><a href=\"a.png\">A</a></p>\n");
}

#[test]
fn the_first_link_for_a_destination_counts() {
    let links = vec![link("a", "1"), link("b", "2"), link("a", "3")];
    assert_eq!(find_link(&links, &"a".to_string()), Some("1".to_string()));
    assert_eq!(find_link(&links, &"b".to_string()), Some("2".to_string()));
    assert_eq!(find_link(&links, &"c".to_string()), None);
    assert_eq!(find_link(&vec![], &"a".to_string()), None);
}

#[test]
fn images_are_found_in_order_and_as_often_as_they_occur() {
    let text = "![1](one.png)\n\ntext ![2](http://two/2.jpg) and ![again](one.png)\n\n[link](three.png)\n";
    assert_eq!(find_images(text), vec!["one.png", "http://two/2.jpg", "one.png"]);
    assert!(find_images("no images `![x](y.png)`").is_empty());
}

#[test]
fn the_converter_follows_the_code_blocks() {
    let mut converter = EventQuoteConverter::new(true);
    let text = |s: &str| Event::Text(CowStr::from(s.to_string()));
    let block = || Tag::CodeBlock(CodeBlockKind::Indented);
    assert_eq!(converter.convert(text("'a'")), text("\u{2018}a\u{2019}"));
    assert_eq!(converter.convert(Event::Start(block())), Event::Start(block()));
    assert_eq!(converter.convert(text("'a'")), text("'a'"));
    assert_eq!(converter.convert(Event::Code(CowStr::from("'c'"))), Event::Code(CowStr::from("'c'")));
    assert_eq!(converter.convert(Event::End(block())), Event::End(block()));
    assert_eq!(converter.convert(text("\"b\"")), text("\u{201C}b\u{201D}"));
    assert_eq!(converter.convert(Event::Code(CowStr::from("'c'"))), Event::Code(CowStr::from("'c'")));
    assert_eq!(converter.convert(Event::SoftBreak), Event::SoftBreak);
}

#[test]
fn a_disabled_converter_hands_every_event_back() {
    let mut converter = EventQuoteConverter::new(false);
    let text = Event::Text(CowStr::from("'a' \"b\""));
    assert_eq!(converter.convert(text.clone()), text);
    let start = Event::Start(Tag::CodeBlock(CodeBlockKind::Indented));
    assert_eq!(converter.convert(start.clone()), start);
    assert_eq!(converter.convert(text.clone()), text);
}

#[test]
fn the_lookbehind_starts_anew_with_every_run() {
    let events = vec![
        Event::Text(CowStr::from("a")),
        Event::Text(CowStr::from("'b'")),
    ];
    let out = rewrite_events(events, true, &vec![]);
    assert_eq!(out, vec![Event::Text(CowStr::from("a")), Event::Text(CowStr::from("\u{2018}b\u{2019}"))]);
}

#[test]
fn the_parser_reads_tables() {
    let events: Vec<Event> = Generator::<NoPreprocessor>::new_cmark_parser("| a |\n|---|\n| 1 |\n").collect();
    assert!(events.iter().any(|event| matches!(event, Event::Start(Tag::Table(_)))));
    let plain: Vec<Event> = Generator::<NoPreprocessor>::new_cmark_parser("plain").collect();
    assert_eq!(
        plain,
        vec![Event::Start(Tag::Paragraph), Event::Text(CowStr::from("plain")), Event::End(Tag::Paragraph)]
    );
}

#[test]
fn the_extensions_are_the_four_of_the_parser() {
    use_extensions();
}

fn use_extensions() {
    let expected = pulldown_cmark::Options::ENABLE_TABLES
        | pulldown_cmark::Options::ENABLE_FOOTNOTES
        | pulldown_cmark::Options::ENABLE_STRIKETHROUGH
        | pulldown_cmark::Options::ENABLE_TASKLISTS;
    assert_eq!(mdbook_epub::markdown::MARKDOWN_EXTENSIONS, expected.bits());
    assert_eq!(mdbook_epub::markdown::ENABLE_TABLES, pulldown_cmark::Options::ENABLE_TABLES.bits());
    assert_eq!(mdbook_epub::markdown::ENABLE_FOOTNOTES, pulldown_cmark::Options::ENABLE_FOOTNOTES.bits());
    assert_eq!(
        mdbook_epub::markdown::ENABLE_STRIKETHROUGH,
        pulldown_cmark::Options::ENABLE_STRIKETHROUGH.bits()
    );
    assert_eq!(mdbook_epub::markdown::ENABLE_TASKLISTS, pulldown_cmark::Options::ENABLE_TASKLISTS.bits());
}
