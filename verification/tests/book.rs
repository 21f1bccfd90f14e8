use mdbook_epub::book::{push_decimal, Book, BookItem, Chapter};

fn chapter(name: &str, number: Option<Vec<u32>>, path: Option<&str>, sub_items: Vec<BookItem>) -> Chapter {
    Chapter {
        name: name.to_string(),
        content: String::new(),
        number,
        path: path.map(|p| p.to_string()),
        sub_items,
    }
}

#[test]
fn titles_carry_the_number_of_the_chapter() {
    assert_eq!(chapter("Intro", None, None, vec![]).display(), "Intro");
    assert_eq!(chapter("One", Some(vec![1]), None, vec![]).display(), "1. One");
    assert_eq!(chapter("Deep", Some(vec![1, 20, 3]), None, vec![]).display(), "1.20.3. Deep");
    assert_eq!(chapter("None", Some(vec![]), None, vec![]).display(), "0 None");
    assert_eq!(chapter("Big", Some(vec![4294967295, 0]), None, vec![]).display(), "4294967295.0. Big");
}

#[test]
fn levels_count_from_zero_at_the_top() {
    assert_eq!(chapter("a", None, None, vec![]).depth(), 0);
    assert_eq!(chapter("a", Some(vec![7]), None, vec![]).depth(), 0);
    assert_eq!(chapter("a", Some(vec![7, 1]), None, vec![]).depth(), 1);
    assert_eq!(chapter("a", Some(vec![7, 1, 9]), None, vec![]).depth(), 2);
    assert_eq!(chapter("a", Some(vec![]), None, vec![]).depth(), -1);
}

#[test]
fn decimal_numbers() {
    for (n, text) in [(0u32, "0"), (7, "7"), (10, "10"), (905, "905"), (4294967295, "4294967295")] {
        let mut out = vec!['#'];
        push_decimal(&mut out, n);
        assert_eq!(out.iter().collect::<String>(), format!("#{}", text));
    }
}

#[test]
fn chapters_are_listed_in_the_order_of_the_document() {
    let book = Book {
        sections: vec![
            BookItem::Chapter(chapter("Preface", None, Some("preface.md"), vec![])),
            BookItem::PartTitle("Part".to_string()),
            BookItem::Chapter(chapter(
                "One",
                Some(vec![1]),
                Some("one.md"),
                vec![
                    BookItem::Chapter(chapter(
                        "One one",
                        Some(vec![1, 1]),
                        None,
                        vec![BookItem::Chapter(chapter("Leaf", Some(vec![1, 1, 1]), Some("leaf.md"), vec![]))],
                    )),
                    BookItem::Separator,
                    BookItem::Chapter(chapter("One two", Some(vec![1, 2]), Some("one/two.md"), vec![])),
                ],
            )),
            BookItem::Separator,
            BookItem::Chapter(chapter("Two", Some(vec![2]), Some("two.md"), vec![])),
        ],
    };
    let names: Vec<&str> = book.iter().iter().map(|chapter| chapter.name.as_str()).collect();
    assert_eq!(names, vec!["Preface", "One", "One one", "Leaf", "One two", "Two"]);
    assert!(Book { sections: vec![] }.iter().is_empty());
}

#[test]
fn the_default_settings() {
    let config = mdbook_epub::book::Config::default();
    assert!(config.use_default_css);
    assert!(!config.curly_quotes);
    assert!(config.additional_css.is_empty());
    assert!(config.additional_resources.is_empty());
    assert!(config.cover_image.is_none());
    assert!(config.template.is_none());
}
