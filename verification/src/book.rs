//! The book that is made into an archive: a tree of chapters, and the
//! settings that come with it.

use vstd::prelude::*;
use crate::text::{push_chars, string_of};

verus! {

/// One markdown document of the book.
#[derive(Debug)]
pub struct Chapter {
    /// The name of the chapter.
    pub name: String,
    /// Its markdown.
    pub content: String,
    /// Its place in the tree, one number for each level; `None` for a chapter
    /// that is not numbered.
    pub number: Option<Vec<u32>>,
    /// The path of its source, taken from the source directory of the book.
    /// `None` marks a placeholder that is never rendered.
    pub path: Option<String>,
    /// What stands below the chapter in the tree.
    pub sub_items: Vec<BookItem>,
}

/// A node of the tree.
#[derive(Debug)]
pub enum BookItem {
    /// A chapter with what stands below it.
    Chapter(Chapter),
    /// A line between two parts of the book.
    Separator,
    /// The title of a part of the book.
    PartTitle(String),
}

/// The tree of chapters.
#[derive(Debug)]
pub struct Book {
    pub sections: Vec<BookItem>,
}

/// What the book says of itself.
#[derive(Debug, Clone)]
pub struct BookConfig {
    pub title: Option<String>,
    pub description: Option<String>,
    pub authors: Vec<String>,
    pub language: Option<String>,
    /// The directory of the sources, taken from the root of the book.
    pub src: String,
}

/// How the archive is to be made.
#[derive(Debug, Clone)]
pub struct Config {
    /// Whether the stylesheet starts with the built-in one.
    pub use_default_css: bool,
    /// Stylesheets that follow, in this order.
    pub additional_css: Vec<String>,
    /// Files that go into the archive under their own paths.
    pub additional_resources: Vec<String>,
    /// The cover image, if there is one.
    pub cover_image: Option<String>,
    /// Whether straight quotes become curly ones.
    pub curly_quotes: bool,
    /// The text of the page template, where the built-in one is not wanted.
    pub template: Option<String>,
}

impl Default for Config {
    /// The settings of a book that sets none: the built-in stylesheet and
    /// page template, nothing besides, and straight quotes left as they are.
    fn default() -> (config: Self)
        ensures
            config.use_default_css,
            config.additional_css@.len() == 0,
            config.additional_resources@.len() == 0,
            config.cover_image is None,
            !config.curly_quotes,
            config.template is None,
    {
        Config {
            use_default_css: true,
            additional_css: Vec::new(),
            additional_resources: Vec::new(),
            cover_image: None,
            curly_quotes: false,
            template: None,
        }
    }
}

/// A book with all that is needed to render it.
#[derive(Debug)]
pub struct RenderContext {
    /// The directory of the book.
    pub root: String,
    pub book: Book,
    pub config: BookConfig,
    pub epub: Config,
}

/// The chapters in and below `items`, in the order of the document: a chapter
/// comes before what stands below it.
pub open spec fn chapters_in(items: Seq<BookItem>) -> Seq<Chapter>
    decreases items,
{
    if items.len() == 0 {
        Seq::empty()
    } else {
        chapters_in(items.drop_last()) + chapters_under(items.last())
    }
}

/// The chapter that `item` is, if it is one, and the chapters below it.
pub open spec fn chapters_under(item: BookItem) -> Seq<Chapter>
    decreases item,
{
    match item {
        BookItem::Chapter(chapter) => seq![chapter] + chapters_in(chapter.sub_items@),
        _ => Seq::empty(),
    }
}

/// The chapters in and below `items` that have a source path, in the order of
/// the document. They are the pages of the archive.
pub open spec fn pages_in(items: Seq<BookItem>) -> Seq<Chapter>
    decreases items,
{
    if items.len() == 0 {
        Seq::empty()
    } else {
        pages_in(items.drop_last()) + pages_under(items.last())
    }
}

/// The pages in and below `item`.
pub open spec fn pages_under(item: BookItem) -> Seq<Chapter>
    decreases item,
{
    match item {
        BookItem::Chapter(chapter) => if chapter.path is Some {
            seq![chapter] + pages_in(chapter.sub_items@)
        } else {
            pages_in(chapter.sub_items@)
        },
        _ => Seq::empty(),
    }
}

/// The chapters of `chapters` that have a source path, in order.
pub open spec fn with_source(chapters: Seq<Chapter>) -> Seq<Chapter> {
    chapters.filter(|chapter: Chapter| chapter.path is Some)
}

/// The decimal digit of value `n`.
pub open spec fn decimal_digit(n: int) -> char {
    (48 + n) as char
}

/// `n` written in decimal.
pub open spec fn decimal(n: nat) -> Seq<char>
    decreases n,
{
    if n < 10 {
        seq![decimal_digit(n as int)]
    } else {
        decimal(n / 10).push(decimal_digit((n % 10) as int))
    }
}

/// The number of a chapter as it is written: every level followed by a dot,
/// and `0` where there is no level.
pub open spec fn section_number(number: Seq<u32>) -> Seq<char> {
    if number.len() == 0 {
        seq!['0']
    } else {
        section_levels(number)
    }
}

/// Every level of `number` followed by a dot.
pub open spec fn section_levels(number: Seq<u32>) -> Seq<char>
    decreases number.len(),
{
    if number.len() == 0 {
        Seq::empty()
    } else {
        section_levels(number.drop_last()) + decimal(number.last() as nat).push('.')
    }
}

impl Chapter {
    /// The title of the chapter in the table of contents: its number, where it
    /// has one, a space, and its name.
    pub open spec fn title(&self) -> Seq<char> {
        match self.number {
            Some(number) => section_number(number@).push(' ') + self.name@,
            None => self.name@,
        }
    }

    /// The level of the chapter in the table of contents: 0 at the top of the
    /// tree and for a chapter without a number, one more for each level
    /// below.
    pub open spec fn level(&self) -> int {
        match self.number {
            Some(number) => if number.len() <= 0x7fff_ffff {
                number.len() - 1
            } else {
                0x7fff_fffe
            },
            None => 0,
        }
    }

    /// Writes the title of the chapter.
    pub fn display(&self) -> (title: String)
        ensures
            title@ == self.title(),
    {
        let mut title: Vec<char> = Vec::new();
        match &self.number {
            Some(number) => {
                if number.len() == 0 {
                    title.push('0');
                } else {
                    let mut i: usize = 0;
                    assert(number@.take(0) == Seq::<u32>::empty());
                    while i < number.len()
                        invariant
                            i <= number.len(),
                            title@ == section_levels(number@.take(i as int)),
                        decreases number.len() - i,
                    {
                        assert(number@.take(i + 1).drop_last() == number@.take(i as int));
                        assert(number@.take(i + 1).last() == number@[i as int]);
                        let ghost before = title@;
                        push_decimal(&mut title, number[i]);
                        title.push('.');
                        assert(title@ == before + decimal(number@[i as int] as nat).push('.'));
                        i = i + 1;
                    }
                    assert(number@.take(number.len() as int) == number@);
                }
                title.push(' ');
            },
            None => {},
        }
        push_chars(&mut title, self.name.as_str());
        assert(Seq::<char>::empty() + self.name@ == self.name@);
        string_of(&title)
    }

    /// Computes the level of the chapter.
    pub fn depth(&self) -> (level: i32)
        ensures
            level == self.level(),
    {
        match &self.number {
            Some(number) => if number.len() <= 0x7fff_ffff {
                (number.len() as i32) - 1
            } else {
                0x7fff_fffe
            },
            None => 0,
        }
    }
}

/// Appends `n` in decimal to `out`.
pub fn push_decimal(out: &mut Vec<char>, n: u32)
    ensures
        final(out)@ == old(out)@ + decimal(n as nat),
    decreases n,
{
    if n < 10 {
        out.push((48 + (n as u8)) as char);
        assert(out@ == old(out)@ + decimal(n as nat));
    } else {
        push_decimal(out, n / 10);
        out.push((48 + ((n % 10) as u8)) as char);
        assert(out@ == old(out)@ + decimal(n as nat));
    }
}

impl Book {
    /// All chapters of the book, in the order of the document.
    pub open spec fn chapters(&self) -> Seq<Chapter> {
        chapters_in(self.sections@)
    }

    /// The chapters of the book that are rendered: those with a source path.
    pub open spec fn pages(&self) -> Seq<Chapter> {
        pages_in(self.sections@)
    }

    /// Lists the chapters of the book in the order of the document.
    pub fn iter(&self) -> (all: Vec<&Chapter>)
        ensures
            all@.map_values(|chapter: &Chapter| *chapter) == self.chapters(),
    {
        let mut all: Vec<&Chapter> = Vec::new();
        collect_chapters(&self.sections, &mut all);
        assert(Seq::<Chapter>::empty() + self.chapters() == self.chapters());
        all
    }
}

/// The pages are the chapters with a source path, in the same order.
pub proof fn lemma_pages_are_chapters_with_source(items: Seq<BookItem>)
    ensures
        pages_in(items) == with_source(chapters_in(items)),
    decreases items, 1nat,
{
    let keep = |chapter: Chapter| chapter.path is Some;
    if items.len() == 0 {
        assert(chapters_in(items).filter(keep) == Seq::<Chapter>::empty());
    } else {
        lemma_pages_are_chapters_with_source(items.drop_last());
        lemma_pages_under_are_chapters_with_source(items.last());
        Seq::filter_distributes_over_add(
            chapters_in(items.drop_last()),
            chapters_under(items.last()),
            keep,
        );
    }
}

/// The pages below an item are the chapters with a source path below it.
pub proof fn lemma_pages_under_are_chapters_with_source(item: BookItem)
    ensures
        pages_under(item) == with_source(chapters_under(item)),
    decreases item, 0nat,
{
    let keep = |chapter: Chapter| chapter.path is Some;
    match item {
        BookItem::Chapter(chapter) => {
            lemma_pages_are_chapters_with_source(chapter.sub_items@);
            Seq::filter_distributes_over_add(
                seq![chapter],
                chapters_in(chapter.sub_items@),
                keep,
            );
            reveal_with_fuel(Seq::filter, 2);
            assert(seq![chapter].drop_last() == Seq::<Chapter>::empty());
            if chapter.path is Some {
                assert(seq![chapter].filter(keep) == seq![chapter]);
            } else {
                assert(seq![chapter].filter(keep) == Seq::<Chapter>::empty());
                assert(Seq::<Chapter>::empty() + pages_in(chapter.sub_items@) == pages_in(
                    chapter.sub_items@,
                ));
            }
        },
        _ => {
            assert(chapters_under(item).filter(keep) == Seq::<Chapter>::empty());
        },
    }
}

/// Appends the chapters in and below `items` to `all`.
fn collect_chapters<'a>(items: &'a Vec<BookItem>, all: &mut Vec<&'a Chapter>)
    ensures
        final(all)@.map_values(|chapter: &Chapter| *chapter) == old(all)@.map_values(
            |chapter: &Chapter| *chapter,
        ) + chapters_in(items@),
    decreases items,
{
    let ghost start = all@.map_values(|chapter: &Chapter| *chapter);
    let mut i: usize = 0;
    assert(items@.take(0) == Seq::<BookItem>::empty());
    assert(start + Seq::<Chapter>::empty() == start);
    while i < items.len()
        invariant
            i <= items.len(),
            all@.map_values(|chapter: &Chapter| *chapter) == start + chapters_in(items@.take(i as int)),
        decreases items.len() - i,
    {
        let ghost before = all@.map_values(|chapter: &Chapter| *chapter);
        assert(items@.take(i + 1).drop_last() == items@.take(i as int));
        assert(items@.take(i + 1).last() == items@[i as int]);
        match &items[i] {
            BookItem::Chapter(chapter) => {
                all.push(chapter);
                assert(all@.map_values(|chapter: &Chapter| *chapter) == before.push(*chapter));
                collect_chapters(&chapter.sub_items, all);
                assert(all@.map_values(|chapter: &Chapter| *chapter) == before + (seq![*chapter]
                    + chapters_in(chapter.sub_items@)));
            },
            _ => {
                assert(before + Seq::<Chapter>::empty() == before);
            },
        }
        i = i + 1;
        assert(start + (chapters_in(items@.take(i - 1)) + chapters_under(items@[i - 1])) == start
            + chapters_in(items@.take(i - 1)) + chapters_under(items@[i - 1]));
    }
    assert(items@.take(items.len() as int) == items@);
}

} // verus!
