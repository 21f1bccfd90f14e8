//! From the markdown of a chapter to the body of its page.
//!
//! The markdown is read and written as HTML by the `pulldown_cmark` crate. In
//! between, this library rewrites two kinds of events: runs of text, whose
//! quotes become curly outside code blocks, and images, whose destinations are
//! led to the files of the archive.

use vstd::prelude::*;
use pulldown_cmark::{html, CowStr, Event, Options, Parser, Tag};
use crate::quotes::{convert_quotes_to_curly, curly};

verus! {

/// `pulldown_cmark::Event`, one event of a markdown document. Nothing is seen
/// inside it; `event_shape` names what this library reads of it.
#[verifier::external_type_specification]
#[verifier::external_body]
pub struct ExEvent<'a>(Event<'a>);

/// `pulldown_cmark::Parser`, an iterator over the events of a markdown
/// document. Nothing is seen inside it; `parser_events` names what it will
/// give.
#[verifier::external_type_specification]
#[verifier::external_body]
pub struct ExParser<'input, 'callback>(Parser<'input, 'callback>);

/// What this library reads of a markdown event.
#[derive(Debug, Clone)]
pub enum Token {
    /// A code block opens.
    CodeBlockStart,
    /// A code block closes.
    CodeBlockEnd,
    /// A run of text.
    Text(String),
    /// An image opens; the field is its destination.
    Image(String),
    /// Any other event.
    Other,
}

/// A `Token` with its strings as sequences of characters.
pub ghost enum Shape {
    CodeBlockStart,
    CodeBlockEnd,
    Text(Seq<char>),
    Image(Seq<char>),
    Other,
}

impl View for Token {
    type V = Shape;

    open spec fn view(&self) -> Shape {
        match self {
            Token::CodeBlockStart => Shape::CodeBlockStart,
            Token::CodeBlockEnd => Shape::CodeBlockEnd,
            Token::Text(text) => Shape::Text(text@),
            Token::Image(destination) => Shape::Image(destination@),
            Token::Other => Shape::Other,
        }
    }
}

/// A destination and what stands for it in a page.
#[derive(Debug, Clone)]
pub struct Link {
    pub from: String,
    pub to: String,
}

/// The shape of `event`.
pub uninterp spec fn event_shape(event: Event<'static>) -> Shape;

/// The bit that enables tables among the extensions of the parser.
pub const ENABLE_TABLES: u32 = 2;

/// The bit that enables footnotes.
pub const ENABLE_FOOTNOTES: u32 = 4;

/// The bit that enables strikethrough.
pub const ENABLE_STRIKETHROUGH: u32 = 8;

/// The bit that enables task lists.
pub const ENABLE_TASKLISTS: u32 = 16;

/// The extensions with which the markdown of a chapter is read: tables,
/// footnotes, strikethrough and task lists.
pub const MARKDOWN_EXTENSIONS: u32 = ENABLE_TABLES | ENABLE_FOOTNOTES | ENABLE_STRIKETHROUGH
    | ENABLE_TASKLISTS;

/// The events that the markdown `text` is read as with the extensions whose
/// bits are set in `extensions`.
pub uninterp spec fn markdown_events(text: Seq<char>, extensions: u32) -> Seq<Event<'static>>;

/// The events that `parser` has yet to give.
pub uninterp spec fn parser_events(parser: Parser<'static, 'static>) -> Seq<Event<'static>>;

/// The HTML that `events` are written as.
pub uninterp spec fn events_html(events: Seq<Event<'static>>) -> Seq<char>;

/// The event that is the run of text `text`.
pub uninterp spec fn text_event(text: Seq<char>) -> Event<'static>;

/// The image `event` with `destination` in place of its own destination.
pub uninterp spec fn image_event(event: Event<'static>, destination: Seq<char>) -> Event<'static>;

/// The starts and targets of `links`, in order.
pub open spec fn link_views(links: Seq<Link>) -> Seq<(Seq<char>, Seq<char>)> {
    links.map_values(|link: Link| (link.from@, link.to@))
}

/// The target of the first of `links` that starts at `destination`.
pub open spec fn link_target(links: Seq<(Seq<char>, Seq<char>)>, destination: Seq<char>) -> Option<
    Seq<char>,
>
    decreases links.len(),
{
    if links.len() == 0 {
        None
    } else if links[0].0 == destination {
        Some(links[0].1)
    } else {
        link_target(links.drop_first(), destination)
    }
}

/// `event` with its destination replaced, where it is an image whose
/// destination one of `links` starts at.
pub open spec fn relinked(event: Event<'static>, links: Seq<(Seq<char>, Seq<char>)>) -> Event<
    'static,
> {
    match event_shape(event) {
        Shape::Image(destination) => match link_target(links, destination) {
            Some(target) => image_event(event, target),
            None => event,
        },
        _ => event,
    }
}

/// The destinations of the images among `events`, in order.
pub open spec fn image_destinations(events: Seq<Event<'static>>) -> Seq<Seq<char>>
    decreases events.len(),
{
    if events.len() == 0 {
        Seq::empty()
    } else {
        let before = image_destinations(events.drop_last());
        match event_shape(events.last()) {
            Shape::Image(destination) => before.push(destination),
            _ => before,
        }
    }
}

/// The destinations of the images in the markdown `text`, in order.
pub open spec fn markdown_images(text: Seq<char>) -> Seq<Seq<char>> {
    image_destinations(markdown_events(text, MARKDOWN_EXTENSIONS))
}

/// Turns straight quotes into curly ones in the text of a stream of markdown
/// events, except inside code blocks.
pub struct EventQuoteConverter {
    enabled: bool,
    convert_text: bool,
}

impl EventQuoteConverter {
    /// Whether the converter changes anything at all.
    pub closed spec fn is_enabled(&self) -> bool {
        self.enabled
    }

    /// Whether the converter stands outside of code blocks.
    pub closed spec fn in_text(&self) -> bool {
        self.convert_text
    }

    /// Whether an event of shape `shape` is rewritten in this state.
    pub open spec fn rewrites(&self, shape: Shape) -> bool {
        self.is_enabled() && self.in_text() && shape is Text
    }

    /// Whether the converter is in text after an event of shape `shape`.
    pub open spec fn in_text_after(&self, shape: Shape) -> bool {
        if !self.is_enabled() {
            self.in_text()
        } else {
            match shape {
                Shape::CodeBlockStart => false,
                Shape::CodeBlockEnd => true,
                _ => self.in_text(),
            }
        }
    }

    /// The event that `event` is converted to in this state.
    pub open spec fn converted(&self, event: Event<'static>) -> Event<'static> {
        match event_shape(event) {
            Shape::Text(text) => if self.rewrites(Shape::Text(text)) {
                text_event(curly(text))
            } else {
                event
            },
            _ => event,
        }
    }

    /// A converter at the start of a document, outside of any code block.
    pub fn new(enabled: bool) -> (converter: Self)
        ensures
            converter.is_enabled() == enabled,
            converter.in_text(),
    {
        EventQuoteConverter { enabled, convert_text: true }
    }

    /// Takes the next event of the document. A disabled converter hands every
    /// event back and stays as it is. An enabled one leaves text mode where a
    /// code block opens, enters it where one closes, and in text mode replaces
    /// a run of text by the run with curly quotes.
    pub fn convert<'a>(&mut self, event: Event<'a>) -> (converted: Event<'a>)
        ensures
            final(self).is_enabled() == old(self).is_enabled(),
            final(self).in_text() == old(self).in_text_after(event_shape(event)),
            converted == old(self).converted(event),
    {
        if !self.enabled {
            return event;
        }
        match describe(&event) {
            Token::CodeBlockStart => {
                self.convert_text = false;
                event
            },
            Token::CodeBlockEnd => {
                self.convert_text = true;
                event
            },
            Token::Text(text) => {
                if self.convert_text {
                    make_text_event(convert_quotes_to_curly(text.as_str()))
                } else {
                    event
                }
            },
            _ => event,
        }
    }
}

/// Whether a converter that started in text and is enabled is in text after
/// the first `count` of `events`: it is unless the last code block that opened
/// among them has not closed.
pub open spec fn in_text_at(events: Seq<Event<'static>>, count: int) -> bool
    decreases count,
{
    if count <= 0 {
        true
    } else {
        match event_shape(events[count - 1]) {
            Shape::CodeBlockStart => false,
            Shape::CodeBlockEnd => true,
            _ => in_text_at(events, count - 1),
        }
    }
}

/// What the event at `index` of `events` is rewritten to: an image is led to
/// its link, a run of text outside code blocks gets curly quotes where
/// `curly_quotes` is set.
pub open spec fn rewritten_event(
    events: Seq<Event<'static>>,
    curly_quotes: bool,
    links: Seq<(Seq<char>, Seq<char>)>,
    index: int,
) -> Event<'static> {
    match event_shape(events[index]) {
        Shape::Text(text) => if curly_quotes && in_text_at(events, index) {
            text_event(curly(text))
        } else {
            events[index]
        },
        _ => relinked(events[index], links),
    }
}

/// `events` rewritten one by one.
pub open spec fn rewritten(
    events: Seq<Event<'static>>,
    curly_quotes: bool,
    links: Seq<(Seq<char>, Seq<char>)>,
) -> Seq<Event<'static>> {
    Seq::new(events.len(), |index: int| rewritten_event(events, curly_quotes, links, index))
}

/// Inside a code block a run of text is left as it is, whether or not quotes
/// are made curly.
pub proof fn lemma_text_in_code_block_is_kept(
    events: Seq<Event<'static>>,
    curly_quotes: bool,
    links: Seq<(Seq<char>, Seq<char>)>,
    index: int,
)
    requires
        0 <= index < events.len(),
        event_shape(events[index]) is Text,
        !in_text_at(events, index),
    ensures
        rewritten(events, curly_quotes, links)[index] == events[index],
{
}

/// Outside of code blocks a run of text becomes the run with curly quotes,
/// where quotes are made curly; and nothing but runs of text and images is
/// rewritten at all.
pub proof fn lemma_text_outside_code_block_is_curly(
    events: Seq<Event<'static>>,
    links: Seq<(Seq<char>, Seq<char>)>,
    index: int,
)
    requires
        0 <= index < events.len(),
        in_text_at(events, index),
    ensures
        event_shape(events[index]) matches Shape::Text(text) ==> rewritten(events, true, links)[index]
            == text_event(curly(text)),
        !(event_shape(events[index]) is Text) && !(event_shape(events[index]) is Image)
            ==> rewritten(events, true, links)[index] == events[index],
{
}

/// Where quotes stay as they are and there is no link, every event stays as it
/// is.
pub proof fn lemma_nothing_to_rewrite(events: Seq<Event<'static>>)
    ensures
        rewritten(events, false, Seq::empty()) == events,
{
    assert(rewritten(events, false, Seq::empty()) =~= events);
}

/// The body of the page made of the markdown `text`.
pub open spec fn markdown_html(
    text: Seq<char>,
    curly_quotes: bool,
    links: Seq<(Seq<char>, Seq<char>)>,
) -> Seq<char> {
    events_html(rewritten(markdown_events(text, MARKDOWN_EXTENSIONS), curly_quotes, links))
}

/// Looks `destination` up in `links`: the target of the first link that starts
/// there.
pub fn find_link(links: &Vec<Link>, destination: &String) -> (target: Option<String>)
    ensures
        match target {
            Some(to) => link_target(link_views(links@), destination@) == Some(to@),
            None => link_target(link_views(links@), destination@) is None,
        },
{
    let ghost all = link_views(links@);
    let mut i: usize = 0;
    assert(all.skip(0) == all);
    while i < links.len()
        invariant
            i <= links.len(),
            all == link_views(links@),
            link_target(all, destination@) == link_target(all.skip(i as int), destination@),
        decreases links.len() - i,
    {
        assert(all.skip(i as int)[0] == all[i as int]);
        if links[i].from == *destination {
            return Some(links[i].to.clone());
        }
        assert(all.skip(i as int).drop_first() == all.skip(i + 1));
        i = i + 1;
    }
    None
}

/// Rewrites the events of one chapter, in order: images are led to their
/// links, and runs of text outside code blocks get curly quotes where
/// `curly_quotes` is set.
pub fn rewrite_events<'a>(events: Vec<Event<'a>>, curly_quotes: bool, links: &Vec<Link>) -> (out: Vec<
    Event<'a>,
>)
    ensures
        out@ == rewritten(events@, curly_quotes, link_views(links@)),
{
    let mut converter = EventQuoteConverter::new(curly_quotes);
    let mut out: Vec<Event<'a>> = Vec::new();
    let ghost all = events@;
    for event in it: events
        invariant
            it.seq() == all,
            converter.is_enabled() == curly_quotes,
            curly_quotes ==> converter.in_text() == in_text_at(all, it.index()),
            !curly_quotes ==> converter.in_text(),
            out@.len() == it.index(),
            forall|j: int|
                0 <= j < it.index() ==> out@[j] == #[trigger] rewritten_event(
                    all,
                    curly_quotes,
                    link_views(links@),
                    j,
                ),
    {
        let ghost index = it.index();
        let next = match describe(&event) {
            Token::Image(destination) => match find_link(links, &destination) {
                Some(target) => make_image_event(event, target),
                None => event,
            },
            _ => event,
        };
        proof {
            assert(next == relinked(all[index], link_views(links@)));
            assert(event_shape(all[index]) is Text ==> next == all[index]);
        }
        let converted = converter.convert(next);
        out.push(converted);
    }
    assert(out@ =~= rewritten(all, curly_quotes, link_views(links@)));
    out
}

/// The body of the page of a chapter: its markdown written as HTML, with the
/// images led to their links and the quotes made curly where `curly_quotes` is
/// set.
pub fn render_markdown(text: &str, curly_quotes: bool, links: &Vec<Link>) -> (body: String)
    ensures
        body@ == markdown_html(text@, curly_quotes, link_views(links@)),
{
    let events = collect_events(new_cmark_parser(text));
    push_html(rewrite_events(events, curly_quotes, links))
}

/// The destinations of the images in the markdown `text`, in order, each as
/// often as it occurs.
pub fn find_images(text: &str) -> (found: Vec<String>)
    ensures
        found@.map_values(|s: String| s@) == markdown_images(text@),
{
    let events = collect_events(new_cmark_parser(text));
    let mut found: Vec<String> = Vec::new();
    let mut i: usize = 0;
    while i < events.len()
        invariant
            i <= events.len(),
            found@.map_values(|s: String| s@) == image_destinations(events@.take(i as int)),
        decreases events.len() - i,
    {
        let ghost before = found@.map_values(|s: String| s@);
        assert(events@.take(i + 1).drop_last() == events@.take(i as int));
        match describe(&events[i]) {
            Token::Image(destination) => {
                found.push(destination);
                assert(found@.map_values(|s: String| s@) == before.push(destination@));
            },
            _ => {},
        }
        i = i + 1;
    }
    assert(events@.take(events.len() as int) == events@);
    found
}

/// `Parser::new_ext` reads `text` as markdown with the extensions that
/// `Options::from_bits_truncate` makes of `extensions`. The events that the
/// parser will give are a function of the text and the extensions.
#[verifier::external_body]
fn new_parser(text: &str, extensions: u32) -> (parser: Parser<'_, '_>)
    ensures
        parser_events(parser) == markdown_events(text@, extensions),
{
    Parser::new_ext(text, Options::from_bits_truncate(extensions))
}

/// A parser for the markdown `text`, with tables, footnotes, strikethrough and
/// task lists enabled.
pub fn new_cmark_parser(text: &str) -> (parser: Parser<'_, '_>)
    ensures
        parser_events(parser) == markdown_events(text@, MARKDOWN_EXTENSIONS),
{
    new_parser(text, MARKDOWN_EXTENSIONS)
}

/// Runs `parser` to its end with `Iterator::collect`, which calls
/// `Parser::next` until there is no event left, and keeps the events in the
/// order in which they came.
#[verifier::external_body]
fn collect_events<'a, 'b>(parser: Parser<'a, 'b>) -> (events: Vec<Event<'a>>)
    ensures
        events@ == parser_events(parser),
{
    parser.collect()
}

/// Tells the variants of `pulldown_cmark::Event` apart that this library
/// reads, and copies the text of a run and the destination of an image.
#[verifier::external_body]
fn describe<'a>(event: &Event<'a>) -> (token: Token)
    ensures
        token@ == event_shape(*event),
{
    match event {
        Event::Start(Tag::CodeBlock(_)) => Token::CodeBlockStart,
        Event::End(Tag::CodeBlock(_)) => Token::CodeBlockEnd,
        Event::Text(text) => Token::Text(text.to_string()),
        Event::Start(Tag::Image(_, destination, _)) => Token::Image(destination.to_string()),
        _ => Token::Other,
    }
}

/// `Event::Text` makes the event that is a run of text.
#[verifier::external_body]
fn make_text_event<'a>(text: String) -> (event: Event<'a>)
    ensures
        event == text_event(text@),
        event_shape(event) == Shape::Text(text@),
{
    Event::Text(CowStr::from(text))
}

/// `Event::Start` with `Tag::Image` makes the start of an image anew, with the
/// link type and the title of `event` kept and `destination` as its
/// destination.
/// Any other event is handed back as it is.
#[verifier::external_body]
fn make_image_event<'a>(event: Event<'a>, destination: String) -> (image: Event<'a>)
    ensures
        event_shape(event) is Image ==> image == image_event(event, destination@) && event_shape(image)
            == Shape::Image(destination@),
        !(event_shape(event) is Image) ==> image == event,
{
    match event {
        Event::Start(Tag::Image(link_type, _, title)) => {
            Event::Start(Tag::Image(link_type, CowStr::from(destination), title))
        },
        other => other,
    }
}

/// `html::push_html` writes `events` as HTML: a function of the events alone.
#[verifier::external_body]
fn push_html<'a>(events: Vec<Event<'a>>) -> (html: String)
    ensures
        html@ == events_html(events@),
{
    let mut body = String::new();
    html::push_html(&mut body, events.into_iter());
    body
}

} // verus!
