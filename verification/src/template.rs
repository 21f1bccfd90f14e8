//! The page template: a Handlebars template that is given the title of a
//! chapter, the body of its page and the way to the stylesheet.
//!
//! The template is compiled and rendered by the `handlebars` crate. What comes
//! out is named here, as a function of the template's text and of the three
//! values, and not described. An error of the crate is handed on as its
//! message. A template in which a partial could include itself is compiled
//! and not rendered: rendering it might not end.

use vstd::prelude::*;
use handlebars::Handlebars;
use crate::text::{chars_of, concat};

verus! {

/// `handlebars::Handlebars`, a registry of compiled templates. Nothing is
/// seen inside it.
#[verifier::external_type_specification]
#[verifier::external_body]
pub struct ExHandlebars<'reg>(Handlebars<'reg>);

/// The templates of a generator: a registry that is made by `new_registry`
/// and filled by `register_index` alone, so that it holds the built-in helpers
/// and at most the one template `index`.
pub struct Templates {
    registry: Handlebars<'static>,
}

/// The template that pages are made with where the book brings none.
pub const DEFAULT_TEMPLATE: &'static str =
    "<?xml version=\"1.0\" encoding=\"UTF-8\"?>\n<html xmlns=\"http://www.w3.org/1999/xhtml\" xmlns:epub=\"http://www.idpf.org/2007/ops\">\n<head>\n  <meta http-equiv=\"Content-Type\" content=\"application/xhtml+xml; charset=utf-8\" />\n  <title>{{title}}</title>\n  <link rel=\"stylesheet\" type=\"text/css\" href=\"{{stylesheet}}\" />\n</head>\n<body>\n{{{body}}}\n</body>\n</html>\n";

/// Whether `source` is a well-formed Handlebars template.
pub uninterp spec fn template_compiles(source: Seq<char>) -> bool;

/// The text of the template that `templates` holds under the name `index`.
pub uninterp spec fn registered_index(templates: Templates) -> Option<Seq<char>>;

/// One of the values that a template is rendered with.
#[derive(Debug, Clone)]
pub struct Field {
    pub key: String,
    pub value: String,
}

/// The keys and values of `fields`, in order.
pub open spec fn field_views(fields: Seq<Field>) -> Seq<(Seq<char>, Seq<char>)> {
    fields.map_values(|field: Field| (field.key@, field.value@))
}

/// The page that the template `source` makes of the values `data`, each under
/// its key, or the message that rendering fails with.
pub uninterp spec fn page_html(source: Seq<char>, data: Seq<(Seq<char>, Seq<char>)>) -> Result<
    Seq<char>,
    Seq<char>,
>;

/// The values that a page is rendered with: the title of the chapter under
/// `title`, the body of the page under `body`, and the way to the stylesheet
/// under `stylesheet`.
pub open spec fn page_fields(title: Seq<char>, body: Seq<char>, stylesheet: Seq<char>) -> Seq<
    (Seq<char>, Seq<char>),
> {
    seq![("title"@, title), ("body"@, body), ("stylesheet"@, stylesheet)]
}

/// Lists the values that a page is rendered with.
pub fn page_data(title: &str, body: &str, stylesheet: &str) -> (data: Vec<Field>)
    ensures
        field_views(data@) == page_fields(title@, body@, stylesheet@),
{
    let mut data: Vec<Field> = Vec::new();
    data.push(Field { key: concat("title", ""), value: concat(title, "") });
    data.push(Field { key: concat("body", ""), value: concat(body, "") });
    data.push(Field { key: concat("stylesheet", ""), value: concat(stylesheet, "") });
    proof {
        reveal_strlit("");
        assert forall|s: Seq<char>| s + ""@ == s by {
            assert(s + ""@ =~= s);
        }
        assert(field_views(data@) =~= page_fields(title@, body@, stylesheet@));
    }
    data
}

/// What is said of a template that is not rendered because a partial of it
/// could include itself.
pub const UNSAFE_TEMPLATE: &'static str =
    "The template includes a partial that could include itself";

/// What may stand between the braces that open a tag and the sign that tells
/// its kind.
pub open spec fn is_tag_filler(c: char) -> bool {
    c == ' ' || c == '\t' || c == '\n' || c == '\r' || c == '~' || c == '#' || c == '{'
}

/// Whether `c` is whitespace to the template engine.
pub open spec fn is_blank(c: char) -> bool {
    c == ' ' || c == '\t' || c == '\n' || c == '\r'
}

/// Whether `c` may stand in the plain name of a partial: a letter or digit of
/// ASCII, `-`, `_`, `/`, `.`, or any character beyond ASCII.
pub open spec fn is_partial_name_char(c: char) -> bool {
    ||| 'a' <= c && c <= 'z'
    ||| 'A' <= c && c <= 'Z'
    ||| '0' <= c && c <= '9'
    ||| c == '-'
    ||| c == '_'
    ||| c == '/'
    ||| c == '.'
    ||| c as u32 >= 0x80
}

/// The first index from `start` on at which `source` holds no whitespace.
pub open spec fn after_blanks(source: Seq<char>, start: int) -> int
    decreases source.len() - start,
{
    if start < 0 || start >= source.len() {
        start
    } else if is_blank(source[start]) {
        after_blanks(source, start + 1)
    } else {
        start
    }
}

/// Where the plain name that starts at `start` ends.
pub open spec fn partial_name_end(source: Seq<char>, start: int) -> int
    decreases source.len() - start,
{
    if start < 0 || start >= source.len() {
        start
    } else if is_partial_name_char(source[start]) {
        partial_name_end(source, start + 1)
    } else {
        start
    }
}

/// Whether `source[from..to]` is the name `index`, under which the template
/// itself is kept.
pub open spec fn names_index(source: Seq<char>, from: int, to: int) -> bool {
    &&& to - from == 5
    &&& source[from] == 'i'
    &&& source[from + 1] == 'n'
    &&& source[from + 2] == 'd'
    &&& source[from + 3] == 'e'
    &&& source[from + 4] == 'x'
}

/// Whether the partial that is included at `start`, right after the `>` of its
/// tag, could lead back to the template: its name is not written plainly, so
/// that it is only known when the page is rendered, or it is `index`.
pub open spec fn include_may_recur(source: Seq<char>, start: int) -> bool {
    let from = after_blanks(source, start);
    let to = partial_name_end(source, from);
    to <= from || names_index(source, from, to)
}

/// Where the sign stands that tells the kind of the tag whose braces end right
/// before `start`: the first index from `start` on that holds none of
/// whitespace, `~`, `#` and `{`.
pub open spec fn tag_sign(source: Seq<char>, start: int) -> int
    decreases source.len() - start,
{
    if start < 0 || start >= source.len() {
        start
    } else if is_tag_filler(source[start]) {
        tag_sign(source, start + 1)
    } else {
        start
    }
}

/// Whether a tag with the sign `sign` opens at `at`.
pub open spec fn is_tag(source: Seq<char>, at: int, sign: char) -> bool {
    &&& 0 <= at
    &&& at + 1 < source.len()
    &&& source[at] == '{'
    &&& source[at + 1] == '{'
    &&& tag_sign(source, at + 2) < source.len()
    &&& source[tag_sign(source, at + 2)] == sign
}

/// Whether a tag that opens at or after `start` is a decorator, which can
/// define a partial.
pub open spec fn defines_partial_from(source: Seq<char>, start: int) -> bool
    decreases source.len() - start,
{
    if start < 0 || start + 1 >= source.len() {
        false
    } else if is_tag(source, start, '*') {
        true
    } else {
        defines_partial_from(source, start + 1)
    }
}

/// Whether a tag that opens at or after `start` includes a partial that could
/// lead back to the template.
pub open spec fn includes_itself_from(source: Seq<char>, start: int) -> bool
    decreases source.len() - start,
{
    if start < 0 || start + 1 >= source.len() {
        false
    } else if is_tag(source, start, '>') && include_may_recur(
        source,
        tag_sign(source, start + 2) + 1,
    ) {
        true
    } else {
        includes_itself_from(source, start + 1)
    }
}

/// Where the first tag at or after `start` opens that includes a partial; the
/// length of `source` where there is none.
pub open spec fn first_include_from(source: Seq<char>, start: int) -> int
    decreases source.len() - start,
{
    if start < 0 || start + 1 >= source.len() {
        source.len() as int
    } else if is_tag(source, start, '>') {
        start
    } else {
        first_include_from(source, start + 1)
    }
}

/// Where the last tag at or after `start` opens that closes a block; -1 where
/// there is none.
pub open spec fn last_close_from(source: Seq<char>, start: int) -> int
    decreases source.len() - start,
{
    if start < 0 || start + 1 >= source.len() {
        -1
    } else if last_close_from(source, start + 1) >= 0 {
        last_close_from(source, start + 1)
    } else if is_tag(source, start, '/') {
        start
    } else {
        -1
    }
}

/// Whether rendering `source` is sure to end. It is where no partial can reach
/// itself. Every partial that `source` includes must be named plainly and not
/// be the template itself; and where `source` defines partials, every tag that
/// includes one must stand after the last tag that closes a block, so that no
/// partial is included from inside the definition of a partial. A partial that
/// is named and not defined is not there: its tag renders its own block, if it
/// has one, and nothing if it has none.
pub open spec fn renders_safely(source: Seq<char>) -> bool {
    &&& !includes_itself_from(source, 0)
    &&& defines_partial_from(source, 0) ==> first_include_from(source, 0) > last_close_from(source, 0)
}

fn skip_blanks(chars: &Vec<char>, start: usize) -> (end: usize)
    requires
        start <= chars.len(),
    ensures
        end == after_blanks(chars@, start as int),
        start <= end <= chars.len(),
{
    let mut i: usize = start;
    while i < chars.len() && (chars[i] == ' ' || chars[i] == '\t' || chars[i] == '\n' || chars[i]
        == '\r')
        invariant
            start <= i <= chars.len(),
            after_blanks(chars@, start as int) == after_blanks(chars@, i as int),
        decreases chars.len() - i,
    {
        i = i + 1;
    }
    i
}

fn skip_name(chars: &Vec<char>, start: usize) -> (end: usize)
    requires
        start <= chars.len(),
    ensures
        end == partial_name_end(chars@, start as int),
        start <= end <= chars.len(),
{
    let mut i: usize = start;
    while i < chars.len() && (('a' <= chars[i] && chars[i] <= 'z') || ('A' <= chars[i] && chars[i]
        <= 'Z') || ('0' <= chars[i] && chars[i] <= '9') || chars[i] == '-' || chars[i] == '_'
        || chars[i] == '/' || chars[i] == '.' || chars[i] as u32 >= 0x80)
        invariant
            start <= i <= chars.len(),
            partial_name_end(chars@, start as int) == partial_name_end(chars@, i as int),
        decreases chars.len() - i,
    {
        i = i + 1;
    }
    i
}

fn include_is_unsafe(chars: &Vec<char>, start: usize) -> (unsafe_include: bool)
    requires
        start <= chars.len(),
    ensures
        unsafe_include == include_may_recur(chars@, start as int),
{
    let from = skip_blanks(chars, start);
    let to = skip_name(chars, from);
    to <= from || (to - from == 5 && chars[from] == 'i' && chars[from + 1] == 'n' && chars[from + 2]
        == 'd' && chars[from + 3] == 'e' && chars[from + 4] == 'x')
}

fn find_tag_sign(chars: &Vec<char>, start: usize) -> (sign: usize)
    requires
        start <= chars.len(),
    ensures
        sign == tag_sign(chars@, start as int),
        start <= sign <= chars.len(),
{
    let mut k: usize = start;
    while k < chars.len() && (chars[k] == ' ' || chars[k] == '\t' || chars[k] == '\n' || chars[k]
        == '\r' || chars[k] == '~' || chars[k] == '#' || chars[k] == '{')
        invariant
            start <= k <= chars.len(),
            tag_sign(chars@, start as int) == tag_sign(chars@, k as int),
        decreases chars.len() - k,
    {
        k = k + 1;
    }
    k
}

/// Tells whether rendering `source` is sure to end.
pub fn template_renders_safely(source: &str) -> (safe: bool)
    ensures
        safe == renders_safely(source@),
{
    let chars = chars_of(source);
    let len = chars.len();
    let mut defines = false;
    let mut first_include: usize = len;
    let mut last_close: Option<usize> = None;
    let mut i: usize = 0;
    while i < len && len - i > 1
        invariant
            i <= len == chars.len(),
            chars@ == source@,
            !includes_itself_from(chars@, 0) <==> !includes_itself_from(chars@, i as int),
            defines_partial_from(chars@, 0) == (defines || defines_partial_from(chars@, i as int)),
            first_include <= len,
            first_include < len ==> first_include < i,
            first_include_from(chars@, 0) == if first_include < len {
                first_include as int
            } else {
                first_include_from(chars@, i as int)
            },
            last_close matches Some(at) ==> at < i,
            last_close_from(chars@, 0) == if last_close_from(chars@, i as int) >= 0 {
                last_close_from(chars@, i as int)
            } else {
                match last_close {
                    Some(at) => at as int,
                    None => -1,
                }
            },
        decreases len - i,
    {
        if chars[i] == '{' && chars[i + 1] == '{' {
            let sign = find_tag_sign(&chars, i + 2);
            if sign < len {
                if chars[sign] == '*' {
                    defines = true;
                } else if chars[sign] == '/' {
                    last_close = Some(i);
                } else if chars[sign] == '>' {
                    if include_is_unsafe(&chars, sign + 1) {
                        assert(includes_itself_from(chars@, i as int));
                        return false;
                    }
                    if first_include >= len {
                        first_include = i;
                    }
                }
            }
        }
        i = i + 1;
    }
    if defines {
        match last_close {
            Some(at) => first_include > at,
            None => true,
        }
    } else {
        true
    }
}

/// `Handlebars::new` makes a registry that holds no template.
#[verifier::external_body]
pub(crate) fn new_registry() -> (templates: Templates)
    ensures
        registered_index(templates) is None,
{
    Templates { registry: Handlebars::new() }
}

/// `Handlebars::register_template_string` compiles `source` and keeps it under
/// the name `index`. It fails on a template that does not compile, and then
/// leaves the registry as it was.
#[verifier::external_body]
pub(crate) fn register_index(templates: &mut Templates, source: &str) -> (done: Result<(), String>)
    ensures
        done is Ok <==> template_compiles(source@),
        done is Ok ==> registered_index(*final(templates)) == Some(source@),
        done is Err ==> registered_index(*final(templates)) == registered_index(*old(templates)),
{
    templates.registry.register_template_string("index", source).map_err(|error| error.to_string())
}

/// `Handlebars::render` renders the template kept under `index` with the
/// values `data`, each under its key. The registry holds nothing but that
/// template and the built-in helpers, and no partial of the template can reach
/// itself, so rendering ends and the page is a function of the template's text
/// and of the values.
#[verifier::external_body]
pub(crate) fn render_index(templates: &Templates, data: &Vec<Field>) -> (page: Result<String, String>)
    requires
        registered_index(*templates) matches Some(source) && renders_safely(source),
    ensures
        match page {
            Ok(html) => page_html(registered_index(*templates)->Some_0, field_views(data@)) == Ok::<
                Seq<char>,
                Seq<char>,
            >(html@),
            Err(reason) => page_html(registered_index(*templates)->Some_0, field_views(data@))
                == Err::<Seq<char>, Seq<char>>(reason@),
        },
{
    let values: serde_json::Map<String, serde_json::Value> = data.iter().map(
        |field| (field.key.clone(), serde_json::Value::from(field.value.as_str())),
    ).collect();
    templates.registry.render("index", &values).map_err(|error| error.to_string())
}

} // verus!
