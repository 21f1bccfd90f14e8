//! Typographic quotes: straight quotes and apostrophes in a run of text become
//! their curly forms, opening after whitespace and closing anywhere else.

use vstd::prelude::*;

verus! {

/// The characters with the Unicode `White_Space` property.
pub open spec fn is_whitespace(c: char) -> bool {
    let n = c as u32;
    ||| 0x09 <= n <= 0x0D
    ||| n == 0x20
    ||| n == 0x85
    ||| n == 0xA0
    ||| n == 0x1680
    ||| 0x2000 <= n <= 0x200A
    ||| n == 0x2028
    ||| n == 0x2029
    ||| n == 0x202F
    ||| n == 0x205F
    ||| n == 0x3000
}

/// Whether `c` is a straight apostrophe or a straight double quote.
pub open spec fn is_straight_quote(c: char) -> bool {
    c == '\'' || c == '"'
}

/// The character that replaces `c`, given whether whitespace (or the start of
/// the run) stands right before it.
pub open spec fn curly_char(c: char, after_whitespace: bool) -> char {
    if c == '\'' {
        if after_whitespace {
            '\u{2018}'
        } else {
            '\u{2019}'
        }
    } else if c == '"' {
        if after_whitespace {
            '\u{201C}'
        } else {
            '\u{201D}'
        }
    } else {
        c
    }
}

/// Whether position `i` of `text` counts as preceded by whitespace: the start
/// of the run does, and so does any position after a whitespace character.
pub open spec fn after_whitespace(text: Seq<char>, i: int) -> bool {
    i <= 0 || is_whitespace(text[i - 1])
}

/// `text` with every straight quote replaced by its curly form.
pub open spec fn curly(text: Seq<char>) -> Seq<char> {
    Seq::new(text.len(), |i: int| curly_char(text[i], after_whitespace(text, i)))
}

/// Whether `text` holds a straight quote anywhere.
pub open spec fn has_straight_quote(text: Seq<char>) -> bool {
    exists|i: int| 0 <= i < text.len() && is_straight_quote(#[trigger] text[i])
}

/// Tells whether `c` has the Unicode `White_Space` property.
pub fn char_is_whitespace(c: char) -> (r: bool)
    ensures
        r == is_whitespace(c),
{
    let n: u32 = c as u32;
    (0x09 <= n && n <= 0x0D) || n == 0x20 || n == 0x85 || n == 0xA0 || n == 0x1680 || (0x2000 <= n
        && n <= 0x200A) || n == 0x2028 || n == 0x2029 || n == 0x202F || n == 0x205F || n == 0x3000
}

/// Replaces one character according to what stands before it.
pub fn convert_char(c: char, preceded_by_whitespace: bool) -> (r: char)
    ensures
        r == curly_char(c, preceded_by_whitespace),
{
    if c == '\'' {
        if preceded_by_whitespace {
            '\u{2018}'
        } else {
            '\u{2019}'
        }
    } else if c == '"' {
        if preceded_by_whitespace {
            '\u{201C}'
        } else {
            '\u{201D}'
        }
    } else {
        c
    }
}

/// Rewrites the straight quotes of one run of text. The start of the run counts
/// as whitespace, so a quote that opens the run is an opening quote.
pub fn convert_quotes_to_curly(original_text: &str) -> (converted: String)
    ensures
        converted@ == curly(original_text@),
{
    let mut converted = String::new();
    let mut preceded_by_whitespace = true;
    for original_char in it: original_text.chars()
        invariant
            it.seq() == original_text@,
            preceded_by_whitespace == after_whitespace(original_text@, it.index()),
            converted@ == curly(original_text@).take(it.index()),
    {
        let converted_char = convert_char(original_char, preceded_by_whitespace);
        preceded_by_whitespace = char_is_whitespace(original_char);
        converted.push(converted_char);
        assert(curly(original_text@).take(it.index() + 1) == curly(original_text@).take(
            it.index(),
        ).push(curly(original_text@)[it.index()]));
    }
    assert(curly(original_text@).take(original_text@.len() as int) == curly(original_text@));
    converted
}

/// Converted text is as long as the text it was made of and holds no straight
/// quote.
pub proof fn lemma_curly_has_no_straight_quote(text: Seq<char>)
    ensures
        curly(text).len() == text.len(),
        !has_straight_quote(curly(text)),
{
}

/// Text without straight quotes is left as it is.
pub proof fn lemma_curly_keeps_quote_free_text(text: Seq<char>)
    requires
        !has_straight_quote(text),
    ensures
        curly(text) == text,
{
    assert forall|i: int| 0 <= i < text.len() implies curly(text)[i] == text[i] by {
        assert(!is_straight_quote(text[i]));
    }
    assert(curly(text) =~= text);
}

/// Converting twice gives what converting once gives.
pub proof fn lemma_curly_idempotent(text: Seq<char>)
    ensures
        curly(curly(text)) == curly(text),
{
    lemma_curly_has_no_straight_quote(text);
    lemma_curly_keeps_quote_free_text(curly(text));
}

/// Conversion works character by character: every character that is not a
/// straight quote stays where it is.
pub proof fn lemma_curly_keeps_other_characters(text: Seq<char>, i: int)
    requires
        0 <= i < text.len(),
        !is_straight_quote(text[i]),
    ensures
        curly(text)[i] == text[i],
{
}

} // verus!
