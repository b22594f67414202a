//! The Markdown marks of emphasis.

use vstd::prelude::*;
use crate::text::{trim, trim_of};
use crate::models::WordFormat;
use crate::words::{append_chars, append_str};
use crate::pattern::{starts_with, ends_with, starts_with_chars, occurs_at_pos};

verus! {

/// The mark that opens and closes bold text.
pub open spec fn bold_mark() -> Seq<char> {
    seq!['*', '*']
}

/// The characters of the bold mark.
pub fn bold_mark_chars() -> (r: Vec<char>)
    ensures
        r@ == bold_mark(),
{
    let mut r: Vec<char> = Vec::new();
    r.push('*');
    r.push('*');
    r
}

/// Whether the text, trimmed, starts and ends with the bold mark.
pub open spec fn is_bold_wrapped(text: Seq<char>) -> bool {
    starts_with(trim(text), bold_mark()) && ends_with(trim(text), bold_mark())
}

/// Whether the text, trimmed, starts and ends with the bold mark.
pub fn text_is_bold_wrapped(text: &Vec<char>) -> (b: bool)
    ensures
        b == is_bold_wrapped(text@),
{
    let t = trim_of(text);
    let mark = bold_mark_chars();
    if t.len() < 2 {
        return false;
    }
    starts_with_chars(&t, &mark) && occurs_at_pos(&t, &mark, t.len() - 2)
}

/// Whether the text, trimmed, starts and ends with the character `c`.
pub open spec fn is_wrapped_in(text: Seq<char>, c: char) -> bool {
    let t = trim(text);
    t.len() > 0 && t[0] == c && t.last() == c
}

/// Whether the text, trimmed, starts and ends with `c`.
pub fn text_is_wrapped_in(text: &Vec<char>, c: char) -> (b: bool)
    ensures
        b == is_wrapped_in(text@, c),
{
    let t = trim_of(text);
    t.len() > 0 && t[0] == c && t[t.len() - 1] == c
}

/// A text between the marks of an emphasis.
pub open spec fn wrapped(inner: Seq<char>, format: WordFormat) -> Seq<char> {
    match format {
        WordFormat::Bold => "**"@ + inner + "**"@,
        WordFormat::Italic => "_"@ + inner + "_"@,
        WordFormat::BoldItalic => "**_"@ + inner + "_**"@,
        WordFormat::Code => inner,
    }
}

/// A text with the marks of an emphasis around what it holds besides white
/// space; a space at its start or at its end stays outside the marks. A
/// blank text stays as it is.
pub open spec fn emphasized(text: Seq<char>, format: WordFormat) -> Seq<char> {
    let inner = trim(text);
    if inner.len() == 0 {
        text
    } else {
        let lead = if text.len() > 0 && text[0] == ' ' {
            " "@
        } else {
            Seq::empty()
        };
        let trail = if text.len() > 0 && text.last() == ' ' {
            " "@
        } else {
            Seq::empty()
        };
        lead + wrapped(inner, format) + trail
    }
}

/// The text between the marks of the emphasis.
pub fn wrap(inner: &Vec<char>, format: WordFormat) -> (r: Vec<char>)
    ensures
        r@ == wrapped(inner@, format),
{
    let mut r: Vec<char> = Vec::new();
    match format {
        WordFormat::Bold => {
            append_str(&mut r, "**");
            append_chars(&mut r, inner);
            append_str(&mut r, "**");
        },
        WordFormat::Italic => {
            append_str(&mut r, "_");
            append_chars(&mut r, inner);
            append_str(&mut r, "_");
        },
        WordFormat::BoldItalic => {
            append_str(&mut r, "**_");
            append_chars(&mut r, inner);
            append_str(&mut r, "_**");
        },
        WordFormat::Code => {
            append_chars(&mut r, inner);
        },
    }
    r
}

/// The text with the marks of the emphasis around what it holds besides white space.
pub fn emphasize(text: &Vec<char>, format: WordFormat) -> (r: Vec<char>)
    ensures
        r@ == emphasized(text@, format),
{
    let inner = trim_of(text);
    let mut r: Vec<char> = Vec::new();
    if inner.len() == 0 {
        append_chars(&mut r, text);
        return r;
    }
    if text.len() > 0 && text[0] == ' ' {
        append_str(&mut r, " ");
    }
    append_chars(&mut r, &wrap(&inner, format));
    if text.len() > 0 && text[text.len() - 1] == ' ' {
        append_str(&mut r, " ");
    }
    r
}

} // verus!
