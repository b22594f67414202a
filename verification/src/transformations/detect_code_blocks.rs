//! Classifying runs of lines as code, and normalising their indentation.

use vstd::prelude::*;
use crate::transformations::common::Transformation;
use crate::models::{
    BlockType, Document, Fragment, Item, ItemType, Line, LineItem, PageView, ParseResult, TextItem,
    WordFormat, UNIT, text_of, line_text, all_formatted, all_italic,
};
use crate::text::{chars_of, string_of};
use crate::pattern::{contains, starts_with, has_char, contains_str, starts_with_str, contains_char};
use crate::unicode::{lowercase, to_lower};
use crate::markup::{is_bold_wrapped, text_is_bold_wrapped, is_wrapped_in, text_is_wrapped_in};
use crate::runs::{Mark, in_run, run_flags};
use crate::words::{repeat, repeat_of, append_chars};

verus! {

/// Whether the lowercase text holds a word that code often holds.
pub open spec fn has_code_keywords(lower: Seq<char>) -> bool {
    ||| contains(lower, "import "@)
    ||| contains(lower, "from "@)
    ||| contains(lower, "def "@)
    ||| contains(lower, "class "@)
    ||| contains(lower, "try:"@)
    ||| contains(lower, "except"@)
    ||| contains(lower, "return "@)
    ||| contains(lower, "print("@)
    ||| contains(lower, "if "@)
    ||| contains(lower, "for "@)
    ||| contains(lower, "while "@)
    ||| contains(lower, "with "@)
}

/// Whether the text holds punctuation that code often holds.
pub open spec fn has_code_symbols(text: Seq<char>) -> bool {
    ||| has_char(text, '{')
    ||| has_char(text, '}')
    ||| has_char(text, ';')
    ||| contains(text, "=>"@)
    ||| contains(text, " = "@)
    ||| contains(text, " ("@)
    ||| contains(text, " ["@)
    ||| contains(text, "] "@)
    ||| contains(text, "):"@)
    ||| contains(text, " # "@)
}

/// Whether a text, given with its lowercase form, holds one of the signs
/// that mark a line as code wherever it stands.
pub open spec fn has_explicit_code_indicators(text: Seq<char>, lower: Seq<char>) -> bool {
    ||| contains(lower, "import "@)
    ||| contains(lower, "from "@)
    ||| contains(lower, "def "@)
    ||| contains(lower, "async def "@)
    ||| contains(lower, "class "@)
    ||| contains(lower, "try:"@)
    ||| contains(lower, "except"@)
    ||| contains(lower, "return "@)
    ||| contains(lower, "print("@)
    ||| contains(lower, "@app."@)
    ||| contains(lower, "await "@)
    ||| contains(lower, "asyncio."@)
    ||| contains(lower, "if __name__"@)
    ||| starts_with(lower, "@"@)
    ||| has_char(text, '{')
    ||| has_char(text, '}')
    ||| has_char(text, ';')
    ||| contains(text, "=>"@)
    ||| contains(text, " = "@)
    ||| contains(text, "):"@)
}

/// Whether none of the fragments carries an emphasis.
pub open spec fn is_unformatted(items: Seq<Fragment>) -> bool {
    forall|i: int| 0 <= i < items.len() ==> (#[trigger] items[i]).format is None
}

/// Whether a line is more than one unit taller than the body size.
pub open spec fn is_tall(line: Line, body: i64) -> bool {
    line.height > body + UNIT
}

/// Whether a line with the given text and lowercase text may be code. It
/// must be neither tall nor wrapped in bold marks, and either hold an
/// explicit sign of code, or stand more than two units right of the margin
/// and look like code or be plain text.
pub open spec fn code_candidate(
    line: Line,
    text: Seq<char>,
    lower: Seq<char>,
    margin: i64,
    body: i64,
) -> bool {
    &&& !is_tall(line, body)
    &&& !is_bold_wrapped(text)
    &&& {
        ||| (line.x > margin + 2 * UNIT && (has_code_keywords(lower) || has_code_symbols(text)
            || (is_unformatted(line.items) && text.len() > 0)))
        ||| has_explicit_code_indicators(text, lower)
    }
}

/// Whether a line may be code.
pub open spec fn looks_like_code(line: Line, margin: i64, body: i64) -> bool {
    code_candidate(line, text_of(line.items), lowercase(text_of(line.items)), margin, body)
}

/// Whether a line holds an explicit sign of code.
pub open spec fn line_has_indicators(line: Line) -> bool {
    has_explicit_code_indicators(text_of(line.items), lowercase(text_of(line.items)))
}

/// The smallest left edge among the lines of the first `n` items.
pub open spec fn left_margin_upto(items: Seq<Item>, n: int) -> Option<i64>
    decreases n,
{
    if n <= 0 {
        None
    } else {
        let r = left_margin_upto(items, n - 1);
        match items[n - 1] {
            Item::Line(line) => match r {
                Some(m) => if line.x < m {
                    Some(line.x)
                } else {
                    Some(m)
                },
                None => Some(line.x),
            },
            _ => r,
        }
    }
}

/// The left margin of a page: the smallest left edge of its lines, 0 where
/// it has none.
pub open spec fn left_margin(items: Seq<Item>) -> i64 {
    match left_margin_upto(items, items.len() as int) {
        Some(m) => m,
        None => 0,
    }
}

/// How an item takes part in the search for code by content.
pub open spec fn content_mark(item: Item, margin: i64, body: i64) -> Mark {
    match item {
        Item::Line(line) => if looks_like_code(line, margin, body) {
            Mark::Yes
        } else {
            Mark::No
        },
        _ => Mark::Skip,
    }
}

/// The marks of the items of a page in the search for code by content.
pub open spec fn content_marks(items: Seq<Item>, body: i64) -> Seq<Mark> {
    Seq::new(items.len(), |i: int| content_mark(items[i], left_margin(items), body))
}

/// The item as code, if it is a line.
pub open spec fn as_code(item: Item) -> Item {
    match item {
        Item::Line(line) => Item::Line(Line { block_type: BlockType::Code, ..line }),
        _ => item,
    }
}

/// The items after the search by content: a line that may be code becomes
/// code if the line before or after it may be code too, or if it holds an
/// explicit sign of code itself.
pub open spec fn code_by_content(items: Seq<Item>, body: i64) -> Seq<Item> {
    let marks = content_marks(items, body);
    Seq::new(
        items.len(),
        |i: int|
            if marks[i] == Mark::Yes && (in_run(marks, i) || line_has_indicators(items[i]->Line_0)) {
                as_code(items[i])
            } else {
                items[i]
            },
    )
}

/// Whether a line is set in italics: not tall, and either italic in every
/// fragment or wrapped in `_` or in `*`.
pub open spec fn is_italic_line(line: Line, body: i64) -> bool {
    let text = text_of(line.items);
    !is_tall(line, body) && (all_formatted(line.items, WordFormat::Italic, WordFormat::BoldItalic)
        || is_wrapped_in(text, '_') || is_wrapped_in(text, '*'))
}

/// How an item takes part in the search for italic runs: what is code
/// already does not count.
pub open spec fn italic_mark(item: Item, body: i64) -> Mark {
    match item {
        Item::Line(line) => if line.block_type == BlockType::Code {
            Mark::Skip
        } else if is_italic_line(line, body) {
            Mark::Yes
        } else {
            Mark::No
        },
        _ => Mark::Skip,
    }
}

/// The marks of the items of a page in the search for italic runs.
pub open spec fn italic_marks(items: Seq<Item>, body: i64) -> Seq<Mark> {
    Seq::new(items.len(), |i: int| italic_mark(items[i], body))
}

/// The items after the search for italic runs: two or more italic lines in
/// a row become code.
pub open spec fn code_by_italics(items: Seq<Item>, body: i64) -> Seq<Item> {
    let marks = italic_marks(items, body);
    Seq::new(
        items.len(),
        |i: int|
            if in_run(marks, i) {
                as_code(items[i])
            } else {
                items[i]
            },
    )
}

/// Number of spaces that stand for the distance of a left edge from the
/// smallest left edge of its block: none up to two units, else one for
/// every four units, rounded.
pub open spec fn indent_count(x: i64, min_x: i64) -> nat {
    let delta = x - min_x;
    if delta > 2 * UNIT {
        ((delta + 2 * UNIT) / (4 * UNIT)) as nat
    } else {
        0
    }
}

/// A line with its indentation written as spaces before its first fragment.
pub open spec fn indented(line: Line, min_x: i64) -> Line {
    let n = indent_count(line.x, min_x);
    if n > 0 && line.items.len() > 0 {
        Line {
            items: line.items.update(
                0,
                Fragment { text: repeat(" "@, n) + line.items[0].text, ..line.items[0] },
            ),
            ..line
        }
    } else {
        line
    }
}

/// An item with its indentation written out, if it is a line.
pub open spec fn indent_item(item: Item, min_x: i64) -> Item {
    match item {
        Item::Line(line) => Item::Line(indented(line, min_x)),
        _ => item,
    }
}

/// The smallest left edge among the lines at the first `n` of the indices.
pub open spec fn min_x_upto(items: Seq<Item>, indices: Seq<usize>, n: int) -> Option<i64>
    decreases n,
{
    if n <= 0 {
        None
    } else {
        let r = min_x_upto(items, indices, n - 1);
        match items[indices[n - 1] as int] {
            Item::Line(line) => match r {
                Some(m) => if line.x < m {
                    Some(line.x)
                } else {
                    Some(m)
                },
                None => Some(line.x),
            },
            _ => r,
        }
    }
}

/// The items with the indentation of those at the first `n` indices
/// written out, one index after the other.
pub open spec fn indented_upto(items: Seq<Item>, indices: Seq<usize>, n: int, min_x: i64) -> Seq<
    Item,
>
    decreases n,
{
    if n <= 0 {
        items
    } else {
        let r = indented_upto(items, indices, n - 1, min_x);
        let idx = indices[n - 1] as int;
        r.update(idx, indent_item(r[idx], min_x))
    }
}

/// The items with the lines at the given indices indented relative to the
/// leftmost of them.
pub open spec fn with_indentation(items: Seq<Item>, indices: Seq<usize>) -> Seq<Item> {
    match min_x_upto(items, indices, indices.len() as int) {
        Some(m) => indented_upto(items, indices, indices.len() as int, m),
        None => items,
    }
}

/// Whether the item is a line of code.
pub open spec fn is_code_line(item: Item) -> bool {
    item matches Item::Line(line) && line.block_type == BlockType::Code
}

/// Where the block of code that holds item `i` starts.
pub open spec fn run_start(items: Seq<Item>, i: int) -> int
    decreases i,
{
    if i > 0 && is_code_line(items[i - 1]) {
        run_start(items, i - 1)
    } else {
        i
    }
}

/// Where the block of code that holds item `i` ends: the index after its
/// last line.
pub open spec fn run_end(items: Seq<Item>, i: int) -> int
    decreases items.len() - i,
{
    if 0 <= i && i + 1 < items.len() && is_code_line(items[i + 1]) {
        run_end(items, i + 1)
    } else {
        i + 1
    }
}

/// The smallest left edge among the lines from `s` up to `e`.
pub open spec fn min_x_between(items: Seq<Item>, s: int, e: int) -> i64
    decreases e - s,
{
    if e - s <= 1 {
        items[s]->Line_0.x
    } else {
        let m = min_x_between(items, s, e - 1);
        if items[e - 1]->Line_0.x < m {
            items[e - 1]->Line_0.x
        } else {
            m
        }
    }
}

/// The items with every block of code indented relative to its leftmost
/// line. A block is a maximal run of items that are lines of code.
pub open spec fn normalized(items: Seq<Item>) -> Seq<Item> {
    Seq::new(
        items.len(),
        |i: int|
            if is_code_line(items[i]) {
                indent_item(
                    items[i],
                    min_x_between(items, run_start(items, i), run_end(items, i)),
                )
            } else {
                items[i]
            },
    )
}

/// The items of a page after the stage.
pub open spec fn code_page(items: Seq<Item>, body: i64) -> Seq<Item> {
    normalized(code_by_italics(code_by_content(items, body), body))
}

/// The document after the stage.
pub open spec fn detect_code_blocks(doc: Document) -> Document {
    Document {
        pages: Seq::new(
            doc.pages.len(),
            |p: int|
                PageView {
                    index: doc.pages[p].index,
                    items: code_page(doc.pages[p].items, doc.globals.most_used_height),
                },
        ),
        globals: doc.globals,
    }
}

/// The stage that finds code.
#[derive(Debug)]
pub struct DetectCodeBlocks {
    /// Whether the caller reports progress; the stage itself writes nothing,
    /// and its result does not depend on this.
    pub verbose: bool,
}

/// Whether a text, given with its lowercase form, holds an explicit sign of code.
pub fn l_has_explicit_code_indicators(text: &str, lower: &str) -> (b: bool)
    ensures
        b == has_explicit_code_indicators(text@, lower@),
{
    let t = chars_of(text);
    let l = chars_of(lower);
    contains_str(&l, "import ") || contains_str(&l, "from ") || contains_str(&l, "def ")
        || contains_str(&l, "async def ") || contains_str(&l, "class ") || contains_str(&l, "try:")
        || contains_str(&l, "except") || contains_str(&l, "return ") || contains_str(&l, "print(")
        || contains_str(&l, "@app.") || contains_str(&l, "await ") || contains_str(&l, "asyncio.")
        || contains_str(&l, "if __name__") || starts_with_str(&l, "@") || contains_char(&t, '{')
        || contains_char(&t, '}') || contains_char(&t, ';') || contains_str(&t, "=>")
        || contains_str(&t, " = ") || contains_str(&t, "):")
}

/// Whether the lowercase text holds a word that code often holds.
pub fn text_has_code_keywords(l: &Vec<char>) -> (b: bool)
    ensures
        b == has_code_keywords(l@),
{
    contains_str(l, "import ") || contains_str(l, "from ") || contains_str(l, "def ")
        || contains_str(l, "class ") || contains_str(l, "try:") || contains_str(l, "except")
        || contains_str(l, "return ") || contains_str(l, "print(") || contains_str(l, "if ")
        || contains_str(l, "for ") || contains_str(l, "while ") || contains_str(l, "with ")
}

/// Whether the text holds punctuation that code often holds.
pub fn text_has_code_symbols(t: &Vec<char>) -> (b: bool)
    ensures
        b == has_code_symbols(t@),
{
    contains_char(t, '{') || contains_char(t, '}') || contains_char(t, ';') || contains_str(t, "=>")
        || contains_str(t, " = ") || contains_str(t, " (") || contains_str(t, " [")
        || contains_str(t, "] ") || contains_str(t, "):") || contains_str(t, " # ")
}

/// Whether none of the fragments carries an emphasis.
pub fn items_are_unformatted(items: &Vec<TextItem>) -> (b: bool)
    ensures
        b == is_unformatted(items.deep_view()),
{
    let mut i: usize = 0;
    while i < items.len()
        invariant
            i <= items.len(),
            forall|j: int| 0 <= j < i ==> (#[trigger] items.deep_view()[j]).format is None,
        decreases items.len() - i,
    {
        if items[i].format.is_some() {
            assert(items.deep_view()[i as int].format == items@[i as int].format);
            return false;
        }
        i += 1;
    }
    true
}

/// Whether the line is more than one unit taller than the body size.
pub fn line_is_tall(line: &LineItem, body: i64) -> (b: bool)
    ensures
        b == is_tall(line.deep_view(), body),
{
    line.height as i128 > body as i128 + UNIT as i128
}

/// Whether a line with the given text and lowercase text may be code.
pub fn is_code_candidate(
    line: &LineItem,
    text: &Vec<char>,
    lower: &Vec<char>,
    margin: i64,
    body: i64,
) -> (b: bool)
    ensures
        b == code_candidate(line.deep_view(), text@, lower@, margin, body),
{
    if line_is_tall(line, body) || text_is_bold_wrapped(text) {
        return false;
    }
    let indented = line.x as i128 > margin as i128 + 2 * (UNIT as i128);
    if indented && (text_has_code_keywords(lower) || text_has_code_symbols(text) || (
    items_are_unformatted(&line.items) && text.len() > 0)) {
        return true;
    }
    let t = string_of(text);
    let l = string_of(lower);
    l_has_explicit_code_indicators(t.as_str(), l.as_str())
}

/// The left margin of a page.
pub fn page_left_margin(items: &Vec<ItemType>) -> (m: i64)
    ensures
        m == left_margin(items.deep_view()),
{
    let ghost dv = items.deep_view();
    let mut m: Option<i64> = None;
    let mut i: usize = 0;
    while i < items.len()
        invariant
            i <= items.len(),
            dv == items.deep_view(),
            m == left_margin_upto(dv, i as int),
        decreases items.len() - i,
    {
        match &items[i] {
            ItemType::LineItem(line) => {
                m = match m {
                    Some(v) => if line.x < v {
                        Some(line.x)
                    } else {
                        Some(v)
                    },
                    None => Some(line.x),
                };
            },
            _ => {},
        }
        i += 1;
    }
    match m {
        Some(v) => v,
        None => 0,
    }
}

/// Turns into code the lines whose flag is set.
pub fn mark_as_code(items: &mut Vec<ItemType>, flags: &Vec<bool>)
    requires
        flags.len() == old(items).len(),
    ensures
        final(items).len() == old(items).len(),
        forall|i: int|
            0 <= i < old(items).len() ==> (#[trigger] final(items).deep_view()[i]) == (if flags@[i] {
                as_code(old(items).deep_view()[i])
            } else {
                old(items).deep_view()[i]
            }),
{
    let ghost before = items.deep_view();
    let mut i: usize = 0;
    while i < items.len()
        invariant
            i <= items.len(),
            items.len() == before.len(),
            flags.len() == before.len(),
            forall|j: int|
                0 <= j < i ==> (#[trigger] items@[j]).deep_view() == (if flags@[j] {
                    as_code(before[j])
                } else {
                    before[j]
                }),
            forall|j: int| i <= j < before.len() ==> (#[trigger] items@[j]).deep_view() == before[j],
        decreases items.len() - i,
    {
        if flags[i] {
            match &mut items[i] {
                ItemType::LineItem(line) => {
                    line.block_type = BlockType::Code;
                },
                _ => {},
            }
        }
        i += 1;
    }
}

/// Finds code by content.
pub fn find_code_by_content(items: &mut Vec<ItemType>, body: i64)
    ensures
        final(items).deep_view() == code_by_content(old(items).deep_view(), body),
{
    let ghost dv = items.deep_view();
    let margin = page_left_margin(items);
    let mut marks: Vec<Mark> = Vec::new();
    let mut signs: Vec<bool> = Vec::new();
    let mut i: usize = 0;
    while i < items.len()
        invariant
            i <= items.len(),
            dv == items.deep_view(),
            marks.len() == i,
            signs.len() == i,
            forall|j: int| 0 <= j < i ==> marks@[j] == content_mark(dv[j], margin, body),
            forall|j: int|
                0 <= j < i && dv[j] is Line ==> signs@[j] == line_has_indicators(dv[j]->Line_0),
        decreases items.len() - i,
    {
        match &items[i] {
            ItemType::LineItem(line) => {
                let text = line_text(&line.items);
                let lower = to_lower(&text);
                if is_code_candidate(line, &text, &lower, margin, body) {
                    marks.push(Mark::Yes);
                } else {
                    marks.push(Mark::No);
                }
                let t = string_of(&text);
                let l = string_of(&lower);
                signs.push(l_has_explicit_code_indicators(t.as_str(), l.as_str()));
            },
            _ => {
                marks.push(Mark::Skip);
                signs.push(false);
            },
        }
        i += 1;
    }
    let runs = run_flags(&marks);
    let mut flags: Vec<bool> = Vec::new();
    let mut k: usize = 0;
    while k < items.len()
        invariant
            k <= items.len(),
            dv == items.deep_view(),
            marks@ == content_marks(dv, body),
            marks.len() == items.len(),
            signs.len() == items.len(),
            runs.len() == items.len(),
            flags.len() == k,
            forall|j: int| 0 <= j < items.len() ==> runs@[j] == in_run(marks@, j),
            forall|j: int|
                0 <= j < items.len() && dv[j] is Line ==> signs@[j] == line_has_indicators(
                    dv[j]->Line_0,
                ),
            forall|j: int|
                0 <= j < k ==> flags@[j] == (marks@[j] == Mark::Yes && (in_run(marks@, j)
                    || line_has_indicators(dv[j]->Line_0))),
        decreases items.len() - k,
    {
        flags.push(marks[k] == Mark::Yes && (runs[k] || signs[k]));
        k += 1;
    }
    mark_as_code(items, &flags);
}

/// Whether the line is set in italics.
pub fn line_is_italic(line: &LineItem, body: i64) -> (b: bool)
    ensures
        b == is_italic_line(line.deep_view(), body),
{
    if line_is_tall(line, body) {
        return false;
    }
    if all_italic(&line.items) {
        return true;
    }
    let text = line_text(&line.items);
    text_is_wrapped_in(&text, '_') || text_is_wrapped_in(&text, '*')
}

/// Finds code by runs of italic lines.
pub fn find_code_by_italics(items: &mut Vec<ItemType>, body: i64)
    ensures
        final(items).deep_view() == code_by_italics(old(items).deep_view(), body),
{
    let ghost dv = items.deep_view();
    let mut marks: Vec<Mark> = Vec::new();
    let mut i: usize = 0;
    while i < items.len()
        invariant
            i <= items.len(),
            dv == items.deep_view(),
            marks.len() == i,
            forall|j: int| 0 <= j < i ==> marks@[j] == italic_mark(dv[j], body),
        decreases items.len() - i,
    {
        match &items[i] {
            ItemType::LineItem(line) => {
                if line.block_type == BlockType::Code {
                    marks.push(Mark::Skip);
                } else if line_is_italic(line, body) {
                    marks.push(Mark::Yes);
                } else {
                    marks.push(Mark::No);
                }
            },
            _ => {
                marks.push(Mark::Skip);
            },
        }
        i += 1;
    }
    assert(marks@ =~= italic_marks(dv, body));
    let runs = run_flags(&marks);
    mark_as_code(items, &runs);
}

/// Writes the indentation of a line out as spaces.
pub fn indent_line(line: &mut LineItem, min_x: i64)
    ensures
        final(line).deep_view() == indented(old(line).deep_view(), min_x),
{
    let delta: i128 = line.x as i128 - min_x as i128;
    if delta > 2 * (UNIT as i128) && line.items.len() > 0 {
        let n: u64 = ((delta + 2 * (UNIT as i128)) / (4 * (UNIT as i128))) as u64;
        let ghost before = line.items.deep_view();
        let mut text = repeat_of(" ", n);
        let old_text = chars_of(line.items[0].text.as_str());
        append_chars(&mut text, &old_text);
        line.items[0].text = string_of(&text);
        assert(line.items.deep_view() =~= before.update(
            0,
            Fragment { text: repeat(" "@, n as nat) + before[0].text, ..before[0] },
        ));
    }
}

/// Over a range of indices the smallest left edge is that of the lines in the range.
pub proof fn lemma_min_x_range(
    items: Seq<Item>,
    orig: Seq<Item>,
    indices: Seq<usize>,
    start: int,
    n: int,
)
    requires
        1 <= n <= indices.len(),
        0 <= start,
        start + n <= items.len(),
        items.len() == orig.len(),
        forall|k: int| 0 <= k < n ==> #[trigger] indices[k] == start + k,
        forall|j: int| start <= j < start + n ==> #[trigger] items[j] == orig[j],
        forall|j: int| start <= j < start + n ==> (#[trigger] orig[j]) is Line,
    ensures
        min_x_upto(items, indices, n) == Some(min_x_between(orig, start, start + n)),
    decreases n,
{
    if n > 1 {
        lemma_min_x_range(items, orig, indices, start, n - 1);
    } else {
        assert(min_x_upto(items, indices, 0) is None);
    }
}

/// Indenting over a range of indices indents each item of the range once.
pub proof fn lemma_indent_range(items: Seq<Item>, indices: Seq<usize>, start: int, n: int, m: i64)
    requires
        0 <= n <= indices.len(),
        0 <= start,
        start + n <= items.len(),
        forall|k: int| 0 <= k < n ==> #[trigger] indices[k] == start + k,
    ensures
        indented_upto(items, indices, n, m).len() == items.len(),
        forall|j: int|
            0 <= j < items.len() ==> #[trigger] indented_upto(items, indices, n, m)[j] == (if start
                <= j < start + n {
                indent_item(items[j], m)
            } else {
                items[j]
            }),
    decreases n,
{
    if n > 0 {
        lemma_indent_range(items, indices, start, n - 1, m);
    }
}

/// Within a run of code that starts at `start`, every line's block starts there.
pub proof fn lemma_run_start(items: Seq<Item>, start: int, j: int)
    requires
        0 <= start <= j < items.len(),
        start == 0 || !is_code_line(items[start - 1]),
        forall|k: int| start <= k <= j ==> is_code_line(#[trigger] items[k]),
    ensures
        run_start(items, j) == start,
    decreases j - start,
{
    if j > start {
        lemma_run_start(items, start, j - 1);
    }
}

/// Within a run of code that ends before `end`, every line's block ends there.
pub proof fn lemma_run_end(items: Seq<Item>, end: int, j: int)
    requires
        0 <= j < end <= items.len(),
        end == items.len() || !is_code_line(items[end]),
        forall|k: int| j <= k < end ==> is_code_line(#[trigger] items[k]),
    ensures
        run_end(items, j) == end,
    decreases end - j,
{
    if j + 1 < end {
        lemma_run_end(items, end, j + 1);
    }
}

impl DetectCodeBlocks {
    /// Indents the lines at the given indices relative to the leftmost of
    /// them. Indices of items that are not lines are passed over.
    pub fn normalize_indentation(items: &mut Vec<ItemType>, indices: &Vec<usize>)
        requires
            forall|k: int| 0 <= k < indices.len() ==> #[trigger] indices@[k] < old(items).len(),
        ensures
            final(items).deep_view() == with_indentation(old(items).deep_view(), indices@),
    {
        let ghost before = items.deep_view();
        let mut min_x: Option<i64> = None;
        let mut k: usize = 0;
        while k < indices.len()
            invariant
                k <= indices.len(),
                before == items.deep_view(),
                forall|j: int| 0 <= j < indices.len() ==> #[trigger] indices@[j] < items.len(),
                min_x == min_x_upto(before, indices@, k as int),
            decreases indices.len() - k,
        {
            let idx = indices[k];
            match &items[idx] {
                ItemType::LineItem(line) => {
                    min_x = match min_x {
                        Some(v) => if line.x < v {
                            Some(line.x)
                        } else {
                            Some(v)
                        },
                        None => Some(line.x),
                    };
                },
                _ => {},
            }
            k += 1;
        }
        let m = match min_x {
            Some(v) => v,
            None => {
                return;
            },
        };
        let mut n: usize = 0;
        while n < indices.len()
            invariant
                n <= indices.len(),
                items.len() == before.len(),
                forall|j: int| 0 <= j < indices.len() ==> #[trigger] indices@[j] < items.len(),
                items.deep_view() == indented_upto(before, indices@, n as int, m),
            decreases indices.len() - n,
        {
            let idx = indices[n];
            match &mut items[idx] {
                ItemType::LineItem(line) => {
                    indent_line(line, m);
                },
                _ => {},
            }
            n += 1;
        }
    }

    /// Indents every block of code relative to its leftmost line.
    pub fn normalize_blocks(items: &mut Vec<ItemType>)
        ensures
            final(items).deep_view() == normalized(old(items).deep_view()),
    {
        let ghost orig = items.deep_view();
        let mut indices: Vec<usize> = Vec::new();
        let mut start: usize = 0;
        let mut idx: usize = 0;
        while idx < items.len()
            invariant
                start <= idx <= items.len(),
                items.len() == orig.len(),
                indices.len() == idx - start,
                forall|k: int| 0 <= k < indices.len() ==> #[trigger] indices@[k] == start + k,
                forall|j: int| start <= j < idx ==> is_code_line(#[trigger] orig[j]),
                start == 0 || !is_code_line(orig[start - 1]),
                forall|j: int| 0 <= j < start ==> (#[trigger] items@[j]).deep_view() == normalized(
                    orig,
                )[j],
                forall|j: int|
                    start <= j < orig.len() ==> (#[trigger] items@[j]).deep_view() == orig[j],
            decreases items.len() - idx,
        {
            let is_code = match &items[idx] {
                ItemType::LineItem(line) => line.block_type == BlockType::Code,
                _ => false,
            };
            if is_code {
                indices.push(idx);
            } else {
                if indices.len() > 0 {
                    Self::finish_block(items, &indices, Ghost(orig), start, idx);
                    indices.clear();
                }
                start = idx + 1;
            }
            idx += 1;
        }
        if indices.len() > 0 {
            Self::finish_block(items, &indices, Ghost(orig), start, idx);
            start = idx;
        }
        assert forall|j: int| 0 <= j < orig.len() implies #[trigger] items.deep_view()[j]
            == normalized(orig)[j] by {}
    }

    /// Indents the block of code that fills the items from `start` up to `end`.
    fn finish_block(
        items: &mut Vec<ItemType>,
        indices: &Vec<usize>,
        Ghost(orig): Ghost<Seq<Item>>,
        start: usize,
        end: usize,
    )
        requires
            start < end <= old(items).len(),
            old(items).len() == orig.len(),
            indices.len() == end - start,
            forall|k: int| 0 <= k < indices.len() ==> #[trigger] indices@[k] == start + k,
            forall|j: int| start <= j < end ==> is_code_line(#[trigger] orig[j]),
            start == 0 || !is_code_line(orig[start - 1]),
            end == orig.len() || !is_code_line(orig[end as int]),
            forall|j: int|
                start <= j < orig.len() ==> (#[trigger] old(items)@[j]).deep_view() == orig[j],
        ensures
            final(items).len() == old(items).len(),
            forall|j: int|
                0 <= j < start ==> (#[trigger] final(items)@[j]).deep_view() == old(
                    items,
                )@[j].deep_view(),
            forall|j: int|
                start <= j < end ==> (#[trigger] final(items)@[j]).deep_view() == normalized(
                    orig,
                )[j],
            forall|j: int|
                end <= j < orig.len() ==> (#[trigger] final(items)@[j]).deep_view() == orig[j],
    {
        let ghost before = items.deep_view();
        proof {
            lemma_min_x_range(before, orig, indices@, start as int, end - start);
            lemma_indent_range(
                before,
                indices@,
                start as int,
                end - start,
                min_x_between(orig, start as int, end as int),
            );
            assert forall|j: int| start <= j < end implies run_start(orig, j) == start && run_end(
                orig,
                j,
            ) == end by {
                lemma_run_start(orig, start as int, j);
                lemma_run_end(orig, end as int, j);
            }
        }
        Self::normalize_indentation(items, indices);
        proof {
            assert forall|j: int| 0 <= j < orig.len() implies (#[trigger] items@[j]).deep_view()
                == items.deep_view()[j] by {}
            assert forall|j: int| 0 <= j < orig.len() implies (#[trigger] old(items)@[j]).deep_view()
                == before[j] by {}
        }
    }
}

impl Transformation for DetectCodeBlocks {
    /// On every page, turns into code the lines that their content or a run
    /// of italics shows to be code, and indents each block of code.
    fn transform(&self, result: &mut ParseResult)
        ensures
            final(result).deep_view() == detect_code_blocks(old(result).deep_view()),
    {
        let ghost doc = result.deep_view();
        let body = result.globals.most_used_height;
        let mut p: usize = 0;
        while p < result.pages.len()
            invariant
                p <= result.pages.len(),
                result.pages.len() == doc.pages.len(),
                result.globals.deep_view() == doc.globals,
                body == doc.globals.most_used_height,
                forall|j: int|
                    0 <= j < p ==> (#[trigger] result.pages@[j]).deep_view() == detect_code_blocks(
                        doc,
                    ).pages[j],
                forall|j: int|
                    p <= j < doc.pages.len() ==> (#[trigger] result.pages@[j]).deep_view()
                        == doc.pages[j],
            decreases result.pages.len() - p,
        {
            let ghost prev = result.pages@;
            find_code_by_content(&mut result.pages[p].items, body);
            find_code_by_italics(&mut result.pages[p].items, body);
            DetectCodeBlocks::normalize_blocks(&mut result.pages[p].items);
            proof {
                assert forall|j: int| 0 <= j < prev.len() && j != p implies result.pages@[j]
                    == prev[j] by {}
            }
            p += 1;
        }
        assert(result.deep_view().pages =~= detect_code_blocks(doc).pages);
    }
}

} // verus!
