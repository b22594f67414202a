//! Rendering the classified lines of each page as Markdown.

use vstd::prelude::*;
use crate::transformations::common::Transformation;
use crate::models::{
    BlockType, Document, Fragment, Item, ItemType, Line, LineItem, PageView, ParseResult, TextItem,
    WordFormat, all_formatted, all_bold,
};
use crate::text::{
    CharClass, trim, trim_of, strip_both, strip_both_of, chars_of, string_of, is_digit,
    is_digit_char,
};
use crate::pattern::{ends_with, has_char, remove_all, ends_with_str, contains_char, remove_all_str};
use crate::words::{
    words, join, repeat, views, words_of, join_of, repeat_of, append_chars, append_str,
};
use crate::units::{dist, distance};

verus! {

/// The texts of the fragments.
pub open spec fn texts(items: Seq<Fragment>) -> Seq<Seq<char>> {
    Seq::new(items.len(), |i: int| items[i].text)
}

/// The words of the first `n` fragments, in order.
pub open spec fn all_words_upto(items: Seq<Fragment>, n: int) -> Seq<Seq<char>>
    decreases n,
{
    if n <= 0 {
        Seq::empty()
    } else {
        all_words_upto(items, n - 1) + words(items[n - 1].text)
    }
}

/// The texts of the fragments with one space between each two: white space
/// inside a fragment stays as it is.
pub open spec fn spaced_text(items: Seq<Fragment>) -> Seq<char> {
    join(texts(items), " "@)
}

/// The words of all fragments with one space between each two.
pub open spec fn flowing_text(items: Seq<Fragment>) -> Seq<char> {
    join(all_words_upto(items, items.len() as int), " "@)
}

/// The text of a line as it is rendered: entries of a table of contents and
/// code keep their white space, every other line is set word by word.
pub open spec fn shown_text(line: Line) -> Seq<char> {
    if line.block_type is TocItem || line.block_type is Code {
        spaced_text(line.items)
    } else {
        flowing_text(line.items)
    }
}

/// A text without the marks of emphasis `**` and `_`.
pub open spec fn unmarked(text: Seq<char>) -> Seq<char> {
    remove_all(remove_all(text, "**"@), "_"@)
}

/// Whether a word is a numbering such as `1.` or `10.2.`: digits and dots
/// only, with at least one dot.
pub open spec fn is_numbering(word: Seq<char>) -> bool {
    has_char(word, '.') && forall|i: int|
        0 <= i < word.len() ==> is_digit(#[trigger] word[i]) || word[i] == '.'
}

/// The Markdown of an entry of a table of contents at the given level:
/// three spaces of indentation per level, then the entry with its own
/// numbering as the marker, or behind a dash where it has none.
pub open spec fn toc_markdown(text: Seq<char>, level: usize) -> Seq<char> {
    let normalized = join(words(trim(unmarked(text))), " "@);
    let ws = words(normalized);
    if ws.len() > 0 && is_numbering(ws[0]) {
        repeat("   "@, level as nat) + normalized + "\n"@
    } else {
        repeat("   "@, level as nat) + "- "@ + normalized + "\n"@
    }
}

/// The Markdown of a line by its role.
pub open spec fn line_markdown(line: Line) -> Seq<char> {
    let text = shown_text(line);
    match line.block_type {
        BlockType::ListItem => "- "@ + text + "\n"@,
        BlockType::TocItem(level) => toc_markdown(text, level),
        BlockType::Code => "\t"@ + strip_both(text, CharClass::Emphasis) + "\n"@,
        BlockType::Paragraph => text + "\n"@,
        BlockType::Footnote => text + "\n"@,
        _ => repeat("#"@, line.block_type.heading_level()) + " "@ + unmarked(text) + "\n\n"@,
    }
}

/// What has been rendered of a page, and what the next line needs to know.
pub ghost struct RenderState {
    /// The Markdown so far.
    pub out: Seq<char>,
    /// Whether a code fence is open.
    pub in_code: bool,
    /// Vertical position of the last line; a value that is not positive
    /// says that there was none.
    pub last_y: i64,
    /// Whether the last item was a heading.
    pub after_heading: bool,
}

/// The position that says that no line came before: one unit above zero.
pub const NO_LINE: i64 = -1000;

/// The state before the first item.
pub open spec fn render_start() -> RenderState {
    RenderState { out: Seq::empty(), in_code: false, last_y: NO_LINE, after_heading: false }
}

/// Whether a line is set inside a code fence: code that is not bold throughout.
pub open spec fn is_fenced(line: Line) -> bool {
    line.block_type is Code && !all_formatted(line.items, WordFormat::Bold, WordFormat::BoldItalic)
}

/// Whether two lines are more than 1.2 pitches apart.
pub open spec fn is_paragraph_gap(a: i64, b: i64, pitch: i64) -> bool {
    5 * dist(a, b) > 6 * pitch
}

/// The Markdown with the line ends that stand before a line: one where the
/// gap to the line before is that of a new paragraph, and a blank line
/// before a heading.
pub open spec fn with_spacing(s: RenderState, line: Line, pitch: i64) -> Seq<char> {
    let a = if s.last_y > 0 && !s.after_heading && is_paragraph_gap(s.last_y, line.y, pitch) {
        s.out + "\n"@
    } else {
        s.out
    };
    if s.last_y > 0 && line.block_type.is_heading() && !ends_with(a, "\n\n"@) {
        if ends_with(a, "\n"@) {
            a + "\n"@
        } else {
            a + "\n\n"@
        }
    } else {
        a
    }
}

/// The Markdown with a code fence opened or closed as the next item needs it.
pub open spec fn with_fence(out: Seq<char>, in_code: bool, fenced: bool) -> Seq<char> {
    if fenced && !in_code {
        out + "```\n"@
    } else if !fenced && in_code {
        out + "```\n\n"@
    } else {
        out
    }
}

/// The state after one more item.
pub open spec fn render_step(s: RenderState, item: Item, pitch: i64) -> RenderState {
    match item {
        Item::Line(line) => RenderState {
            out: with_fence(with_spacing(s, line, pitch), s.in_code, is_fenced(line))
                + line_markdown(line),
            in_code: is_fenced(line),
            last_y: line.y,
            after_heading: line.block_type.is_heading(),
        },
        Item::Fragment(f) => RenderState {
            out: with_fence(s.out, s.in_code, false) + f.text + "\n"@,
            in_code: false,
            last_y: s.last_y,
            after_heading: false,
        },
        Item::Markdown(_) => RenderState {
            out: with_fence(s.out, s.in_code, false),
            in_code: false,
            ..s
        },
    }
}

/// The state after the first `n` items.
pub open spec fn render_upto(items: Seq<Item>, n: int, pitch: i64) -> RenderState
    decreases n,
{
    if n <= 0 {
        render_start()
    } else {
        render_step(render_upto(items, n - 1, pitch), items[n - 1], pitch)
    }
}

/// The Markdown of a page: that of its items, with the last fence closed.
pub open spec fn render_page(items: Seq<Item>, pitch: i64) -> Seq<char> {
    let s = render_upto(items, items.len() as int, pitch);
    with_fence(s.out, s.in_code, false)
}

/// The document after the stage: each page holds its Markdown and nothing else.
pub open spec fn to_markdown(doc: Document) -> Document {
    Document {
        pages: Seq::new(
            doc.pages.len(),
            |p: int|
                PageView {
                    index: doc.pages[p].index,
                    items: seq![
                        Item::Markdown(
                            render_page(doc.pages[p].items, doc.globals.most_used_distance),
                        ),
                    ],
                },
        ),
        globals: doc.globals,
    }
}

/// The stage that renders Markdown.
#[derive(Debug)]
pub struct ToMarkdown {
    /// Whether the caller reports progress; the stage itself writes nothing,
    /// and its result does not depend on this.
    pub verbose: bool,
}

/// The texts of the fragments with one space between each two.
pub fn line_spaced_text(items: &Vec<TextItem>) -> (r: Vec<char>)
    ensures
        r@ == spaced_text(items.deep_view()),
{
    let mut ts: Vec<Vec<char>> = Vec::new();
    let mut i: usize = 0;
    while i < items.len()
        invariant
            i <= items.len(),
            ts.len() == i,
            forall|j: int| 0 <= j < i ==> (#[trigger] ts@[j])@ == items@[j].text@,
        decreases items.len() - i,
    {
        ts.push(chars_of(items[i].text.as_str()));
        i += 1;
    }
    assert(views(ts@) =~= texts(items.deep_view()));
    join_of(&ts, " ")
}

/// The words of all fragments with one space between each two.
pub fn line_flowing_text(items: &Vec<TextItem>) -> (r: Vec<char>)
    ensures
        r@ == flowing_text(items.deep_view()),
{
    let mut ws: Vec<Vec<char>> = Vec::new();
    let mut i: usize = 0;
    while i < items.len()
        invariant
            i <= items.len(),
            views(ws@) == all_words_upto(items.deep_view(), i as int),
        decreases items.len() - i,
    {
        let text = chars_of(items[i].text.as_str());
        let mut found = words_of(&text);
        ws.append(&mut found);
        i += 1;
    }
    join_of(&ws, " ")
}

/// The text of a line as it is rendered.
pub fn line_shown_text(line: &LineItem) -> (r: Vec<char>)
    ensures
        r@ == shown_text(line.deep_view()),
{
    match line.block_type {
        BlockType::TocItem(_) => line_spaced_text(&line.items),
        BlockType::Code => line_spaced_text(&line.items),
        _ => line_flowing_text(&line.items),
    }
}

/// The text without the marks of emphasis.
pub fn unmark(text: &Vec<char>) -> (r: Vec<char>)
    ensures
        r@ == unmarked(text@),
{
    let a = remove_all_str(text, "**");
    remove_all_str(&a, "_")
}

/// Whether the word is a numbering such as `1.` or `10.2.`.
pub fn word_is_numbering(word: &Vec<char>) -> (b: bool)
    ensures
        b == is_numbering(word@),
{
    if !contains_char(word, '.') {
        return false;
    }
    let mut i: usize = 0;
    while i < word.len()
        invariant
            i <= word.len(),
            forall|j: int| 0 <= j < i ==> is_digit(#[trigger] word@[j]) || word@[j] == '.',
        decreases word.len() - i,
    {
        if !(is_digit_char(word[i]) || word[i] == '.') {
            return false;
        }
        i += 1;
    }
    true
}

/// The Markdown of an entry of a table of contents.
pub fn render_toc_entry(text: &Vec<char>, level: usize) -> (r: Vec<char>)
    ensures
        r@ == toc_markdown(text@, level),
{
    let clean = trim_of(&unmark(text));
    let normalized = join_of(&words_of(&clean), " ");
    let ws = words_of(&normalized);
    let mut r = repeat_of("   ", level as u64);
    let numbered = if ws.len() > 0 {
        word_is_numbering(&ws[0])
    } else {
        false
    };
    if !numbered {
        append_str(&mut r, "- ");
    }
    append_chars(&mut r, &normalized);
    append_str(&mut r, "\n");
    r
}

/// The Markdown of a line.
pub fn render_line(line: &LineItem) -> (r: Vec<char>)
    ensures
        r@ == line_markdown(line.deep_view()),
{
    let text = line_shown_text(line);
    match line.block_type {
        BlockType::ListItem => {
            let mut r = chars_of("- ");
            append_chars(&mut r, &text);
            append_str(&mut r, "\n");
            r
        },
        BlockType::TocItem(level) => render_toc_entry(&text, level),
        BlockType::Code => {
            let mut r = chars_of("\t");
            append_chars(&mut r, &strip_both_of(&text, CharClass::Emphasis));
            append_str(&mut r, "\n");
            r
        },
        BlockType::Paragraph => {
            let mut r = text;
            append_str(&mut r, "\n");
            r
        },
        BlockType::Footnote => {
            let mut r = text;
            append_str(&mut r, "\n");
            r
        },
        _ => {
            let mut r = repeat_of("#", line.block_type.level());
            append_str(&mut r, " ");
            append_chars(&mut r, &unmark(&text));
            append_str(&mut r, "\n\n");
            r
        },
    }
}

/// Opens or closes the code fence as the next item needs it.
pub fn set_fence(out: &mut Vec<char>, in_code: bool, fenced: bool)
    ensures
        final(out)@ == with_fence(old(out)@, in_code, fenced),
{
    if fenced && !in_code {
        append_str(out, "```\n");
    } else if !fenced && in_code {
        append_str(out, "```\n\n");
    }
}

/// The Markdown of a page.
pub fn render_items(items: &Vec<ItemType>, pitch: i64) -> (r: Vec<char>)
    ensures
        r@ == render_page(items.deep_view(), pitch),
{
    let ghost dv = items.deep_view();
    let mut out: Vec<char> = Vec::new();
    let mut in_code = false;
    let mut last_y: i64 = NO_LINE;
    let mut after_heading = false;
    let mut i: usize = 0;
    while i < items.len()
        invariant
            i <= items.len(),
            dv == items.deep_view(),
            render_upto(dv, i as int, pitch) == (RenderState {
                out: out@,
                in_code: in_code,
                last_y: last_y,
                after_heading: after_heading,
            }),
        decreases items.len() - i,
    {
        match &items[i] {
            ItemType::LineItem(line) => {
                let fenced = match line.block_type {
                    BlockType::Code => !all_bold(&line.items),
                    _ => false,
                };
                let heading = line.block_type.is_header();
                if last_y > 0 && !after_heading && 5 * distance(last_y, line.y) > 6 * (pitch as i128) {
                    append_str(&mut out, "\n");
                }
                if last_y > 0 && heading && !ends_with_str(&out, "\n\n") {
                    if ends_with_str(&out, "\n") {
                        append_str(&mut out, "\n");
                    } else {
                        append_str(&mut out, "\n\n");
                    }
                }
                set_fence(&mut out, in_code, fenced);
                append_chars(&mut out, &render_line(line));
                in_code = fenced;
                last_y = line.y;
                after_heading = heading;
            },
            ItemType::TextItem(t) => {
                set_fence(&mut out, in_code, false);
                append_str(&mut out, t.text.as_str());
                append_str(&mut out, "\n");
                in_code = false;
                after_heading = false;
            },
            ItemType::Markdown(_) => {
                set_fence(&mut out, in_code, false);
                in_code = false;
            },
        }
        i += 1;
    }
    set_fence(&mut out, in_code, false);
    out
}

impl Transformation for ToMarkdown {
    /// Replaces the items of every page by the Markdown that renders them.
    fn transform(&self, result: &mut ParseResult)
        ensures
            final(result).deep_view() == to_markdown(old(result).deep_view()),
    {
        let ghost doc = result.deep_view();
        let pitch = result.globals.most_used_distance;
        let mut p: usize = 0;
        while p < result.pages.len()
            invariant
                p <= result.pages.len(),
                result.pages.len() == doc.pages.len(),
                result.globals.deep_view() == doc.globals,
                pitch == doc.globals.most_used_distance,
                forall|j: int|
                    0 <= j < p ==> (#[trigger] result.pages@[j]).deep_view() == to_markdown(
                        doc,
                    ).pages[j],
                forall|j: int|
                    p <= j < doc.pages.len() ==> (#[trigger] result.pages@[j]).deep_view()
                        == doc.pages[j],
            decreases result.pages.len() - p,
        {
            let ghost prev = result.pages@;
            let markdown = render_items(&result.pages[p].items, pitch);
            let mut items: Vec<ItemType> = Vec::new();
            items.push(ItemType::Markdown(string_of(&markdown)));
            assert(items.deep_view() =~= seq![Item::Markdown(markdown@)]);
            result.pages[p].items = items;
            proof {
                assert forall|j: int| 0 <= j < prev.len() && j != p implies result.pages@[j]
                    == prev[j] by {}
            }
            p += 1;
        }
        assert(result.deep_view().pages =~= to_markdown(doc).pages);
    }
}

} // verus!
