//! Classifying lines as headings by font size, emphasis, case and isolation.

use vstd::prelude::*;
use crate::transformations::common::Transformation;
use crate::models::{
    BlockType, Document, Fragment, GlobalStats, Item, ItemType, Line, LineItem, PageView, Page,
    ParseResult, Stats, TextItem, WordFormat, UNIT, text_of, line_text, max_font_size,
    line_font_size, all_formatted, all_bold,
};
use crate::text::{trim, trim_of, chars_of, string_of, subvec};
use crate::pattern::{
    starts_with, ends_with, has_char, starts_with_chars, occurs_at_pos, contains_char,
};
use crate::unicode::{
    unicode_alphabetic, unicode_uppercase, unicode_numeric, alpha_count, count_alphabetic,
};
use crate::units::{dist, distance};
use crate::markup::{bold_mark, bold_mark_chars, is_bold_wrapped, text_is_bold_wrapped};
use crate::sorting::{sorted, sort_values};

verus! {

/// Whether the text, trimmed, starts like a list item: with `-`, with `*`,
/// or with a number where a dot follows somewhere.
pub open spec fn is_list_shaped(text: Seq<char>) -> bool {
    let t = trim(text);
    t.len() > 0 && (t[0] == '-' || t[0] == '*' || (unicode_numeric(t[0]) && has_char(t, '.')))
}

/// Whether the text has letters and all of them are upper case.
pub open spec fn is_all_caps(text: Seq<char>) -> bool {
    alpha_count(text) > 0 && forall|i: int|
        0 <= i < text.len() ==> !unicode_alphabetic(#[trigger] text[i]) || unicode_uppercase(
            text[i],
        )
}

/// Whether `h` is within one unit of one of the sizes.
pub open spec fn near_size(sizes: Seq<i64>, h: i64) -> bool {
    exists|k: int| 0 <= k < sizes.len() && dist(#[trigger] sizes[k], h) < UNIT
}

/// Whether a size is more than 1.01 times the body size.
pub open spec fn above_body(h: i64, body: i64) -> bool {
    100 * h > 101 * body
}

/// Whether a size is at least 1.01 times the body size.
pub open spec fn at_least_heading(h: i64, body: i64) -> bool {
    100 * h >= 101 * body
}

/// The heading sizes `acc` together with those of the first `n` items: the
/// size of each line that is above the body size and not shaped like a
/// list item, unless it is near a size already kept.
pub open spec fn sizes_upto(acc: Seq<i64>, items: Seq<Item>, n: int, body: i64) -> Seq<i64>
    decreases n,
{
    if n <= 0 {
        acc
    } else {
        let r = sizes_upto(acc, items, n - 1, body);
        match items[n - 1] {
            Item::Line(line) => {
                let h = max_font_size(line.items);
                if above_body(h, body) && !is_list_shaped(text_of(line.items)) && !near_size(r, h) {
                    r.push(h)
                } else {
                    r
                }
            },
            _ => r,
        }
    }
}

/// The heading sizes of the first `n` pages, in order of appearance.
pub open spec fn page_sizes_upto(pages: Seq<PageView>, n: int, body: i64) -> Seq<i64>
    decreases n,
{
    if n <= 0 {
        Seq::empty()
    } else {
        sizes_upto(
            page_sizes_upto(pages, n - 1, body),
            pages[n - 1].items,
            pages[n - 1].items.len() as int,
            body,
        )
    }
}

/// The heading ladder of a document: its distinct heading sizes, largest first.
pub open spec fn ladder(doc: Document) -> Seq<i64> {
    sorted(page_sizes_upto(doc.pages, doc.pages.len() as int, doc.globals.most_used_height), true)
}

/// Index of the first of the first `n` values that is nearer to `v` than `tolerance`.
pub open spec fn first_near_upto(values: Seq<i64>, v: i64, tolerance: int, n: int) -> Option<int>
    decreases n,
{
    if n <= 0 {
        None
    } else {
        match first_near_upto(values, v, tolerance, n - 1) {
            Some(k) => Some(k),
            None => if dist(values[n - 1], v) < tolerance {
                Some(n - 1)
            } else {
                None
            },
        }
    }
}

/// Index of the first value that is nearer to `v` than `tolerance`.
pub open spec fn first_near(values: Seq<i64>, v: i64, tolerance: int) -> Option<int> {
    first_near_upto(values, v, tolerance, values.len() as int)
}

/// Whether one of the first `n` items is a line as large as the largest
/// size of the document, to within half a unit.
pub open spec fn has_title_upto(items: Seq<Item>, n: int, max: i64) -> bool
    decreases n,
{
    if n <= 0 {
        false
    } else {
        has_title_upto(items, n - 1, max) || match items[n - 1] {
            Item::Line(line) => 2 * dist(max_font_size(line.items), max) < UNIT,
            _ => false,
        }
    }
}

/// A page is a title page if one of its lines is as large as the largest
/// size of the document.
pub open spec fn is_title_page(items: Seq<Item>, max: i64) -> bool {
    has_title_upto(items, items.len() as int, max)
}

/// The vertical positions of the lines among the first `n` items.
pub open spec fn line_ys_upto(items: Seq<Item>, n: int) -> Seq<i64>
    decreases n,
{
    if n <= 0 {
        Seq::empty()
    } else {
        match items[n - 1] {
            Item::Line(line) => line_ys_upto(items, n - 1).push(line.y),
            _ => line_ys_upto(items, n - 1),
        }
    }
}

/// The vertical positions of the lines of a page.
pub open spec fn line_ys(items: Seq<Item>) -> Seq<i64> {
    line_ys_upto(items, items.len() as int)
}

/// The heading at ladder position `pos`: the second level for the top rung,
/// one level down for each rung below it, and the sixth level from the
/// fifth rung on.
pub open spec fn rung_level(pos: int) -> BlockType {
    if pos <= 0 {
        BlockType::H2
    } else if pos == 1 {
        BlockType::H3
    } else if pos == 2 {
        BlockType::H4
    } else if pos == 3 {
        BlockType::H5
    } else {
        BlockType::H6
    }
}

/// The role that its size gives a paragraph line. On a title page a line of
/// the largest size is the title, and one that is a quarter of the way from
/// the body size to the largest is a second-level heading; otherwise the
/// ladder decides.
pub open spec fn role_by_size(line: Line, title: bool, rungs: Seq<i64>, stats: Stats) -> BlockType {
    let h = max_font_size(line.items);
    let body = stats.most_used_height;
    let max = stats.max_height;
    if line.block_type != BlockType::Paragraph {
        line.block_type
    } else if title && dist(h, max) < UNIT {
        BlockType::H1
    } else if title && 4 * h >= 3 * body + max {
        BlockType::H2
    } else if at_least_heading(h, body) {
        match first_near(rungs, h, UNIT as int) {
            Some(pos) => rung_level(pos),
            None => BlockType::Paragraph,
        }
    } else {
        BlockType::Paragraph
    }
}

/// Place of a line among the lines of its page, found by its vertical
/// position to within a tenth of a unit; 0 where none is that near.
pub open spec fn line_place(ys: Seq<i64>, y: i64) -> int {
    match first_near(ys, y, 100) {
        Some(k) => k,
        None => 0,
    }
}

/// Whether the line before is at least one and a half pitches away.
pub open spec fn isolated_above(ys: Seq<i64>, y: i64, pitch: i64) -> bool {
    let pos = line_place(ys, y);
    !(pos > 0 && 2 * dist(ys[pos - 1], y) < 3 * pitch)
}

/// Whether the lines before and after are at least one and a half pitches away.
pub open spec fn isolated(ys: Seq<i64>, y: i64, pitch: i64) -> bool {
    let pos = line_place(ys, y);
    isolated_above(ys, y, pitch) && !(pos + 1 < ys.len() && 2 * dist(y, ys[pos + 1]) < 3 * pitch)
}

/// The fragments without the bold mark at the start of the first and at the
/// end of the last.
pub open spec fn without_bold(items: Seq<Fragment>) -> Seq<Fragment> {
    let a = if items.len() > 0 && starts_with(items[0].text, bold_mark()) {
        items.update(0, Fragment { text: items[0].text.skip(2), ..items[0] })
    } else {
        items
    };
    if a.len() > 0 && ends_with(a.last().text, bold_mark()) {
        a.update(
            a.len() - 1,
            Fragment { text: a.last().text.take(a.last().text.len() - 2), ..a.last() },
        )
    } else {
        a
    }
}

/// A paragraph line after the rules that look at more than its size.
///
/// A line wrapped in bold marks and shorter than 150 characters loses the
/// marks and, unless nothing but white space is left, becomes the title (at
/// the largest size) or a second-level heading. A short line that is bold
/// throughout with nothing close above it becomes a second-level heading. A
/// short line in capitals, in another font than the body, with nothing
/// close above or below it becomes a sixth-level heading.
pub open spec fn by_style(line: Line, stats: Stats, ys: Seq<i64>) -> Line {
    let text = text_of(line.items);
    let pitch = stats.most_used_distance;
    if line.block_type != BlockType::Paragraph {
        line
    } else if is_bold_wrapped(text) && text.len() < 150 {
        let items = without_bold(line.items);
        if trim(text_of(items)).len() == 0 {
            Line { items: items, ..line }
        } else if dist(max_font_size(line.items), stats.max_height) < UNIT {
            Line { items: items, block_type: BlockType::H1, ..line }
        } else {
            Line { items: items, block_type: BlockType::H2, ..line }
        }
    } else if all_formatted(line.items, WordFormat::Bold, WordFormat::BoldItalic) && text.len()
        < 100 && isolated_above(ys, line.y, pitch) {
        Line { block_type: BlockType::H2, ..line }
    } else if is_all_caps(text) && isolated(ys, line.y, pitch) && line.items.len() > 0
        && line.items[0].font != stats.most_used_font && text.len() < 100 {
        Line { block_type: BlockType::H6, ..line }
    } else {
        line
    }
}

/// A line after the stage: first the role that its size gives it, then
/// the rules of style if it is still a paragraph.
pub open spec fn head_line(line: Line, title: bool, rungs: Seq<i64>, stats: Stats, ys: Seq<i64>) -> Line {
    by_style(Line { block_type: role_by_size(line, title, rungs, stats), ..line }, stats, ys)
}

/// An item after the stage: only lines change.
pub open spec fn head_item(item: Item, title: bool, rungs: Seq<i64>, stats: Stats, ys: Seq<i64>) -> Item {
    match item {
        Item::Line(line) => Item::Line(head_line(line, title, rungs, stats, ys)),
        _ => item,
    }
}

/// The items of a page after the stage.
pub open spec fn head_page(items: Seq<Item>, rungs: Seq<i64>, stats: Stats) -> Seq<Item> {
    Seq::new(
        items.len(),
        |i: int|
            head_item(items[i], is_title_page(items, stats.max_height), rungs, stats, line_ys(items)),
    )
}

/// The document after the stage.
pub open spec fn detect_headers(doc: Document) -> Document {
    Document {
        pages: Seq::new(
            doc.pages.len(),
            |p: int|
                PageView {
                    index: doc.pages[p].index,
                    items: head_page(doc.pages[p].items, ladder(doc), doc.globals),
                },
        ),
        globals: doc.globals,
    }
}

/// A line that is no paragraph stays as it is.
pub proof fn lemma_classified_line_stays(
    line: Line,
    title: bool,
    rungs: Seq<i64>,
    stats: Stats,
    ys: Seq<i64>,
)
    requires
        line.block_type != BlockType::Paragraph,
    ensures
        head_line(line, title, rungs, stats, ys) == line,
{
}

/// A document without paragraph lines is left as it is: the stage changes
/// no line that has been given a role.
pub proof fn lemma_classified_document_stays(doc: Document)
    requires
        forall|p: int, i: int|
            0 <= p < doc.pages.len() && 0 <= i < doc.pages[p].items.len() ==> (
            #[trigger] doc.pages[p].items[i] matches Item::Line(line) ==> line.block_type
                != BlockType::Paragraph),
    ensures
        detect_headers(doc) == doc,
{
    let after = detect_headers(doc);
    assert forall|p: int| 0 <= p < doc.pages.len() implies #[trigger] after.pages[p]
        == doc.pages[p] by {
        let items = doc.pages[p].items;
        assert forall|i: int| 0 <= i < items.len() implies #[trigger] after.pages[p].items[i]
            == items[i] by {}
        assert(after.pages[p].items =~= items);
    }
    assert(after.pages =~= doc.pages);
}

/// The stage that finds headings.
#[derive(Debug)]
pub struct DetectHeaders {
    /// Whether the caller reports progress; the stage itself writes nothing,
    /// and its result does not depend on this.
    pub verbose: bool,
}

/// Whether the text starts like a list item.
pub fn text_is_list_shaped(text: &Vec<char>) -> (b: bool)
    ensures
        b == is_list_shaped(text@),
{
    let t = trim_of(text);
    if t.len() == 0 {
        return false;
    }
    t[0] == '-' || t[0] == '*' || (t[0].is_numeric() && contains_char(&t, '.'))
}

/// Whether the text has letters and all of them are upper case.
pub fn text_is_all_caps(text: &Vec<char>) -> (b: bool)
    ensures
        b == is_all_caps(text@),
{
    if count_alphabetic(text) == 0 {
        return false;
    }
    let mut i: usize = 0;
    while i < text.len()
        invariant
            i <= text.len(),
            forall|j: int|
                0 <= j < i ==> !unicode_alphabetic(#[trigger] text@[j]) || unicode_uppercase(
                    text@[j],
                ),
        decreases text.len() - i,
    {
        if text[i].is_alphabetic() && !text[i].is_uppercase() {
            return false;
        }
        i += 1;
    }
    true
}

/// Whether `h` is within one unit of one of the sizes.
pub fn is_near_size(sizes: &Vec<i64>, h: i64) -> (b: bool)
    ensures
        b == near_size(sizes@, h),
{
    let mut k: usize = 0;
    while k < sizes.len()
        invariant
            k <= sizes.len(),
            forall|j: int| 0 <= j < k ==> dist(#[trigger] sizes@[j], h) >= UNIT,
        decreases sizes.len() - k,
    {
        if distance(sizes[k], h) < UNIT as i128 {
            return true;
        }
        k += 1;
    }
    false
}

/// Adds the heading sizes of a page to those found so far.
pub fn collect_sizes(acc: &mut Vec<i64>, items: &Vec<ItemType>, body: i64)
    ensures
        final(acc)@ == sizes_upto(old(acc)@, items.deep_view(), items.len() as int, body),
{
    let ghost dv = items.deep_view();
    let mut i: usize = 0;
    while i < items.len()
        invariant
            i <= items.len(),
            dv == items.deep_view(),
            acc@ == sizes_upto(old(acc)@, dv, i as int, body),
        decreases items.len() - i,
    {
        match &items[i] {
            ItemType::LineItem(line) => {
                let h = line_font_size(&line.items);
                if 100 * (h as i128) > 101 * (body as i128) {
                    let text = line_text(&line.items);
                    if !text_is_list_shaped(&text) && !is_near_size(acc, h) {
                        acc.push(h);
                    }
                }
            },
            _ => {},
        }
        i += 1;
    }
}

/// The heading ladder of the pages.
pub fn heading_ladder(pages: &Vec<Page>, body: i64) -> (r: Vec<i64>)
    ensures
        r@ == sorted(page_sizes_upto(pages.deep_view(), pages.len() as int, body), true),
{
    let mut acc: Vec<i64> = Vec::new();
    let mut p: usize = 0;
    while p < pages.len()
        invariant
            p <= pages.len(),
            acc@ == page_sizes_upto(pages.deep_view(), p as int, body),
        decreases pages.len() - p,
    {
        collect_sizes(&mut acc, &pages[p].items, body);
        p += 1;
    }
    sort_values(&acc, true)
}

/// A value found among the first `n` is found at the same place among more.
pub proof fn lemma_first_near_stays(values: Seq<i64>, v: i64, tolerance: int, n: int, m: int)
    requires
        n <= m,
        first_near_upto(values, v, tolerance, n) is Some,
    ensures
        first_near_upto(values, v, tolerance, m) == first_near_upto(values, v, tolerance, n),
    decreases m - n,
{
    if n < m {
        lemma_first_near_stays(values, v, tolerance, n, m - 1);
    }
}

/// Index of the first value nearer to `v` than `tolerance`.
pub fn first_near_index(values: &Vec<i64>, v: i64, tolerance: i64) -> (r: Option<usize>)
    ensures
        match r {
            Some(k) => first_near(values@, v, tolerance as int) == Some(k as int) && k
                < values.len(),
            None => first_near(values@, v, tolerance as int) is None,
        },
{
    let mut k: usize = 0;
    while k < values.len()
        invariant
            k <= values.len(),
            first_near_upto(values@, v, tolerance as int, k as int) is None,
        decreases values.len() - k,
    {
        if distance(values[k], v) < tolerance as i128 {
            proof {
                lemma_first_near_stays(values@, v, tolerance as int, k + 1, values.len() as int);
            }
            return Some(k);
        }
        k += 1;
    }
    None
}

/// Whether the page holds a line of the largest size.
pub fn page_is_title(items: &Vec<ItemType>, max: i64) -> (b: bool)
    ensures
        b == is_title_page(items.deep_view(), max),
{
    let ghost dv = items.deep_view();
    let mut b = false;
    let mut i: usize = 0;
    while i < items.len()
        invariant
            i <= items.len(),
            dv == items.deep_view(),
            b == has_title_upto(dv, i as int, max),
        decreases items.len() - i,
    {
        match &items[i] {
            ItemType::LineItem(line) => {
                let h = line_font_size(&line.items);
                if 2 * distance(h, max) < UNIT as i128 {
                    b = true;
                }
            },
            _ => {},
        }
        i += 1;
    }
    b
}

/// The vertical positions of the lines of a page.
pub fn page_line_ys(items: &Vec<ItemType>) -> (r: Vec<i64>)
    ensures
        r@ == line_ys(items.deep_view()),
{
    let ghost dv = items.deep_view();
    let mut r: Vec<i64> = Vec::new();
    let mut i: usize = 0;
    while i < items.len()
        invariant
            i <= items.len(),
            dv == items.deep_view(),
            r@ == line_ys_upto(dv, i as int),
        decreases items.len() - i,
    {
        match &items[i] {
            ItemType::LineItem(line) => {
                r.push(line.y);
            },
            _ => {},
        }
        i += 1;
    }
    r
}

/// The heading at a position of the ladder.
pub fn heading_for_rung(pos: usize) -> (b: BlockType)
    ensures
        b == rung_level(pos as int),
{
    if pos == 0 {
        BlockType::H2
    } else if pos == 1 {
        BlockType::H3
    } else if pos == 2 {
        BlockType::H4
    } else if pos == 3 {
        BlockType::H5
    } else {
        BlockType::H6
    }
}

/// The role that its size gives a line.
pub fn size_role(line: &LineItem, title: bool, rungs: &Vec<i64>, stats: &GlobalStats) -> (b:
    BlockType)
    ensures
        b == role_by_size(line.deep_view(), title, rungs@, stats.deep_view()),
{
    if line.block_type != BlockType::Paragraph {
        return line.block_type;
    }
    let h = line_font_size(&line.items);
    let body = stats.most_used_height;
    let max = stats.max_height;
    if title && distance(h, max) < UNIT as i128 {
        BlockType::H1
    } else if title && 4 * (h as i128) >= 3 * (body as i128) + max as i128 {
        BlockType::H2
    } else if 100 * (h as i128) >= 101 * (body as i128) {
        match first_near_index(rungs, h, UNIT) {
            Some(pos) => heading_for_rung(pos),
            None => BlockType::Paragraph,
        }
    } else {
        BlockType::Paragraph
    }
}

/// Whether the line before is at least one and a half pitches away.
pub fn is_isolated_above(ys: &Vec<i64>, y: i64, pitch: i64) -> (b: bool)
    ensures
        b == isolated_above(ys@, y, pitch),
{
    let pos = match first_near_index(ys, y, 100) {
        Some(k) => k,
        None => 0,
    };
    !(pos > 0 && pos - 1 < ys.len() && 2 * distance(ys[pos - 1], y) < 3 * (pitch as i128))
}

/// Whether the lines before and after are at least one and a half pitches away.
pub fn is_isolated(ys: &Vec<i64>, y: i64, pitch: i64) -> (b: bool)
    ensures
        b == isolated(ys@, y, pitch),
{
    let pos = match first_near_index(ys, y, 100) {
        Some(k) => k,
        None => 0,
    };
    if !is_isolated_above(ys, y, pitch) {
        return false;
    }
    !(pos < ys.len() && pos + 1 < ys.len() && 2 * distance(y, ys[pos + 1]) < 3 * (pitch as i128))
}

/// Takes the bold mark from the start of the first fragment and from the
/// end of the last.
pub fn strip_bold_marks(items: &mut Vec<TextItem>)
    ensures
        final(items).deep_view() == without_bold(old(items).deep_view()),
{
    let mark = bold_mark_chars();
    if items.len() == 0 {
        return;
    }
    let first = chars_of(items[0].text.as_str());
    if starts_with_chars(&first, &mark) {
        items[0].text = string_of(&subvec(&first, 2, first.len()));
    }
    let n = items.len() - 1;
    let last = chars_of(items[n].text.as_str());
    if last.len() >= 2 && occurs_at_pos(&last, &mark, last.len() - 2) {
        items[n].text = string_of(&subvec(&last, 0, last.len() - 2));
    }
}

/// Gives a line the role that the stage finds for it.
pub fn classify_line(
    line: &mut LineItem,
    title: bool,
    rungs: &Vec<i64>,
    stats: &GlobalStats,
    ys: &Vec<i64>,
)
    ensures
        final(line).deep_view() == head_line(
            old(line).deep_view(),
            title,
            rungs@,
            stats.deep_view(),
            ys@,
        ),
{
    let role = size_role(line, title, rungs, stats);
    line.block_type = role;
    if role != BlockType::Paragraph {
        return;
    }
    let pitch = stats.most_used_distance;
    let text = line_text(&line.items);
    if text_is_bold_wrapped(&text) && text.len() < 150 {
        let h = line_font_size(&line.items);
        strip_bold_marks(&mut line.items);
        let clean = line_text(&line.items);
        if trim_of(&clean).len() == 0 {
            return;
        }
        if distance(h, stats.max_height) < UNIT as i128 {
            line.block_type = BlockType::H1;
        } else {
            line.block_type = BlockType::H2;
        }
        return;
    }
    if all_bold(&line.items) && text.len() < 100 && is_isolated_above(ys, line.y, pitch) {
        line.block_type = BlockType::H2;
        return;
    }
    if line.items.len() > 0 {
        if text_is_all_caps(&text) && is_isolated(ys, line.y, pitch) && line.items[0].font
            != stats.most_used_font && text.len() < 100 {
            line.block_type = BlockType::H6;
        }
    }
}

/// Classifies the lines of a page.
pub fn classify_page(items: &mut Vec<ItemType>, rungs: &Vec<i64>, stats: &GlobalStats)
    ensures
        final(items).deep_view() == head_page(old(items).deep_view(), rungs@, stats.deep_view()),
{
    let ghost before = items.deep_view();
    let title = page_is_title(items, stats.max_height);
    let ys = page_line_ys(items);
    let mut i: usize = 0;
    while i < items.len()
        invariant
            i <= items.len(),
            items.len() == before.len(),
            title == is_title_page(before, stats.deep_view().max_height),
            ys@ == line_ys(before),
            forall|j: int|
                0 <= j < i ==> (#[trigger] items@[j]).deep_view() == head_page(
                    before,
                    rungs@,
                    stats.deep_view(),
                )[j],
            forall|j: int| i <= j < before.len() ==> (#[trigger] items@[j]).deep_view() == before[j],
        decreases items.len() - i,
    {
        match &mut items[i] {
            ItemType::LineItem(line) => {
                classify_line(line, title, rungs, stats, &ys);
            },
            _ => {},
        }
        i += 1;
    }
}

impl Transformation for DetectHeaders {
    /// Gives every paragraph line the heading level that its size or its
    /// style calls for; nothing else in the document changes.
    fn transform(&self, result: &mut ParseResult)
        ensures
            final(result).deep_view() == detect_headers(old(result).deep_view()),
    {
        let ghost doc = result.deep_view();
        let rungs = heading_ladder(&result.pages, result.globals.most_used_height);
        let mut p: usize = 0;
        while p < result.pages.len()
            invariant
                p <= result.pages.len(),
                result.pages.len() == doc.pages.len(),
                result.globals.deep_view() == doc.globals,
                rungs@ == ladder(doc),
                forall|j: int|
                    0 <= j < p ==> (#[trigger] result.pages@[j]).deep_view() == detect_headers(
                        doc,
                    ).pages[j],
                forall|j: int|
                    p <= j < doc.pages.len() ==> (#[trigger] result.pages@[j]).deep_view()
                        == doc.pages[j],
            decreases result.pages.len() - p,
        {
            let ghost prev = result.pages@;
            classify_page(&mut result.pages[p].items, &rungs, &result.globals);
            proof {
                assert forall|j: int| 0 <= j < prev.len() && j != p implies result.pages@[j]
                    == prev[j] by {}
            }
            p += 1;
        }
        assert(result.deep_view().pages =~= detect_headers(doc).pages);
    }
}

} // verus!
