//! Finding the pages that are tables of contents, and levelling their entries.

use vstd::prelude::*;
use crate::transformations::common::Transformation;
use crate::models::{
    BlockType, Document, Fragment, Item, ItemType, Line, LineItem, PageView, ParseResult, TextItem,
    text_of, line_text,
};
use crate::text::{
    CharClass, strip_end, tail_len, trim, chars_of, string_of, count_tail, subvec, strip_end_of,
    trim_of,
};
use crate::words::append_chars;
use crate::units::{dist, distance};
use crate::sorting::{sorted, sort_values};
use crate::pattern::{
    contains, starts_with, before_char, contains_chars, contains_str, starts_with_chars,
    before_char_of,
};
use crate::unicode::{lowercase, to_lower};
use crate::words::views;
use crate::fonts::{font_index_upto, font_index, with_font, add_font};

verus! {

/// Whether `s` consists of dots only; the empty text does.
pub open spec fn all_dots(s: Seq<char>) -> bool {
    forall|i: int| 0 <= i < s.len() ==> #[trigger] s[i] == '.'
}

/// The fragments of a line that are more than dot leaders.
pub open spec fn toc_words(items: Seq<Fragment>) -> Seq<Fragment>
    decreases items.len(),
{
    if items.len() == 0 {
        Seq::empty()
    } else if all_dots(items.last().text) {
        toc_words(items.drop_last())
    } else {
        toc_words(items.drop_last()).push(items.last())
    }
}

/// Number of digits that end `text` once trailing markup is set aside.
pub open spec fn number_len(text: Seq<char>) -> nat {
    tail_len(strip_end(text, CharClass::Markup), CharClass::Digit)
}

/// `text` without its trailing number and the dot leaders before it;
/// markup that follows the number stays.
pub open spec fn without_number(text: Seq<char>) -> Seq<char> {
    let trimmed = strip_end(text, CharClass::Markup);
    let d = tail_len(trimmed, CharClass::Digit);
    if d == 0 {
        text
    } else {
        strip_end(trimmed.take(trimmed.len() - d), CharClass::Fill) + text.skip(
            trimmed.len() as int,
        )
    }
}

/// Whether the last word of the line, dot leaders aside, ends in a digit.
pub open spec fn ends_with_number(items: Seq<Fragment>) -> bool {
    let w = toc_words(items);
    w.len() > 0 && number_len(w.last().text) > 0
}

/// The words of a line as a table-of-contents entry shows them: without dot
/// leaders, and without the page number at the end.
pub open spec fn entry_words(items: Seq<Fragment>) -> Seq<Fragment> {
    let w = toc_words(items);
    if w.len() > 0 && number_len(w.last().text) > 0 {
        let text = without_number(w.last().text);
        if text.len() == 0 {
            w.drop_last()
        } else {
            w.drop_last().push(Fragment { text: text, ..w.last() })
        }
    } else {
        w
    }
}

/// Whether the text consists of dots only.
pub fn is_all_dots(v: &Vec<char>) -> (b: bool)
    ensures
        b == all_dots(v@),
{
    let mut i: usize = 0;
    while i < v.len()
        invariant
            i <= v.len(),
            forall|j: int| 0 <= j < i ==> #[trigger] v@[j] == '.',
        decreases v.len() - i,
    {
        if v[i] != '.' {
            return false;
        }
        i += 1;
    }
    true
}

/// The fragments that are more than dot leaders, copied.
pub fn words_without_dots(items: &Vec<TextItem>) -> (r: Vec<TextItem>)
    ensures
        r.deep_view() == toc_words(items.deep_view()),
{
    let mut r: Vec<TextItem> = Vec::new();
    let mut i: usize = 0;
    while i < items.len()
        invariant
            i <= items.len(),
            r.deep_view() == toc_words(items.deep_view().take(i as int)),
        decreases items.len() - i,
    {
        proof {
            let t = items.deep_view().take(i + 1);
            assert(t.drop_last() == items.deep_view().take(i as int));
        }
        let text = chars_of(items[i].text.as_str());
        if !is_all_dots(&text) {
            r.push(items[i].clone());
        }
        i += 1;
    }
    proof {
        assert(items.deep_view().take(i as int) == items.deep_view());
    }
    r
}

/// Number of digits at the end of the text, trailing markup aside.
pub fn count_number(text: &Vec<char>) -> (n: usize)
    ensures
        n == number_len(text@),
{
    let trimmed = strip_end_of(text, CharClass::Markup);
    count_tail(&trimmed, CharClass::Digit)
}

/// The text without its trailing number.
pub fn strip_number(text: &Vec<char>) -> (r: Vec<char>)
    ensures
        r@ == without_number(text@),
{
    let trimmed = strip_end_of(text, CharClass::Markup);
    let d = count_tail(&trimmed, CharClass::Digit);
    if d == 0 {
        return subvec(text, 0, text.len());
    }
    let prefix = subvec(&trimmed, 0, trimmed.len() - d);
    let mut r = strip_end_of(&prefix, CharClass::Fill);
    let suffix = subvec(text, trimmed.len(), text.len());
    append_chars(&mut r, &suffix);
    r
}

/// The words of a line as an entry shows them.
pub fn words_of_entry(items: &Vec<TextItem>) -> (r: Vec<TextItem>)
    ensures
        r.deep_view() == entry_words(items.deep_view()),
{
    let mut w = words_without_dots(items);
    if w.len() == 0 {
        return w;
    }
    let last_text = chars_of(w[w.len() - 1].text.as_str());
    if count_number(&last_text) == 0 {
        return w;
    }
    let text = strip_number(&last_text);
    let last = w.pop().unwrap();
    if text.len() > 0 {
        let item = TextItem {
            text: string_of(&text),
            x: last.x,
            y: last.y,
            width: last.width,
            height: last.height,
            font: last.font,
            font_size: last.font_size,
            format: last.format,
        };
        w.push(item);
    }
    w
}

/// An entry of a table of contents: the line as it will be shown, its
/// nesting level, and its place among the items of its page.
#[derive(Debug)]
pub struct TocLink {
    pub line_item: LineItem,
    pub level: usize,
    pub line_index: usize,
}

/// What a [`TocLink`] stands for.
pub ghost struct TocEntry {
    pub line: Line,
    pub level: usize,
    pub index: usize,
}

impl DeepView for TocLink {
    type V = TocEntry;

    open spec fn deep_view(&self) -> TocEntry {
        TocEntry {
            line: self.line_item.deep_view(),
            level: self.level,
            index: self.line_index,
        }
    }
}

/// How the entries of a document are levelled.
#[derive(Debug, Clone, Copy, PartialEq, Eq, Structural)]
pub enum LevelMethod {
    /// By the left margin of the entry.
    XDiff,
    /// By the font of the entry's first fragment.
    Font,
    /// All entries at level 0.
    Zero,
}

/// Levels the entries page by page. The method is chosen on the first page
/// it is given and kept for the pages that follow.
#[derive(Debug)]
pub struct LinkLeveler {
    pub level_by_method: Option<LevelMethod>,
    pub unique_fonts: Vec<String>,
}

/// What a [`LinkLeveler`] stands for.
pub ghost struct Leveler {
    pub method: Option<LevelMethod>,
    pub fonts: Seq<Seq<char>>,
}

impl DeepView for LinkLeveler {
    type V = Leveler;

    open spec fn deep_view(&self) -> Leveler {
        Leveler { method: self.level_by_method, fonts: self.unique_fonts.deep_view() }
    }
}

/// Two left margins closer than this belong to one level.
pub const X_TOLERANCE: i64 = 6000;

/// Whether `x` is closer than the tolerance to one of `xs`.
pub open spec fn near_any(xs: Seq<i64>, x: i64) -> bool {
    exists|k: int| 0 <= k < xs.len() && dist(#[trigger] xs[k], x) < X_TOLERANCE
}

/// The left margins of the first `n` entries, each kept unless it is near
/// one kept before it.
pub open spec fn margins_upto(entries: Seq<TocEntry>, n: int) -> Seq<i64>
    decreases n,
{
    if n <= 0 {
        Seq::empty()
    } else {
        let r = margins_upto(entries, n - 1);
        if near_any(r, entries[n - 1].line.x) {
            r
        } else {
            r.push(entries[n - 1].line.x)
        }
    }
}

/// The distinct left margins of the entries, ascending.
pub open spec fn margins(entries: Seq<TocEntry>) -> Seq<i64> {
    sorted(margins_upto(entries, entries.len() as int), false)
}

/// The fonts of the first fragments of the first `n` entries, each once,
/// in the order in which they first appear.
pub open spec fn fonts_upto(entries: Seq<TocEntry>, n: int) -> Seq<Seq<char>>
    decreases n,
{
    if n <= 0 {
        Seq::empty()
    } else {
        let r = fonts_upto(entries, n - 1);
        let items = entries[n - 1].line.items;
        if items.len() == 0 {
            r
        } else {
            with_font(r, items[0].font)
        }
    }
}

/// Index among the first `n` margins of the one nearest to `x`, the first
/// of them where several are equally near; 0 where there is none.
pub open spec fn nearest_upto(xs: Seq<i64>, x: i64, n: int) -> int
    decreases n,
{
    if n <= 1 {
        0
    } else {
        let b = nearest_upto(xs, x, n - 1);
        if dist(xs[n - 1], x) < dist(xs[b], x) {
            n - 1
        } else {
            b
        }
    }
}

/// The nearest margin: none of the first `n` is nearer to `x` than the one
/// found, and none before it is as near.
pub proof fn lemma_nearest_is_nearest(xs: Seq<i64>, x: i64, n: int)
    requires
        1 <= n <= xs.len(),
    ensures
        0 <= nearest_upto(xs, x, n) < n,
        forall|j: int|
            0 <= j < n ==> dist(xs[nearest_upto(xs, x, n)], x) <= dist(#[trigger] xs[j], x),
        forall|j: int|
            0 <= j < nearest_upto(xs, x, n) ==> dist(xs[nearest_upto(xs, x, n)], x) < dist(
                #[trigger] xs[j],
                x,
            ),
    decreases n,
{
    if n > 1 {
        lemma_nearest_is_nearest(xs, x, n - 1);
    }
}

/// The leveller after it has seen the entries of a page: a method once
/// chosen stays.
pub open spec fn decided(l: Leveler, entries: Seq<TocEntry>) -> Leveler {
    if l.method is Some {
        l
    } else if margins(entries).len() > 1 {
        Leveler { method: Some(LevelMethod::XDiff), fonts: l.fonts }
    } else {
        let fonts = fonts_upto(entries, entries.len() as int);
        if fonts.len() > 1 {
            Leveler { method: Some(LevelMethod::Font), fonts: fonts }
        } else {
            Leveler { method: Some(LevelMethod::Zero), fonts: l.fonts }
        }
    }
}

/// Level of an entry by its left margin.
pub open spec fn level_by_margin(entries: Seq<TocEntry>, e: TocEntry) -> usize {
    let xs = margins(entries);
    nearest_upto(xs, e.line.x, xs.len() as int) as usize
}

/// Level of an entry by its font; an entry without fragments, or in a font
/// that is not listed, keeps the level it has.
pub open spec fn level_by_fonts(fonts: Seq<Seq<char>>, e: TocEntry) -> usize {
    if e.line.items.len() == 0 {
        e.level
    } else {
        match font_index_upto(fonts, e.line.items[0].font, fonts.len() as int) {
            Some(k) => k as usize,
            None => e.level,
        }
    }
}

/// The entries with the levels that the margins give them.
pub open spec fn levelled_by_margin(entries: Seq<TocEntry>) -> Seq<TocEntry> {
    Seq::new(
        entries.len(),
        |k: int| TocEntry { level: level_by_margin(entries, entries[k]), ..entries[k] },
    )
}

/// The entries with the levels that the fonts give them.
pub open spec fn levelled_by_fonts(fonts: Seq<Seq<char>>, entries: Seq<TocEntry>) -> Seq<
    TocEntry,
> {
    Seq::new(
        entries.len(),
        |k: int| TocEntry { level: level_by_fonts(fonts, entries[k]), ..entries[k] },
    )
}

/// The entries, all at level 0.
pub open spec fn levelled_to_zero(entries: Seq<TocEntry>) -> Seq<TocEntry> {
    Seq::new(entries.len(), |k: int| TocEntry { level: 0, ..entries[k] })
}

/// The entries of a page with the levels that the leveller gives them,
/// once it has decided on its method.
pub open spec fn levelled(l: Leveler, entries: Seq<TocEntry>) -> Seq<TocEntry> {
    let d = decided(l, entries);
    match d.method {
        Some(LevelMethod::XDiff) => levelled_by_margin(entries),
        Some(LevelMethod::Font) => levelled_by_fonts(d.fonts, entries),
        _ => levelled_to_zero(entries),
    }
}

/// Whether one of the values is nearer to `x` than the tolerance.
pub fn is_near_any(xs: &Vec<i64>, x: i64) -> (b: bool)
    ensures
        b == near_any(xs@, x),
{
    let mut k: usize = 0;
    while k < xs.len()
        invariant
            k <= xs.len(),
            forall|j: int| 0 <= j < k ==> dist(#[trigger] xs@[j], x) >= X_TOLERANCE,
        decreases xs.len() - k,
    {
        if distance(xs[k], x) < X_TOLERANCE as i128 {
            return true;
        }
        k += 1;
    }
    false
}

/// Index of the value nearest to `x`.
pub fn nearest(xs: &Vec<i64>, x: i64) -> (b: usize)
    ensures
        b == nearest_upto(xs@, x, xs.len() as int),
        xs.len() > 0 ==> b < xs.len(),
{
    let mut b: usize = 0;
    let mut i: usize = 1;
    if xs.len() <= 1 {
        return 0;
    }
    while i < xs.len()
        invariant
            1 <= i <= xs.len(),
            b < i,
            b == nearest_upto(xs@, x, i as int),
        decreases xs.len() - i,
    {
        if distance(xs[i], x) < distance(xs[b], x) {
            b = i;
        }
        i += 1;
    }
    b
}

impl LinkLeveler {
    /// A leveller that has not yet chosen its method.
    pub fn new() -> (l: Self)
        ensures
            l.deep_view() == (Leveler { method: None, fonts: Seq::empty() }),
    {
        let l = LinkLeveler { level_by_method: None, unique_fonts: Vec::new() };
        assert(l.unique_fonts.deep_view() =~= Seq::<Seq<char>>::empty());
        l
    }

    /// Chooses the method if none is chosen yet, and levels the entries.
    pub fn level_page_items(&mut self, toc_links: &mut Vec<TocLink>)
        ensures
            final(self).deep_view() == decided(old(self).deep_view(), old(toc_links).deep_view()),
            final(toc_links).deep_view() == levelled(
                old(self).deep_view(),
                old(toc_links).deep_view(),
            ),
    {
        if self.level_by_method.is_none() {
            let unique_x = self.calculate_unique_x(toc_links);
            if unique_x.len() > 1 {
                self.level_by_method = Some(LevelMethod::XDiff);
            } else {
                let unique_fonts = self.calculate_unique_fonts(toc_links);
                if unique_fonts.len() > 1 {
                    self.unique_fonts = unique_fonts;
                    self.level_by_method = Some(LevelMethod::Font);
                } else {
                    self.level_by_method = Some(LevelMethod::Zero);
                }
            }
        }
        match self.level_by_method {
            Some(LevelMethod::XDiff) => self.level_by_x_diff(toc_links),
            Some(LevelMethod::Font) => self.level_by_font(toc_links),
            _ => self.level_to_zero(toc_links),
        }
    }

    /// Gives each entry the index of the margin nearest to its own.
    pub fn level_by_x_diff(&self, toc_links: &mut Vec<TocLink>)
        ensures
            final(toc_links).deep_view() == levelled_by_margin(old(toc_links).deep_view()),
    {
        let unique_x = self.calculate_unique_x(toc_links);
        let ghost before = toc_links.deep_view();
        let mut i: usize = 0;
        while i < toc_links.len()
            invariant
                i <= toc_links.len(),
                toc_links.len() == before.len(),
                unique_x@ == margins(before),
                forall|k: int|
                    0 <= k < i ==> (#[trigger] toc_links@[k]).deep_view() == levelled_by_margin(
                        before,
                    )[k],
                forall|k: int|
                    i <= k < before.len() ==> (#[trigger] toc_links@[k]).deep_view() == before[k],
            decreases toc_links.len() - i,
        {
            let ghost prev = toc_links@;
            let level = nearest(&unique_x, toc_links[i].line_item.x);
            toc_links[i].level = level;
            proof {
                assert forall|k: int| 0 <= k < before.len() && k != i implies toc_links@[k]
                    == prev[k] by {}
            }
            i += 1;
        }
    }

    /// Gives each entry the index of its first fragment's font.
    pub fn level_by_font(&self, toc_links: &mut Vec<TocLink>)
        ensures
            final(toc_links).deep_view() == levelled_by_fonts(
                self.deep_view().fonts,
                old(toc_links).deep_view(),
            ),
    {
        let ghost before = toc_links.deep_view();
        let ghost fonts = self.unique_fonts.deep_view();
        let mut i: usize = 0;
        while i < toc_links.len()
            invariant
                i <= toc_links.len(),
                toc_links.len() == before.len(),
                fonts == self.unique_fonts.deep_view(),
                forall|k: int|
                    0 <= k < i ==> (#[trigger] toc_links@[k]).deep_view() == levelled_by_fonts(
                        fonts,
                        before,
                    )[k],
                forall|k: int|
                    i <= k < before.len() ==> (#[trigger] toc_links@[k]).deep_view() == before[k],
            decreases toc_links.len() - i,
        {
            let ghost prev = toc_links@;
            if toc_links[i].line_item.items.len() > 0 {
                assert(toc_links@[i as int].line_item.items.deep_view()[0]
                    == toc_links@[i as int].line_item.items@[0].deep_view());
                let found = font_index(&self.unique_fonts, &toc_links[i].line_item.items[0].font);
                if let Some(pos) = found {
                    toc_links[i].level = pos;
                }
            }
            proof {
                assert forall|k: int| 0 <= k < before.len() && k != i implies toc_links@[k]
                    == prev[k] by {}
            }
            i += 1;
        }
    }

    /// Puts every entry at level 0.
    pub fn level_to_zero(&self, toc_links: &mut Vec<TocLink>)
        ensures
            final(toc_links).deep_view() == levelled_to_zero(old(toc_links).deep_view()),
    {
        let ghost before = toc_links.deep_view();
        let mut i: usize = 0;
        while i < toc_links.len()
            invariant
                i <= toc_links.len(),
                toc_links.len() == before.len(),
                forall|k: int|
                    0 <= k < i ==> (#[trigger] toc_links@[k]).deep_view() == levelled_to_zero(
                        before,
                    )[k],
                forall|k: int|
                    i <= k < before.len() ==> (#[trigger] toc_links@[k]).deep_view() == before[k],
            decreases toc_links.len() - i,
        {
            let ghost prev = toc_links@;
            toc_links[i].level = 0;
            proof {
                assert forall|k: int| 0 <= k < before.len() && k != i implies toc_links@[k]
                    == prev[k] by {}
            }
            i += 1;
        }
    }

    /// The distinct left margins of the entries, ascending.
    pub fn calculate_unique_x(&self, toc_links: &Vec<TocLink>) -> (r: Vec<i64>)
        ensures
            r@ == margins(toc_links.deep_view()),
    {
        let mut unique_x: Vec<i64> = Vec::new();
        let mut i: usize = 0;
        while i < toc_links.len()
            invariant
                i <= toc_links.len(),
                unique_x@ == margins_upto(toc_links.deep_view(), i as int),
            decreases toc_links.len() - i,
        {
            let x = toc_links[i].line_item.x;
            if !is_near_any(&unique_x, x) {
                unique_x.push(x);
            }
            i += 1;
        }
        sort_values(&unique_x, false)
    }

    /// The fonts of the entries' first fragments, in order of appearance.
    pub fn calculate_unique_fonts(&self, toc_links: &Vec<TocLink>) -> (r: Vec<String>)
        ensures
            r.deep_view() == fonts_upto(toc_links.deep_view(), toc_links.len() as int),
    {
        let mut unique_fonts: Vec<String> = Vec::new();
        let mut i: usize = 0;
        while i < toc_links.len()
            invariant
                i <= toc_links.len(),
                unique_fonts.deep_view() == fonts_upto(toc_links.deep_view(), i as int),
            decreases toc_links.len() - i,
        {
            if toc_links[i].line_item.items.len() > 0 {
                assert(toc_links@[i as int].line_item.items.deep_view()[0]
                    == toc_links@[i as int].line_item.items@[0].deep_view());
                add_font(&mut unique_fonts, &toc_links[i].line_item.items[0].font);
            }
            i += 1;
        }
        unique_fonts
    }
}

/// Whether the item is a line that ends in a page number.
pub open spec fn is_entry(item: Item) -> bool {
    item is Line && ends_with_number(item->Line_0.items)
}

/// Whether the item is a line that does not end in a page number.
pub open spec fn is_plain(item: Item) -> bool {
    item is Line && !ends_with_number(item->Line_0.items)
}

/// Index of the first plain line among the first `n` items: the headline.
pub open spec fn headline_upto(items: Seq<Item>, n: int) -> Option<int>
    decreases n,
{
    if n <= 0 {
        None
    } else {
        match headline_upto(items, n - 1) {
            Some(j) => Some(j),
            None => if is_plain(items[n - 1]) {
                Some(n - 1)
            } else {
                None
            },
        }
    }
}

/// Index of the last line among the first `n` items.
pub open spec fn last_line_upto(items: Seq<Item>, n: int) -> Option<int>
    decreases n,
{
    if n <= 0 {
        None
    } else if items[n - 1] is Line {
        Some(n - 1)
    } else {
        last_line_upto(items, n - 1)
    }
}

/// Number of lines among the first `n` items.
pub open spec fn line_count_upto(items: Seq<Item>, n: int) -> nat
    decreases n,
{
    if n <= 0 {
        0
    } else {
        line_count_upto(items, n - 1) + if items[n - 1] is Line {
            1nat
        } else {
            0nat
        }
    }
}

/// Number of entries among the first `n` items.
pub open spec fn entry_count_upto(items: Seq<Item>, n: int) -> nat
    decreases n,
{
    if n <= 0 {
        0
    } else {
        entry_count_upto(items, n - 1) + if is_entry(items[n - 1]) {
            1nat
        } else {
            0nat
        }
    }
}

/// Whether item `i` is a plain line other than the headline: a line of
/// unknown role.
pub open spec fn is_unknown(items: Seq<Item>, i: int) -> bool {
    is_plain(items[i]) && headline_upto(items, i) is Some
}

/// Whether two lines are no further apart than one and a half pitches.
pub open spec fn within_pitch(a: i64, b: i64, pitch: i64) -> bool {
    2 * dist(a, b) <= 3 * pitch
}

/// The words of the entry at `i`: its own, after those of the line before
/// it where that line is of unknown role and close enough to be the first
/// half of a wrapped title.
pub open spec fn merged_words(items: Seq<Item>, i: int, pitch: i64) -> Seq<Fragment> {
    let line = items[i]->Line_0;
    let own = entry_words(line.items);
    match last_line_upto(items, i) {
        Some(j) => if is_unknown(items, j) && within_pitch(items[j]->Line_0.y, line.y, pitch) {
            entry_words(items[j]->Line_0.items) + own
        } else {
            own
        },
        None => own,
    }
}

/// The line that shows the entry at `i`: it starts where its first word starts.
pub open spec fn entry_line(items: Seq<Item>, i: int, pitch: i64) -> Line {
    let line = items[i]->Line_0;
    let ws = merged_words(items, i, pitch);
    Line {
        items: ws,
        x: if ws.len() > 0 {
            ws[0].x
        } else {
            line.x
        },
        y: if ws.len() > 0 {
            ws[0].y
        } else {
            line.y
        },
        ..line
    }
}

/// The entries among the first `n` items, at level 0.
pub open spec fn entries_upto(items: Seq<Item>, n: int, pitch: i64) -> Seq<TocEntry>
    decreases n,
{
    if n <= 0 {
        Seq::empty()
    } else {
        let r = entries_upto(items, n - 1, pitch);
        if is_entry(items[n - 1]) {
            r.push(TocEntry { line: entry_line(items, n - 1, pitch), level: 0, index: (n - 1) as usize })
        } else {
            r
        }
    }
}

/// All entries of a page, at level 0.
pub open spec fn entries(items: Seq<Item>, pitch: i64) -> Seq<TocEntry> {
    entries_upto(items, items.len() as int, pitch)
}

/// A page is a table of contents if more than three quarters of its lines
/// end in a page number.
pub open spec fn is_toc_page(items: Seq<Item>) -> bool {
    let lines = line_count_upto(items, items.len() as int);
    lines > 0 && 4 * entry_count_upto(items, items.len() as int) > 3 * lines
}

/// Whether `text` is one of the headers, or starts with one of them that
/// is longer than three characters.
pub open spec fn known_header(text: Seq<char>, headers: Seq<Seq<char>>) -> bool {
    exists|k: int|
        0 <= k < headers.len() && (#[trigger] headers[k] == text || (headers[k].len() > 3
            && starts_with(text, headers[k])))
}

/// The part of `text` before its first `|`, trimmed.
pub open spec fn before_bar(text: Seq<char>) -> Seq<char> {
    trim(before_char(text, '|'))
}

/// Whether `text`, whole or up to its first `|`, repeats a known header.
pub open spec fn is_repeated(text: Seq<char>, headers: Seq<Seq<char>>) -> bool {
    known_header(text, headers) || known_header(before_bar(text), headers)
}

/// Whether `text` holds the words "table of contents" in any case.
pub open spec fn names_contents(text: Seq<char>) -> bool {
    contains(lowercase(text), "table of contents"@)
}

/// Whether the text of one of the entries holds `text`.
pub open spec fn in_entries(text: Seq<char>, entries: Seq<TocEntry>) -> bool {
    exists|k: int| 0 <= k < entries.len() && contains(text_of((#[trigger] entries[k]).line.items), text)
}

/// Whether a line of unknown role stays on the page. A blank one does. On
/// the pages after the first, one that repeats a header or names the table
/// of contents goes; one whose text an entry holds goes on every page.
pub open spec fn keeps_unknown(
    line: Line,
    entries: Seq<TocEntry>,
    headers: Seq<Seq<char>>,
    later: bool,
) -> bool {
    let clean = trim(text_of(line.items));
    clean.len() == 0 || (!(later && is_repeated(clean, headers)) && !(later && names_contents(
        clean,
    )) && !in_entries(clean, entries))
}

/// The headers learned from the first `n` items of the first page of the
/// table: the text of each line of unknown role that is not blank and that
/// no entry holds, and after it its part before the first `|` where that
/// differs.
pub open spec fn learned_upto(items: Seq<Item>, entries: Seq<TocEntry>, n: int) -> Seq<Seq<char>>
    decreases n,
{
    if n <= 0 {
        Seq::empty()
    } else {
        let r = learned_upto(items, entries, n - 1);
        if is_unknown(items, n - 1) {
            let clean = trim(text_of(items[n - 1]->Line_0.items));
            if clean.len() > 0 && !in_entries(clean, entries) {
                if before_bar(clean) != clean {
                    r.push(clean).push(before_bar(clean))
                } else {
                    r.push(clean)
                }
            } else {
                r
            }
        } else {
            r
        }
    }
}

/// Whether a line can be the headline that the page shows: a plain line
/// that, on the pages after the first, neither repeats a header nor names
/// the table of contents.
pub open spec fn can_head(line: Line, headers: Seq<Seq<char>>, later: bool) -> bool {
    let text = text_of(line.items);
    &&& !(later && is_repeated(trim(text), headers))
    &&& !(later && names_contents(text))
    &&& !ends_with_number(line.items)
}

/// Index of the first of the first `n` items that can be the headline.
pub open spec fn shown_headline_upto(
    items: Seq<Item>,
    n: int,
    headers: Seq<Seq<char>>,
    later: bool,
) -> Option<int>
    decreases n,
{
    if n <= 0 {
        None
    } else {
        match shown_headline_upto(items, n - 1, headers, later) {
            Some(j) => Some(j),
            None => if items[n - 1] is Line && can_head(items[n - 1]->Line_0, headers, later) {
                Some(n - 1)
            } else {
                None
            },
        }
    }
}

/// What is left of the first `n` items of a page of the table: each entry
/// as its levelled line, each line of unknown role that stays, and the
/// headline.
pub open spec fn rewritten_upto(
    items: Seq<Item>,
    n: int,
    entries: Seq<TocEntry>,
    headers: Seq<Seq<char>>,
    later: bool,
) -> Seq<Item>
    decreases n,
{
    if n <= 0 {
        Seq::empty()
    } else {
        let r = rewritten_upto(items, n - 1, entries, headers, later);
        let i = n - 1;
        if is_entry(items[i]) {
            let e = entries[entry_count_upto(items, i) as int];
            r.push(Item::Line(Line { block_type: BlockType::TocItem(e.level), ..e.line }))
        } else if is_unknown(items, i) && keeps_unknown(items[i]->Line_0, entries, headers, later) {
            r.push(items[i])
        } else if shown_headline_upto(items, items.len() as int, headers, later) == Some(i) {
            r.push(items[i])
        } else {
            r
        }
    }
}

/// What the pages seen so far have settled.
pub ghost struct TocState {
    /// The leveller with the method chosen on the first page of the table.
    pub leveler: Leveler,
    /// The headers learned on the first page of the table.
    pub headers: Seq<Seq<char>>,
    /// Whether a page of the table has been seen.
    pub later: bool,
}

/// The state after a page with the given items.
pub open spec fn toc_step(s: TocState, items: Seq<Item>, pitch: i64) -> TocState {
    if !is_toc_page(items) {
        s
    } else {
        let es = entries(items, pitch);
        TocState {
            leveler: decided(s.leveler, es),
            headers: if s.later {
                s.headers
            } else {
                learned_upto(items, es, items.len() as int)
            },
            later: true,
        }
    }
}

/// The state after the first `n` pages.
pub open spec fn toc_state_upto(pages: Seq<PageView>, n: int, pitch: i64) -> TocState
    decreases n,
{
    if n <= 0 {
        TocState {
            leveler: Leveler { method: None, fonts: Seq::empty() },
            headers: Seq::empty(),
            later: false,
        }
    } else {
        toc_step(toc_state_upto(pages, n - 1, pitch), pages[n - 1].items, pitch)
    }
}

/// The items of a page after the stage, given what the pages before it settled.
pub open spec fn toc_page(s: TocState, items: Seq<Item>, pitch: i64) -> Seq<Item> {
    if !is_toc_page(items) {
        items
    } else {
        rewritten_upto(
            items,
            items.len() as int,
            levelled(s.leveler, entries(items, pitch)),
            s.headers,
            s.later,
        )
    }
}

/// Only this many pages at the start of a document are examined.
pub const PAGE_LIMIT: usize = 20;

/// The document after the stage.
pub open spec fn detect_toc(doc: Document) -> Document {
    let pitch = doc.globals.most_used_distance;
    Document {
        pages: Seq::new(
            doc.pages.len(),
            |i: int|
                if i < PAGE_LIMIT {
                    PageView {
                        index: doc.pages[i].index,
                        items: toc_page(
                            toc_state_upto(doc.pages, i, pitch),
                            doc.pages[i].items,
                            pitch,
                        ),
                    }
                } else {
                    doc.pages[i]
                },
        ),
        globals: doc.globals,
    }
}

/// The stage that finds tables of contents.
#[derive(Debug)]
pub struct DetectTOC {
    /// Whether the caller reports progress; the stage itself writes nothing,
    /// and its result does not depend on this.
    pub verbose: bool,
}

/// More items hold no fewer entries.
pub proof fn lemma_entry_count_grows(items: Seq<Item>, n: int, m: int)
    requires
        n <= m,
    ensures
        entry_count_upto(items, n) <= entry_count_upto(items, m),
    decreases m - n,
{
    if n < m {
        lemma_entry_count_grows(items, n, m - 1);
    }
}

/// A headline found among the first `n` items is the headline among more.
pub proof fn lemma_shown_headline_stays(
    items: Seq<Item>,
    n: int,
    m: int,
    headers: Seq<Seq<char>>,
    later: bool,
)
    requires
        n <= m,
        shown_headline_upto(items, n, headers, later) is Some,
    ensures
        shown_headline_upto(items, m, headers, later) == shown_headline_upto(
            items,
            n,
            headers,
            later,
        ),
    decreases m - n,
{
    if n < m {
        lemma_shown_headline_stays(items, n, m - 1, headers, later);
    }
}

/// The fragments of `a` followed by those of `b`.
pub fn concat_items(a: Vec<TextItem>, b: &Vec<TextItem>) -> (r: Vec<TextItem>)
    ensures
        r.deep_view() == a.deep_view() + b.deep_view(),
{
    let mut r = a;
    let mut i: usize = 0;
    while i < b.len()
        invariant
            i <= b.len(),
            r.deep_view() == a.deep_view() + b.deep_view().take(i as int),
        decreases b.len() - i,
    {
        let ghost before = r.deep_view();
        r.push(b[i].clone());
        assert(r.deep_view() =~= before.push(b@[i as int].deep_view()));
        i += 1;
    }
    r
}

impl DetectTOC {
    /// Whether the last word of the line, dot leaders aside, ends in a digit.
    pub fn line_ends_with_digit(line: &LineItem) -> (b: bool)
        ensures
            b == ends_with_number(line.deep_view().items),
    {
        let words = words_without_dots(&line.items);
        if words.len() == 0 {
            return false;
        }
        let last = chars_of(words[words.len() - 1].text.as_str());
        count_number(&last) > 0
    }

    /// The entries of a page, at level 0, and the number of its lines.
    pub fn scan_page(items: &Vec<ItemType>, pitch: i64) -> (r: (Vec<TocLink>, usize))
        ensures
            r.0.deep_view() == entries(items.deep_view(), pitch),
            r.0.len() == entry_count_upto(items.deep_view(), items.len() as int),
            r.1 == line_count_upto(items.deep_view(), items.len() as int),
    {
        let ghost dv = items.deep_view();
        let mut links: Vec<TocLink> = Vec::new();
        let mut lines: usize = 0;
        let mut has_headline = false;
        let mut prev: Option<usize> = None;
        let mut prev_unknown = false;
        let mut i: usize = 0;
        while i < items.len()
            invariant
                i <= items.len(),
                dv == items.deep_view(),
                links.deep_view() == entries_upto(dv, i as int, pitch),
                links.len() == entry_count_upto(dv, i as int),
                lines == line_count_upto(dv, i as int),
                lines <= i,
                has_headline == headline_upto(dv, i as int) is Some,
                match prev {
                    Some(j) => j < i && last_line_upto(dv, i as int) == Some(j as int),
                    None => last_line_upto(dv, i as int) is None,
                },
                prev_unknown ==> prev is Some,
                prev matches Some(j) ==> prev_unknown == is_unknown(dv, j as int),
            decreases items.len() - i,
        {
            match &items[i] {
                ItemType::LineItem(line) => {
                    lines += 1;
                    if Self::line_ends_with_digit(line) {
                        let mut words = words_of_entry(&line.items);
                        if prev_unknown {
                            let j = prev.unwrap();
                            match &items[j] {
                                ItemType::LineItem(before) => {
                                    if 2 * distance(before.y, line.y) <= 3 * (pitch as i128) {
                                        let first = words_of_entry(&before.items);
                                        words = concat_items(first, &words);
                                    }
                                },
                                _ => {},
                            }
                        }
                        let mut x = line.x;
                        let mut y = line.y;
                        if words.len() > 0 {
                            x = words[0].x;
                            y = words[0].y;
                        }
                        let link = TocLink {
                            line_item: LineItem {
                                items: words,
                                x: x,
                                y: y,
                                width: line.width,
                                height: line.height,
                                block_type: line.block_type,
                            },
                            level: 0,
                            line_index: i,
                        };
                        links.push(link);
                        prev_unknown = false;
                    } else {
                        prev_unknown = has_headline;
                        has_headline = true;
                    }
                    prev = Some(i);
                },
                _ => {},
            }
            i += 1;
        }
        (links, lines)
    }
}

/// Whether the text is a header or starts with a long enough one.
pub fn is_known_header(text: &Vec<char>, headers: &Vec<Vec<char>>) -> (b: bool)
    ensures
        b == known_header(text@, views(headers@)),
{
    let mut k: usize = 0;
    let ghost hs = views(headers@);
    while k < headers.len()
        invariant
            k <= headers.len(),
            hs == views(headers@),
            forall|j: int|
                0 <= j < k ==> !(#[trigger] hs[j] == text@ || (hs[j].len() > 3 && starts_with(
                    text@,
                    hs[j],
                ))),
        decreases headers.len() - k,
    {
        assert(hs[k as int] == headers@[k as int]@);
        let h = &headers[k];
        let same = h.len() == text.len() && starts_with_chars(text, h);
        proof {
            if h.len() == text.len() && starts_with(text@, h@) {
                assert(text@.subrange(0, h@.len() as int) == text@);
            }
            if h@ == text@ {
                assert(text@.subrange(0, h@.len() as int) == text@);
            }
        }
        if same || (h.len() > 3 && starts_with_chars(text, h)) {
            return true;
        }
        k += 1;
    }
    false
}

/// Whether the text, whole or up to its first `|`, repeats a header.
pub fn is_repeated_header(text: &Vec<char>, headers: &Vec<Vec<char>>) -> (b: bool)
    ensures
        b == is_repeated(text@, views(headers@)),
{
    if is_known_header(text, headers) {
        return true;
    }
    let head = trim_of(&before_char_of(text, '|'));
    is_known_header(&head, headers)
}

/// Whether the text names the table of contents.
pub fn text_names_contents(text: &Vec<char>) -> (b: bool)
    ensures
        b == names_contents(text@),
{
    let lower = to_lower(text);
    contains_str(&lower, "table of contents")
}

/// Whether one of the entries holds the text.
pub fn is_in_entries(text: &Vec<char>, links: &Vec<TocLink>) -> (b: bool)
    ensures
        b == in_entries(text@, links.deep_view()),
{
    let mut k: usize = 0;
    while k < links.len()
        invariant
            k <= links.len(),
            forall|j: int|
                0 <= j < k ==> !contains(
                    text_of((#[trigger] links.deep_view()[j]).line.items),
                    text@,
                ),
        decreases links.len() - k,
    {
        assert(links.deep_view()[k as int] == links@[k as int].deep_view());
        let link_text = line_text(&links[k].line_item.items);
        if contains_chars(&link_text, text) {
            return true;
        }
        k += 1;
    }
    false
}

/// Whether a line of unknown role stays on the page.
pub fn unknown_stays(
    line: &LineItem,
    links: &Vec<TocLink>,
    headers: &Vec<Vec<char>>,
    later: bool,
) -> (b: bool)
    ensures
        b == keeps_unknown(line.deep_view(), links.deep_view(), views(headers@), later),
{
    let clean = trim_of(&line_text(&line.items));
    if clean.len() == 0 {
        return true;
    }
    if later && is_repeated_header(&clean, headers) {
        return false;
    }
    if later && text_names_contents(&clean) {
        return false;
    }
    !is_in_entries(&clean, links)
}

/// The headers that the first page of the table teaches.
pub fn learn_headers(items: &Vec<ItemType>, links: &Vec<TocLink>) -> (r: Vec<Vec<char>>)
    ensures
        views(r@) == learned_upto(items.deep_view(), links.deep_view(), items.len() as int),
{
    let ghost dv = items.deep_view();
    let mut r: Vec<Vec<char>> = Vec::new();
    let mut has_headline = false;
    let mut i: usize = 0;
    while i < items.len()
        invariant
            i <= items.len(),
            dv == items.deep_view(),
            has_headline == headline_upto(dv, i as int) is Some,
            views(r@) == learned_upto(dv, links.deep_view(), i as int),
        decreases items.len() - i,
    {
        match &items[i] {
            ItemType::LineItem(line) => {
                if !DetectTOC::line_ends_with_digit(line) {
                    if has_headline {
                        let clean = trim_of(&line_text(&line.items));
                        if clean.len() > 0 && !is_in_entries(&clean, links) {
                            let head = trim_of(&before_char_of(&clean, '|'));
                            let differs = !(head.len() == clean.len() && starts_with_chars(
                                &clean,
                                &head,
                            ));
                            proof {
                                if head@.len() == clean@.len() {
                                    assert(clean@.subrange(0, head@.len() as int) == clean@);
                                }
                            }
                            r.push(clean);
                            if differs {
                                r.push(head);
                            }
                        }
                    }
                    has_headline = true;
                }
            },
            _ => {},
        }
        i += 1;
    }
    r
}

/// Index of the headline that the page shows.
pub fn shown_headline(items: &Vec<ItemType>, headers: &Vec<Vec<char>>, later: bool) -> (r: Option<
    usize,
>)
    ensures
        match r {
            Some(j) => shown_headline_upto(
                items.deep_view(),
                items.len() as int,
                views(headers@),
                later,
            ) == Some(j as int),
            None => shown_headline_upto(
                items.deep_view(),
                items.len() as int,
                views(headers@),
                later,
            ) is None,
        },
{
    let ghost dv = items.deep_view();
    let mut i: usize = 0;
    while i < items.len()
        invariant
            i <= items.len(),
            dv == items.deep_view(),
            shown_headline_upto(dv, i as int, views(headers@), later) is None,
        decreases items.len() - i,
    {
        match &items[i] {
            ItemType::LineItem(line) => {
                let text = line_text(&line.items);
                let clean = trim_of(&text);
                let skip = (later && is_repeated_header(&clean, headers)) || (later
                    && text_names_contents(&text));
                if !skip && !DetectTOC::line_ends_with_digit(line) {
                    proof {
                        lemma_shown_headline_stays(
                            dv,
                            i + 1,
                            items.len() as int,
                            views(headers@),
                            later,
                        );
                    }
                    return Some(i);
                }
            },
            _ => {},
        }
        i += 1;
    }
    None
}

/// The items of a page of the table after the stage.
pub fn rewrite_page(
    items: &Vec<ItemType>,
    links: &Vec<TocLink>,
    headers: &Vec<Vec<char>>,
    later: bool,
) -> (r: Vec<ItemType>)
    requires
        links.len() == entry_count_upto(items.deep_view(), items.len() as int),
    ensures
        r.deep_view() == rewritten_upto(
            items.deep_view(),
            items.len() as int,
            links.deep_view(),
            views(headers@),
            later,
        ),
{
    let ghost dv = items.deep_view();
    let headline = shown_headline(items, headers, later);
    let mut r: Vec<ItemType> = Vec::new();
    let mut has_headline = false;
    let mut k: usize = 0;
    let mut i: usize = 0;
    while i < items.len()
        invariant
            i <= items.len(),
            dv == items.deep_view(),
            links.len() == entry_count_upto(dv, items.len() as int),
            has_headline == headline_upto(dv, i as int) is Some,
            k == entry_count_upto(dv, i as int),
            match headline {
                Some(j) => shown_headline_upto(dv, items.len() as int, views(headers@), later)
                    == Some(j as int),
                None => shown_headline_upto(dv, items.len() as int, views(headers@), later)
                    is None,
            },
            r.deep_view() == rewritten_upto(
                dv,
                i as int,
                links.deep_view(),
                views(headers@),
                later,
            ),
        decreases items.len() - i,
    {
        proof {
            lemma_entry_count_grows(dv, i + 1, items.len() as int);
        }
        match &items[i] {
            ItemType::LineItem(line) => {
                if DetectTOC::line_ends_with_digit(line) {
                    let link = &links[k];
                    let new_line = LineItem {
                        items: crate::models::clone_items(&link.line_item.items),
                        x: link.line_item.x,
                        y: link.line_item.y,
                        width: link.line_item.width,
                        height: link.line_item.height,
                        block_type: BlockType::TocItem(link.level),
                    };
                    r.push(ItemType::LineItem(new_line));
                    k += 1;
                } else {
                    let unknown = has_headline;
                    has_headline = true;
                    if (unknown && unknown_stays(line, links, headers, later)) || headline == Some(
                        i,
                    ) {
                        r.push(items[i].clone());
                    }
                }
            },
            _ => {
                if headline == Some(i) {
                    r.push(items[i].clone());
                }
            },
        }
        i += 1;
    }
    r
}

impl Transformation for DetectTOC {
    /// Rewrites each page of the table of contents among the first pages of
    /// the document; every other page, and the statistics, stay as they are.
    fn transform(&self, result: &mut ParseResult)
        ensures
            final(result).deep_view() == detect_toc(old(result).deep_view()),
    {
        let ghost doc = result.deep_view();
        let pitch = result.globals.most_used_distance;
        let limit: usize = if result.pages.len() < PAGE_LIMIT {
            result.pages.len()
        } else {
            PAGE_LIMIT
        };
        let mut leveler = LinkLeveler::new();
        let mut headers: Vec<Vec<char>> = Vec::new();
        let mut later = false;
        let mut p: usize = 0;
        assert(views(headers@) =~= Seq::<Seq<char>>::empty());
        while p < limit
            invariant
                p <= limit <= result.pages.len(),
                limit <= PAGE_LIMIT,
                limit == PAGE_LIMIT || limit == result.pages.len(),
                result.pages.len() == doc.pages.len(),
                result.globals.deep_view() == doc.globals,
                pitch == doc.globals.most_used_distance,
                forall|j: int|
                    0 <= j < p ==> (#[trigger] result.pages@[j]).deep_view() == detect_toc(
                        doc,
                    ).pages[j],
                forall|j: int|
                    p <= j < doc.pages.len() ==> (#[trigger] result.pages@[j]).deep_view()
                        == doc.pages[j],
                toc_state_upto(doc.pages, p as int, pitch) == (TocState {
                    leveler: leveler.deep_view(),
                    headers: views(headers@),
                    later: later,
                }),
            decreases limit - p,
        {
            let ghost items = doc.pages[p as int].items;
            let (mut links, lines) = DetectTOC::scan_page(&result.pages[p].items, pitch);
            if lines > 0 && 4 * (links.len() as u128) > 3 * (lines as u128) {
                let ghost before = result.pages@;
                let learned = if later {
                    None
                } else {
                    Some(learn_headers(&result.pages[p].items, &links))
                };
                leveler.level_page_items(&mut links);
                assert(links.deep_view().len() == links.len());
                let new_items = rewrite_page(&result.pages[p].items, &links, &headers, later);
                if let Some(h) = learned {
                    headers = h;
                }
                result.pages[p].items = new_items;
                later = true;
                proof {
                    assert forall|j: int| 0 <= j < before.len() && j != p implies result.pages@[j]
                        == before[j] by {}
                }
            }
            p += 1;
        }
        assert(result.deep_view().pages =~= detect_toc(doc).pages);
    }
}

} // verus!
