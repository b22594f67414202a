//! The document model shared by all stages, and its mathematical view.

use vstd::prelude::*;

verus! {

/// One layout unit, in the thousandths in which every length is counted.
pub const UNIT: i64 = 1000;

/// Emphasis of a run of text.
#[derive(Debug, Clone, Copy, PartialEq, Eq, Structural)]
pub enum WordFormat {
    Bold,
    Italic,
    BoldItalic,
    Code,
}

/// Structural role of a line.
#[derive(Debug, Clone, Copy, PartialEq, Eq, Structural)]
pub enum BlockType {
    Paragraph,
    H1,
    H2,
    H3,
    H4,
    H5,
    H6,
    Code,
    ListItem,
    Footnote,
    TocItem(usize),
}

impl Default for BlockType {
    fn default() -> (b: Self)
        ensures
            b == BlockType::Paragraph,
    {
        BlockType::Paragraph
    }
}

impl BlockType {
    /// Whether this is one of the six heading levels.
    pub open spec fn is_heading(self) -> bool {
        self is H1 || self is H2 || self is H3 || self is H4 || self is H5 || self is H6
    }

    /// Number of `#` marks of a heading, 0 for any other role.
    pub open spec fn heading_level(self) -> nat {
        match self {
            BlockType::H1 => 1,
            BlockType::H2 => 2,
            BlockType::H3 => 3,
            BlockType::H4 => 4,
            BlockType::H5 => 5,
            BlockType::H6 => 6,
            _ => 0,
        }
    }

    /// Whether this is one of the six heading levels.
    pub fn is_header(&self) -> (b: bool)
        ensures
            b == self.is_heading(),
    {
        match self {
            BlockType::H1
            | BlockType::H2
            | BlockType::H3
            | BlockType::H4
            | BlockType::H5
            | BlockType::H6 => true,
            _ => false,
        }
    }

    /// Number of `#` marks of a heading, 0 for any other role.
    pub fn level(&self) -> (n: u64)
        ensures
            n == self.heading_level(),
    {
        match self {
            BlockType::H1 => 1,
            BlockType::H2 => 2,
            BlockType::H3 => 3,
            BlockType::H4 => 4,
            BlockType::H5 => 5,
            BlockType::H6 => 6,
            _ => 0,
        }
    }
}

/// One positioned run of text with a single font and size.
#[derive(Debug)]
pub struct TextItem {
    pub text: String,
    pub x: i64,
    pub y: i64,
    pub width: i64,
    pub height: i64,
    pub font: String,
    pub font_size: i64,
    pub format: Option<WordFormat>,
}

/// What a [`TextItem`] stands for.
pub ghost struct Fragment {
    pub text: Seq<char>,
    pub x: i64,
    pub y: i64,
    pub width: i64,
    pub height: i64,
    pub font: Seq<char>,
    pub font_size: i64,
    pub format: Option<WordFormat>,
}

impl DeepView for TextItem {
    type V = Fragment;

    open spec fn deep_view(&self) -> Fragment {
        Fragment {
            text: self.text@,
            x: self.x,
            y: self.y,
            width: self.width,
            height: self.height,
            font: self.font@,
            font_size: self.font_size,
            format: self.format,
        }
    }
}

impl Clone for TextItem {
    fn clone(&self) -> (r: Self)
        ensures
            r == *self,
    {
        TextItem {
            text: self.text.clone(),
            x: self.x,
            y: self.y,
            width: self.width,
            height: self.height,
            font: self.font.clone(),
            font_size: self.font_size,
            format: self.format,
        }
    }
}

/// Fragments grouped into one visual line, with its box and its role.
#[derive(Debug)]
pub struct LineItem {
    pub items: Vec<TextItem>,
    pub x: i64,
    pub y: i64,
    pub width: i64,
    pub height: i64,
    pub block_type: BlockType,
}

/// What a [`LineItem`] stands for.
pub ghost struct Line {
    pub items: Seq<Fragment>,
    pub x: i64,
    pub y: i64,
    pub width: i64,
    pub height: i64,
    pub block_type: BlockType,
}

impl DeepView for LineItem {
    type V = Line;

    open spec fn deep_view(&self) -> Line {
        Line {
            items: self.items.deep_view(),
            x: self.x,
            y: self.y,
            width: self.width,
            height: self.height,
            block_type: self.block_type,
        }
    }
}

/// A copy of a list of fragments.
pub fn clone_items(items: &Vec<TextItem>) -> (r: Vec<TextItem>)
    ensures
        r@ == items@,
{
    let mut r: Vec<TextItem> = Vec::new();
    let mut i: usize = 0;
    while i < items.len()
        invariant
            i <= items.len(),
            r@ == items@.take(i as int),
        decreases items.len() - i,
    {
        r.push(items[i].clone());
        i += 1;
    }
    r
}

impl Clone for LineItem {
    fn clone(&self) -> (r: Self)
        ensures
            r.deep_view() == self.deep_view(),
            r.items@ == self.items@,
    {
        LineItem {
            items: clone_items(&self.items),
            x: self.x,
            y: self.y,
            width: self.width,
            height: self.height,
            block_type: self.block_type,
        }
    }
}

/// One entry of a page: a fragment before grouping, a line after it, and
/// the rendered Markdown at the end.
#[derive(Debug)]
pub enum ItemType {
    TextItem(TextItem),
    LineItem(LineItem),
    Markdown(String),
}

/// What an [`ItemType`] stands for.
pub ghost enum Item {
    Fragment(Fragment),
    Line(Line),
    Markdown(Seq<char>),
}

impl DeepView for ItemType {
    type V = Item;

    open spec fn deep_view(&self) -> Item {
        match self {
            ItemType::TextItem(t) => Item::Fragment(t.deep_view()),
            ItemType::LineItem(l) => Item::Line(l.deep_view()),
            ItemType::Markdown(s) => Item::Markdown(s@),
        }
    }
}

impl Clone for ItemType {
    fn clone(&self) -> (r: Self)
        ensures
            r.deep_view() == self.deep_view(),
    {
        match self {
            ItemType::TextItem(t) => ItemType::TextItem(t.clone()),
            ItemType::LineItem(l) => ItemType::LineItem(l.clone()),
            ItemType::Markdown(s) => ItemType::Markdown(s.clone()),
        }
    }
}

/// A page: its number and its items in reading order.
#[derive(Debug)]
pub struct Page {
    pub index: u16,
    pub items: Vec<ItemType>,
}

/// What a [`Page`] stands for.
pub ghost struct PageView {
    pub index: u16,
    pub items: Seq<Item>,
}

impl DeepView for Page {
    type V = PageView;

    open spec fn deep_view(&self) -> PageView {
        PageView { index: self.index, items: self.items.deep_view() }
    }
}

/// The emphasis that a font stands for.
#[derive(Debug)]
pub struct FontFormat {
    pub font: String,
    pub format: WordFormat,
}

/// What a [`FontFormat`] stands for.
pub ghost struct FontRule {
    pub font: Seq<char>,
    pub format: WordFormat,
}

impl DeepView for FontFormat {
    type V = FontRule;

    open spec fn deep_view(&self) -> FontRule {
        FontRule { font: self.font@, format: self.format }
    }
}

/// Document-wide typography: the body size, pitch and font, the largest
/// size, and the emphasis of each font. Where a font is listed twice the
/// first entry counts.
#[derive(Debug)]
pub struct GlobalStats {
    pub most_used_height: i64,
    pub most_used_distance: i64,
    pub most_used_font: String,
    pub max_height: i64,
    pub font_to_format: Vec<FontFormat>,
}

/// What a [`GlobalStats`] stands for.
pub ghost struct Stats {
    pub most_used_height: i64,
    pub most_used_distance: i64,
    pub most_used_font: Seq<char>,
    pub max_height: i64,
    pub font_to_format: Seq<FontRule>,
}

impl DeepView for GlobalStats {
    type V = Stats;

    open spec fn deep_view(&self) -> Stats {
        Stats {
            most_used_height: self.most_used_height,
            most_used_distance: self.most_used_distance,
            most_used_font: self.most_used_font@,
            max_height: self.max_height,
            font_to_format: self.font_to_format.deep_view(),
        }
    }
}

impl Default for GlobalStats {
    fn default() -> (g: Self)
        ensures
            g.deep_view() == (Stats {
                most_used_height: 0,
                most_used_distance: 0,
                most_used_font: Seq::empty(),
                max_height: 0,
                font_to_format: Seq::empty(),
            }),
    {
        let g = GlobalStats {
            most_used_height: 0,
            most_used_distance: 0,
            most_used_font: String::new(),
            max_height: 0,
            font_to_format: Vec::new(),
        };
        assert(g.font_to_format.deep_view() =~= Seq::<FontRule>::empty());
        g
    }
}

/// The emphasis of `font` in a table of rules: that of its first entry.
pub open spec fn format_of(table: Seq<FontRule>, font: Seq<char>) -> Option<WordFormat>
    decreases table.len(),
{
    if table.len() == 0 {
        None
    } else if table[0].font == font {
        Some(table[0].format)
    } else {
        format_of(table.skip(1), font)
    }
}

impl GlobalStats {
    /// The emphasis that the table gives to `font`, if any.
    pub fn format_for(&self, font: &String) -> (r: Option<WordFormat>)
        ensures
            r == format_of(self.deep_view().font_to_format, font@),
    {
        let mut i: usize = 0;
        let ghost table = self.font_to_format.deep_view();
        proof {
            assert(table.skip(0) == table);
        }
        while i < self.font_to_format.len()
            invariant
                i <= self.font_to_format.len(),
                table == self.font_to_format.deep_view(),
                format_of(table, font@) == format_of(table.skip(i as int), font@),
            decreases self.font_to_format.len() - i,
        {
            proof {
                assert(table.skip(i as int).skip(1) == table.skip(i + 1));
            }
            if self.font_to_format[i].font == *font {
                return Some(self.font_to_format[i].format);
            }
            i += 1;
        }
        None
    }
}

/// A document on its way through the stages.
#[derive(Debug)]
pub struct ParseResult {
    pub pages: Vec<Page>,
    pub globals: GlobalStats,
}

/// What a [`ParseResult`] stands for.
pub ghost struct Document {
    pub pages: Seq<PageView>,
    pub globals: Stats,
}

impl DeepView for ParseResult {
    type V = Document;

    open spec fn deep_view(&self) -> Document {
        Document { pages: self.pages.deep_view(), globals: self.globals.deep_view() }
    }
}

/// The texts of the fragments, one after the other.
pub open spec fn text_of(items: Seq<Fragment>) -> Seq<char>
    decreases items.len(),
{
    if items.len() == 0 {
        Seq::empty()
    } else {
        text_of(items.drop_last()) + items.last().text
    }
}

/// The largest font size among the fragments, and 0 where that is larger.
pub open spec fn max_font_size(items: Seq<Fragment>) -> i64
    decreases items.len(),
{
    if items.len() == 0 {
        0
    } else {
        let m = max_font_size(items.drop_last());
        if items.last().font_size > m {
            items.last().font_size
        } else {
            m
        }
    }
}

/// Whether every fragment carries one of the two emphases given.
pub open spec fn all_formatted(items: Seq<Fragment>, a: WordFormat, b: WordFormat) -> bool {
    forall|i: int|
        0 <= i < items.len() ==> (#[trigger] items[i]).format == Some(a) || items[i].format
            == Some(b)
}

/// The concatenated text of a line's fragments.
pub fn line_text(items: &Vec<TextItem>) -> (r: Vec<char>)
    ensures
        r@ == text_of(items.deep_view()),
{
    let mut r: Vec<char> = Vec::new();
    let mut i: usize = 0;
    while i < items.len()
        invariant
            i <= items.len(),
            r@ == text_of(items.deep_view().take(i as int)),
        decreases items.len() - i,
    {
        proof {
            let t = items.deep_view().take(i + 1);
            assert(t.drop_last() == items.deep_view().take(i as int));
        }
        crate::words::append_str(&mut r, items[i].text.as_str());
        i += 1;
    }
    proof {
        assert(items.deep_view().take(i as int) == items.deep_view());
    }
    r
}

/// The largest font size of a line's fragments, at least 0.
pub fn line_font_size(items: &Vec<TextItem>) -> (r: i64)
    ensures
        r == max_font_size(items.deep_view()),
{
    let mut r: i64 = 0;
    let mut i: usize = 0;
    while i < items.len()
        invariant
            i <= items.len(),
            r == max_font_size(items.deep_view().take(i as int)),
        decreases items.len() - i,
    {
        proof {
            let t = items.deep_view().take(i + 1);
            assert(t.drop_last() == items.deep_view().take(i as int));
        }
        if items[i].font_size > r {
            r = items[i].font_size;
        }
        i += 1;
    }
    proof {
        assert(items.deep_view().take(i as int) == items.deep_view());
    }
    r
}

/// Whether all fragments are bold (with or without italics).
pub fn all_bold(items: &Vec<TextItem>) -> (b: bool)
    ensures
        b == all_formatted(items.deep_view(), WordFormat::Bold, WordFormat::BoldItalic),
{
    let mut i: usize = 0;
    while i < items.len()
        invariant
            i <= items.len(),
            forall|j: int|
                0 <= j < i ==> (#[trigger] items.deep_view()[j]).format == Some(WordFormat::Bold)
                    || items.deep_view()[j].format == Some(WordFormat::BoldItalic),
        decreases items.len() - i,
    {
        let ok = match items[i].format {
            Some(WordFormat::Bold) | Some(WordFormat::BoldItalic) => true,
            _ => false,
        };
        if !ok {
            proof {
                assert(items.deep_view()[i as int].format == items@[i as int].format);
            }
            return false;
        }
        i += 1;
    }
    true
}

/// Whether all fragments are italic (with or without bold).
pub fn all_italic(items: &Vec<TextItem>) -> (b: bool)
    ensures
        b == all_formatted(items.deep_view(), WordFormat::Italic, WordFormat::BoldItalic),
{
    let mut i: usize = 0;
    while i < items.len()
        invariant
            i <= items.len(),
            forall|j: int|
                0 <= j < i ==> (#[trigger] items.deep_view()[j]).format == Some(
                    WordFormat::Italic,
                ) || items.deep_view()[j].format == Some(WordFormat::BoldItalic),
        decreases items.len() - i,
    {
        let ok = match items[i].format {
            Some(WordFormat::Italic) | Some(WordFormat::BoldItalic) => true,
            _ => false,
        };
        if !ok {
            proof {
                assert(items.deep_view()[i as int].format == items@[i as int].format);
            }
            return false;
        }
        i += 1;
    }
    true
}

} // verus!
