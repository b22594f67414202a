//! Grouping the fragments of each page into lines, and merging the
//! fragments of a line into words.

use vstd::prelude::*;
use vstd::string::StringExecFns;
use rayon::iter::{IntoParallelRefMutIterator, ParallelIterator};
use crate::transformations::common::Transformation;
use crate::models::{
    BlockType, Document, FontRule, Fragment, GlobalStats, Item, ItemType, Line, LineItem, PageView,
    Page, ParseResult, Stats, TextItem, format_of,
};
use crate::text::{chars_of, string_of};
use crate::markup::{emphasized, emphasize};
use crate::units::{dist, distance, clamp, clamp_to_i64};

verus! {

/// The fragments among the first `n` items.
pub open spec fn fragments_upto(items: Seq<Item>, n: int) -> Seq<Fragment>
    decreases n,
{
    if n <= 0 {
        Seq::empty()
    } else {
        match items[n - 1] {
            Item::Fragment(f) => fragments_upto(items, n - 1).push(f),
            _ => fragments_upto(items, n - 1),
        }
    }
}

/// Whether a fragment is too far above or below the first fragment of a
/// line to belong to it: further than 0.8 times the size of that fragment,
/// or than the pitch where that fragment has no size.
pub open spec fn starts_new_line(first: Fragment, item: Fragment, pitch: i64) -> bool {
    if first.font_size > 0 {
        10 * dist(first.y, item.y) > 8 * first.font_size
    } else {
        dist(first.y, item.y) > pitch
    }
}

/// `s` with `f` put in behind the last fragment that does not start right of it.
pub open spec fn inserted_by_x(s: Seq<Fragment>, f: Fragment) -> Seq<Fragment>
    decreases s.len(),
{
    if s.len() == 0 {
        seq![f]
    } else if s.last().x <= f.x {
        s.push(f)
    } else {
        inserted_by_x(s.drop_last(), f).push(s.last())
    }
}

/// The first `n` fragments from left to right; fragments that start at the
/// same place keep their order.
pub open spec fn sorted_by_x_upto(s: Seq<Fragment>, n: int) -> Seq<Fragment>
    decreases n,
{
    if n <= 0 {
        Seq::empty()
    } else {
        inserted_by_x(sorted_by_x_upto(s, n - 1), s[n - 1])
    }
}

/// The fragments from left to right.
pub open spec fn sorted_by_x(s: Seq<Fragment>) -> Seq<Fragment> {
    sorted_by_x_upto(s, s.len() as int)
}

/// The lines that are complete, and the fragments of the line that is open.
pub ghost struct Grouping {
    pub lines: Seq<Seq<Fragment>>,
    pub current: Seq<Fragment>,
}

/// The grouping after one more fragment.
pub open spec fn group_step(g: Grouping, item: Fragment, pitch: i64) -> Grouping {
    if g.current.len() > 0 && starts_new_line(g.current[0], item, pitch) {
        Grouping { lines: g.lines.push(sorted_by_x(g.current)), current: seq![item] }
    } else {
        Grouping { lines: g.lines, current: g.current.push(item) }
    }
}

/// The grouping after the first `n` fragments.
pub open spec fn grouping_upto(items: Seq<Fragment>, n: int, pitch: i64) -> Grouping
    decreases n,
{
    if n <= 0 {
        Grouping { lines: Seq::empty(), current: Seq::empty() }
    } else {
        group_step(grouping_upto(items, n - 1, pitch), items[n - 1], pitch)
    }
}

/// The fragments grouped into lines in the order in which they come, each
/// line from left to right.
pub open spec fn grouped(items: Seq<Fragment>, pitch: i64) -> Seq<Seq<Fragment>> {
    let g = grouping_upto(items, items.len() as int, pitch);
    if g.current.len() > 0 {
        g.lines.push(sorted_by_x(g.current))
    } else {
        g.lines
    }
}

/// Punctuation that no space stands before.
pub open spec fn is_closing(c: char) -> bool {
    c == '.' || c == ',' || c == ':' || c == ';' || c == '?' || c == '!' || c == ')' || c == ']'
        || c == '}'
}

/// Punctuation that no space stands behind.
pub open spec fn is_opening(c: char) -> bool {
    c == '(' || c == '[' || c == '{'
}

/// Fragments of one font that are no further apart than this are glued.
pub const GLUE_GAP: i64 = 5000;

/// Fragments of one font are words of one run if they are no further apart
/// than twice the font size, or than this.
pub const SPACE_GAP: i64 = 30000;

/// The gap between the right edge of `cur` and the left edge of `item`.
pub open spec fn gap_between(cur: Fragment, item: Fragment) -> int {
    item.x - (cur.x + cur.width)
}

/// The widest gap at which `item` is still a word of the run `cur`.
pub open spec fn space_threshold(cur: Fragment) -> int {
    if 2 * cur.font_size > SPACE_GAP {
        2 * cur.font_size
    } else {
        SPACE_GAP as int
    }
}

/// What stands between two words of a run: a space, unless the second
/// starts with closing punctuation or the first ends with opening punctuation.
pub open spec fn word_separator(cur: Fragment, item: Fragment) -> Seq<char> {
    if (item.text.len() > 0 && is_closing(item.text[0])) || (cur.text.len() > 0 && is_opening(
        cur.text.last(),
    )) {
        Seq::empty()
    } else {
        " "@
    }
}

/// The run `cur` with `item` added behind `sep`: it reaches to the right
/// edge of `item` and is as high as the higher of the two.
pub open spec fn joined(cur: Fragment, item: Fragment, sep: Seq<char>) -> Fragment {
    Fragment {
        text: cur.text + sep + item.text,
        width: clamp(item.x + item.width - cur.x),
        height: if item.height > cur.height {
            item.height
        } else {
            cur.height
        },
        ..cur
    }
}

/// The runs that are complete, and the run that is open.
pub ghost struct Merging {
    pub done: Seq<Fragment>,
    pub current: Fragment,
}

/// The merging after one more fragment: glued to the open run, added to it
/// as a word, or the start of a new run.
pub open spec fn merge_step(m: Merging, item: Fragment) -> Merging {
    let gap = gap_between(m.current, item);
    let same_font = item.font == m.current.font;
    if same_font && gap <= GLUE_GAP {
        Merging { done: m.done, current: joined(m.current, item, Seq::empty()) }
    } else if same_font && gap <= space_threshold(m.current) {
        Merging { done: m.done, current: joined(m.current, item, word_separator(m.current, item)) }
    } else {
        Merging { done: m.done.push(m.current), current: item }
    }
}

/// The merging after the first `n` fragments of a line that is not empty.
pub open spec fn merging_upto(items: Seq<Fragment>, n: int) -> Merging
    decreases n,
{
    if n <= 1 {
        Merging { done: Seq::empty(), current: items[0] }
    } else {
        merge_step(merging_upto(items, n - 1), items[n - 1])
    }
}

/// The runs of a line that is not empty.
pub open spec fn merged(items: Seq<Fragment>) -> Seq<Fragment> {
    let m = merging_upto(items, items.len() as int);
    m.done.push(m.current)
}

/// A run with the marks of the emphasis that its font stands for.
pub open spec fn with_emphasis(f: Fragment, table: Seq<FontRule>) -> Fragment {
    match format_of(table, f.font) {
        Some(format) => Fragment { text: emphasized(f.text, format), ..f },
        None => f,
    }
}

/// The largest height among the first `n` fragments, and 0 where that is larger.
pub open spec fn max_height_upto(items: Seq<Fragment>, n: int) -> i64
    decreases n,
{
    if n <= 0 {
        0
    } else {
        let m = max_height_upto(items, n - 1);
        if items[n - 1].height > m {
            items[n - 1].height
        } else {
            m
        }
    }
}

/// The line made of the fragments of one group: none for an empty group.
/// The line starts where its first run starts, reaches to the right edge of
/// its last run, and is a paragraph.
pub open spec fn line_of(items: Seq<Fragment>, table: Seq<FontRule>) -> Option<Line> {
    if items.len() == 0 {
        None
    } else {
        let runs = merged(items);
        let shown = Seq::new(runs.len(), |i: int| with_emphasis(runs[i], table));
        Some(
            Line {
                items: shown,
                x: shown[0].x,
                y: shown[0].y,
                width: clamp(shown.last().x + shown.last().width - shown[0].x),
                height: max_height_upto(shown, shown.len() as int),
                block_type: BlockType::Paragraph,
            },
        )
    }
}

/// The lines of the first `n` groups.
pub open spec fn lines_upto(groups: Seq<Seq<Fragment>>, n: int, table: Seq<FontRule>) -> Seq<Item>
    decreases n,
{
    if n <= 0 {
        Seq::empty()
    } else {
        match line_of(groups[n - 1], table) {
            Some(line) => lines_upto(groups, n - 1, table).push(Item::Line(line)),
            None => lines_upto(groups, n - 1, table),
        }
    }
}

/// The items of a page after the stage: the lines of its fragments. A page
/// without fragments stays as it is.
pub open spec fn compacted(items: Seq<Item>, stats: Stats) -> Seq<Item> {
    let fragments = fragments_upto(items, items.len() as int);
    if fragments.len() == 0 {
        items
    } else {
        let groups = grouped(fragments, stats.most_used_distance);
        lines_upto(groups, groups.len() as int, stats.font_to_format)
    }
}

/// A page after the stage.
pub open spec fn compacted_page(page: PageView, stats: Stats) -> PageView {
    PageView { index: page.index, items: compacted(page.items, stats) }
}

/// The pages after the stage.
pub open spec fn compacted_pages(pages: Seq<PageView>, stats: Stats) -> Seq<PageView> {
    Seq::new(pages.len(), |i: int| compacted_page(pages[i], stats))
}

/// The document after the stage.
pub open spec fn compact_lines(doc: Document) -> Document {
    Document { pages: compacted_pages(doc.pages, doc.globals), globals: doc.globals }
}

/// Whether the fragments stand from left to right.
pub open spec fn is_ascending(items: Seq<Fragment>) -> bool {
    forall|i: int, j: int| 0 <= i <= j < items.len() ==> items[i].x <= items[j].x
}

/// What bounds the fragments of `s` and `f` bounds those of `s` with `f` put in.
pub proof fn lemma_inserted_bound(s: Seq<Fragment>, f: Fragment, bound: i64)
    requires
        f.x <= bound,
        forall|k: int| 0 <= k < s.len() ==> (#[trigger] s[k]).x <= bound,
    ensures
        inserted_by_x(s, f).len() == s.len() + 1,
        forall|k: int|
            0 <= k < inserted_by_x(s, f).len() ==> (#[trigger] inserted_by_x(s, f)[k]).x <= bound,
    decreases s.len(),
{
    if s.len() > 0 && !(s.last().x <= f.x) {
        let t = s.drop_last();
        lemma_inserted_bound(t, f, bound);
    }
}

/// Putting a fragment into fragments that stand from left to right leaves
/// them standing so.
pub proof fn lemma_inserted_ascending(s: Seq<Fragment>, f: Fragment)
    requires
        is_ascending(s),
    ensures
        is_ascending(inserted_by_x(s, f)),
    decreases s.len(),
{
    if s.len() > 0 && !(s.last().x <= f.x) {
        let t = s.drop_last();
        lemma_inserted_ascending(t, f);
        lemma_inserted_bound(t, f, s.last().x);
    }
}

/// Sorted fragments stand from left to right.
pub proof fn lemma_sorted_ascending(s: Seq<Fragment>, n: int)
    ensures
        is_ascending(sorted_by_x_upto(s, n)),
    decreases n,
{
    if n > 0 {
        lemma_sorted_ascending(s, n - 1);
        lemma_inserted_ascending(sorted_by_x_upto(s, n - 1), s[n - 1]);
    }
}

/// Every group of fragments stands from left to right.
pub proof fn lemma_groups_ascending(items: Seq<Fragment>, n: int, pitch: i64)
    ensures
        forall|k: int|
            0 <= k < grouping_upto(items, n, pitch).lines.len() ==> is_ascending(
                #[trigger] grouping_upto(items, n, pitch).lines[k],
            ),
        forall|k: int|
            0 <= k < grouping_upto(items, n, pitch).lines.len() ==> (#[trigger] grouping_upto(
                items,
                n,
                pitch,
            ).lines[k]).len() > 0,
    decreases n,
{
    if n > 0 {
        lemma_groups_ascending(items, n - 1, pitch);
        let g = grouping_upto(items, n - 1, pitch);
        lemma_sorted_ascending(g.current, g.current.len() as int);
        if g.current.len() > 0 {
            lemma_sorted_length(g.current, g.current.len() as int);
        }
    }
}

/// Sorting keeps the number of fragments.
pub proof fn lemma_sorted_length(s: Seq<Fragment>, n: int)
    requires
        0 <= n,
    ensures
        sorted_by_x_upto(s, n).len() == n,
    decreases n,
{
    if n > 0 {
        lemma_sorted_length(s, n - 1);
        let t = sorted_by_x_upto(s, n - 1);
        lemma_inserted_bound(t, s[n - 1], i64::MAX);
    }
}

/// The runs of fragments that stand from left to right stand from left to right.
pub proof fn lemma_merged_ascending(items: Seq<Fragment>, n: int)
    requires
        1 <= n <= items.len(),
        is_ascending(items),
    ensures
        is_ascending(merging_upto(items, n).done.push(merging_upto(items, n).current)),
        merging_upto(items, n).current.x <= items[n - 1].x,
    decreases n,
{
    if n > 1 {
        lemma_merged_ascending(items, n - 1);
        let m = merging_upto(items, n - 1);
        let runs = m.done.push(m.current);
        let after = merging_upto(items, n);
        assert forall|i: int, j: int|
            0 <= i <= j < after.done.push(after.current).len() implies after.done.push(
            after.current,
        )[i].x <= after.done.push(after.current)[j].x by {
            if after.done.len() == m.done.len() {
                // the open run has grown; it starts where it started
                if i < m.done.len() {
                    assert(runs[i].x <= runs[m.done.len() as int].x);
                }
            } else if j < runs.len() {
                // the open run is complete, and the fragment starts the next
                assert(runs[i].x <= runs[j].x);
            }
        }
    }
}

/// Merging two fragments of one font: up to the glue gap their texts are
/// joined as they are; up to the space threshold they are joined with what
/// separates two words; beyond it they stay two runs.
pub proof fn lemma_merge_pair(a: Fragment, b: Fragment)
    requires
        a.font == b.font,
    ensures
        gap_between(a, b) <= GLUE_GAP ==> merged(seq![a, b]) == seq![joined(a, b, Seq::empty())]
            && merged(seq![a, b])[0].text == a.text + b.text,
        GLUE_GAP < gap_between(a, b) <= space_threshold(a) ==> merged(seq![a, b]) == seq![
            joined(a, b, word_separator(a, b)),
        ] && merged(seq![a, b])[0].text == a.text + word_separator(a, b) + b.text,
        gap_between(a, b) > space_threshold(a) ==> merged(seq![a, b]) == seq![a, b],
{
    let items = seq![a, b];
    assert(merging_upto(items, 1) == Merging { done: Seq::empty(), current: a });
}

/// Line invariant: every line that the stage makes of fragments holds its
/// runs from left to right.
pub proof fn lemma_lines_are_ordered(items: Seq<Item>, stats: Stats)
    requires
        fragments_upto(items, items.len() as int).len() > 0,
    ensures
        forall|k: int|
            0 <= k < compacted(items, stats).len() ==> (#[trigger] compacted(items, stats)[k])
                is Line && is_ascending(compacted(items, stats)[k]->Line_0.items),
{
    let fragments = fragments_upto(items, items.len() as int);
    let pitch = stats.most_used_distance;
    let groups = grouped(fragments, pitch);
    let g = grouping_upto(fragments, fragments.len() as int, pitch);
    lemma_groups_ascending(fragments, fragments.len() as int, pitch);
    lemma_sorted_ascending(g.current, g.current.len() as int);
    lemma_sorted_length(g.current, g.current.len() as int);
    assert forall|k: int| 0 <= k < groups.len() implies is_ascending(#[trigger] groups[k])
        && groups[k].len() > 0 by {}
    lemma_group_lines_ordered(groups, groups.len() as int, stats.font_to_format);
}

/// The lines of groups that stand from left to right hold their runs from
/// left to right.
pub proof fn lemma_group_lines_ordered(groups: Seq<Seq<Fragment>>, n: int, table: Seq<FontRule>)
    requires
        0 <= n <= groups.len(),
        forall|k: int|
            0 <= k < groups.len() ==> is_ascending(#[trigger] groups[k]) && groups[k].len() > 0,
    ensures
        forall|k: int|
            0 <= k < lines_upto(groups, n, table).len() ==> (#[trigger] lines_upto(
                groups,
                n,
                table,
            )[k]) is Line && is_ascending(lines_upto(groups, n, table)[k]->Line_0.items),
    decreases n,
{
    if n > 0 {
        lemma_group_lines_ordered(groups, n - 1, table);
        let group = groups[n - 1];
        lemma_merged_ascending(group, group.len() as int);
        let line = line_of(group, table)->0;
        assert forall|i: int, j: int| 0 <= i <= j < line.items.len() implies line.items[i].x
            <= line.items[j].x by {}
    }
}

/// The stage that groups fragments into lines.
#[derive(Debug)]
pub struct CompactLines {
    /// Whether the caller reports progress; the stage itself writes nothing,
    /// and its result does not depend on this.
    pub verbose: bool,
}

/// Inserting at the place found from the end is what `inserted_by_x` does.
pub proof fn lemma_inserted_at(s: Seq<Fragment>, f: Fragment, pos: int)
    requires
        0 <= pos <= s.len(),
        pos > 0 ==> s[pos - 1].x <= f.x,
        forall|k: int| pos <= k < s.len() ==> (#[trigger] s[k]).x > f.x,
    ensures
        inserted_by_x(s, f) == s.insert(pos, f),
    decreases s.len(),
{
    if pos < s.len() {
        let t = s.drop_last();
        lemma_inserted_at(t, f, pos);
    }
}

/// Orders the fragments of a line from left to right.
pub fn sort_line_by_x(line: &mut Vec<TextItem>)
    ensures
        final(line).deep_view() == sorted_by_x(old(line).deep_view()),
        is_ascending(final(line).deep_view()),
        final(line).len() == old(line).len(),
{
    let ghost before = line.deep_view();
    let mut r: Vec<TextItem> = Vec::new();
    let mut i: usize = 0;
    while i < line.len()
        invariant
            i <= line.len(),
            before == line.deep_view(),
            r.len() == i,
            r.deep_view() == sorted_by_x_upto(before, i as int),
        decreases line.len() - i,
    {
        let x = line[i].x;
        let mut pos: usize = r.len();
        while pos > 0 && r[pos - 1].x > x
            invariant
                pos <= r.len(),
                forall|k: int| pos <= k < r.len() ==> (#[trigger] r.deep_view()[k]).x > x,
            decreases pos,
        {
            pos -= 1;
        }
        proof {
            lemma_inserted_at(r.deep_view(), before[i as int], pos as int);
        }
        r.insert(pos, line[i].clone());
        i += 1;
    }
    proof {
        lemma_sorted_ascending(before, before.len() as int);
    }
    *line = r;
}

/// Whether `item` is too far from `first` to stand on its line.
pub fn is_new_line(first: &TextItem, item: &TextItem, pitch: i64) -> (b: bool)
    ensures
        b == starts_new_line(first.deep_view(), item.deep_view(), pitch),
{
    let d = distance(first.y, item.y);
    if first.font_size > 0 {
        10 * d > 8 * (first.font_size as i128)
    } else {
        d > pitch as i128
    }
}

/// Groups the fragments into lines.
pub fn group_items_by_line(items: Vec<TextItem>, most_used_distance: i64) -> (lines: Vec<
    Vec<TextItem>,
>)
    ensures
        lines.deep_view() == grouped(items.deep_view(), most_used_distance),
{
    let ghost dv = items.deep_view();
    let pitch = most_used_distance;
    let mut lines: Vec<Vec<TextItem>> = Vec::new();
    let mut current: Vec<TextItem> = Vec::new();
    let mut i: usize = 0;
    assert(lines.deep_view() =~= Seq::<Seq<Fragment>>::empty());
    assert(current.deep_view() =~= Seq::<Fragment>::empty());
    while i < items.len()
        invariant
            i <= items.len(),
            dv == items.deep_view(),
            grouping_upto(dv, i as int, pitch) == (Grouping {
                lines: lines.deep_view(),
                current: current.deep_view(),
            }),
        decreases items.len() - i,
    {
        let ghost cv = current.deep_view();
        let ghost lv = lines.deep_view();
        let mut fresh = false;
        if current.len() > 0 {
            fresh = is_new_line(&current[0], &items[i], pitch);
        }
        if fresh {
            sort_line_by_x(&mut current);
            let ghost sv = current.deep_view();
            lines.push(current);
            assert(lines.deep_view() =~= lv.push(sv));
            current = Vec::new();
            current.push(items[i].clone());
            assert(current.deep_view() =~= seq![dv[i as int]]);
        } else {
            current.push(items[i].clone());
            assert(current.deep_view() =~= cv.push(dv[i as int]));
        }
        i += 1;
    }
    if current.len() > 0 {
        sort_line_by_x(&mut current);
        lines.push(current);
    }
    lines
}

/// Whether no space stands before the character.
pub fn is_closing_char(c: char) -> (b: bool)
    ensures
        b == is_closing(c),
{
    c == '.' || c == ',' || c == ':' || c == ';' || c == '?' || c == '!' || c == ')' || c == ']'
        || c == '}'
}

/// Whether no space stands behind the character.
pub fn is_opening_char(c: char) -> (b: bool)
    ensures
        b == is_opening(c),
{
    c == '(' || c == '[' || c == '{'
}

/// Adds `item` to the run `cur`, with a space between them if `spaced`
/// and the punctuation at the joint allows one.
pub fn join_items(cur: &mut TextItem, item: &TextItem, spaced: bool)
    ensures
        final(cur).deep_view() == joined(
            old(cur).deep_view(),
            item.deep_view(),
            if spaced {
                word_separator(old(cur).deep_view(), item.deep_view())
            } else {
                Seq::empty()
            },
        ),
{
    let ghost before = cur.deep_view();
    if spaced {
        let next = chars_of(item.text.as_str());
        let prev = chars_of(cur.text.as_str());
        let closing = next.len() > 0 && is_closing_char(next[0]);
        let opening = prev.len() > 0 && is_opening_char(prev[prev.len() - 1]);
        if !closing && !opening {
            proof {
                reveal_strlit(" ");
                assert(before.text.push(' ') =~= before.text + " "@);
            }
            cur.text.push(' ');
        }
    }
    cur.text.append(item.text.as_str());
    cur.width = clamp_to_i64(item.x as i128 + item.width as i128 - cur.x as i128);
    if item.height > cur.height {
        cur.height = item.height;
    }
}

/// The runs of a line that is not empty.
pub fn merge_items(items: &Vec<TextItem>) -> (r: Vec<TextItem>)
    requires
        items.len() > 0,
    ensures
        r.deep_view() == merged(items.deep_view()),
{
    let ghost dv = items.deep_view();
    let mut done: Vec<TextItem> = Vec::new();
    let mut current = items[0].clone();
    let mut i: usize = 1;
    assert(done.deep_view() =~= Seq::<Fragment>::empty());
    while i < items.len()
        invariant
            1 <= i <= items.len(),
            dv == items.deep_view(),
            merging_upto(dv, i as int) == (Merging {
                done: done.deep_view(),
                current: current.deep_view(),
            }),
        decreases items.len() - i,
    {
        let item = &items[i];
        let gap: i128 = item.x as i128 - (current.x as i128 + current.width as i128);
        let wide: i128 = if 2 * (current.font_size as i128) > SPACE_GAP as i128 {
            2 * (current.font_size as i128)
        } else {
            SPACE_GAP as i128
        };
        let same_font = item.font == current.font;
        if same_font && gap <= GLUE_GAP as i128 {
            join_items(&mut current, item, false);
        } else if same_font && gap <= wide {
            join_items(&mut current, item, true);
        } else {
            let ghost before = done.deep_view();
            let ghost cv = current.deep_view();
            done.push(current);
            assert(done.deep_view() =~= before.push(cv));
            current = item.clone();
        }
        i += 1;
    }
    done.push(current);
    done
}

/// Writes the marks of its emphasis around the text of each run.
pub fn apply_emphasis(runs: &mut Vec<TextItem>, globals: &GlobalStats)
    ensures
        final(runs).deep_view() == Seq::new(
            old(runs).deep_view().len(),
            |i: int| with_emphasis(old(runs).deep_view()[i], globals.deep_view().font_to_format),
        ),
{
    let ghost before = runs.deep_view();
    let ghost table = globals.deep_view().font_to_format;
    let mut i: usize = 0;
    while i < runs.len()
        invariant
            i <= runs.len(),
            runs.len() == before.len(),
            table == globals.deep_view().font_to_format,
            forall|j: int|
                0 <= j < i ==> (#[trigger] runs@[j]).deep_view() == with_emphasis(before[j], table),
            forall|j: int| i <= j < before.len() ==> (#[trigger] runs@[j]).deep_view() == before[j],
        decreases runs.len() - i,
    {
        match globals.format_for(&runs[i].font) {
            Some(format) => {
                let text = emphasize(&chars_of(runs[i].text.as_str()), format);
                runs[i].text = string_of(&text);
            },
            None => {},
        }
        i += 1;
    }
}

/// The largest height of the fragments, at least 0.
pub fn max_height(items: &Vec<TextItem>) -> (h: i64)
    ensures
        h == max_height_upto(items.deep_view(), items.len() as int),
{
    let mut h: i64 = 0;
    let mut i: usize = 0;
    while i < items.len()
        invariant
            i <= items.len(),
            h == max_height_upto(items.deep_view(), i as int),
        decreases items.len() - i,
    {
        if items[i].height > h {
            h = items[i].height;
        }
        i += 1;
    }
    h
}

/// The line made of the fragments of one group.
pub fn create_line_item(items: Vec<TextItem>, globals: &GlobalStats) -> (r: Option<LineItem>)
    ensures
        r is Some == line_of(items.deep_view(), globals.deep_view().font_to_format) is Some,
        r matches Some(line) ==> Some(line.deep_view()) == line_of(
            items.deep_view(),
            globals.deep_view().font_to_format,
        ),
{
    if items.len() == 0 {
        return None;
    }
    let mut runs = merge_items(&items);
    apply_emphasis(&mut runs, globals);
    let x = runs[0].x;
    let y = runs[0].y;
    let last = &runs[runs.len() - 1];
    let width = clamp_to_i64(last.x as i128 + last.width as i128 - x as i128);
    let height = max_height(&runs);
    Some(
        LineItem {
            items: runs,
            x: x,
            y: y,
            width: width,
            height: height,
            block_type: BlockType::Paragraph,
        },
    )
}

/// Replaces the fragments of a page by the lines that they make. A page
/// without fragments stays as it is.
pub fn compact_page(page: &mut Page, globals: &GlobalStats)
    ensures
        final(page).deep_view() == compacted_page(old(page).deep_view(), globals.deep_view()),
{
    let ghost dv = page.items.deep_view();
    let mut text_items: Vec<TextItem> = Vec::new();
    let mut i: usize = 0;
    while i < page.items.len()
        invariant
            i <= page.items.len(),
            dv == page.items.deep_view(),
            *page == *old(page),
            text_items.deep_view() == fragments_upto(dv, i as int),
        decreases page.items.len() - i,
    {
        match &page.items[i] {
            ItemType::TextItem(item) => {
                text_items.push(item.clone());
            },
            _ => {},
        }
        i += 1;
    }
    if text_items.len() == 0 {
        return;
    }
    let groups = group_items_by_line(text_items, globals.most_used_distance);
    let ghost gv = groups.deep_view();
    let ghost table = globals.deep_view().font_to_format;
    let mut new_items: Vec<ItemType> = Vec::new();
    let mut k: usize = 0;
    while k < groups.len()
        invariant
            k <= groups.len(),
            gv == groups.deep_view(),
            table == globals.deep_view().font_to_format,
            new_items.deep_view() == lines_upto(gv, k as int, table),
        decreases groups.len() - k,
    {
        let group = crate::models::clone_items(&groups[k]);
        match create_line_item(group, globals) {
            Some(line) => {
                new_items.push(ItemType::LineItem(line));
            },
            None => {},
        }
        k += 1;
    }
    page.items = new_items;
}

/// Runs [`compact_page`] on every page, the pages spread over the threads
/// of rayon's pool (`par_iter_mut` and `for_each`). What is taken on trust:
/// that the closure is run exactly once on each page, and on nothing else,
/// so that every page ends as `compact_page` leaves it.
#[verifier::external_body]
fn compact_pages_in_parallel(pages: &mut Vec<Page>, globals: &GlobalStats)
    ensures
        final(pages).deep_view() == compacted_pages(old(pages).deep_view(), globals.deep_view()),
{
    pages.par_iter_mut().for_each(|page| compact_page(page, globals));
}

impl Transformation for CompactLines {
    /// Replaces the fragments of every page by the lines that they make.
    fn transform(&self, result: &mut ParseResult)
        ensures
            final(result).deep_view() == compact_lines(old(result).deep_view()),
    {
        let ghost before = result.pages.deep_view();
        assert forall|i: int| 0 <= i < result.pages.len() implies (#[trigger] before[i]).index
            == result.pages@[i].index by {}
        compact_pages_in_parallel(&mut result.pages, &result.globals);
        assert(result.pages.deep_view().len() == before.len());
        assert forall|i: int| 0 <= i < result.pages.len() implies (
        #[trigger] result.pages@[i]).index == before[i].index by {
            assert(result.pages.deep_view()[i] == result.pages@[i].deep_view());
        }
    }
}

} // verus!
