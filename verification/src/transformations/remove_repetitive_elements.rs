//! Dropping the running headers and footers of a document.

use vstd::prelude::*;
use vstd::utf8::encode_utf8;
use vstd::std_specs::hash::DefaultHasherAdditionalSpecFns;
use std::collections::hash_map::DefaultHasher;
use std::collections::HashMap;
use std::hash::Hasher;
use crate::transformations::common::Transformation;
use crate::models::{Document, Item, ItemType, PageView, ParseResult, text_of, line_text};
use crate::text::{
    is_space, is_digit, is_blank, is_space_char, is_digit_char, is_blank_text, chars_of, string_of,
};
use crate::unicode::{char_lowercase, lowercase_of_char};
use crate::words::append_chars;

verus! {

/// The vertical position of an item; rendered Markdown has none.
pub open spec fn item_y(item: Item) -> Option<i64> {
    match item {
        Item::Fragment(f) => Some(f.y),
        Item::Line(line) => Some(line.y),
        Item::Markdown(_) => None,
    }
}

/// The text of an item; that of rendered Markdown does not count.
pub open spec fn item_text(item: Item) -> Seq<char> {
    match item {
        Item::Fragment(f) => f.text,
        Item::Line(line) => text_of(line.items),
        Item::Markdown(_) => Seq::empty(),
    }
}

/// The smallest vertical position among the first `n` items.
pub open spec fn min_y_upto(items: Seq<Item>, n: int) -> Option<i64>
    decreases n,
{
    if n <= 0 {
        None
    } else {
        let r = min_y_upto(items, n - 1);
        match (item_y(items[n - 1]), r) {
            (Some(y), Some(m)) => if y < m {
                Some(y)
            } else {
                Some(m)
            },
            (Some(y), None) => Some(y),
            (None, _) => r,
        }
    }
}

/// The largest vertical position among the first `n` items.
pub open spec fn max_y_upto(items: Seq<Item>, n: int) -> Option<i64>
    decreases n,
{
    if n <= 0 {
        None
    } else {
        let r = max_y_upto(items, n - 1);
        match (item_y(items[n - 1]), r) {
            (Some(y), Some(m)) => if y > m {
                Some(y)
            } else {
                Some(m)
            },
            (Some(y), None) => Some(y),
            (None, _) => r,
        }
    }
}

/// The texts of those of the first `n` items that stand at `y`, one after
/// the other.
pub open spec fn band_text_upto(items: Seq<Item>, n: int, y: i64) -> Seq<char>
    decreases n,
{
    if n <= 0 {
        Seq::empty()
    } else if item_y(items[n - 1]) == Some(y) {
        band_text_upto(items, n - 1, y) + item_text(items[n - 1])
    } else {
        band_text_upto(items, n - 1, y)
    }
}

/// The first `n` characters of a text without digits and white space, in
/// lower case character by character.
pub open spec fn normalized_upto(s: Seq<char>, n: int) -> Seq<char>
    decreases n,
{
    if n <= 0 {
        Seq::empty()
    } else if is_digit(s[n - 1]) || is_space(s[n - 1]) {
        normalized_upto(s, n - 1)
    } else {
        normalized_upto(s, n - 1) + char_lowercase(s[n - 1])
    }
}

/// A text without digits and white space, in lower case.
pub open spec fn normalized_text(s: Seq<char>) -> Seq<char> {
    normalized_upto(s, s.len() as int)
}

/// The hash of a text: that of the standard hasher with its fixed keys,
/// fed the bytes of the text and then one byte 255.
pub open spec fn text_hash(s: Seq<char>) -> u64 {
    DefaultHasher::spec_finish(seq![encode_utf8(s), seq![255u8]])
}

/// The fingerprint of a text: 0 for a blank text, else the hash of its
/// normalized form, so that texts that differ in digits, white space or
/// case have the same.
pub open spec fn fingerprint(s: Seq<char>) -> u64 {
    if is_blank(s) {
        0
    } else {
        text_hash(normalized_text(s))
    }
}

/// The fingerprints of the two bands at the edge of a page: of the texts at
/// its smallest and at its largest vertical position. Both are 0 for a
/// page without positioned items.
pub open spec fn page_hashes(items: Seq<Item>) -> (u64, u64) {
    let n = items.len() as int;
    match (min_y_upto(items, n), max_y_upto(items, n)) {
        (Some(lo), Some(hi)) => (
            fingerprint(band_text_upto(items, n, lo)),
            fingerprint(band_text_upto(items, n, hi)),
        ),
        _ => (0, 0),
    }
}

/// How often `h` occurs among the first `n` values.
pub open spec fn occurrences_upto(hashes: Seq<u64>, h: u64, n: int) -> nat
    decreases n,
{
    if n <= 0 {
        0
    } else {
        occurrences_upto(hashes, h, n - 1) + if hashes[n - 1] == h {
            1nat
        } else {
            0nat
        }
    }
}

/// Number of pages that must share a fingerprint for it to be that of a
/// running element: two thirds of the pages, rounded up, and at least 3.
pub open spec fn threshold(pages: nat) -> nat {
    let two_thirds = (2 * pages + 2) / 3;
    if two_thirds < 3 {
        3
    } else {
        two_thirds
    }
}

/// Whether enough pages share the fingerprint `h`; the fingerprint 0 of an
/// empty band is never shared.
pub open spec fn is_repetitive(hashes: Seq<u64>, h: u64) -> bool {
    h != 0 && occurrences_upto(hashes, h, hashes.len() as int) >= threshold(hashes.len())
}

/// The fingerprints of the bands at the smallest position of each page.
pub open spec fn low_hashes(pages: Seq<PageView>) -> Seq<u64> {
    Seq::new(pages.len(), |i: int| page_hashes(pages[i].items).0)
}

/// The fingerprints of the bands at the largest position of each page.
pub open spec fn high_hashes(pages: Seq<PageView>) -> Seq<u64> {
    Seq::new(pages.len(), |i: int| page_hashes(pages[i].items).1)
}

/// Whether an item goes: it stands in a band that is dropped.
pub open spec fn is_dropped(item: Item, lo: Option<i64>, hi: Option<i64>) -> bool {
    item_y(item) is Some && (item_y(item) == lo || item_y(item) == hi)
}

/// The first `n` items without those that go.
pub open spec fn kept_upto(items: Seq<Item>, n: int, lo: Option<i64>, hi: Option<i64>) -> Seq<Item>
    decreases n,
{
    if n <= 0 {
        Seq::empty()
    } else if is_dropped(items[n - 1], lo, hi) {
        kept_upto(items, n - 1, lo, hi)
    } else {
        kept_upto(items, n - 1, lo, hi).push(items[n - 1])
    }
}

/// The items of a page without the band at its smallest position, if
/// `drop_low`, and without the band at its largest, if `drop_high`.
pub open spec fn pruned(items: Seq<Item>, drop_low: bool, drop_high: bool) -> Seq<Item> {
    let n = items.len() as int;
    kept_upto(
        items,
        n,
        if drop_low {
            min_y_upto(items, n)
        } else {
            None
        },
        if drop_high {
            max_y_upto(items, n)
        } else {
            None
        },
    )
}

/// The document after the stage. A document of fewer than three pages stays
/// as it is. Otherwise each page loses the band at its smallest position if
/// enough pages have a band of the same fingerprint there, and the band at
/// its largest position likewise.
pub open spec fn remove_repetitive(doc: Document) -> Document {
    if doc.pages.len() < 3 {
        doc
    } else {
        let lows = low_hashes(doc.pages);
        let highs = high_hashes(doc.pages);
        Document {
            pages: Seq::new(
                doc.pages.len(),
                |i: int|
                    PageView {
                        index: doc.pages[i].index,
                        items: pruned(
                            doc.pages[i].items,
                            is_repetitive(lows, lows[i]),
                            is_repetitive(highs, highs[i]),
                        ),
                    },
            ),
            globals: doc.globals,
        }
    }
}

/// The first `n` characters of a text without the digits.
pub open spec fn without_digits_upto(s: Seq<char>, n: int) -> Seq<char>
    decreases n,
{
    if n <= 0 {
        Seq::empty()
    } else if is_digit(s[n - 1]) {
        without_digits_upto(s, n - 1)
    } else {
        without_digits_upto(s, n - 1).push(s[n - 1])
    }
}

/// A text without its digits.
pub open spec fn without_digits(s: Seq<char>) -> Seq<char> {
    without_digits_upto(s, s.len() as int)
}

/// The normalized form of the first `n` characters depends on them alone.
pub proof fn lemma_normalized_prefix(s: Seq<char>, t: Seq<char>, n: int)
    requires
        0 <= n <= s.len(),
        n <= t.len(),
        forall|i: int| 0 <= i < n ==> s[i] == t[i],
    ensures
        normalized_upto(s, n) == normalized_upto(t, n),
    decreases n,
{
    if n > 0 {
        lemma_normalized_prefix(s, t, n - 1);
    }
}

/// The normalized form of a text is that of the text without its digits.
pub proof fn lemma_normalized_without_digits(s: Seq<char>, n: int)
    requires
        0 <= n <= s.len(),
    ensures
        without_digits_upto(s, n).len() <= n,
        normalized_upto(s, n) == normalized_text(without_digits_upto(s, n)),
    decreases n,
{
    if n > 0 {
        lemma_normalized_without_digits(s, n - 1);
        if !is_digit(s[n - 1]) {
            let w = without_digits_upto(s, n - 1);
            lemma_normalized_prefix(w, w.push(s[n - 1]), w.len() as int);
        }
    }
}

/// Fingerprint invariance: two texts that differ only in their digits have
/// the same fingerprint, provided that both are blank or neither is. (A
/// text of digits alone is no blank text, though nothing is left of it
/// without its digits.)
pub proof fn lemma_fingerprint_ignores_digits(a: Seq<char>, b: Seq<char>)
    requires
        without_digits(a) == without_digits(b),
        is_blank(a) == is_blank(b),
    ensures
        fingerprint(a) == fingerprint(b),
{
    lemma_normalized_without_digits(a, a.len() as int);
    lemma_normalized_without_digits(b, b.len() as int);
}

/// Values that are all `h` hold `h` as often as there are values.
pub proof fn lemma_all_occurrences(hashes: Seq<u64>, h: u64, n: int)
    requires
        0 <= n <= hashes.len(),
        forall|i: int| 0 <= i < hashes.len() ==> hashes[i] == h,
    ensures
        occurrences_upto(hashes, h, n) == n,
    decreases n,
{
    if n > 0 {
        lemma_all_occurrences(hashes, h, n - 1);
    }
}

/// Running elements go: in a document of three pages or more whose bands
/// at the smallest position all have one fingerprint, other than that of
/// an empty band, every page loses that band.
pub proof fn lemma_running_band_is_dropped(doc: Document, h: u64)
    requires
        doc.pages.len() >= 3,
        h != 0,
        forall|i: int| 0 <= i < doc.pages.len() ==> page_hashes(#[trigger] doc.pages[i].items).0 == h,
    ensures
        forall|i: int, k: int|
            0 <= i < doc.pages.len() && 0 <= k < remove_repetitive(doc).pages[i].items.len()
                ==> item_y(#[trigger] remove_repetitive(doc).pages[i].items[k]) is None || item_y(
                remove_repetitive(doc).pages[i].items[k],
            ) != min_y_upto(doc.pages[i].items, doc.pages[i].items.len() as int),
{
    let lows = low_hashes(doc.pages);
    lemma_all_occurrences(lows, h, lows.len() as int);
    assert forall|i: int, k: int|
        0 <= i < doc.pages.len() && 0 <= k < remove_repetitive(
            doc,
        ).pages[i].items.len() implies item_y(
        #[trigger] remove_repetitive(doc).pages[i].items[k],
    ) is None || item_y(remove_repetitive(doc).pages[i].items[k]) != min_y_upto(
        doc.pages[i].items,
        doc.pages[i].items.len() as int,
    ) by {
        let items = doc.pages[i].items;
        let n = items.len() as int;
        let highs = high_hashes(doc.pages);
        let hi = if is_repetitive(highs, highs[i]) {
            max_y_upto(items, n)
        } else {
            None
        };
        lemma_kept_avoid(items, n, min_y_upto(items, n), hi);
    }
}

/// No item that is kept stands in a band that is dropped.
pub proof fn lemma_kept_avoid(items: Seq<Item>, n: int, lo: Option<i64>, hi: Option<i64>)
    ensures
        forall|k: int|
            0 <= k < kept_upto(items, n, lo, hi).len() ==> !is_dropped(
                #[trigger] kept_upto(items, n, lo, hi)[k],
                lo,
                hi,
            ),
    decreases n,
{
    if n > 0 {
        lemma_kept_avoid(items, n - 1, lo, hi);
        let before = kept_upto(items, n - 1, lo, hi);
    }
}

/// Whether `counts` holds, for each fingerprint other than 0 among the
/// first `n`, how often it occurs among them, and nothing else.
pub open spec fn counted(counts: Map<u64, usize>, hashes: Seq<u64>, n: int) -> bool {
    forall|h: u64|
        #![trigger counts.contains_key(h)]
        #![trigger occurrences_upto(hashes, h, n)]
        (counts.contains_key(h) <==> h != 0 && occurrences_upto(hashes, h, n) > 0) && (
        counts.contains_key(h) ==> counts[h] == occurrences_upto(hashes, h, n))
}

/// The stage that drops running headers and footers.
#[derive(Debug)]
pub struct RemoveRepetitiveElements {
    /// Whether the caller reports progress; the stage itself writes nothing,
    /// and its result does not depend on this.
    pub verbose: bool,
}

/// The vertical position of an item.
pub fn get_item_y(item: &ItemType) -> (y: Option<i64>)
    ensures
        y == item_y(item.deep_view()),
{
    match item {
        ItemType::TextItem(t) => Some(t.y),
        ItemType::LineItem(l) => Some(l.y),
        _ => None,
    }
}

/// The text of an item.
pub fn get_item_text(item: &ItemType) -> (text: Vec<char>)
    ensures
        text@ == item_text(item.deep_view()),
{
    match item {
        ItemType::TextItem(t) => chars_of(t.text.as_str()),
        ItemType::LineItem(l) => line_text(&l.items),
        _ => Vec::new(),
    }
}

/// The fingerprint of a text.
pub fn hash_string(s: &str) -> (h: u64)
    ensures
        h == fingerprint(s@),
{
    let v = chars_of(s);
    if is_blank_text(&v) {
        return 0;
    }
    let mut normalized: Vec<char> = Vec::new();
    let mut i: usize = 0;
    while i < v.len()
        invariant
            i <= v.len(),
            normalized@ == normalized_upto(v@, i as int),
        decreases v.len() - i,
    {
        if !is_digit_char(v[i]) && !is_space_char(v[i]) {
            let lower = lowercase_of_char(v[i]);
            append_chars(&mut normalized, &lower);
        }
        i += 1;
    }
    let text = string_of(&normalized);
    let mut end: Vec<u8> = Vec::new();
    end.push(255u8);
    let mut hasher = DefaultHasher::new();
    hasher.write(text.as_str().as_bytes());
    hasher.write(end.as_slice());
    assert(hasher@ =~= seq![encode_utf8(normalized@), seq![255u8]]);
    hasher.finish()
}

/// The smallest and the largest vertical position on a page.
pub fn vertical_range(items: &Vec<ItemType>) -> (r: (Option<i64>, Option<i64>))
    ensures
        r.0 == min_y_upto(items.deep_view(), items.len() as int),
        r.1 == max_y_upto(items.deep_view(), items.len() as int),
{
    let ghost dv = items.deep_view();
    let mut lo: Option<i64> = None;
    let mut hi: Option<i64> = None;
    let mut i: usize = 0;
    while i < items.len()
        invariant
            i <= items.len(),
            dv == items.deep_view(),
            lo == min_y_upto(dv, i as int),
            hi == max_y_upto(dv, i as int),
        decreases items.len() - i,
    {
        match get_item_y(&items[i]) {
            Some(y) => {
                lo = match lo {
                    Some(m) => if y < m {
                        Some(y)
                    } else {
                        Some(m)
                    },
                    None => Some(y),
                };
                hi = match hi {
                    Some(m) => if y > m {
                        Some(y)
                    } else {
                        Some(m)
                    },
                    None => Some(y),
                };
            },
            None => {},
        }
        i += 1;
    }
    (lo, hi)
}

/// The text of the items of a page that stand at `y`.
pub fn band_text(items: &Vec<ItemType>, y: i64) -> (r: Vec<char>)
    ensures
        r@ == band_text_upto(items.deep_view(), items.len() as int, y),
{
    let ghost dv = items.deep_view();
    let mut r: Vec<char> = Vec::new();
    let mut i: usize = 0;
    while i < items.len()
        invariant
            i <= items.len(),
            dv == items.deep_view(),
            r@ == band_text_upto(dv, i as int, y),
        decreases items.len() - i,
    {
        if get_item_y(&items[i]) == Some(y) {
            let text = get_item_text(&items[i]);
            append_chars(&mut r, &text);
        }
        i += 1;
    }
    r
}

/// The fingerprints of the two bands at the edge of a page.
pub fn calculate_page_hashes(items: &Vec<ItemType>) -> (r: (u64, u64))
    ensures
        r == page_hashes(items.deep_view()),
{
    let (lo, hi) = vertical_range(items);
    match (lo, hi) {
        (Some(lo), Some(hi)) => {
            let low = string_of(&band_text(items, lo));
            let high = string_of(&band_text(items, hi));
            (hash_string(low.as_str()), hash_string(high.as_str()))
        },
        _ => (0, 0),
    }
}

/// How often each fingerprint other than 0 occurs.
pub fn count_hashes(hashes: &Vec<u64>) -> (m: HashMap<u64, usize>)
    ensures
        counted(m@, hashes@, hashes.len() as int),
{
    broadcast use vstd::std_specs::hash::group_hash_axioms;

    let mut m: HashMap<u64, usize> = HashMap::new();
    let mut i: usize = 0;
    while i < hashes.len()
        invariant
            i <= hashes.len(),
            counted(m@, hashes@, i as int),
            forall|h: u64| #[trigger] occurrences_upto(hashes@, h, i as int) <= i,
        decreases hashes.len() - i,
    {
        let h = hashes[i];
        if h != 0 {
            let count = match m.get(&h) {
                Some(c) => *c,
                None => 0,
            };
            m.insert(h, count + 1);
        }
        proof {
            assert forall|k: u64| #[trigger] occurrences_upto(hashes@, k, i + 1) <= i + 1 by {
                let _ = occurrences_upto(hashes@, k, i as int);
            }
        }
        i += 1;
    }
    m
}

/// Whether enough of `pages` pages share the fingerprint `h`.
fn is_shared(counts: &HashMap<u64, usize>, pages: usize, h: u64, Ghost(hashes): Ghost<Seq<u64>>) -> (b:
    bool)
    requires
        hashes.len() == pages,
        counted(counts@, hashes, hashes.len() as int),
    ensures
        b == is_repetitive(hashes, h),
{
    broadcast use vstd::std_specs::hash::group_hash_axioms;

    let two_thirds: u128 = (2 * (pages as u128) + 2) / 3;
    let needed: u128 = if two_thirds < 3 {
        3
    } else {
        two_thirds
    };
    match counts.get(&h) {
        Some(c) => (*c as u128) >= needed,
        None => false,
    }
}

/// With no band to drop every item stays.
pub proof fn lemma_kept_all(items: Seq<Item>, n: int)
    requires
        0 <= n <= items.len(),
    ensures
        kept_upto(items, n, None, None) == items.take(n),
    decreases n,
{
    if n > 0 {
        lemma_kept_all(items, n - 1);
    }
}

/// The items of a page without the bands that are dropped.
pub fn prune_items(items: &Vec<ItemType>, drop_low: bool, drop_high: bool) -> (r: Vec<ItemType>)
    ensures
        r.deep_view() == pruned(items.deep_view(), drop_low, drop_high),
{
    let ghost dv = items.deep_view();
    let (min_y, max_y) = vertical_range(items);
    let lo = if drop_low {
        min_y
    } else {
        None
    };
    let hi = if drop_high {
        max_y
    } else {
        None
    };
    let mut r: Vec<ItemType> = Vec::new();
    let mut i: usize = 0;
    while i < items.len()
        invariant
            i <= items.len(),
            dv == items.deep_view(),
            r.deep_view() == kept_upto(dv, i as int, lo, hi),
        decreases items.len() - i,
    {
        let y = get_item_y(&items[i]);
        let dropped = y.is_some() && (y == lo || y == hi);
        if !dropped {
            r.push(items[i].clone());
        }
        i += 1;
    }
    r
}

impl Transformation for RemoveRepetitiveElements {
    /// Drops the bands at the edge of the pages that most pages share.
    fn transform(&self, result: &mut ParseResult)
        ensures
            final(result).deep_view() == remove_repetitive(old(result).deep_view()),
    {
        let ghost doc = result.deep_view();
        let total = result.pages.len();
        if total < 3 {
            return;
        }
        let mut lows: Vec<u64> = Vec::new();
        let mut highs: Vec<u64> = Vec::new();
        let mut i: usize = 0;
        while i < total
            invariant
                i <= total,
                total == result.pages.len(),
                result.deep_view() == doc,
                lows.len() == i,
                highs.len() == i,
                forall|j: int| 0 <= j < i ==> lows@[j] == page_hashes(doc.pages[j].items).0,
                forall|j: int| 0 <= j < i ==> highs@[j] == page_hashes(doc.pages[j].items).1,
            decreases total - i,
        {
            let (low, high) = calculate_page_hashes(&result.pages[i].items);
            lows.push(low);
            highs.push(high);
            i += 1;
        }
        let low_counts = count_hashes(&lows);
        let high_counts = count_hashes(&highs);
        let mut p: usize = 0;
        while p < total
            invariant
                p <= total,
                total == result.pages.len(),
                total == doc.pages.len(),
                total >= 3,
                result.globals.deep_view() == doc.globals,
                lows@ == low_hashes(doc.pages),
                highs@ == high_hashes(doc.pages),
                counted(low_counts@, lows@, lows@.len() as int),
                counted(high_counts@, highs@, highs@.len() as int),
                forall|j: int|
                    0 <= j < p ==> (#[trigger] result.pages@[j]).deep_view() == remove_repetitive(
                        doc,
                    ).pages[j],
                forall|j: int|
                    p <= j < doc.pages.len() ==> (#[trigger] result.pages@[j]).deep_view()
                        == doc.pages[j],
            decreases total - p,
        {
            let ghost prev = result.pages@;
            let drop_low = is_shared(&low_counts, total, lows[p], Ghost(lows@));
            let drop_high = is_shared(&high_counts, total, highs[p], Ghost(highs@));
            if drop_low || drop_high {
                let items = prune_items(&result.pages[p].items, drop_low, drop_high);
                result.pages[p].items = items;
            } else {
                proof {
                    let items = doc.pages[p as int].items;
                    lemma_kept_all(items, items.len() as int);
                    assert(items.take(items.len() as int) =~= items);
                }
            }
            proof {
                assert forall|j: int| 0 <= j < prev.len() && j != p implies result.pages@[j]
                    == prev[j] by {}
            }
            p += 1;
        }
        assert(result.deep_view().pages =~= remove_repetitive(doc).pages);
    }
}

} // verus!
