//! The typography profile of a document: its body size, body font and line
//! pitch, its largest size, and the emphasis that each font stands for.

use vstd::prelude::*;
use crate::transformations::common::Transformation;
use crate::models::{
    Document, FontFormat, FontRule, Fragment, GlobalStats, Item, ItemType, PageView, Page,
    ParseResult, Stats, TextItem, WordFormat,
};
use crate::text::{trim, trim_of, chars_of};
use crate::pattern::{contains, contains_str};
use crate::unicode::{lowercase, alpha_count, count_alphabetic, to_lower};
use crate::units::{dist, distance, clamp, round_to, round_to_hundredth};
use crate::fonts::{with_font, add_font};

verus! {

/// The pitch of a document in which no two lines of body text follow each
/// other: twelve units.
pub const DEFAULT_PITCH: i64 = 12000;

/// Sizes and distances are counted to the hundredth of a unit.
pub const GRAIN: i64 = 10;

/// Votes added to a count; the count stops at the largest value it can hold.
pub open spec fn add_votes(count: u64, weight: nat) -> u64 {
    if count + weight > u64::MAX {
        u64::MAX
    } else {
        (count + weight) as u64
    }
}

/// Index of the first of the first `n` entries with the given key.
pub open spec fn key_index_upto<K>(table: Seq<(K, u64)>, key: K, n: int) -> Option<int>
    decreases n,
{
    if n <= 0 {
        None
    } else {
        match key_index_upto(table, key, n - 1) {
            Some(k) => Some(k),
            None => if table[n - 1].0 == key {
                Some(n - 1)
            } else {
                None
            },
        }
    }
}

/// The table with `weight` more votes for `key`; a new key goes to the end.
pub open spec fn tally<K>(table: Seq<(K, u64)>, key: K, weight: nat) -> Seq<(K, u64)> {
    match key_index_upto(table, key, table.len() as int) {
        Some(k) => table.update(k, (key, add_votes(table[k].1, weight))),
        None => table.push((key, add_votes(0, weight))),
    }
}

/// Index of the entry with the most votes among the first `n`, the first of
/// them where several have as many.
pub open spec fn mode_upto<K>(table: Seq<(K, u64)>, n: int) -> Option<int>
    decreases n,
{
    if n <= 0 {
        None
    } else {
        match mode_upto(table, n - 1) {
            Some(k) => if table[n - 1].1 > table[k].1 {
                Some(n - 1)
            } else {
                Some(k)
            },
            None => Some(n - 1),
        }
    }
}

/// The mode: no entry has more votes than the one found, and none before
/// it has as many. Only an empty table has none.
pub proof fn lemma_mode_is_first_maximum<K>(table: Seq<(K, u64)>, n: int)
    requires
        0 <= n <= table.len(),
    ensures
        mode_upto(table, n) is None <==> n == 0,
        mode_upto(table, n) matches Some(k) ==> {
            &&& 0 <= k < n
            &&& forall|j: int| 0 <= j < n ==> (#[trigger] table[j]).1 <= table[k].1
            &&& forall|j: int| 0 <= j < k ==> (#[trigger] table[j]).1 < table[k].1
        },
    decreases n,
{
    if n > 0 {
        lemma_mode_is_first_maximum(table, n - 1);
    }
}

/// The key with the most votes.
pub open spec fn most_used<K>(table: Seq<(K, u64)>) -> Option<K> {
    match mode_upto(table, table.len() as int) {
        Some(k) => Some(table[k].0),
        None => None,
    }
}

/// Whether a lowercase font name is that of a font for formulas or symbols.
pub open spec fn is_symbol_font(lower: Seq<char>) -> bool {
    contains(lower, "math"@) || contains(lower, "symbol"@)
}

/// Whether a lowercase font name says that the font is styled.
pub open spec fn is_styled_font(lower: Seq<char>) -> bool {
    contains(lower, "italic"@) || contains(lower, "oblique"@) || contains(lower, "bold"@)
}

/// The votes that a fragment casts for its size and its font: none if its
/// font is for symbols or if it has fewer than three letters, else one per
/// letter, and a tenth of that for a styled font.
pub open spec fn vote_weight(f: Fragment) -> Option<nat> {
    let lower = lowercase(f.font);
    let letters = alpha_count(trim(f.text));
    if is_symbol_font(lower) || letters < 3 {
        None
    } else if is_styled_font(lower) {
        Some(letters / 10)
    } else {
        Some(letters)
    }
}

/// A size to the hundredth of a unit.
pub open spec fn rounded(v: int) -> i64 {
    clamp(round_to(v, GRAIN as int))
}

/// What the fragments seen so far have voted for, their fonts, and the
/// largest of them.
pub ghost struct Votes {
    /// The votes for each size.
    pub sizes: Seq<(i64, u64)>,
    /// The votes for each font.
    pub fonts: Seq<(Seq<char>, u64)>,
    /// The font of every fragment, with or without a vote.
    pub names: Seq<Seq<char>>,
    /// The largest size.
    pub max_height: i64,
    /// The font of the first fragment of the largest size.
    pub max_font: Seq<char>,
}

/// The votes after one more item. Every fragment counts for the largest
/// size; the first of that size gives its font.
pub open spec fn vote_step(v: Votes, item: Item) -> Votes {
    match item {
        Item::Fragment(f) => {
            let (max_height, max_font) = if f.font_size > v.max_height {
                (f.font_size, f.font)
            } else {
                (v.max_height, v.max_font)
            };
            let names = with_font(v.names, f.font);
            match vote_weight(f) {
                Some(w) => Votes {
                    sizes: tally(v.sizes, rounded(f.font_size as int), w),
                    fonts: tally(v.fonts, f.font, w),
                    names: names,
                    max_height: max_height,
                    max_font: max_font,
                },
                None => Votes { names: names, max_height: max_height, max_font: max_font, ..v },
            }
        },
        _ => v,
    }
}

/// The votes `v` and those of the first `n` items.
pub open spec fn votes_upto(v: Votes, items: Seq<Item>, n: int) -> Votes
    decreases n,
{
    if n <= 0 {
        v
    } else {
        vote_step(votes_upto(v, items, n - 1), items[n - 1])
    }
}

/// The votes of the first `n` pages.
pub open spec fn page_votes_upto(pages: Seq<PageView>, n: int) -> Votes
    decreases n,
{
    if n <= 0 {
        Votes {
            sizes: Seq::empty(),
            fonts: Seq::empty(),
            names: Seq::empty(),
            max_height: 0,
            max_font: Seq::empty(),
        }
    } else {
        votes_upto(
            page_votes_upto(pages, n - 1),
            pages[n - 1].items,
            pages[n - 1].items.len() as int,
        )
    }
}

/// The distances counted so far, and the position of the last fragment of
/// body text if nothing but blank fragments came after it.
pub ghost struct PitchState {
    pub table: Seq<(i64, u64)>,
    pub last_y: Option<i64>,
}

/// Whether a fragment is body text: of the body size to within a hundredth
/// of a unit, with three letters or more.
pub open spec fn is_body_text(f: Fragment, body: i64) -> bool {
    dist(f.font_size, body) < GRAIN && alpha_count(f.text) >= 3
}

/// The state after one more item. A fragment of body text that stands more
/// than five units below the one before it counts their distance.
pub open spec fn pitch_step(s: PitchState, item: Item, body: i64) -> PitchState {
    match item {
        Item::Fragment(f) => if is_body_text(f, body) {
            PitchState {
                table: match s.last_y {
                    Some(y) => if y - f.y > 5000 {
                        tally(s.table, rounded(y - f.y), 1)
                    } else {
                        s.table
                    },
                    None => s.table,
                },
                last_y: Some(f.y),
            }
        } else if trim(f.text).len() > 0 {
            PitchState { table: s.table, last_y: None }
        } else {
            s
        },
        _ => s,
    }
}

/// The state `s` after the first `n` items.
pub open spec fn pitch_upto(s: PitchState, items: Seq<Item>, n: int, body: i64) -> PitchState
    decreases n,
{
    if n <= 0 {
        s
    } else {
        pitch_step(pitch_upto(s, items, n - 1, body), items[n - 1], body)
    }
}

/// The distances counted on the first `n` pages; no distance is taken from
/// one page to the next.
pub open spec fn page_pitch_upto(pages: Seq<PageView>, n: int, body: i64) -> Seq<(i64, u64)>
    decreases n,
{
    if n <= 0 {
        Seq::empty()
    } else {
        pitch_upto(
            PitchState { table: page_pitch_upto(pages, n - 1, body), last_y: None },
            pages[n - 1].items,
            pages[n - 1].items.len() as int,
            body,
        ).table
    }
}

/// The emphasis that a font stands for: none for the body font; else by the
/// words in its name; and bold for the font of the largest size.
pub open spec fn font_emphasis(font: Seq<char>, body_font: Seq<char>, max_font: Seq<char>) -> Option<
    WordFormat,
> {
    let lower = lowercase(font);
    let bold = contains(lower, "bold"@) || contains(lower, "-bd"@);
    let italic = contains(lower, "oblique"@) || contains(lower, "italic"@) || contains(
        lower,
        "-ital"@,
    ) || contains(lower, "-it"@);
    if font == body_font {
        None
    } else if bold && italic {
        Some(WordFormat::BoldItalic)
    } else if bold || font == max_font {
        Some(WordFormat::Bold)
    } else if italic {
        Some(WordFormat::Italic)
    } else {
        None
    }
}

/// The rules for the first `n` fonts.
pub open spec fn rules_upto(
    fonts: Seq<Seq<char>>,
    n: int,
    body_font: Seq<char>,
    max_font: Seq<char>,
) -> Seq<FontRule>
    decreases n,
{
    if n <= 0 {
        Seq::empty()
    } else {
        let r = rules_upto(fonts, n - 1, body_font, max_font);
        match font_emphasis(fonts[n - 1], body_font, max_font) {
            Some(format) => r.push(FontRule { font: fonts[n - 1], format: format }),
            None => r,
        }
    }
}

/// The profile of the pages.
pub open spec fn global_stats(pages: Seq<PageView>) -> Stats {
    let votes = page_votes_upto(pages, pages.len() as int);
    let body = match most_used(votes.sizes) {
        Some(h) => h,
        None => 0,
    };
    let body_font = match most_used(votes.fonts) {
        Some(f) => f,
        None => Seq::empty(),
    };
    let pitch = match most_used(page_pitch_upto(pages, pages.len() as int, body)) {
        Some(d) => d,
        None => DEFAULT_PITCH,
    };
    Stats {
        most_used_height: body,
        most_used_distance: pitch,
        most_used_font: body_font,
        max_height: votes.max_height,
        font_to_format: rules_upto(votes.names, votes.names.len() as int, body_font, votes.max_font),
    }
}

/// Whether a table of distances holds nothing, or one entry for `key`.
pub open spec fn holds_at_most(table: Seq<(i64, u64)>, key: i64) -> bool {
    table.len() == 0 || holds_only(table, key)
}

/// Whether a table of distances holds one entry, and that for `key`.
pub open spec fn holds_only(table: Seq<(i64, u64)>, key: i64) -> bool {
    table.len() == 1 && table[0].0 == key
}

/// Whether the items are fragments of body text that stand at the distance
/// `d` below one another.
pub open spec fn evenly_spaced(items: Seq<Item>, body: i64, d: int) -> bool {
    &&& forall|i: int|
        0 <= i < items.len() ==> (#[trigger] items[i]) is Fragment && is_body_text(
            items[i]->Fragment_0,
            body,
        )
    &&& forall|i: int|
        0 < i < items.len() ==> items[i - 1]->Fragment_0.y - (#[trigger] items[i])->Fragment_0.y
            == d
}

/// A vote for the one key of a table leaves it a table of that one key.
pub proof fn lemma_tally_one_key(table: Seq<(i64, u64)>, key: i64)
    requires
        holds_at_most(table, key),
    ensures
        holds_only(tally(table, key, 1), key),
{
    if table.len() == 0 {
        assert(key_index_upto(table, key, 0) is None);
    }
}

/// On a page of evenly spaced body text every distance counted is `d`.
pub proof fn lemma_page_pitch(s: PitchState, items: Seq<Item>, n: int, body: i64, d: int)
    requires
        0 <= n <= items.len(),
        d > 5000,
        evenly_spaced(items, body, d),
        holds_at_most(s.table, rounded(d)),
        s.last_y is None,
    ensures
        holds_at_most(pitch_upto(s, items, n, body).table, rounded(d)),
        holds_only(s.table, rounded(d)) || n >= 2 ==> holds_only(
            pitch_upto(s, items, n, body).table,
            rounded(d),
        ),
        n >= 1 ==> pitch_upto(s, items, n, body).last_y == Some(items[n - 1]->Fragment_0.y),
        n == 0 ==> pitch_upto(s, items, n, body) == s,
    decreases n,
{
    if n > 0 {
        lemma_page_pitch(s, items, n - 1, body, d);
        let before = pitch_upto(s, items, n - 1, body);
        if n >= 2 {
            lemma_tally_one_key(before.table, rounded(d));
        }
    }
}

/// On pages of evenly spaced body text every distance counted is `d`, and
/// one is counted as soon as a page holds two fragments.
pub proof fn lemma_pages_pitch(pages: Seq<PageView>, n: int, body: i64, d: int)
    requires
        0 <= n <= pages.len(),
        d > 5000,
        forall|p: int| 0 <= p < pages.len() ==> evenly_spaced((#[trigger] pages[p]).items, body, d),
    ensures
        holds_at_most(page_pitch_upto(pages, n, body), rounded(d)),
        (exists|p: int| 0 <= p < n && (#[trigger] pages[p]).items.len() >= 2) ==> holds_only(
            page_pitch_upto(pages, n, body),
            rounded(d),
        ),
    decreases n,
{
    if n > 0 {
        lemma_pages_pitch(pages, n - 1, body, d);
        let start = PitchState { table: page_pitch_upto(pages, n - 1, body), last_y: None };
        let items = pages[n - 1].items;
        lemma_page_pitch(start, items, items.len() as int, body, d);
    }
}

/// Pitch of evenly spaced text: if every item of a document is a fragment
/// of body text, the fragments of each page stand at one distance `d` of
/// more than five units below one another, and some page holds two of them,
/// then the pitch of the document is `d` to the hundredth of a unit.
pub proof fn lemma_constant_pitch(pages: Seq<PageView>, d: int)
    requires
        d > 5000,
        forall|p: int|
            0 <= p < pages.len() ==> evenly_spaced(
                (#[trigger] pages[p]).items,
                global_stats(pages).most_used_height,
                d,
            ),
        exists|p: int| 0 <= p < pages.len() && (#[trigger] pages[p]).items.len() >= 2,
    ensures
        global_stats(pages).most_used_distance == rounded(d),
{
    let body = global_stats(pages).most_used_height;
    lemma_pages_pitch(pages, pages.len() as int, body, d);
    let table = page_pitch_upto(pages, pages.len() as int, body);
    assert(mode_upto(table, 0) is None);
}

/// The stage that computes the profile.
#[derive(Debug)]
pub struct CalculateGlobalStats {
    /// Whether the caller reports progress; the stage itself writes nothing,
    /// and its result does not depend on this.
    pub verbose: bool,
}

/// A key found among the first `n` entries is found at the same place among more.
pub proof fn lemma_key_index_stays<K>(table: Seq<(K, u64)>, key: K, n: int, m: int)
    requires
        n <= m,
        key_index_upto(table, key, n) is Some,
    ensures
        key_index_upto(table, key, m) == key_index_upto(table, key, n),
    decreases m - n,
{
    if n < m {
        lemma_key_index_stays(table, key, n, m - 1);
    }
}

/// Adds votes for a size.
pub fn tally_size(table: &mut Vec<(i64, u64)>, key: i64, weight: u64)
    ensures
        final(table)@ == tally(old(table)@, key, weight as nat),
{
    let mut k: usize = 0;
    while k < table.len()
        invariant
            k <= table.len(),
            table@ == old(table)@,
            key_index_upto(table@, key, k as int) is None,
        decreases table.len() - k,
    {
        if table[k].0 == key {
            proof {
                lemma_key_index_stays(table@, key, k + 1, table.len() as int);
            }
            let count = table[k].1.saturating_add(weight);
            table[k] = (key, count);
            return;
        }
        k += 1;
    }
    table.push((key, weight));
}

/// Adds votes for a font.
pub fn tally_font(table: &mut Vec<(String, u64)>, key: &String, weight: u64)
    ensures
        final(table).deep_view() == tally(old(table).deep_view(), key@, weight as nat),
{
    let ghost before = table.deep_view();
    let mut k: usize = 0;
    while k < table.len()
        invariant
            k <= table.len(),
            table@ == old(table)@,
            before == table.deep_view(),
            key_index_upto(before, key@, k as int) is None,
        decreases table.len() - k,
    {
        if table[k].0 == *key {
            proof {
                lemma_key_index_stays(before, key@, k + 1, table.len() as int);
            }
            let count = table[k].1.saturating_add(weight);
            table[k] = (key.clone(), count);
            return;
        }
        k += 1;
    }
    table.push((key.clone(), weight));
}

/// The size with the most votes, the first of them where several have as many.
pub fn get_most_used_size(table: &Vec<(i64, u64)>) -> (r: Option<i64>)
    ensures
        r == most_used(table@),
{
    if table.len() == 0 {
        return None;
    }
    let mut best: usize = 0;
    let mut k: usize = 1;
    assert(mode_upto(table@, 0) is None);
    while k < table.len()
        invariant
            1 <= k <= table.len(),
            best < k,
            mode_upto(table@, k as int) == Some(best as int),
        decreases table.len() - k,
    {
        if table[k].1 > table[best].1 {
            best = k;
        }
        k += 1;
    }
    Some(table[best].0)
}

/// The font with the most votes, the first of them where several have as many.
pub fn get_most_used_key(table: &Vec<(String, u64)>) -> (r: Option<String>)
    ensures
        r is Some == most_used(table.deep_view()) is Some,
        r matches Some(font) ==> most_used(table.deep_view()) == Some(font@),
{
    if table.len() == 0 {
        return None;
    }
    let ghost dv = table.deep_view();
    let mut best: usize = 0;
    let mut k: usize = 1;
    assert(mode_upto(dv, 0) is None);
    while k < table.len()
        invariant
            1 <= k <= table.len(),
            best < k,
            dv == table.deep_view(),
            mode_upto(dv, k as int) == Some(best as int),
        decreases table.len() - k,
    {
        if table[k].1 > table[best].1 {
            best = k;
        }
        k += 1;
    }
    Some(table[best].0.clone())
}

/// Whether the lowercase name is that of a font for formulas or symbols.
pub fn font_is_symbol(lower: &Vec<char>) -> (b: bool)
    ensures
        b == is_symbol_font(lower@),
{
    contains_str(lower, "math") || contains_str(lower, "symbol")
}

/// Whether the lowercase name says that the font is styled.
pub fn font_is_styled(lower: &Vec<char>) -> (b: bool)
    ensures
        b == is_styled_font(lower@),
{
    contains_str(lower, "italic") || contains_str(lower, "oblique") || contains_str(lower, "bold")
}

/// The votes that a fragment casts.
pub fn weight_of(item: &TextItem) -> (r: Option<u64>)
    ensures
        r is Some == vote_weight(item.deep_view()) is Some,
        r matches Some(w) ==> vote_weight(item.deep_view()) == Some(w as nat),
{
    let lower = to_lower(&chars_of(item.font.as_str()));
    let text = trim_of(&chars_of(item.text.as_str()));
    let letters = count_alphabetic(&text);
    if font_is_symbol(&lower) || letters < 3 {
        None
    } else if font_is_styled(&lower) {
        Some((letters / 10) as u64)
    } else {
        Some(letters as u64)
    }
}

/// The executable form of [`Votes`].
pub struct VoteTables {
    pub sizes: Vec<(i64, u64)>,
    pub fonts: Vec<(String, u64)>,
    pub names: Vec<String>,
    pub max_height: i64,
    pub max_font: String,
}

impl DeepView for VoteTables {
    type V = Votes;

    open spec fn deep_view(&self) -> Votes {
        Votes {
            sizes: self.sizes@,
            fonts: self.fonts.deep_view(),
            names: self.names.deep_view(),
            max_height: self.max_height,
            max_font: self.max_font@,
        }
    }
}

/// Counts the votes of the items of a page.
pub fn count_votes(votes: &mut VoteTables, items: &Vec<ItemType>)
    ensures
        final(votes).deep_view() == votes_upto(
            old(votes).deep_view(),
            items.deep_view(),
            items.len() as int,
        ),
{
    let ghost dv = items.deep_view();
    let mut i: usize = 0;
    while i < items.len()
        invariant
            i <= items.len(),
            dv == items.deep_view(),
            votes.deep_view() == votes_upto(old(votes).deep_view(), dv, i as int),
        decreases items.len() - i,
    {
        match &items[i] {
            ItemType::TextItem(item) => {
                if item.font_size > votes.max_height {
                    votes.max_height = item.font_size;
                    votes.max_font = item.font.clone();
                }
                add_font(&mut votes.names, &item.font);
                match weight_of(item) {
                    Some(w) => {
                        tally_size(
                            &mut votes.sizes,
                            round_to_hundredth(item.font_size as i128),
                            w,
                        );
                        tally_font(&mut votes.fonts, &item.font, w);
                    },
                    None => {},
                }
            },
            _ => {},
        }
        i += 1;
    }
}

/// Whether a fragment is body text.
pub fn item_is_body_text(item: &TextItem, body: i64) -> (b: bool)
    ensures
        b == is_body_text(item.deep_view(), body),
{
    if distance(item.font_size, body) >= GRAIN as i128 {
        return false;
    }
    count_alphabetic(&chars_of(item.text.as_str())) >= 3
}

/// Counts the distances between the lines of body text of a page.
pub fn count_distances(table: &mut Vec<(i64, u64)>, items: &Vec<ItemType>, body: i64)
    ensures
        final(table)@ == pitch_upto(
            PitchState { table: old(table)@, last_y: None },
            items.deep_view(),
            items.len() as int,
            body,
        ).table,
{
    let ghost dv = items.deep_view();
    let ghost start = PitchState { table: table@, last_y: None };
    let mut last_y: Option<i64> = None;
    let mut i: usize = 0;
    while i < items.len()
        invariant
            i <= items.len(),
            dv == items.deep_view(),
            pitch_upto(start, dv, i as int, body) == (PitchState { table: table@, last_y: last_y }),
        decreases items.len() - i,
    {
        match &items[i] {
            ItemType::TextItem(item) => {
                if item_is_body_text(item, body) {
                    match last_y {
                        Some(y) => {
                            let d: i128 = y as i128 - item.y as i128;
                            if d > 5000 {
                                tally_size(table, round_to_hundredth(d), 1);
                            }
                        },
                        None => {},
                    }
                    last_y = Some(item.y);
                } else if trim_of(&chars_of(item.text.as_str())).len() > 0 {
                    last_y = None;
                }
            },
            _ => {},
        }
        i += 1;
    }
}

/// The emphasis that a font stands for.
pub fn emphasis_of(font: &String, body_font: &String, max_font: &String) -> (r: Option<WordFormat>)
    ensures
        r == font_emphasis(font@, body_font@, max_font@),
{
    let lower = to_lower(&chars_of(font.as_str()));
    let bold = contains_str(&lower, "bold") || contains_str(&lower, "-bd");
    let italic = contains_str(&lower, "oblique") || contains_str(&lower, "italic") || contains_str(
        &lower,
        "-ital",
    ) || contains_str(&lower, "-it");
    if *font == *body_font {
        None
    } else if bold && italic {
        Some(WordFormat::BoldItalic)
    } else if bold || *font == *max_font {
        Some(WordFormat::Bold)
    } else if italic {
        Some(WordFormat::Italic)
    } else {
        None
    }
}

/// The profile of the pages.
pub fn calculate_global_stats(pages: &Vec<Page>) -> (g: GlobalStats)
    ensures
        g.deep_view() == global_stats(pages.deep_view()),
{
    let ghost dv = pages.deep_view();
    let mut votes = VoteTables {
        sizes: Vec::new(),
        fonts: Vec::new(),
        names: Vec::new(),
        max_height: 0,
        max_font: String::new(),
    };
    assert(votes.fonts.deep_view() =~= Seq::<(Seq<char>, u64)>::empty());
    assert(votes.names.deep_view() =~= Seq::<Seq<char>>::empty());
    let mut p: usize = 0;
    while p < pages.len()
        invariant
            p <= pages.len(),
            dv == pages.deep_view(),
            votes.deep_view() == page_votes_upto(dv, p as int),
        decreases pages.len() - p,
    {
        count_votes(&mut votes, &pages[p].items);
        p += 1;
    }
    let body = match get_most_used_size(&votes.sizes) {
        Some(h) => h,
        None => 0,
    };
    let body_font = match get_most_used_key(&votes.fonts) {
        Some(f) => f,
        None => String::new(),
    };
    let mut distances: Vec<(i64, u64)> = Vec::new();
    let mut q: usize = 0;
    while q < pages.len()
        invariant
            q <= pages.len(),
            dv == pages.deep_view(),
            distances@ == page_pitch_upto(dv, q as int, body),
        decreases pages.len() - q,
    {
        count_distances(&mut distances, &pages[q].items, body);
        q += 1;
    }
    let pitch = match get_most_used_size(&distances) {
        Some(d) => d,
        None => DEFAULT_PITCH,
    };
    let mut rules: Vec<FontFormat> = Vec::new();
    let mut n: usize = 0;
    while n < votes.names.len()
        invariant
            n <= votes.names.len(),
            rules.deep_view() == rules_upto(
                votes.names.deep_view(),
                n as int,
                body_font@,
                votes.max_font@,
            ),
        decreases votes.names.len() - n,
    {
        match emphasis_of(&votes.names[n], &body_font, &votes.max_font) {
            Some(format) => {
                let rule = FontFormat { font: votes.names[n].clone(), format: format };
                rules.push(rule);
            },
            None => {},
        }
        n += 1;
    }
    GlobalStats {
        most_used_height: body,
        most_used_distance: pitch,
        most_used_font: body_font,
        max_height: votes.max_height,
        font_to_format: rules,
    }
}

impl Transformation for CalculateGlobalStats {
    /// Replaces the statistics of the document by the profile of its pages.
    fn transform(&self, result: &mut ParseResult)
        ensures
            final(result).deep_view() == (Document {
                pages: old(result).deep_view().pages,
                globals: global_stats(old(result).deep_view().pages),
            }),
    {
        result.globals = calculate_global_stats(&result.pages);
    }
}

} // verus!
