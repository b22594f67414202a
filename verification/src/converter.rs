//! The whole way from the fragments of a document to its Markdown.

use vstd::prelude::*;
use crate::models::{Document, GlobalStats, Item, ItemType, Page, PageView, ParseResult};
use crate::text::{CharClass, strip_end, strip_end_of, chars_of, string_of};
use crate::pattern::{ends_with, ends_with_str};
use crate::words::append_str;
use crate::transformations::common::Transformation;
use crate::transformations::stats::{CalculateGlobalStats, global_stats};
use crate::transformations::remove_repetitive_elements::{
    RemoveRepetitiveElements, remove_repetitive,
};
use crate::transformations::compact_lines::{CompactLines, compact_lines};
use crate::transformations::detect_code_blocks::{DetectCodeBlocks, detect_code_blocks};
use crate::transformations::detect_toc::{DetectTOC, detect_toc};
use crate::transformations::detect_headers::{DetectHeaders, detect_headers};
use crate::transformations::to_markdown::{ToMarkdown, to_markdown};

verus! {

/// The characters that end a sentence for good: the full stop, the question
/// and exclamation marks, and the closing quotes.
pub open spec fn is_sentence_end(c: char) -> bool {
    c == '.' || c == '?' || c == '!' || c == '"' || c == '\u{201D}' || c == '\u{2019}'
}

/// What stands between a page and the next one. After a page that ends a
/// sentence, as much as makes a blank line; after any other page that is
/// not empty, a line end if it has none, so that the text runs on; after
/// an empty page, a line end.
pub open spec fn page_break(prev: Seq<char>) -> Seq<char> {
    let t = strip_end(prev, CharClass::Space);
    if t.len() == 0 {
        "\n"@
    } else if is_sentence_end(t.last()) {
        if ends_with(prev, "\n\n"@) {
            Seq::empty()
        } else if ends_with(prev, "\n"@) {
            "\n"@
        } else {
            "\n\n"@
        }
    } else if ends_with(prev, "\n"@) {
        Seq::empty()
    } else {
        "\n"@
    }
}

/// The first `n` pages, one after the other, with the breaks between them.
pub open spec fn assembled_upto(pages: Seq<Seq<char>>, n: int) -> Seq<char>
    decreases n,
{
    if n <= 0 {
        Seq::empty()
    } else if n == 1 {
        pages[0]
    } else {
        assembled_upto(pages, n - 1) + page_break(pages[n - 2]) + pages[n - 1]
    }
}

/// The pages of a document as one text.
pub open spec fn assembled(pages: Seq<Seq<char>>) -> Seq<char> {
    assembled_upto(pages, pages.len() as int)
}

/// The first rendered Markdown among the first `n` items.
pub open spec fn first_markdown_upto(items: Seq<Item>, n: int) -> Option<Seq<char>>
    decreases n,
{
    if n <= 0 {
        None
    } else {
        match first_markdown_upto(items, n - 1) {
            Some(m) => Some(m),
            None => match items[n - 1] {
                Item::Markdown(m) => Some(m),
                _ => None,
            },
        }
    }
}

/// The Markdown of those of the first `n` pages that have been rendered.
pub open spec fn markdowns_upto(pages: Seq<PageView>, n: int) -> Seq<Seq<char>>
    decreases n,
{
    if n <= 0 {
        Seq::empty()
    } else {
        match first_markdown_upto(pages[n - 1].items, pages[n - 1].items.len() as int) {
            Some(m) => markdowns_upto(pages, n - 1).push(m),
            None => markdowns_upto(pages, n - 1),
        }
    }
}

/// The document after all the stages, in their order.
pub open spec fn converted(pages: Seq<PageView>) -> Document {
    let profiled = Document { pages: pages, globals: global_stats(pages) };
    to_markdown(
        detect_headers(
            detect_toc(detect_code_blocks(compact_lines(remove_repetitive(profiled)))),
        ),
    )
}

/// The Markdown of a document given by the fragments of its pages.
pub open spec fn markdown_of(pages: Seq<PageView>) -> Seq<char> {
    let doc = converted(pages);
    assembled(markdowns_upto(doc.pages, doc.pages.len() as int))
}

/// Whether two documents have the same statistics, as many pages, and the
/// same page numbers.
pub open spec fn same_frame(a: Document, b: Document) -> bool {
    &&& a.globals == b.globals
    &&& a.pages.len() == b.pages.len()
    &&& forall|i: int| 0 <= i < a.pages.len() ==> (#[trigger] a.pages[i]).index == b.pages[i].index
}

/// The stages work on the items of the pages alone: each leaves the
/// statistics, the number of pages and the page numbers as they are.
pub proof fn lemma_stages_keep_frame(doc: Document)
    ensures
        same_frame(remove_repetitive(doc), doc),
        same_frame(compact_lines(doc), doc),
        same_frame(detect_code_blocks(doc), doc),
        same_frame(detect_toc(doc), doc),
        same_frame(detect_headers(doc), doc),
        same_frame(to_markdown(doc), doc),
{
}

/// Whether the character ends a sentence for good.
pub fn is_sentence_end_char(c: char) -> (b: bool)
    ensures
        b == is_sentence_end(c),
{
    c == '.' || c == '?' || c == '!' || c == '"' || c == '\u{201D}' || c == '\u{2019}'
}

/// Appends to `out` what stands between the page `prev` and the next one.
pub fn append_page_break(out: &mut Vec<char>, prev: &Vec<char>)
    ensures
        final(out)@ == old(out)@ + page_break(prev@),
{
    let t = strip_end_of(prev, CharClass::Space);
    if t.len() == 0 {
        append_str(out, "\n");
    } else if is_sentence_end_char(t[t.len() - 1]) {
        if !ends_with_str(prev, "\n\n") {
            if ends_with_str(prev, "\n") {
                append_str(out, "\n");
            } else {
                append_str(out, "\n\n");
            }
        }
    } else if !ends_with_str(prev, "\n") {
        append_str(out, "\n");
    }
}

/// Joins the Markdown of the pages into that of the document.
pub fn assemble(pages: &Vec<String>) -> (r: String)
    ensures
        r@ == assembled(pages.deep_view()),
{
    let ghost dv = pages.deep_view();
    let mut out: Vec<char> = Vec::new();
    let mut i: usize = 0;
    while i < pages.len()
        invariant
            i <= pages.len(),
            dv == pages.deep_view(),
            out@ == assembled_upto(dv, i as int),
        decreases pages.len() - i,
    {
        if i > 0 {
            let prev = chars_of(pages[i - 1].as_str());
            append_page_break(&mut out, &prev);
        }
        append_str(&mut out, pages[i].as_str());
        i += 1;
    }
    string_of(&out)
}

/// A Markdown found among the first `n` items is the first among more.
pub proof fn lemma_first_markdown_stays(items: Seq<Item>, n: int, m: int)
    requires
        n <= m,
        first_markdown_upto(items, n) is Some,
    ensures
        first_markdown_upto(items, m) == first_markdown_upto(items, n),
    decreases m - n,
{
    if n < m {
        lemma_first_markdown_stays(items, n, m - 1);
    }
}

/// The Markdown of the pages that have been rendered.
pub fn page_markdowns(pages: &Vec<Page>) -> (r: Vec<String>)
    ensures
        r.deep_view() == markdowns_upto(pages.deep_view(), pages.len() as int),
{
    let ghost dv = pages.deep_view();
    let mut r: Vec<String> = Vec::new();
    let mut p: usize = 0;
    while p < pages.len()
        invariant
            p <= pages.len(),
            dv == pages.deep_view(),
            r.deep_view() == markdowns_upto(dv, p as int),
        decreases pages.len() - p,
    {
        let items = &pages[p].items;
        let ghost iv = items.deep_view();
        let mut i: usize = 0;
        let mut found = false;
        let ghost before = r.deep_view();
        while i < items.len() && !found
            invariant
                i <= items.len(),
                iv == items.deep_view(),
                !found ==> first_markdown_upto(iv, i as int) is None && r.deep_view() == before,
                found ==> first_markdown_upto(iv, items.len() as int) is Some && r.deep_view()
                    == before.push(first_markdown_upto(iv, items.len() as int)->0),
            decreases items.len() - i + if found { 0int } else { 1int },
        {
            match &items[i] {
                ItemType::Markdown(s) => {
                    proof {
                        lemma_first_markdown_stays(iv, i + 1, items.len() as int);
                    }
                    r.push(s.clone());
                    found = true;
                },
                _ => {
                    i += 1;
                },
            }
        }
        p += 1;
    }
    r
}

/// Converts the fragments of the pages of a document to its Markdown: the
/// profile, then the stages in their order, then the pages joined.
pub fn convert_pages(pages: Vec<Page>, verbose: bool) -> (r: String)
    ensures
        r@ == markdown_of(pages.deep_view()),
{
    let mut result = ParseResult { pages: pages, globals: GlobalStats::default() };
    CalculateGlobalStats { verbose }.transform(&mut result);
    RemoveRepetitiveElements { verbose }.transform(&mut result);
    CompactLines { verbose }.transform(&mut result);
    DetectCodeBlocks { verbose }.transform(&mut result);
    DetectTOC { verbose }.transform(&mut result);
    DetectHeaders { verbose }.transform(&mut result);
    ToMarkdown { verbose }.transform(&mut result);
    let markdowns = page_markdowns(&result.pages);
    assemble(&markdowns)
}

} // verus!
