use pdf_to_md::converter::{append_page_break, assemble, page_markdowns};
use pdf_to_md::models::{
    BlockType, GlobalStats, ItemType, LineItem, Page, ParseResult, TextItem, WordFormat, UNIT,
};
use pdf_to_md::transformations::common::Transformation;
use pdf_to_md::transformations::to_markdown::{
    line_flowing_text, line_spaced_text, render_items, render_line, render_toc_entry, unmark,
    word_is_numbering, ToMarkdown, NO_LINE,
};

fn word(text: &str) -> TextItem {
    TextItem {
        text: text.to_string(),
        x: 50 * UNIT,
        y: 0,
        width: 100 * UNIT,
        height: 11 * UNIT,
        font: "Body".to_string(),
        font_size: 11 * UNIT,
        format: None,
    }
}

fn line_of(words: Vec<&str>, y: i64, role: BlockType) -> LineItem {
    LineItem {
        items: words.into_iter().map(word).collect(),
        x: 50 * UNIT,
        y: y * UNIT,
        width: 100 * UNIT,
        height: 11 * UNIT,
        block_type: role,
    }
}

fn line(text: &str, y: i64, role: BlockType) -> ItemType {
    ItemType::LineItem(line_of(vec![text], y, role))
}

fn v(s: &str) -> Vec<char> {
    s.chars().collect()
}

fn s(v: &Vec<char>) -> String {
    v.iter().collect()
}

fn render(items: Vec<ItemType>) -> String {
    s(&render_items(&items, 14 * UNIT))
}

const P: BlockType = BlockType::Paragraph;

#[test]
fn text_of_a_line() {
    let items = line_of(vec!["  Hello   big ", "", "world\t!", "  "], 0, P).items;
    assert_eq!(s(&line_flowing_text(&items)), "Hello big world !");
    assert_eq!(s(&line_spaced_text(&items)), "  Hello   big   world\t!   ");
    assert_eq!(s(&line_flowing_text(&Vec::new())), "");
    assert_eq!(s(&line_spaced_text(&Vec::new())), "");
}

#[test]
fn marks_are_taken_out() {
    assert_eq!(s(&unmark(&v("**Bold** and _italic_ and **_both_**"))), "Bold and italic and both");
    assert_eq!(s(&unmark(&v("snake_case * star"))), "snakecase * star");
}

#[test]
fn numberings() {
    assert!(word_is_numbering(&v("1.")));
    assert!(word_is_numbering(&v("10.2.3")));
    assert!(word_is_numbering(&v("...")));
    assert!(!word_is_numbering(&v("12")));
    assert!(!word_is_numbering(&v("1.a")));
    assert!(!word_is_numbering(&v("")));
}

#[test]
fn lines_by_role() {
    let show = |words: Vec<&str>, role: BlockType| s(&render_line(&line_of(words, 0, role)));
    assert_eq!(show(vec!["Plain  text ", "here"], P), "Plain text here\n");
    assert_eq!(show(vec!["A note"], BlockType::Footnote), "A note\n");
    assert_eq!(show(vec!["**The", "_Title_**"], BlockType::H1), "# The Title\n\n");
    assert_eq!(show(vec!["Two"], BlockType::H2), "## Two\n\n");
    assert_eq!(show(vec!["Three"], BlockType::H3), "### Three\n\n");
    assert_eq!(show(vec!["Four"], BlockType::H4), "#### Four\n\n");
    assert_eq!(show(vec!["Five"], BlockType::H5), "##### Five\n\n");
    assert_eq!(show(vec!["Six"], BlockType::H6), "###### Six\n\n");
    assert_eq!(show(vec!["an", "item"], BlockType::ListItem), "- an item\n");
    assert_eq!(show(vec!["  x = 1", "# set"], BlockType::Code), "\t  x = 1 # set\n");
    assert_eq!(show(vec!["_*an aside*_"], BlockType::Code), "\tan aside\n");
    assert_eq!(show(Vec::new(), P), "\n");
    assert_eq!(show(Vec::new(), BlockType::H2), "## \n\n");
}

#[test]
fn entries_of_a_table_of_contents() {
    assert_eq!(s(&render_toc_entry(&v("1.  First   part"), 0)), "1. First part\n");
    assert_eq!(s(&render_toc_entry(&v(" 2.1 **Second**"), 1)), "   2.1 Second\n");
    assert_eq!(s(&render_toc_entry(&v("Index"), 2)), "      - Index\n");
    assert_eq!(s(&render_toc_entry(&v("12 Rules"), 0)), "- 12 Rules\n");
    assert_eq!(s(&render_toc_entry(&v(""), 1)), "   - \n");
    let entry = line_of(vec!["1.", "Intro"], 0, BlockType::TocItem(1));
    assert_eq!(s(&render_line(&entry)), "   1. Intro\n");
}

#[test]
fn paragraphs_break_at_more_than_one_and_a_fifth_pitch() {
    assert_eq!(NO_LINE, -UNIT);
    let page = vec![
        line("one", 700, P),
        line("two", 686, P),
        ItemType::LineItem({
            let mut l = line_of(vec!["three"], 0, P);
            l.y = 686 * UNIT - 16_800;
            l
        }),
        ItemType::LineItem({
            let mut l = line_of(vec!["four"], 0, P);
            l.y = 686 * UNIT - 2 * 16_800 - 1;
            l
        }),
    ];
    assert_eq!(render(page), "one\ntwo\nthree\n\nfour\n");
}

#[test]
fn headings_stand_between_blank_lines() {
    let page = vec![
        line("Title", 700, BlockType::H1),
        line("text", 650, P),
        line("Chapter", 640, BlockType::H2),
        line("Section", 600, BlockType::H3),
        line("more", 590, P),
        line("far", 500, P),
        line("Last", 400, BlockType::H2),
    ];
    assert_eq!(
        render(page),
        "# Title\n\ntext\n\n## Chapter\n\n### Section\n\nmore\n\nfar\n\n## Last\n\n"
    );
}

#[test]
fn code_is_fenced() {
    let page = vec![
        line("text", 700, P),
        line("x = 1", 686, BlockType::Code),
        line("  y = 2", 672, BlockType::Code),
        line("more", 658, P),
        line("z = 3", 644, BlockType::Code),
    ];
    assert_eq!(
        render(page),
        "text\n```\n\tx = 1\n\t  y = 2\n```\n\nmore\n```\n\tz = 3\n```\n\n"
    );
}

#[test]
fn bold_code_is_a_caption() {
    let mut caption = line_of(vec!["**Listing 1**"], 686, BlockType::Code);
    caption.items[0].format = Some(WordFormat::Bold);
    let page = vec![
        line("x = 1", 700, BlockType::Code),
        ItemType::LineItem(caption),
        line("y = 2", 672, BlockType::Code),
    ];
    assert_eq!(render(page), "```\n\tx = 1\n```\n\n\tListing 1\n```\n\ty = 2\n```\n\n");
}

#[test]
fn other_items_on_a_page() {
    let page = vec![
        line("x = 1", 700, BlockType::Code),
        ItemType::TextItem(word("a raw fragment")),
        line("Head", 600, BlockType::H2),
        ItemType::Markdown("rendered before".to_string()),
        line("text", 590, P),
    ];
    assert_eq!(render(page), "```\n\tx = 1\n```\n\na raw fragment\n\n## Head\n\ntext\n");
    assert_eq!(render(Vec::new()), "");
}

#[test]
fn a_first_line_at_zero_counts_as_none() {
    let page = vec![line("top", 0, P), line("Head", -100, BlockType::H2), line("x", -300, P)];
    assert_eq!(render(page), "top\n## Head\n\nx\n");
}

#[test]
fn the_stage_leaves_one_markdown_per_page() {
    let mut result = ParseResult {
        pages: vec![
            Page { index: 4, items: vec![line("Title", 700, BlockType::H1), line("text", 680, P)] },
            Page { index: 5, items: Vec::new() },
        ],
        globals: GlobalStats {
            most_used_height: 11 * UNIT,
            most_used_distance: 14 * UNIT,
            most_used_font: "Body".to_string(),
            max_height: 24 * UNIT,
            font_to_format: Vec::new(),
        },
    };
    ToMarkdown { verbose: false }.transform(&mut result);
    assert_eq!(result.pages.len(), 2);
    assert_eq!(result.pages[0].index, 4);
    assert_eq!(result.pages[0].items.len(), 1);
    assert!(matches!(&result.pages[0].items[0], ItemType::Markdown(m) if m == "# Title\n\ntext\n"));
    assert!(matches!(&result.pages[1].items[0], ItemType::Markdown(m) if m.is_empty()));
    assert_eq!(page_markdowns(&result.pages), vec!["# Title\n\ntext\n".to_string(), String::new()]);
}

#[test]
fn breaks_between_pages() {
    let after = |prev: &str| {
        let mut out = v(">");
        append_page_break(&mut out, &v(prev));
        s(&out)
    };
    assert_eq!(after("The end."), ">\n\n");
    assert_eq!(after("The end.\n"), ">\n");
    assert_eq!(after("The end.\n\n"), ">");
    assert_eq!(after("Really?\n"), ">\n");
    assert_eq!(after("No!"), ">\n\n");
    assert_eq!(after("\u{201C}Quoted.\u{201D}\n"), ">\n");
    assert_eq!(after("it\u{2019}s \u{2018}so\u{2019}\n"), ">\n");
    assert_eq!(after("she said \"yes\""), ">\n\n");
    assert_eq!(after("and so it goes on"), ">\n");
    assert_eq!(after("and so it goes on\n"), ">");
    assert_eq!(after("## Heading\n\n"), ">");
    assert_eq!(after(""), ">\n");
    assert_eq!(after(" \n\n"), ">\n");
}

#[test]
fn pages_are_joined() {
    let pages: Vec<String> =
        vec!["One sentence.\n", "A line that\n", "goes on here", "# End\n\n", "", "x"]
            .into_iter()
            .map(String::from)
            .collect();
    assert_eq!(
        assemble(&pages),
        "One sentence.\n\nA line that\ngoes on here\n# End\n\n\nx"
    );
    assert_eq!(assemble(&Vec::new()), "");
    assert_eq!(assemble(&vec!["only".to_string()]), "only");
}

#[test]
fn only_rendered_pages_are_joined() {
    let pages = vec![
        Page { index: 0, items: vec![ItemType::Markdown("a".to_string())] },
        Page { index: 1, items: vec![line("not rendered", 0, P)] },
        Page {
            index: 2,
            items: vec![
                line("x", 0, P),
                ItemType::Markdown("b".to_string()),
                ItemType::Markdown("c".to_string()),
            ],
        },
        Page { index: 3, items: Vec::new() },
    ];
    assert_eq!(page_markdowns(&pages), vec!["a".to_string(), "b".to_string()]);
}
