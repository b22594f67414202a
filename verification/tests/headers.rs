use pdf_to_md::models::{
    BlockType, GlobalStats, ItemType, LineItem, Page, ParseResult, TextItem, WordFormat, UNIT,
};
use pdf_to_md::transformations::common::Transformation;
use pdf_to_md::transformations::detect_headers::{
    classify_line, first_near_index, heading_for_rung, heading_ladder, is_isolated,
    is_isolated_above, page_is_title, page_line_ys, size_role, strip_bold_marks,
    text_is_all_caps, text_is_list_shaped, DetectHeaders,
};

fn word(text: &str, font: &str, size: i64) -> TextItem {
    TextItem {
        text: text.to_string(),
        x: 50 * UNIT,
        y: 0,
        width: 100 * UNIT,
        height: size,
        font: font.to_string(),
        font_size: size,
        format: None,
    }
}

fn line_item(text: &str, y: i64, size: i64) -> LineItem {
    LineItem {
        items: vec![word(text, "Body", size * UNIT)],
        x: 50 * UNIT,
        y: y * UNIT,
        width: 100 * UNIT,
        height: size * UNIT,
        block_type: BlockType::Paragraph,
    }
}

fn line(text: &str, y: i64, size: i64) -> ItemType {
    ItemType::LineItem(line_item(text, y, size))
}

fn stats() -> GlobalStats {
    GlobalStats {
        most_used_height: 11 * UNIT,
        most_used_distance: 14 * UNIT,
        most_used_font: "Body".to_string(),
        max_height: 24 * UNIT,
        font_to_format: Vec::new(),
    }
}

fn document(pages: Vec<Vec<ItemType>>) -> ParseResult {
    ParseResult {
        pages: pages
            .into_iter()
            .enumerate()
            .map(|(i, items)| Page { index: i as u16, items })
            .collect(),
        globals: stats(),
    }
}

fn roles(result: &ParseResult) -> Vec<Vec<BlockType>> {
    result
        .pages
        .iter()
        .map(|p| {
            p.items
                .iter()
                .map(|i| match i {
                    ItemType::LineItem(l) => l.block_type,
                    _ => BlockType::Footnote,
                })
                .collect()
        })
        .collect()
}

fn v(s: &str) -> Vec<char> {
    s.chars().collect()
}

const P: BlockType = BlockType::Paragraph;

#[test]
fn shapes_of_text() {
    assert!(text_is_list_shaped(&v(" - item")));
    assert!(text_is_list_shaped(&v("* item")));
    assert!(text_is_list_shaped(&v("**Bold**")));
    assert!(text_is_list_shaped(&v("1. item")));
    assert!(text_is_list_shaped(&v("٣ x.")));
    assert!(!text_is_list_shaped(&v("1 item")));
    assert!(!text_is_list_shaped(&v("Item 1.")));
    assert!(!text_is_list_shaped(&v("")));
    assert!(text_is_all_caps(&v("CHAPTER 1: THE END")));
    assert!(text_is_all_caps(&v("ÄÖ")));
    assert!(!text_is_all_caps(&v("Chapter")));
    assert!(!text_is_all_caps(&v("123 !")));
    assert!(!text_is_all_caps(&v("")));
}

#[test]
fn ladder_of_distinct_sizes() {
    let pages = vec![
        Page {
            index: 0,
            items: vec![
                line("Section", 700, 14),
                line("body", 680, 11),
                line("Chapter", 660, 18),
                line("Section again", 640, 14),
                line("almost a section", 620, 15),
            ],
        },
        Page {
            index: 1,
            items: vec![
                line("Book", 700, 24),
                line("- a large list item", 680, 30),
                line("1. a numbered item", 660, 40),
                line("hardly larger", 640, 11),
                ItemType::Markdown("x".to_string()),
            ],
        },
    ];
    // 15 is more than a unit from 14 only if it is 15 or more
    assert_eq!(
        heading_ladder(&pages, 11 * UNIT),
        vec![24 * UNIT, 18 * UNIT, 15 * UNIT, 14 * UNIT]
    );
    let mut close = pages;
    close[0].items[4] = ItemType::LineItem({
        let mut l = line_item("almost a section", 620, 15);
        l.items[0].font_size -= 1;
        l
    });
    assert_eq!(heading_ladder(&close, 11 * UNIT), vec![24 * UNIT, 18 * UNIT, 14 * UNIT]);
    // 11.11 is the smallest heading size over a body of 11
    let edge = vec![Page {
        index: 0,
        items: vec![ItemType::LineItem({
            let mut l = line_item("x", 0, 11);
            l.items[0].font_size = 11_110;
            l
        })],
    }];
    assert!(heading_ladder(&edge, 11 * UNIT).is_empty());
    assert!(heading_ladder(&Vec::new(), 11 * UNIT).is_empty());
}

#[test]
fn rungs_map_to_levels_two_to_six_and_no_further() {
    assert_eq!(heading_for_rung(0), BlockType::H2);
    assert_eq!(heading_for_rung(1), BlockType::H3);
    assert_eq!(heading_for_rung(2), BlockType::H4);
    assert_eq!(heading_for_rung(3), BlockType::H5);
    assert_eq!(heading_for_rung(4), BlockType::H6);
    assert_eq!(heading_for_rung(5), BlockType::H6);
    assert_eq!(heading_for_rung(40), BlockType::H6);
    assert_eq!(first_near_index(&vec![24_000, 18_000, 14_000], 18_999, 1000), Some(1));
    assert_eq!(first_near_index(&vec![24_000, 18_000, 14_000], 19_000, 1000), None);
    assert_eq!(first_near_index(&vec![18_500, 18_000], 18_200, 1000), Some(0));
}

#[test]
fn role_by_size() {
    let rungs = vec![24 * UNIT, 18 * UNIT, 14 * UNIT];
    let role = |size: i64, title: bool| size_role(&line_item("x", 0, size), title, &rungs, &stats());
    assert_eq!(role(24, true), BlockType::H1);
    assert_eq!(role(24, false), BlockType::H2);
    assert_eq!(role(18, true), BlockType::H2);
    assert_eq!(role(18, false), BlockType::H3);
    assert_eq!(role(14, false), BlockType::H4);
    // on a title page a quarter of the way from 11 to 24 is 14.25
    assert_eq!(role(14, true), BlockType::H4);
    assert_eq!(role(15, true), BlockType::H2);
    assert_eq!(role(16, false), BlockType::Paragraph);
    assert_eq!(role(11, true), BlockType::Paragraph);
    let mut set = line_item("x", 0, 24);
    set.block_type = BlockType::Code;
    assert_eq!(size_role(&set, true, &rungs, &stats()), BlockType::Code);
}

#[test]
fn title_pages_and_positions() {
    let items = vec![line("a", 700, 11), ItemType::Markdown("x".to_string()), line("b", 680, 24)];
    assert!(page_is_title(&items, 24 * UNIT));
    assert!(page_is_title(&items, 24 * UNIT + 499));
    assert!(!page_is_title(&items, 24 * UNIT + 500));
    assert!(!page_is_title(&Vec::new(), 0));
    assert_eq!(page_line_ys(&items), vec![700 * UNIT, 680 * UNIT]);
}

#[test]
fn isolation() {
    let ys = vec![700 * UNIT, 680 * UNIT, 659 * UNIT, 600 * UNIT];
    let pitch = 14 * UNIT;
    assert!(is_isolated_above(&ys, 700 * UNIT, pitch));
    assert!(!is_isolated_above(&ys, 680 * UNIT, pitch));
    assert!(is_isolated_above(&ys, 659 * UNIT, pitch));
    assert!(is_isolated(&ys, 600 * UNIT, pitch));
    assert!(!is_isolated(&ys, 700 * UNIT, pitch));
    assert!(!is_isolated(&ys, 659 * UNIT + 99, 30 * UNIT));
    // a position that is not on the page counts as the first
    assert!(is_isolated_above(&ys, 5, pitch));
}

#[test]
fn bold_marks_are_taken_from_the_ends() {
    let mut items = vec![word("**One", "B", 11), word("mid**dle", "B", 11), word("end**", "B", 11)];
    strip_bold_marks(&mut items);
    let texts: Vec<&str> = items.iter().map(|t| t.text.as_str()).collect();
    assert_eq!(texts, vec!["One", "mid**dle", "end"]);
    let mut one = vec![word("**Title**", "B", 11)];
    strip_bold_marks(&mut one);
    assert_eq!(one[0].text, "Title");
    let mut short = vec![word("***", "B", 11)];
    strip_bold_marks(&mut short);
    assert_eq!(short[0].text, "*");
    let mut marks = vec![word("**", "B", 11)];
    strip_bold_marks(&mut marks);
    assert_eq!(marks[0].text, "");
    let mut none: Vec<TextItem> = Vec::new();
    strip_bold_marks(&mut none);
    assert!(none.is_empty());
}

#[test]
fn lines_wrapped_in_bold_become_headings() {
    let classify = |mut l: LineItem| {
        let ys = vec![l.y];
        classify_line(&mut l, false, &Vec::new(), &stats(), &ys);
        l
    };
    let l = classify(line_item(" **A Heading** ", 700, 11));
    assert_eq!(l.block_type, BlockType::H2);
    assert_eq!(l.items[0].text, " **A Heading** ");
    let l = classify(line_item("**A Heading**", 700, 11));
    assert_eq!(l.block_type, BlockType::H2);
    assert_eq!(l.items[0].text, "A Heading");
    // nothing is left of a line of marks: it stays a paragraph, without them
    let l = classify(line_item("****", 700, 11));
    assert_eq!(l.block_type, BlockType::Paragraph);
    assert_eq!(l.items[0].text, "");
    let long = format!("**{}**", "x".repeat(146));
    let l = classify(line_item(&long, 700, 11));
    assert_eq!(l.block_type, BlockType::Paragraph);
    assert_eq!(l.items[0].text, long);
    let l = classify(line_item(&format!("**{}**", "x".repeat(145)), 700, 11));
    assert_eq!(l.block_type, BlockType::H2);
}

#[test]
fn bold_lines_with_room_above_become_headings() {
    let mut l = line_item("Join us", 600, 11);
    l.items[0].format = Some(WordFormat::Bold);
    let ys = vec![700 * UNIT, 600 * UNIT, 590 * UNIT];
    let mut a = l.clone();
    classify_line(&mut a, false, &Vec::new(), &stats(), &ys);
    assert_eq!(a.block_type, BlockType::H2);
    let mut b = l.clone();
    classify_line(&mut b, false, &Vec::new(), &stats(), &vec![620 * UNIT, 600 * UNIT]);
    assert_eq!(b.block_type, BlockType::Paragraph);
}

#[test]
fn isolated_capitals_in_another_font_become_small_headings() {
    let mut l = line_item("SUMMARY 2024", 600, 11);
    l.items[0].font = "Caps".to_string();
    let alone = vec![700 * UNIT, 600 * UNIT, 500 * UNIT];
    let mut a = l.clone();
    classify_line(&mut a, false, &Vec::new(), &stats(), &alone);
    assert_eq!(a.block_type, BlockType::H6);
    let mut b = l.clone();
    classify_line(&mut b, false, &Vec::new(), &stats(), &vec![700 * UNIT, 600 * UNIT, 590 * UNIT]);
    assert_eq!(b.block_type, BlockType::Paragraph);
    let mut c = l.clone();
    c.items[0].font = "Body".to_string();
    classify_line(&mut c, false, &Vec::new(), &stats(), &alone);
    assert_eq!(c.block_type, BlockType::Paragraph);
    let mut d = l.clone();
    d.items[0].text = "Summary".to_string();
    classify_line(&mut d, false, &Vec::new(), &stats(), &alone);
    assert_eq!(d.block_type, BlockType::Paragraph);
}

#[test]
fn headings_by_size_across_a_document() {
    let mut result = document(vec![
        vec![line("**The Book**", 700, 24), line("A subtitle", 650, 18), line("by me", 600, 11)],
        vec![
            line("Chapter", 700, 18),
            line("text", 680, 11),
            line("Section", 660, 14),
            line("text", 640, 11),
            ItemType::Markdown("x".to_string()),
        ],
    ]);
    DetectHeaders { verbose: false }.transform(&mut result);
    assert_eq!(
        roles(&result),
        vec![
            vec![BlockType::H1, BlockType::H2, P],
            vec![BlockType::H2, P, BlockType::H3, P, BlockType::Footnote],
        ]
    );
}

#[test]
fn a_second_run_changes_no_role() {
    let mut result = document(vec![
        vec![line("**The Book**", 700, 24), line("A subtitle", 650, 18), line("by me", 600, 11)],
        vec![
            line("Chapter", 700, 18),
            line("text", 680, 11),
            line("Section", 660, 14),
            line("**Bold heading**", 600, 11),
            line("- a list item", 580, 11),
            line("text", 560, 11),
        ],
    ]);
    DetectHeaders { verbose: false }.transform(&mut result);
    let first = roles(&result);
    assert_eq!(first[1][3], BlockType::H2);
    DetectHeaders { verbose: false }.transform(&mut result);
    assert_eq!(roles(&result), first);
    DetectHeaders { verbose: false }.transform(&mut result);
    assert_eq!(roles(&result), first);
}
