use pdf_to_md::models::{
    BlockType, FontFormat, GlobalStats, ItemType, LineItem, Page, ParseResult, TextItem,
    WordFormat, UNIT,
};
use pdf_to_md::transformations::common::Transformation;
use pdf_to_md::transformations::compact_lines::{
    apply_emphasis, compact_page, create_line_item, group_items_by_line, is_new_line, join_items,
    max_height, merge_items, sort_line_by_x, CompactLines,
};

fn item(text: &str, x: i64, y: i64, width: i64, font: &str, size: i64) -> TextItem {
    TextItem {
        text: text.to_string(),
        x: x * UNIT,
        y: y * UNIT,
        width: width * UNIT,
        height: size * UNIT,
        font: font.to_string(),
        font_size: size * UNIT,
        format: None,
    }
}

fn stats(rules: Vec<(&str, WordFormat)>) -> GlobalStats {
    GlobalStats {
        most_used_height: 11 * UNIT,
        most_used_distance: 14 * UNIT,
        most_used_font: "Body".to_string(),
        max_height: 24 * UNIT,
        font_to_format: rules
            .into_iter()
            .map(|(font, format)| FontFormat { font: font.to_string(), format })
            .collect(),
    }
}

fn texts(items: &Vec<TextItem>) -> Vec<String> {
    items.iter().map(|t| t.text.clone()).collect()
}

fn line(item: &ItemType) -> &LineItem {
    match item {
        ItemType::LineItem(l) => l,
        _ => panic!("not a line"),
    }
}

#[test]
fn glued_fragments_merge_without_a_space() {
    let items = vec![item("Hel", 0, 700, 20, "Body", 11), item("lo", 23, 700, 12, "Body", 11)];
    let runs = merge_items(&items);
    assert_eq!(texts(&runs), vec!["Hello"]);
    assert_eq!(runs[0].x, 0);
    assert_eq!(runs[0].width, 35 * UNIT);
    assert_eq!(runs[0].font, "Body");
}

#[test]
fn words_merge_with_exactly_one_space() {
    let items = vec![item("Hello", 0, 700, 30, "Body", 11), item("world", 40, 700, 30, "Body", 11)];
    let runs = merge_items(&items);
    assert_eq!(texts(&runs), vec!["Hello world"]);
    assert_eq!(runs[0].width, 70 * UNIT);
}

#[test]
fn gap_thresholds_are_inclusive() {
    // exactly 5 units: glued
    let items = vec![item("a", 0, 700, 10, "Body", 11), item("b", 15, 700, 10, "Body", 11)];
    assert_eq!(texts(&merge_items(&items)), vec!["ab"]);
    // just above: a word
    let mut items = vec![item("a", 0, 700, 10, "Body", 11), item("b", 15, 700, 10, "Body", 11)];
    items[1].x += 1;
    assert_eq!(texts(&merge_items(&items)), vec!["a b"]);
    // exactly 30 units at a small size: still a word
    let items = vec![item("a", 0, 700, 10, "Body", 11), item("b", 40, 700, 10, "Body", 11)];
    assert_eq!(texts(&merge_items(&items)), vec!["a b"]);
    // more than 30 units: a new run
    let items = vec![item("a", 0, 700, 10, "Body", 11), item("b", 41, 700, 10, "Body", 11)];
    assert_eq!(texts(&merge_items(&items)), vec!["a", "b"]);
    // at size 20 the threshold is 40 units
    let items = vec![item("a", 0, 700, 10, "Body", 20), item("b", 50, 700, 10, "Body", 20)];
    assert_eq!(texts(&merge_items(&items)), vec!["a b"]);
    let items = vec![item("a", 0, 700, 10, "Body", 20), item("b", 51, 700, 10, "Body", 20)];
    assert_eq!(texts(&merge_items(&items)), vec!["a", "b"]);
}

#[test]
fn no_space_at_punctuation() {
    let items = vec![item("Hello", 0, 700, 30, "Body", 11), item(", world", 40, 700, 30, "Body", 11)];
    assert_eq!(texts(&merge_items(&items)), vec!["Hello, world"]);
    let items = vec![item("f(", 0, 700, 30, "Body", 11), item("x", 40, 700, 30, "Body", 11)];
    assert_eq!(texts(&merge_items(&items)), vec!["f(x"]);
    for mark in [".", ",", ":", ";", "?", "!", ")", "]", "}"] {
        let items = vec![item("a", 0, 700, 10, "Body", 11), item(mark, 20, 700, 10, "Body", 11)];
        assert_eq!(texts(&merge_items(&items)), vec![format!("a{}", mark)]);
    }
    for mark in ["(", "[", "{"] {
        let items = vec![item(mark, 0, 700, 10, "Body", 11), item("a", 20, 700, 10, "Body", 11)];
        assert_eq!(texts(&merge_items(&items)), vec![format!("{}a", mark)]);
    }
    // an empty fragment takes the space like any other
    let items = vec![item("a", 0, 700, 10, "Body", 11), item("", 20, 700, 10, "Body", 11)];
    assert_eq!(texts(&merge_items(&items)), vec!["a "]);
}

#[test]
fn different_fonts_do_not_merge() {
    let items = vec![item("Hel", 0, 700, 20, "Body", 11), item("lo", 23, 700, 12, "Bold", 11)];
    assert_eq!(texts(&merge_items(&items)), vec!["Hel", "lo"]);
}

#[test]
fn a_run_grows_from_its_last_fragment() {
    let items = vec![
        item("a", 0, 700, 10, "Body", 11),
        item("b", 20, 700, 10, "Body", 11),
        item("c", 40, 700, 10, "Body", 11),
        item("d", 100, 700, 10, "Body", 11),
    ];
    let mut items = items;
    items[1].height = 15 * UNIT;
    let runs = merge_items(&items);
    assert_eq!(texts(&runs), vec!["a b c", "d"]);
    assert_eq!(runs[0].width, 50 * UNIT);
    assert_eq!(runs[0].height, 15 * UNIT);
    assert_eq!(runs[1].x, 100 * UNIT);
}

#[test]
fn joining_two_fragments() {
    let mut cur = item("(", 10, 700, 5, "Body", 11);
    join_items(&mut cur, &item("x", 30, 700, 5, "Body", 12), true);
    assert_eq!(cur.text, "(x");
    assert_eq!(cur.x, 10 * UNIT);
    assert_eq!(cur.width, 25 * UNIT);
    assert_eq!(cur.height, 12 * UNIT);
    assert_eq!(cur.font_size, 11 * UNIT);
    join_items(&mut cur, &item("y", 40, 700, 5, "Body", 11), true);
    assert_eq!(cur.text, "(x y");
    join_items(&mut cur, &item("z", 45, 700, 5, "Body", 11), false);
    assert_eq!(cur.text, "(x yz");
    assert_eq!(cur.width, 40 * UNIT);
}

#[test]
fn a_width_that_does_not_fit_is_the_largest_there_is() {
    let mut cur = item("a", 0, 700, 5, "Body", 11);
    cur.x = i64::MIN;
    let mut next = item("b", 0, 700, 5, "Body", 11);
    next.x = i64::MAX;
    join_items(&mut cur, &next, false);
    assert_eq!(cur.width, i64::MAX);
}

#[test]
fn lines_break_at_eight_tenths_of_the_font_size() {
    let first = item("a", 0, 700, 10, "Body", 10);
    assert!(!is_new_line(&first, &item("b", 0, 692, 10, "Body", 10), 14 * UNIT));
    assert!(!is_new_line(&first, &item("b", 0, 708, 10, "Body", 10), 14 * UNIT));
    let mut below = item("b", 0, 692, 10, "Body", 10);
    below.y -= 1;
    assert!(is_new_line(&first, &below, 14 * UNIT));
    // without a font size the pitch decides
    let first = item("a", 0, 700, 10, "Body", 0);
    assert!(!is_new_line(&first, &item("b", 0, 686, 10, "Body", 10), 14 * UNIT));
    assert!(is_new_line(&first, &item("b", 0, 685, 10, "Body", 10), 14 * UNIT));
}

#[test]
fn fragments_are_grouped_in_order_and_sorted_in_the_line() {
    let items = vec![
        item("world", 40, 700, 30, "Body", 10),
        item("Hello", 0, 702, 30, "Body", 10),
        item("Second", 0, 686, 30, "Body", 10),
        item("line", 40, 686, 30, "Body", 10),
        item("Third", 0, 672, 30, "Body", 10),
    ];
    let lines = group_items_by_line(items, 14 * UNIT);
    let lines: Vec<Vec<String>> = lines.iter().map(texts).collect();
    assert_eq!(
        lines,
        vec![vec!["Hello", "world"], vec!["Second", "line"], vec!["Third"]]
    );
    assert!(group_items_by_line(Vec::new(), 14 * UNIT).is_empty());
}

#[test]
fn the_first_fragment_of_a_line_sets_its_position() {
    // 700, 693, 686: the third is 14 below the first, though only 7 below the second
    let items = vec![
        item("a", 0, 700, 10, "Body", 10),
        item("b", 20, 693, 10, "Body", 10),
        item("c", 40, 686, 10, "Body", 10),
    ];
    let lines = group_items_by_line(items, 14 * UNIT);
    let lines: Vec<Vec<String>> = lines.iter().map(texts).collect();
    assert_eq!(lines, vec![vec!["a", "b"], vec!["c"]]);
}

#[test]
fn sorting_by_x_keeps_the_order_of_equals() {
    let mut line = vec![
        item("c", 30, 700, 10, "Body", 10),
        item("a1", 10, 700, 10, "Body", 10),
        item("b", 20, 700, 10, "Body", 10),
        item("a2", 10, 700, 10, "Body", 10),
    ];
    sort_line_by_x(&mut line);
    assert_eq!(texts(&line), vec!["a1", "a2", "b", "c"]);
}

#[test]
fn emphasis_is_written_as_markup() {
    let globals = stats(vec![
        ("Bold", WordFormat::Bold),
        ("Italic", WordFormat::Italic),
        ("Both", WordFormat::BoldItalic),
        ("Bold", WordFormat::Italic),
    ]);
    let mut runs = vec![
        item("Title", 0, 700, 10, "Bold", 10),
        item(" note ", 20, 700, 10, "Italic", 10),
        item("both", 40, 700, 10, "Both", 10),
        item("plain", 60, 700, 10, "Body", 10),
        item("  ", 80, 700, 10, "Bold", 10),
    ];
    apply_emphasis(&mut runs, &globals);
    assert_eq!(texts(&runs), vec!["**Title**", " _note_ ", "**_both_**", "plain", "  "]);
    assert!(runs.iter().all(|r| r.format.is_none()));
}

#[test]
fn a_line_spans_its_runs() {
    let globals = stats(vec![("Bold", WordFormat::Bold)]);
    let mut items = vec![
        item("Hello", 10, 700, 30, "Body", 11),
        item("world", 50, 701, 30, "Body", 11),
        item("Big", 200, 699, 40, "Bold", 18),
    ];
    items[1].height = 12 * UNIT;
    let line = create_line_item(items, &globals).unwrap();
    assert_eq!(texts(&line.items), vec!["Hello world", "**Big**"]);
    assert_eq!(line.x, 10 * UNIT);
    assert_eq!(line.y, 700 * UNIT);
    assert_eq!(line.width, 230 * UNIT);
    assert_eq!(line.height, 18 * UNIT);
    assert_eq!(line.block_type, BlockType::Paragraph);
    assert!(create_line_item(Vec::new(), &globals).is_none());
    assert_eq!(max_height(&Vec::new()), 0);
}

#[test]
fn a_page_of_fragments_becomes_a_page_of_lines() {
    let globals = stats(Vec::new());
    let mut page = Page {
        index: 3,
        items: vec![
            ItemType::TextItem(item("Hello", 0, 700, 30, "Body", 11)),
            ItemType::Markdown("dropped".to_string()),
            ItemType::TextItem(item("world", 40, 700, 30, "Body", 11)),
            ItemType::TextItem(item("Next line", 0, 686, 60, "Body", 11)),
        ],
    };
    compact_page(&mut page, &globals);
    assert_eq!(page.index, 3);
    assert_eq!(page.items.len(), 2);
    assert_eq!(texts(&line(&page.items[0]).items), vec!["Hello world"]);
    assert_eq!(texts(&line(&page.items[1]).items), vec!["Next line"]);
    assert_eq!(line(&page.items[1]).y, 686 * UNIT);
}

#[test]
fn a_page_without_fragments_stays_as_it_is() {
    let globals = stats(Vec::new());
    let mut page = Page { index: 0, items: vec![ItemType::Markdown("kept".to_string())] };
    compact_page(&mut page, &globals);
    assert_eq!(page.items.len(), 1);
    assert!(matches!(&page.items[0], ItemType::Markdown(s) if s == "kept"));
    let mut empty = Page { index: 1, items: Vec::new() };
    compact_page(&mut empty, &globals);
    assert!(empty.items.is_empty());
}

#[test]
fn the_stage_compacts_every_page() {
    let mut pages = Vec::new();
    for p in 0..40 {
        pages.push(Page {
            index: p,
            items: vec![
                ItemType::TextItem(item("Page", 0, 700, 30, "Body", 11)),
                ItemType::TextItem(item(&format!("{}", p), 40, 700, 30, "Body", 11)),
                ItemType::TextItem(item("Hel", 0, 680, 20, "Title", 11)),
                ItemType::TextItem(item("lo", 23, 680, 12, "Title", 11)),
            ],
        });
    }
    pages.push(Page { index: 40, items: Vec::new() });
    let mut result =
        ParseResult { pages, globals: stats(vec![("Title", WordFormat::Bold)]) };
    CompactLines { verbose: false }.transform(&mut result);
    assert_eq!(result.pages.len(), 41);
    for p in 0..40 {
        let page = &result.pages[p];
        assert_eq!(page.index, p as u16);
        assert_eq!(page.items.len(), 2);
        assert_eq!(texts(&line(&page.items[0]).items), vec![format!("Page {}", p)]);
        assert_eq!(texts(&line(&page.items[1]).items), vec!["**Hello**"]);
    }
    assert!(result.pages[40].items.is_empty());
    assert_eq!(result.globals.most_used_distance, 14 * UNIT);
}
