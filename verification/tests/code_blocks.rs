use pdf_to_md::models::{
    BlockType, GlobalStats, ItemType, LineItem, Page, ParseResult, TextItem, WordFormat, UNIT,
};
use pdf_to_md::transformations::common::Transformation;
use pdf_to_md::transformations::detect_code_blocks::{
    find_code_by_content, find_code_by_italics, indent_line, is_code_candidate,
    l_has_explicit_code_indicators, line_is_italic, page_left_margin, text_has_code_keywords,
    text_has_code_symbols, DetectCodeBlocks,
};

fn line_at(text: &str, x: i64, y: i64) -> LineItem {
    LineItem {
        items: vec![TextItem {
            text: text.to_string(),
            x,
            y,
            width: 100 * UNIT,
            height: 11 * UNIT,
            font: "Body".to_string(),
            font_size: 11 * UNIT,
            format: None,
        }],
        x,
        y,
        width: 100 * UNIT,
        height: 11 * UNIT,
        block_type: BlockType::Paragraph,
    }
}

fn line(text: &str, x: i64) -> ItemType {
    ItemType::LineItem(line_at(text, x * UNIT, 700 * UNIT))
}

fn v(s: &str) -> Vec<char> {
    s.chars().collect()
}

fn roles(items: &Vec<ItemType>) -> Vec<BlockType> {
    items
        .iter()
        .map(|i| match i {
            ItemType::LineItem(l) => l.block_type,
            _ => panic!("not a line"),
        })
        .collect()
}

fn texts(items: &Vec<ItemType>) -> Vec<String> {
    items
        .iter()
        .map(|i| match i {
            ItemType::LineItem(l) => l.items.iter().map(|t| t.text.as_str()).collect(),
            _ => panic!("not a line"),
        })
        .collect()
}

fn document(items: Vec<ItemType>) -> ParseResult {
    ParseResult {
        pages: vec![Page { index: 0, items }],
        globals: GlobalStats {
            most_used_height: 11 * UNIT,
            most_used_distance: 14 * UNIT,
            most_used_font: "Body".to_string(),
            max_height: 24 * UNIT,
            font_to_format: Vec::new(),
        },
    }
}

const P: BlockType = BlockType::Paragraph;
const C: BlockType = BlockType::Code;

#[test]
fn explicit_indicators() {
    let has = |text: &str| l_has_explicit_code_indicators(text, &text.to_lowercase());
    for text in [
        "import os",
        "from x import y",
        "def foo():",
        "async def run()",
        "class A:",
        "try:",
        "except ValueError",
        "return x",
        "print(x)",
        "@app.route",
        "await x",
        "asyncio.run(main())",
        "if __name__ == '__main__'",
        "@decorator",
        "a { b",
        "}",
        "x;",
        "x => y",
        "x = 1",
        "f(a):",
        "IMPORT OS",
    ] {
        assert!(has(text), "{}", text);
    }
    for text in ["", "Plain prose.", "x=1", "important", "a (b) [c]", "if x", "for x in y", " @x"] {
        assert!(!has(text), "{}", text);
    }
    // the second argument is taken as the lowercase form as it is given
    assert!(!l_has_explicit_code_indicators("IMPORT OS", "IMPORT OS"));
    assert!(l_has_explicit_code_indicators("", "import "));
}

#[test]
fn keywords_and_symbols() {
    for text in ["if x", "for x in y", "while true", "with open", "print(", "except"] {
        assert!(text_has_code_keywords(&v(text)), "{}", text);
    }
    assert!(!text_has_code_keywords(&v("nothing to see")));
    assert!(!text_has_code_keywords(&v("IF X")));
    for text in ["a {", "}", ";", "=>", "a = b", "f (x)", "a [0]", "a] b", "):", "x # y"] {
        assert!(text_has_code_symbols(&v(text)), "{}", text);
    }
    assert!(!text_has_code_symbols(&v("a=b(c)[d]#e")));
}

#[test]
fn candidates() {
    let body = 11 * UNIT;
    let check = |l: &LineItem, margin: i64| {
        let text: String = l.items.iter().map(|t| t.text.as_str()).collect();
        is_code_candidate(l, &v(&text), &v(&text.to_lowercase()), margin, body)
    };
    // indented plain text
    assert!(check(&line_at("just text", 10 * UNIT, 0), 0));
    // not indented: needs an explicit sign
    assert!(!check(&line_at("just text", 2 * UNIT, 0), 0));
    assert!(!check(&line_at("if x", 2 * UNIT, 0), 0));
    assert!(check(&line_at("if x", 2 * UNIT + 1, 0), 0));
    assert!(check(&line_at("x = 1", 0, 0), 0));
    // indented but emphasised and without any cue
    let mut bold = line_at("a remark", 10 * UNIT, 0);
    bold.items[0].format = Some(WordFormat::Bold);
    assert!(!check(&bold, 0));
    // indented and empty
    assert!(!check(&line_at("", 10 * UNIT, 0), 0));
    // tall
    let mut tall = line_at("def foo():", 10 * UNIT, 0);
    tall.height = 12 * UNIT + 1;
    assert!(!check(&tall, 0));
    tall.height = 12 * UNIT;
    assert!(check(&tall, 0));
    // wrapped in bold marks
    assert!(!check(&line_at("**def foo():**", 10 * UNIT, 0), 0));
}

#[test]
fn left_margin_is_the_smallest_left_edge() {
    assert_eq!(page_left_margin(&vec![line("a", 30), line("b", 20), line("c", 25)]), 20 * UNIT);
    assert_eq!(page_left_margin(&vec![line("a", -5)]), -5 * UNIT);
    assert_eq!(page_left_margin(&Vec::new()), 0);
    assert_eq!(page_left_margin(&vec![ItemType::Markdown("x".to_string())]), 0);
}

#[test]
fn single_indented_line_with_an_indicator_is_code() {
    let mut result = document(vec![
        line("This is prose.", 0),
        line("def foo():", 6),
        line("More prose here.", 0),
    ]);
    DetectCodeBlocks { verbose: false }.transform(&mut result);
    assert_eq!(roles(&result.pages[0].items), vec![P, C, P]);
    assert_eq!(
        texts(&result.pages[0].items),
        vec!["This is prose.", "def foo():", "More prose here."]
    );
}

#[test]
fn single_indented_line_of_prose_is_not_code() {
    let mut result = document(vec![
        line("This is prose.", 0),
        line("A quoted remark", 10),
        line("More prose here.", 0),
    ]);
    DetectCodeBlocks { verbose: false }.transform(&mut result);
    assert_eq!(roles(&result.pages[0].items), vec![P, P, P]);
}

#[test]
fn two_indented_lines_are_code_and_keep_their_indentation() {
    let mut result = document(vec![
        line("This is prose.", 0),
        line("for x in y:", 10),
        line("total += x", 18),
        line("done", 16),
        line("More prose here.", 0),
    ]);
    DetectCodeBlocks { verbose: false }.transform(&mut result);
    assert_eq!(roles(&result.pages[0].items), vec![P, C, C, C, P]);
    // 8 units are two spaces, 6 units round(1.5) = 2 spaces
    assert_eq!(
        texts(&result.pages[0].items),
        vec!["This is prose.", "for x in y:", "  total += x", "  done", "More prose here."]
    );
}

#[test]
fn upper_case_keywords_count() {
    let mut result = document(vec![line("Some prose.", 0), line("IMPORT OS", 0)]);
    DetectCodeBlocks { verbose: false }.transform(&mut result);
    assert_eq!(roles(&result.pages[0].items), vec![P, C]);
}

#[test]
fn other_items_do_not_break_a_run_of_candidates_but_end_a_block() {
    let mut items = vec![
        line("prose", 0),
        line("first", 10),
        ItemType::Markdown("between".to_string()),
        line("second", 20),
    ];
    find_code_by_content(&mut items, 11 * UNIT);
    let lines: Vec<ItemType> =
        items.iter().filter(|i| matches!(i, ItemType::LineItem(_))).cloned().collect();
    assert_eq!(roles(&lines), vec![P, C, C]);
    // the two lines of code are two blocks: neither is indented
    DetectCodeBlocks::normalize_blocks(&mut items);
    let lines: Vec<ItemType> =
        items.iter().filter(|i| matches!(i, ItemType::LineItem(_))).cloned().collect();
    assert_eq!(texts(&lines), vec!["prose", "first", "second"]);
}

#[test]
fn runs_of_italic_lines_are_code() {
    let italic = |text: &str| {
        let mut l = line_at(text, 0, 700 * UNIT);
        l.items[0].format = Some(WordFormat::Italic);
        ItemType::LineItem(l)
    };
    let mut items = vec![
        line("prose", 0),
        italic("first aside"),
        line("_second aside_", 0),
        line("*third aside*", 0),
        line("prose", 0),
        italic("alone"),
        line("prose", 0),
    ];
    find_code_by_italics(&mut items, 11 * UNIT);
    assert_eq!(roles(&items), vec![P, C, C, C, P, P, P]);
}

#[test]
fn italic_lines() {
    let body = 11 * UNIT;
    assert!(line_is_italic(&line_at("_x_", 0, 0), body));
    assert!(line_is_italic(&line_at(" *x* ", 0, 0), body));
    assert!(!line_is_italic(&line_at("x", 0, 0), body));
    let mut both = line_at("x", 0, 0);
    both.items[0].format = Some(WordFormat::BoldItalic);
    assert!(line_is_italic(&both, body));
    both.height = 13 * UNIT;
    assert!(!line_is_italic(&both, body));
    let mut none = line_at("x", 0, 0);
    none.items.clear();
    assert!(line_is_italic(&none, body));
}

#[test]
fn code_found_by_content_breaks_no_italic_run() {
    let mut items = vec![line("_one_", 0), line("x = 1", 0), line("_two_", 0)];
    find_code_by_content(&mut items, 11 * UNIT);
    assert_eq!(roles(&items), vec![P, C, P]);
    find_code_by_italics(&mut items, 11 * UNIT);
    assert_eq!(roles(&items), vec![C, C, C]);
}

#[test]
fn indentation_is_one_space_for_four_units() {
    let indent = |x: i64| {
        let mut l = line_at("x", x, 0);
        indent_line(&mut l, 10 * UNIT);
        l.items[0].text.clone()
    };
    assert_eq!(indent(10 * UNIT), "x");
    assert_eq!(indent(12 * UNIT), "x");
    assert_eq!(indent(12 * UNIT + 1), " x");
    assert_eq!(indent(16 * UNIT - 1), " x");
    assert_eq!(indent(16 * UNIT), "  x");
    assert_eq!(indent(26 * UNIT), "    x");
    assert_eq!(indent(5 * UNIT), "x");
    let mut empty = line_at("x", 30 * UNIT, 0);
    empty.items.clear();
    indent_line(&mut empty, 0);
    assert!(empty.items.is_empty());
}

#[test]
fn indentation_relative_to_the_leftmost_of_the_given_lines() {
    let mut items = vec![line("a", 20), line("b", 28), line("c", 10), line("d", 40)];
    DetectCodeBlocks::normalize_indentation(&mut items, &vec![0, 1, 3]);
    assert_eq!(texts(&items), vec!["a", "  b", "c", "     d"]);
    DetectCodeBlocks::normalize_indentation(&mut items, &Vec::new());
    assert_eq!(texts(&items), vec!["a", "  b", "c", "     d"]);
    let mut items = vec![ItemType::Markdown("x".to_string()), line("b", 28)];
    DetectCodeBlocks::normalize_indentation(&mut items, &vec![0]);
    assert_eq!(texts(&items[1..].to_vec()), vec!["b"]);
}

#[test]
fn each_block_has_its_own_margin() {
    let code = |text: &str, x: i64| {
        let mut l = line_at(text, x * UNIT, 0);
        l.block_type = BlockType::Code;
        ItemType::LineItem(l)
    };
    let mut items = vec![
        code("a", 10),
        code("b", 18),
        line("prose", 0),
        code("c", 30),
        code("d", 34),
        code("e", 38),
    ];
    DetectCodeBlocks::normalize_blocks(&mut items);
    assert_eq!(texts(&items), vec!["a", "  b", "prose", "c", " d", "  e"]);
}

#[test]
fn pages_without_lines_stay_as_they_are() {
    let mut result = document(vec![ItemType::Markdown("x".to_string())]);
    result.pages.push(Page { index: 1, items: Vec::new() });
    DetectCodeBlocks { verbose: false }.transform(&mut result);
    assert_eq!(result.pages.len(), 2);
    assert!(matches!(&result.pages[0].items[0], ItemType::Markdown(s) if s == "x"));
    assert!(result.pages[1].items.is_empty());
}
