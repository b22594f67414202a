use pdf_to_md::models::{
    GlobalStats, ItemType, Page, ParseResult, TextItem, WordFormat, UNIT,
};
use pdf_to_md::transformations::common::Transformation;
use pdf_to_md::transformations::stats::{
    calculate_global_stats, emphasis_of, get_most_used_key, get_most_used_size, tally_font,
    tally_size, weight_of, CalculateGlobalStats, DEFAULT_PITCH,
};

fn frag(text: &str, y: i64, font: &str, size: i64) -> ItemType {
    ItemType::TextItem(TextItem {
        text: text.to_string(),
        x: 72 * UNIT,
        y,
        width: 200 * UNIT,
        height: size,
        font: font.to_string(),
        font_size: size,
        format: None,
    })
}

fn page(index: u16, items: Vec<ItemType>) -> Page {
    Page { index, items }
}

fn rules(stats: &GlobalStats) -> Vec<(String, WordFormat)> {
    stats.font_to_format.iter().map(|r| (r.font.clone(), r.format)).collect()
}

#[test]
fn profile_of_a_simple_document() {
    let pages = vec![page(
        0,
        vec![
            frag("Big Title", 700 * UNIT, "Heading", 24 * UNIT),
            frag("Some body text here", 680 * UNIT, "Body", 11 * UNIT),
            frag("More body text here", 665_500, "Body", 11 * UNIT),
            frag("Even more body text", 651 * UNIT, "Body", 11 * UNIT),
        ],
    )];
    let stats = calculate_global_stats(&pages);
    assert_eq!(stats.most_used_height, 11 * UNIT);
    assert_eq!(stats.most_used_font, "Body");
    assert_eq!(stats.max_height, 24 * UNIT);
    assert_eq!(stats.most_used_distance, 14_500);
    assert_eq!(rules(&stats), vec![("Heading".to_string(), WordFormat::Bold)]);
}

#[test]
fn pitch_is_the_constant_distance_to_the_hundredth() {
    // fragments of body text exactly 14.504 units apart
    let d = 14_504;
    let mut items = Vec::new();
    for i in 0..6 {
        items.push(frag("plain body text", 700 * UNIT - i * d, "Body", 10 * UNIT));
    }
    let stats = calculate_global_stats(&vec![page(0, items)]);
    assert_eq!(stats.most_used_distance, 14_500);

    let d = 13_006;
    let mut first = Vec::new();
    let mut second = Vec::new();
    for i in 0..3 {
        first.push(frag("plain body text", 700 * UNIT - i * d, "Body", 10 * UNIT));
        second.push(frag("other body text", 500 * UNIT - i * d, "Body", 10 * UNIT));
    }
    let stats = calculate_global_stats(&vec![page(0, first), page(1, second)]);
    assert_eq!(stats.most_used_distance, 13_010);
}

#[test]
fn pitch_is_the_most_frequent_distance() {
    let ys = [700, 688, 676, 664, 640, 628];
    let items = ys.iter().map(|y| frag("plain body text", y * UNIT, "Body", 10 * UNIT)).collect();
    let stats = calculate_global_stats(&vec![page(0, items)]);
    assert_eq!(stats.most_used_distance, 12 * UNIT);
}

#[test]
fn small_and_upward_distances_do_not_count() {
    // 5 units is jitter, and the next fragment stands above the one before it
    let items = vec![
        frag("plain body text", 700 * UNIT, "Body", 10 * UNIT),
        frag("plain body text", 695 * UNIT, "Body", 10 * UNIT),
        frag("plain body text", 720 * UNIT, "Body", 10 * UNIT),
    ];
    let stats = calculate_global_stats(&vec![page(0, items)]);
    assert_eq!(stats.most_used_distance, DEFAULT_PITCH);
    assert_eq!(DEFAULT_PITCH, 12 * UNIT);
}

#[test]
fn no_distance_is_taken_across_other_text_or_pages() {
    let first = vec![
        frag("plain body text", 700 * UNIT, "Body", 10 * UNIT),
        frag("A Heading Between", 690 * UNIT, "Head", 16 * UNIT),
        frag("plain body text", 680 * UNIT, "Body", 10 * UNIT),
    ];
    let second = vec![frag("plain body text", 660 * UNIT, "Body", 10 * UNIT)];
    let stats = calculate_global_stats(&vec![page(0, first), page(1, second)]);
    assert_eq!(stats.most_used_distance, DEFAULT_PITCH);

    // a blank fragment in between does not break the chain
    let items = vec![
        frag("plain body text", 700 * UNIT, "Body", 10 * UNIT),
        frag("   ", 690 * UNIT, "Head", 16 * UNIT),
        frag("plain body text", 680 * UNIT, "Body", 10 * UNIT),
    ];
    let stats = calculate_global_stats(&vec![page(0, items)]);
    assert_eq!(stats.most_used_distance, 20 * UNIT);
}

#[test]
fn empty_document_has_the_default_profile() {
    let stats = calculate_global_stats(&Vec::new());
    assert_eq!(stats.most_used_height, 0);
    assert_eq!(stats.most_used_distance, DEFAULT_PITCH);
    assert_eq!(stats.most_used_font, "");
    assert_eq!(stats.max_height, 0);
    assert!(stats.font_to_format.is_empty());

    let stats = calculate_global_stats(&vec![page(0, Vec::new())]);
    assert_eq!(stats.most_used_height, 0);
    assert_eq!(stats.most_used_distance, DEFAULT_PITCH);
}

#[test]
fn votes_weigh_letters_and_penalise_styled_fonts() {
    let item = |text: &str, font: &str| match frag(text, 0, font, 10 * UNIT) {
        ItemType::TextItem(t) => t,
        _ => unreachable!(),
    };
    assert_eq!(weight_of(&item("  abc def 12 ", "Body")), Some(6));
    assert_eq!(weight_of(&item("ab", "Body")), None);
    assert_eq!(weight_of(&item("12345678", "Body")), None);
    assert_eq!(weight_of(&item("abcdefghijklmnopqrstuvwxy", "Times-Italic")), Some(2));
    assert_eq!(weight_of(&item("abcdefghijklmnopqrstuvwxy", "Arial-BoldMT")), Some(2));
    assert_eq!(weight_of(&item("abcdefghijklmnopqrstuvwxy", "Helvetica-Oblique")), Some(2));
    assert_eq!(weight_of(&item("abc", "Times-Bold")), Some(0));
    assert_eq!(weight_of(&item("abcdef", "CambriaMath")), None);
    assert_eq!(weight_of(&item("abcdef", "SYMBOL")), None);
}

#[test]
fn body_font_is_the_one_with_most_letters() {
    let pages = vec![page(
        0,
        vec![
            frag("a very long pull quote set in italics here", 700 * UNIT, "Serif-Italic", 14 * UNIT),
            frag("short body", 680 * UNIT, "Serif", 10 * UNIT),
            frag("12345678901234567890", 660 * UNIT, "Mono", 30 * UNIT),
        ],
    )];
    let stats = calculate_global_stats(&pages);
    // 35 letters in italics weigh 3, 9 plain letters weigh 9; digits cast no vote
    assert_eq!(stats.most_used_font, "Serif");
    assert_eq!(stats.most_used_height, 10 * UNIT);
    // but every fragment counts for the largest size, and every font has its rule
    assert_eq!(stats.max_height, 30 * UNIT);
    assert_eq!(
        rules(&stats),
        vec![
            ("Serif-Italic".to_string(), WordFormat::Italic),
            ("Mono".to_string(), WordFormat::Bold),
        ]
    );
}

#[test]
fn every_font_is_classified_once() {
    let pages = vec![page(
        0,
        vec![
            frag("x", 700 * UNIT, "Symbol-Bold", 10 * UNIT),
            frag("plain body text", 680 * UNIT, "Body", 10 * UNIT),
            frag("y", 660 * UNIT, "Symbol-Bold", 10 * UNIT),
            frag("ab", 640 * UNIT, "Times-BoldItalic", 10 * UNIT),
            frag("abc", 620 * UNIT, "Plain", 10 * UNIT),
        ],
    )];
    let stats = calculate_global_stats(&pages);
    assert_eq!(stats.most_used_font, "Body");
    assert_eq!(
        rules(&stats),
        vec![
            ("Symbol-Bold".to_string(), WordFormat::Bold),
            ("Times-BoldItalic".to_string(), WordFormat::BoldItalic),
        ]
    );
    assert_eq!(stats.format_for(&"Symbol-Bold".to_string()), Some(WordFormat::Bold));
    assert_eq!(stats.format_for(&"Plain".to_string()), None);
    assert_eq!(stats.format_for(&"Body".to_string()), None);
}

#[test]
fn sizes_are_counted_to_the_hundredth() {
    let pages = vec![page(
        0,
        vec![
            frag("body text one", 700 * UNIT, "Body", 10_001),
            frag("body text two", 680 * UNIT, "Body", 9_996),
            frag("a caption", 660 * UNIT, "Body", 8_000),
        ],
    )];
    let stats = calculate_global_stats(&pages);
    assert_eq!(stats.most_used_height, 10_000);
    assert_eq!(stats.most_used_distance, 20 * UNIT);
}

#[test]
fn emphasis_by_font_name() {
    let e = |font: &str, body: &str, max: &str| {
        emphasis_of(&font.to_string(), &body.to_string(), &max.to_string())
    };
    assert_eq!(e("Arial-BoldItalicMT", "Arial", "Big"), Some(WordFormat::BoldItalic));
    assert_eq!(e("Arial-Bd", "Arial", "Big"), Some(WordFormat::Bold));
    assert_eq!(e("Frutiger-BOLD", "Arial", "Big"), Some(WordFormat::Bold));
    assert_eq!(e("Times-Oblique", "Arial", "Big"), Some(WordFormat::Italic));
    assert_eq!(e("Minion-It", "Arial", "Big"), Some(WordFormat::Italic));
    assert_eq!(e("Minion-Ital", "Arial", "Big"), Some(WordFormat::Italic));
    assert_eq!(e("Big", "Arial", "Big"), Some(WordFormat::Bold));
    assert_eq!(e("Plain", "Arial", "Big"), None);
    // the body font carries no emphasis, whatever its name
    assert_eq!(e("Arial-Bold", "Arial-Bold", "Big"), None);
    assert_eq!(e("Big", "Big", "Big"), None);
}

#[test]
fn the_first_of_equal_counts_wins() {
    let table = vec![("A".to_string(), 3u64), ("B".to_string(), 5), ("C".to_string(), 5)];
    assert_eq!(get_most_used_key(&table), Some("B".to_string()));
    assert_eq!(get_most_used_key(&Vec::new()), None);
    assert_eq!(get_most_used_size(&vec![(10_000, 2), (12_000, 2)]), Some(10_000));
    assert_eq!(get_most_used_size(&Vec::new()), None);
}

#[test]
fn tallies_add_up_and_saturate() {
    let mut sizes = Vec::new();
    tally_size(&mut sizes, 10_000, 4);
    tally_size(&mut sizes, 12_000, 1);
    tally_size(&mut sizes, 10_000, 3);
    assert_eq!(sizes, vec![(10_000, 7), (12_000, 1)]);
    tally_size(&mut sizes, 12_000, u64::MAX);
    assert_eq!(sizes, vec![(10_000, 7), (12_000, u64::MAX)]);

    let mut fonts = Vec::new();
    tally_font(&mut fonts, &"A".to_string(), 2);
    tally_font(&mut fonts, &"B".to_string(), 2);
    tally_font(&mut fonts, &"A".to_string(), 1);
    assert_eq!(fonts, vec![("A".to_string(), 3), ("B".to_string(), 2)]);
}

#[test]
fn the_stage_replaces_the_statistics_only() {
    let mut result = ParseResult {
        pages: vec![page(
            7,
            vec![
                frag("Some body text here", 680 * UNIT, "Body", 11 * UNIT),
                frag("More body text here", 666 * UNIT, "Body", 11 * UNIT),
            ],
        )],
        globals: GlobalStats::default(),
    };
    CalculateGlobalStats { verbose: false }.transform(&mut result);
    assert_eq!(result.globals.most_used_height, 11 * UNIT);
    assert_eq!(result.globals.most_used_distance, 14 * UNIT);
    assert_eq!(result.pages.len(), 1);
    assert_eq!(result.pages[0].index, 7);
    assert_eq!(result.pages[0].items.len(), 2);
}

#[test]
fn default_statistics_are_empty() {
    let stats = GlobalStats::default();
    assert_eq!(stats.most_used_height, 0);
    assert_eq!(stats.most_used_distance, 0);
    assert_eq!(stats.most_used_font, "");
    assert_eq!(stats.max_height, 0);
    assert!(stats.font_to_format.is_empty());
    assert_eq!(stats.format_for(&"Any".to_string()), None);
}
