use qingmo::date::unix_secs_to_iso_date;
use qingmo::files::merge_chapters;
use qingmo::find::FindBar;
use qingmo::markdown::count_words;
use qingmo::models::{all_node_titles, count_nodes, node_at_mut, StructKind, StructNode};
use qingmo::outline::extract_struct_nodes_from_markdown;

#[test]
fn word_count_adds_over_a_line_break() {
    let pairs = [
        ("# 第一章\nhello", "world 你好"),
        ("abc", "def"),
        ("", "text"),
        ("line\r", "more words"),
        ("- item\n", "1. 二"),
        ("===", "[链接](url) *强调*"),
    ];
    for (a, b) in pairs {
        let joined = format!("{a}\n{b}");
        assert_eq!(count_words(&joined), count_words(a) + count_words(b), "{a:?} / {b:?}");
    }
    assert_eq!(count_words("abc\ndef"), 2);
}

#[test]
fn next_day_rolls_months_and_years() {
    assert_eq!(unix_secs_to_iso_date(0), "1970-01-01");
    assert_eq!(unix_secs_to_iso_date(86_399), "1970-01-01");
    assert_eq!(unix_secs_to_iso_date(86_400), "1970-01-02");
    assert_eq!(unix_secs_to_iso_date(30 * 86_400), "1970-01-31");
    assert_eq!(unix_secs_to_iso_date(31 * 86_400), "1970-02-01");
    assert_eq!(unix_secs_to_iso_date(364 * 86_400), "1970-12-31");
    assert_eq!(unix_secs_to_iso_date(365 * 86_400), "1971-01-01");
    assert_eq!(unix_secs_to_iso_date(11_015 * 86_400), "2000-02-28");
    assert_eq!(unix_secs_to_iso_date(11_016 * 86_400), "2000-02-29");
    assert_eq!(unix_secs_to_iso_date(11_017 * 86_400), "2000-03-01");
}

#[test]
fn mutable_lookup_without_write_changes_nothing() {
    let mut roots = extract_struct_nodes_from_markdown("# 卷一\n## 第一章\n### 第一节\n## 第二章\n");
    let before = format!("{roots:?}");
    assert!(node_at_mut(&mut roots, &[0, 1]).is_some());
    assert_eq!(format!("{roots:?}"), before);
    assert!(node_at_mut(&mut roots, &[0, 5]).is_none());
    assert_eq!(format!("{roots:?}"), before);
    if let Some(n) = node_at_mut(&mut roots, &[0, 0]) {
        n.done = true;
    }
    assert!(roots[0].children[0].done);
    assert!(!roots[0].children[1].done);
}

#[test]
fn node_count_matches_title_list() {
    let roots = extract_struct_nodes_from_markdown("# 卷一\n## 第一章\n### 第一节\n## 第二章\n# 卷二\n");
    assert_eq!(count_nodes(&roots), 5);
    assert_eq!(count_nodes(&roots), all_node_titles(&roots).len());
    let single = vec![StructNode::new("总纲", StructKind::Outline)];
    assert_eq!(count_nodes(&single), all_node_titles(&single).len());
    assert_eq!(count_nodes(&[]), 0);
}

#[test]
fn node_count_of_the_nested_example() {
    let roots = extract_struct_nodes_from_markdown("# 卷一\n## 第一章\n### 第一节\n## 第二章\n");
    assert_eq!(count_nodes(&roots), 4);
    assert_eq!(all_node_titles(&roots).len(), 4);
}

#[test]
fn ascii_non_letters_split_words() {
    assert_eq!(count_words("a1b"), 2);
    assert_eq!(count_words("x_y-z"), 3);
    assert_eq!(count_words("é\nè"), 2);
}

#[test]
fn merged_export_puts_heading_text_then_blank_line() {
    let chapters = vec![
        ("01.md".to_owned(), "第一章内容".to_owned()),
        ("02.md".to_owned(), "second".to_owned()),
    ];
    assert_eq!(
        merge_chapters(&chapters, true),
        "# ── 01.md ──\n\n第一章内容\n\n# ── 02.md ──\n\nsecond\n\n"
    );
    assert_eq!(merge_chapters(&chapters, false), "第一章内容\n\nsecond\n\n");
    assert_eq!(merge_chapters(&[], true), "");
}

#[test]
fn case_sensitive_refresh_places_every_match() {
    let mut bar = FindBar::new(false);
    bar.case_sensitive = true;
    bar.query = "ẞ".to_owned();
    assert!(bar.try_refresh_matches("aẞbẞ"));
    assert_eq!(bar.match_ranges.len(), 2);
    assert_eq!(bar.match_ranges[1].byte_start, 5);
    assert_eq!(bar.match_ranges[1].char_start, 3);
    assert_eq!(bar.match_ranges[1].char_end, 4);
}
