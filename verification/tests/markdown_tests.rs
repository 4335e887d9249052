use qingmo::markdown::{count_words, markdown_to_plain_text};

#[test]
fn test_count_words_cjk_only() {
    assert_eq!(count_words("你好世界"), 4);
    assert_eq!(count_words("第一章"), 3);
}

#[test]
fn test_count_words_ascii_words() {
    assert_eq!(count_words("hello world foo"), 3);
    assert_eq!(count_words("Hello"), 1);
}

#[test]
fn test_count_words_mixed() {
    assert_eq!(count_words("主角 entered the 森林"), 6);
}

#[test]
fn test_count_words_strips_markdown() {
    assert_eq!(count_words("**你好**"), 2);
    assert_eq!(count_words("# 第一章"), 3);
}

#[test]
fn test_count_words_ignores_punctuation() {
    assert_eq!(count_words("你好，世界！"), 4);
    assert_eq!(count_words("hello, world!"), 2);
}

#[test]
fn test_count_words_empty() {
    assert_eq!(count_words(""), 0);
    assert_eq!(count_words("   "), 0);
    assert_eq!(count_words("\n\n"), 0);
}

#[test]
fn test_count_words_punctuation_only() {
    assert_eq!(count_words("。，！？——"), 0);
}

#[test]
fn test_plain_text_atx_headings_all_levels() {
    for level in 1..=6usize {
        let hashes = "#".repeat(level);
        let md = format!("{hashes} 标题文字");
        let plain = markdown_to_plain_text(&md);
        assert!(plain.contains("标题文字"), "level {level} heading text missing");
        assert!(!plain.contains('#'), "level {level} heading still has #");
    }
}

#[test]
fn test_plain_text_bold_italic_and_code() {
    let plain = markdown_to_plain_text("**粗体** 和 *斜体* 以及 `代码`");
    assert!(plain.contains("粗体"));
    assert!(plain.contains("斜体"));
    assert!(plain.contains("代码"));
    assert!(!plain.contains('*'));
    assert!(!plain.contains('`'));
}

#[test]
fn test_plain_text_blockquote() {
    let plain = markdown_to_plain_text("> 引用内容\n>> 嵌套引用");
    assert!(plain.contains("引用内容"));
    assert!(!plain.contains('>'));
}

#[test]
fn test_plain_text_setext_underlines_skipped() {
    let md = "章节标题\n========\n小节标题\n--------";
    let plain = markdown_to_plain_text(md);
    assert!(plain.contains("章节标题"));
    assert!(plain.contains("小节标题"));
    assert!(!plain.contains('='), "=== line should be removed");
}

#[test]
fn test_plain_text_unordered_list_prefixes() {
    let md = "- 第一项\n* 第二项\n+ 第三项";
    let plain = markdown_to_plain_text(md);
    assert!(plain.contains("第一项"));
    assert!(plain.contains("第二项"));
    assert!(plain.contains("第三项"));
    for line in plain.lines() {
        let l = line.trim();
        assert!(
            !l.starts_with("- ") && !l.starts_with("+ "),
            "list prefix remained: {l:?}"
        );
    }
}

#[test]
fn test_plain_text_ordered_list_prefixes() {
    let md = "1. 有序一\n2. 有序二\n10. 有序十";
    let plain = markdown_to_plain_text(md);
    assert!(plain.contains("有序一"));
    assert!(plain.contains("有序二"));
    assert!(plain.contains("有序十"));
    for line in plain.lines() {
        let l = line.trim();
        let starts_with_num_dot = l.chars().next().map(|c| c.is_ascii_digit()).unwrap_or(false)
            && l.contains(". ");
        assert!(!starts_with_num_dot, "ordered list prefix remained: {l:?}");
    }
}

#[test]
fn test_plain_text_inline_links() {
    let md = "参见 [官方文档](https://example.com) 获取帮助。";
    let plain = markdown_to_plain_text(md);
    assert!(plain.contains("官方文档"), "link text should be preserved");
    assert!(plain.contains("参见"), "surrounding text should be preserved");
    assert!(!plain.contains("https://"), "URL should be removed");
    assert!(!plain.contains("]("), "link syntax should be removed");
}

#[test]
fn test_plain_text_multiple_links_on_line() {
    let md = "[链接A](http://a.com) 和 [链接B](http://b.com)";
    let plain = markdown_to_plain_text(md);
    assert!(plain.contains("链接A"));
    assert!(plain.contains("链接B"));
    assert!(!plain.contains("http://"));
}

#[test]
fn test_plain_text_empty_input() {
    let plain = markdown_to_plain_text("");
    assert!(plain.is_empty() || plain == "\n" || plain.trim().is_empty());
}
