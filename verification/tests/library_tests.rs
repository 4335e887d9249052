use qingmo::cli::{
    is_float_literal, needs_stdin, parse_args, parse_u32_text, resolve_prompt, template_from_name,
    BackendKind, CliArgs, build_backend,
};
use qingmo::context::{build_dialogue_optimization_prompt, build_structure_context, nodes_linking_object};
use qingmo::date::{clock_label, is_leap_year};
use qingmo::editing::{insert_indent, pop_undo, push_undo, replace_matches, splice_text, wrap_selection};
use qingmo::files::{
    clean_new_name, collect_line_hits, extension_of_name, extension_of_path, hides_file,
    is_legacy_chapter, is_searchable_file, is_swap_file, legacy_data_files, long_template_chapters,
    opens_in_left_pane, short_template_chapters, sort_file_nodes, stem_of_name, struct_node_for_entry,
    template_chapter_content, text_less, trash_candidate, FileNode,
};
use qingmo::find::{scan_matches_in, FindBar};
use qingmo::foreshadows::{foreshadows_from_md, foreshadows_to_md};
use qingmo::history::{append_block, delete_history_entry, filter_history, inject_context, prompt_preview};
use qingmo::llm::{ApiBackend, MockBackend, PromptTemplate};
use qingmo::models::{
    Foreshadow, LinkTarget, LlmHistory, LlmHistoryEntry, ObjectKind, RelationKind, StructKind,
    StructNode, WorldObject,
};
use qingmo::objects::{add_link, add_object, move_object, remove_object, visible_objects};
use qingmo::session::{add_word_gain, default_milestones, should_autosave, status_tone, StatusTone};
use std::collections::VecDeque;

fn strs(v: &[&str]) -> Vec<String> {
    v.iter().map(|s| s.to_string()).collect()
}

// ── Foreshadow file ──────────────────────────────────────────────────────────

#[test]
fn foreshadows_written_block_format() {
    let mut f = Foreshadow::new("神秘信件");
    f.resolved = true;
    f.description = "某内容".to_owned();
    f.related_chapters = vec!["第一章".to_owned(), "第三章".to_owned()];
    let md = foreshadows_to_md(&[f]);
    assert_eq!(
        md,
        "# 伏笔列表\n\n## 神秘信件 ✅ 已解决\n\n某内容\n\n**关联章节**: 第一章、第三章\n\n"
    );
    assert_eq!(foreshadows_to_md(&[]), "# 伏笔列表\n\n");
}

#[test]
fn foreshadows_read_from_markdown_headings() {
    let md = "# 伏笔列表\n\n## 神秘信件 ✅ 已解决\n\n某内容\n\n## 古剑来历 ⏳ 未解决\n\n";
    let fs = foreshadows_from_md(md);
    assert_eq!(fs.len(), 2);
    assert_eq!(fs[0].name, "神秘信件");
    assert!(fs[0].resolved);
    assert_eq!(fs[1].name, "古剑来历");
    assert!(!fs[1].resolved);
}

#[test]
fn foreshadows_round_trip_names_and_status() {
    let mut a = Foreshadow::new("古剑来历");
    a.description = "第二行\n不是标题".to_owned();
    let mut b = Foreshadow::new("神秘信件");
    b.resolved = true;
    b.related_chapters = vec!["序章".to_owned()];
    let back = foreshadows_from_md(&foreshadows_to_md(&[a, b]));
    assert_eq!(back.len(), 2);
    assert_eq!(back[0].name, "古剑来历");
    assert!(!back[0].resolved);
    assert_eq!(back[1].name, "神秘信件");
    assert!(back[1].resolved);
    assert!(back[1].description.is_empty());
}

#[test]
fn foreshadows_heading_without_name_is_skipped() {
    let fs = foreshadows_from_md("## ✅ 已解决\n## \n#### 不是\n## 名字\r\n");
    assert_eq!(fs.len(), 1);
    assert_eq!(fs[0].name, "名字");
}

// ── Paths and files ──────────────────────────────────────────────────────────

#[test]
fn file_name_extension_rules() {
    assert_eq!(extension_of_name("a.tar.gz").as_deref(), Some("gz"));
    assert_eq!(extension_of_name(".bashrc"), None);
    assert_eq!(extension_of_name("a.").as_deref(), Some(""));
    assert_eq!(extension_of_name("noext"), None);
    assert_eq!(extension_of_name(".."), None);
    assert_eq!(stem_of_name("a.tar.gz"), "a.tar");
    assert_eq!(stem_of_name(".bashrc"), ".bashrc");
    assert_eq!(stem_of_name("第一章.md"), "第一章");
    assert_eq!(extension_of_path("chapters/第一章.md").as_deref(), Some("md"));
    assert_eq!(extension_of_path("chapters/卷一/"), None);
}

#[test]
fn file_kinds_by_extension() {
    assert!(hides_file("data/world.json", true));
    assert!(!hides_file("data/world.json", false));
    assert!(!hides_file("chapters/a.md", true));
    assert!(is_swap_file("chapters/ch1.swp"));
    assert!(!is_swap_file("chapters/ch1.md"));
    assert!(is_searchable_file("a.md"));
    assert!(is_searchable_file("b.json"));
    assert!(!is_searchable_file("c.txt"));
    assert!(opens_in_left_pane("x.md"));
    assert!(!opens_in_left_pane("x.json"));
}

#[test]
fn trash_names_count_up() {
    assert_eq!(trash_candidate("chapter.md", 0), "chapter.md");
    assert_eq!(trash_candidate("chapter.md", 1), "chapter_1.md");
    assert_eq!(trash_candidate("chapter.md", 12), "chapter_12.md");
    assert_eq!(trash_candidate("notes", 2), "notes_2");
}

#[test]
fn rename_names_are_trimmed() {
    assert_eq!(clean_new_name("  新名字.md \n").as_deref(), Some("新名字.md"));
    assert_eq!(clean_new_name("   "), None);
}

#[test]
fn legacy_layout_rules() {
    assert!(is_legacy_chapter("Content/ch1.md"));
    assert!(!is_legacy_chapter("Content/伏笔.md"));
    assert!(!is_legacy_chapter("Content/notes.txt"));
    let table = legacy_data_files();
    assert_eq!(table.len(), 4);
    assert_eq!(table[0], ("世界对象.json", "world.json"));
    assert_eq!(table[1], ("章节结构.json", "structure.json"));
}

#[test]
fn template_tables_and_content() {
    assert_eq!(short_template_chapters(), &["序章.md", "第一章.md", "第二章.md", "第三章.md", "尾声.md"]);
    assert_eq!(long_template_chapters(0), &["序章.md", "第一章.md", "第二章.md"]);
    assert_eq!(long_template_chapters(1), &["第一章.md", "第二章.md", "第三章.md"]);
    assert_eq!(template_chapter_content("序章.md"), "# 序章\n\n");
}

#[test]
fn folder_entries_become_structure_nodes() {
    let vol = struct_node_for_entry("chapters/第一卷", true).unwrap();
    assert_eq!(vol.title, "第一卷");
    assert_eq!(vol.kind, StructKind::Volume);
    let ch = struct_node_for_entry("chapters/第一卷/第一章.md", false).unwrap();
    assert_eq!(ch.title, "第一章");
    assert_eq!(ch.kind, StructKind::Chapter);
    assert!(struct_node_for_entry("chapters/notes.txt", false).is_none());
}

fn node(name: &str, is_dir: bool) -> FileNode {
    FileNode { name: name.to_owned(), path: name.to_owned(), is_dir, expanded: is_dir, children: vec![] }
}

#[test]
fn file_tree_sorts_directories_first_then_names() {
    let mut v = vec![node("b.md", false), node("z", true), node("a.md", false), node("c", true), node("第一章.md", false)];
    sort_file_nodes(&mut v);
    let names: Vec<String> = v.iter().map(|n| n.name.clone()).collect();
    assert_eq!(names, vec!["c", "z", "a.md", "b.md", "第一章.md"]);
    let again: Vec<String> = {
        let mut w = v;
        sort_file_nodes(&mut w);
        w.iter().map(|n| n.name.clone()).collect()
    };
    assert_eq!(again, vec!["c", "z", "a.md", "b.md", "第一章.md"]);
    assert!(text_less("a", "ab"));
    assert!(!text_less("b", "ab"));
    assert!(!text_less("x", "x"));
}

#[test]
fn search_hits_have_one_based_line_numbers() {
    let mut results = Vec::new();
    collect_line_hits("ch.md", "line one\nline two\nfind me\nline four", "find me", &mut results);
    assert_eq!(results.len(), 1);
    assert_eq!(results[0].line_no, 3);
    assert_eq!(results[0].line, "find me");
    assert_eq!(results[0].file_path, "ch.md");
    collect_line_hits("b.md", "主角\r\n配角\n主角笔记", "主角", &mut results);
    assert_eq!(results.len(), 3);
    assert_eq!(results[1].line, "主角");
    assert_eq!(results[2].line_no, 3);
}

// ── Editing ──────────────────────────────────────────────────────────────────

#[test]
fn wrapping_selections_in_markers() {
    let (t, c) = wrap_selection("你好世界", 0, 2, true);
    assert_eq!(t, "**你好**世界");
    assert_eq!(c, 6);
    let (t, c) = wrap_selection("你好世界", 4, 2, false);
    assert_eq!(t, "你好*世界*");
    assert_eq!(c, 6);
    let (t, c) = wrap_selection("ab", 1, 1, true);
    assert_eq!(t, "a**粗体**b");
    assert_eq!(c, 7);
    let (t, _) = wrap_selection("ab", 2, 2, false);
    assert_eq!(t, "ab*斜体*");
}

#[test]
fn indent_replaces_selection_with_spaces() {
    let (t, c) = insert_indent("abcd", 1, 3, 4);
    assert_eq!(t, "a    d");
    assert_eq!(c, 5);
    assert_eq!(splice_text("章节内容", 2, 2, "新"), "章节新内容");
}

#[test]
fn replacing_all_matches_from_the_back() {
    let ranges = scan_matches_in("猫和猫和狗", "猫和猫和狗", "猫").unwrap();
    assert_eq!(ranges.len(), 2);
    assert_eq!(replace_matches("猫和猫和狗", &ranges, "虎"), "虎和虎和狗");
    assert_eq!(replace_matches("abc", &[], "x"), "abc");
}

#[test]
fn undo_history_is_bounded_and_restores() {
    let mut stack: VecDeque<String> = VecDeque::new();
    for i in 0..205 {
        push_undo(&mut stack, format!("v{i}"));
    }
    assert_eq!(stack.len(), 200);
    assert_eq!(stack.front().unwrap(), "v5");
    assert_eq!(pop_undo(&mut stack).as_deref(), Some("v204"));
    let mut small: VecDeque<String> = VecDeque::new();
    push_undo(&mut small, "a".to_owned());
    assert_eq!(pop_undo(&mut small).as_deref(), Some("a"));
    assert!(small.is_empty());
    assert_eq!(pop_undo(&mut small), None);
}

#[test]
fn find_bar_case_insensitive_and_wrapping() {
    let mut bar = FindBar::new(false);
    bar.query = "HELLO".to_owned();
    bar.refresh_matches("hello Hello world");
    assert_eq!(bar.match_ranges.len(), 2);
    assert_eq!(bar.match_ranges[1].char_start, 6);
    bar.go_next();
    assert_eq!(bar.current_match, 1);
    bar.go_next();
    assert_eq!(bar.current_match, 0);
    bar.go_prev();
    assert_eq!(bar.current_match, 1);
    bar.case_sensitive = true;
    bar.refresh_matches("hello Hello world");
    assert_eq!(bar.match_ranges.len(), 0);
}

#[test]
fn find_bar_counts_chars_of_the_content() {
    // 'ẞ' takes three bytes and its lowercase 'ß' two: the match found at
    // byte 3 of the lowercase copy is placed at char 1 of the content.
    let mut bar = FindBar::new(false);
    bar.query = "b".to_owned();
    assert!(bar.try_refresh_matches("ẞab"));
    assert_eq!(bar.match_ranges.len(), 1);
    assert_eq!(bar.match_ranges[0].byte_start, 3);
    assert_eq!(bar.match_ranges[0].byte_end, 4);
    assert_eq!(bar.match_ranges[0].char_start, 1);
    assert_eq!(bar.match_ranges[0].char_end, 2);
}

#[test]
fn find_bar_refuses_offsets_inside_a_character() {
    // In "ẞẞb" the lowercase copy "ßßb" has 'b' at byte 4, inside the second
    // 'ẞ' of the content: nothing is refreshed.
    let mut bar = FindBar::new(false);
    bar.query = "b".to_owned();
    bar.current_match = 3;
    assert!(!bar.try_refresh_matches("ẞẞb"));
    assert_eq!(bar.current_match, 3);
    assert!(bar.cached_lower.is_none());
    assert!(bar.match_ranges.is_empty());
}

#[test]
fn find_bar_next_with_no_matches_or_large_index() {
    let mut bar = FindBar::new(false);
    bar.current_match = usize::MAX;
    bar.go_next();
    assert_eq!(bar.current_match, usize::MAX);
    bar.query = "a".to_owned();
    bar.refresh_matches("aaa");
    bar.current_match = 7;
    bar.go_next();
    assert_eq!(bar.current_match, 2);
}

// ── World objects ────────────────────────────────────────────────────────────

fn names(v: &[WorldObject]) -> Vec<String> {
    v.iter().map(|o| o.name.clone()).collect()
}

#[test]
fn moving_objects_keeps_the_selection() {
    let mut v = vec![
        WorldObject::new("a", ObjectKind::Character),
        WorldObject::new("b", ObjectKind::Item),
        WorldObject::new("c", ObjectKind::Location),
    ];
    let sel = move_object(&mut v, 0, 2, Some(1));
    assert_eq!(names(&v), vec!["b", "c", "a"]);
    assert_eq!(sel, Some(0));
    let sel = move_object(&mut v, 2, 0, Some(2));
    assert_eq!(names(&v), vec!["a", "b", "c"]);
    assert_eq!(sel, Some(0));
    let sel = move_object(&mut v, 5, 0, Some(1));
    assert_eq!(names(&v), vec!["a", "b", "c"]);
    assert_eq!(sel, Some(1));
    let sel = remove_object(&mut v, 0, Some(2));
    assert_eq!(names(&v), vec!["b", "c"]);
    assert_eq!(sel, Some(1));
    assert_eq!(remove_object(&mut v, 1, Some(1)), None);
}

#[test]
fn adding_objects_and_links() {
    let mut v: Vec<WorldObject> = Vec::new();
    assert_eq!(add_object(&mut v, "   ", ObjectKind::Character), None);
    assert_eq!(add_object(&mut v, "  林枫 ", ObjectKind::Character), Some(0));
    assert_eq!(v[0].name, "林枫");
    add_link(&mut v[0], " 第一章 ", true, RelationKind::AppearsIn, " 初登场 ");
    assert_eq!(v[0].links[0].target.display_name(), "第一章");
    assert_eq!(v[0].links[0].target.type_label(), "章节");
    assert_eq!(v[0].links[0].note, "初登场");
    assert!(matches!(v[0].links[0].target, LinkTarget::Node(_)));
    v.push(WorldObject::new("灵剑", ObjectKind::Item));
    assert_eq!(visible_objects(&v, Some(ObjectKind::Item)), vec![1]);
    assert_eq!(visible_objects(&v, None), vec![0, 1]);
}

// ── Context blocks ───────────────────────────────────────────────────────────

#[test]
fn structure_context_lists_the_tree() {
    let mut vol = StructNode::new("第一卷", StructKind::Volume);
    let mut ch = StructNode::new("第一章", StructKind::Chapter);
    ch.done = true;
    ch.summary = "开端".to_owned();
    ch.linked_objects.push("主角".to_owned());
    vol.children.push(ch);
    let roots = vec![vol];
    assert_eq!(
        build_structure_context(&roots),
        "## 章节结构\n\n- ⏳ **第一卷** (卷)\n  - ✅ **第一章** (章)\n    > 开端\n"
    );
    assert_eq!(build_structure_context(&[]), "");
    assert_eq!(nodes_linking_object(&roots, "主角"), vec!["第一章"]);
    assert!(nodes_linking_object(&roots, "配角").is_empty());
}

#[test]
fn dialogue_prompt_uses_the_profile() {
    let mut objs = vec![WorldObject::new("张三", ObjectKind::Character)];
    objs[0].description = "热情开朗".to_owned();
    let p = build_dialogue_optimization_prompt(&objs, "张三", "你好").unwrap();
    assert!(p.starts_with("## 人物：张三 (人物)\n- 特质：热情开朗"));
    assert!(p.ends_with("你好"));
    assert!(build_dialogue_optimization_prompt(&objs, "李四", "你好").is_none());
}

// ── LLM prompts and backends ─────────────────────────────────────────────────

#[test]
fn template_fill_layout() {
    let p = PromptTemplate::Continuation.fill("  背景  ", "输入");
    assert_eq!(p, format!("背景\n\n{}\n\n输入", PromptTemplate::Continuation.instruction()));
    let q = PromptTemplate::Expansion.fill("   ", "输入");
    assert_eq!(q, format!("{}\n\n输入", PromptTemplate::Expansion.instruction()));
    assert_eq!(PromptTemplate::all().len(), 8);
}

#[test]
fn api_backend_endpoint_and_model() {
    assert!(ApiBackend::uses_ollama("http://localhost:11434/api/generate"));
    assert!(ApiBackend::uses_ollama("http://localhost:11434/api/generate//"));
    assert!(!ApiBackend::uses_ollama("http://myserver/v1/chat/completions"));
    assert_eq!(ApiBackend::model_name("  phi2 "), "phi2");
    assert_eq!(ApiBackend::model_name("   "), "llama2");
}

#[test]
fn mock_backend_exact_response() {
    let r = MockBackend.complete_with(false, "m", "http://x", "0.70", 512, "开场").unwrap();
    assert_eq!(
        r,
        "【模拟输出 – 请配置真实模型】\n\n根据您的提示「开场…」，这里将显示模型生成的文本。\n\n当前配置:\n- API: http://x\n- 温度: 0.70\n- 最大Token: 512"
    );
    let long: String = "字".repeat(40);
    let r = MockBackend.complete_with(true, "model.gguf", "u", "1.00", 7, &long).unwrap();
    assert!(r.contains(&format!("「{}…」", "字".repeat(30))));
    assert!(r.contains("- 本地模型: model.gguf"));
}

// ── Command line ─────────────────────────────────────────────────────────────

#[test]
fn float_literal_grammar() {
    for ok in ["0.5", "1e5", ".5", "5.", "-2.5E-3", "+7", "inf", "-Infinity", "NaN"] {
        assert!(is_float_literal(ok), "{ok} should be accepted");
    }
    for bad in ["", ".", "e5", "1e", "1e+", "abc", "1.2.3", " 1", "infin"] {
        assert!(!is_float_literal(bad), "{bad} should be refused");
    }
}

#[test]
fn u32_text_parsing() {
    assert_eq!(parse_u32_text("256"), Some(256));
    assert_eq!(parse_u32_text("+7"), Some(7));
    assert_eq!(parse_u32_text("4294967295"), Some(4294967295));
    assert_eq!(parse_u32_text("4294967296"), None);
    assert_eq!(parse_u32_text("-1"), None);
    assert_eq!(parse_u32_text(""), None);
    assert_eq!(parse_u32_text("+"), None);
    assert_eq!(parse_u32_text("12a"), None);
}

#[test]
fn cli_error_messages() {
    assert_eq!(parse_args(&strs(&["--prompt"])).unwrap_err(), "参数 --prompt 需要一个值");
    assert_eq!(parse_args(&strs(&["-p"])).unwrap_err(), "参数 --prompt 需要一个值");
    assert_eq!(parse_args(&strs(&["--max-tokens"])).unwrap_err(), "参数 --tokens 需要一个值");
    assert_eq!(parse_args(&strs(&["-x"])).unwrap_err(), "未知参数: -x，使用 --help 查看帮助");
    assert_eq!(
        parse_args(&strs(&["--temperature", "abc"])).unwrap_err(),
        "--temperature: 无效的浮点数 \"abc\""
    );
    assert_eq!(
        parse_args(&strs(&["--tokens", "x1"])).unwrap_err(),
        "--tokens: 无效的整数 \"x1\""
    );
    assert_eq!(
        template_from_name("bogus").unwrap_err(),
        "未知模板 \"bogus\"。可用: continuation, expansion, dialogue, character, scene, twist, ending, outline"
    );
    let mut args = CliArgs::default();
    args.backend = "GPU".to_owned();
    assert_eq!(build_backend(&args).unwrap_err(), "未知后端 \"gpu\"。可用: mock, api, local");
    args.backend = "LLAMA".to_owned();
    assert_eq!(build_backend(&args), Ok(BackendKind::LocalServer));
}

#[test]
fn cli_help_stops_reading() {
    let args = parse_args(&strs(&["-p", "x", "--help", "--bogus"])).unwrap();
    assert!(args.help);
    assert_eq!(args.prompt.as_deref(), Some("x"));
    let args = parse_args(&strs(&["--url", "u", "--system", "s", "-i", "in"])).unwrap();
    assert!(!args.help);
    assert_eq!(args.url.as_deref(), Some("u"));
}

#[test]
fn cli_prompt_from_stdin() {
    let args = CliArgs::default();
    assert!(needs_stdin(&args));
    assert_eq!(resolve_prompt(&args, "  你好 \n").unwrap(), "你好");
    assert_eq!(
        resolve_prompt(&args, "   ").unwrap_err(),
        "提示词为空，请通过 --prompt 或 stdin 提供输入"
    );
    let mut with_ctx = CliArgs::default();
    with_ctx.context = Some(" 背景 ".to_owned());
    assert_eq!(resolve_prompt(&with_ctx, " 正文 ").unwrap(), "背景\n\n正文");
    with_ctx.prompt = Some(" 提示 ".to_owned());
    assert!(!needs_stdin(&with_ctx));
    assert_eq!(resolve_prompt(&with_ctx, "").unwrap(), "背景\n\n提示");
    let mut empty_input = CliArgs::default();
    empty_input.template = Some("scene".to_owned());
    empty_input.input = Some(String::new());
    empty_input.prompt = Some("有提示".to_owned());
    assert!(resolve_prompt(&empty_input, "").is_err());
}

// ── History ──────────────────────────────────────────────────────────────────

fn entry(id: u64, prompt: &str, response: &str) -> LlmHistoryEntry {
    LlmHistoryEntry {
        id,
        timestamp: 0,
        session_key: "2026-01-01".to_owned(),
        prompt: prompt.to_owned(),
        response: response.to_owned(),
        model: "mock".to_owned(),
    }
}

#[test]
fn history_filter_is_case_insensitive_and_newest_first() {
    let entries = vec![entry(1, "Hello", "a"), entry(2, "x", "y"), entry(3, "z", "hello there")];
    assert_eq!(filter_history(&entries, "HELLO"), vec![2, 0]);
    assert_eq!(filter_history(&entries, ""), vec![2, 1, 0]);
    assert!(filter_history(&entries, "nothing").is_empty());
}

#[test]
fn history_preview_and_delete() {
    assert_eq!(prompt_preview("短"), "短");
    let long = "字".repeat(61);
    assert_eq!(prompt_preview(&long), format!("{}…", "字".repeat(60)));
    assert_eq!(prompt_preview(&"字".repeat(60)), "字".repeat(60));
    let mut h = LlmHistory::default();
    h.entries = vec![entry(1, "a", "b"), entry(2, "c", "d")];
    assert_eq!(delete_history_entry(&mut h, 0, Some(0)), None);
    assert_eq!(h.entries.len(), 1);
    assert_eq!(delete_history_entry(&mut h, 5, Some(0)), Some(0));
    assert_eq!(h.entries.len(), 1);
}

#[test]
fn appending_blocks() {
    let mut s = "正文".to_owned();
    append_block(&mut s, "AI");
    assert_eq!(s, "正文\n\nAI");
    let mut p = "提示".to_owned();
    assert!(!inject_context(&mut p, ""));
    assert_eq!(p, "提示");
    assert!(inject_context(&mut p, "## 世界对象"));
    assert_eq!(p, "提示\n\n## 世界对象");
}

// ── Session ──────────────────────────────────────────────────────────────────

#[test]
fn session_rules() {
    assert_eq!(status_tone("保存失败: x"), StatusTone::Error);
    assert_eq!(status_tone("已保存: a.md"), StatusTone::Success);
    assert_eq!(status_tone("已移入废稿: a.md"), StatusTone::Success);
    assert_eq!(status_tone("欢迎使用清墨"), StatusTone::Neutral);
    assert!(!should_autosave(0, Some(100)));
    assert!(!should_autosave(60, None));
    assert!(!should_autosave(60, Some(59)));
    assert!(should_autosave(60, Some(60)));
    assert_eq!(add_word_gain(10, 100, 150), 60);
    assert_eq!(add_word_gain(10, 150, 100), 10);
    assert_eq!(default_milestones().len(), 7);
    assert_eq!(clock_label(3661), "01:01:01");
    assert_eq!(clock_label(86399), "23:59:59");
    assert_eq!(clock_label(86400 + 5), "00:00:05");
    assert!(is_leap_year(2000));
    assert!(!is_leap_year(1900));
    assert!(is_leap_year(2024));
}
