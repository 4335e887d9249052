use qingmo::cli::{build_backend, parse_args, parse_template, resolve_prompt, BackendKind, CliArgs};
use qingmo::llm::MockBackend;

fn strs(v: &[&str]) -> Vec<String> {
    v.iter().map(|s| s.to_string()).collect()
}

#[test]
fn test_parse_args_defaults() {
    let args = parse_args(&[]).unwrap();
    assert_eq!(args.backend, "mock");
    assert!(args.prompt.is_none());
    assert!(args.template.is_none());
}

#[test]
fn test_parse_args_prompt_and_backend() {
    let args = parse_args(&strs(&["--prompt", "你好", "--backend", "api"])).unwrap();
    assert_eq!(args.prompt.as_deref(), Some("你好"));
    assert_eq!(args.backend, "api");
}

#[test]
fn test_parse_args_short_flags() {
    let args = parse_args(&strs(&["-p", "测试", "-b", "local", "-m", "llama2"])).unwrap();
    assert_eq!(args.prompt.as_deref(), Some("测试"));
    assert_eq!(args.backend, "local");
    assert_eq!(args.model.as_deref(), Some("llama2"));
}

#[test]
fn test_parse_args_temperature_and_tokens() {
    let args = parse_args(&strs(&["--temperature", "0.5", "--tokens", "256"])).unwrap();
    let t: f32 = args.temperature.as_deref().unwrap().parse().unwrap();
    assert!((t - 0.5).abs() < 1e-6);
    assert_eq!(args.max_tokens, Some(256));
}

#[test]
fn test_parse_args_template() {
    let args = parse_args(&strs(&["--template", "continuation", "--input", "片段"])).unwrap();
    assert_eq!(args.template.as_deref(), Some("continuation"));
    assert_eq!(args.input.as_deref(), Some("片段"));
}

#[test]
fn test_parse_args_context_and_system() {
    let args = parse_args(&strs(&["-c", "人物背景", "-s", "你是写手"])).unwrap();
    assert_eq!(args.context.as_deref(), Some("人物背景"));
    assert_eq!(args.system_prompt.as_deref(), Some("你是写手"));
}

#[test]
fn test_parse_args_unknown_flag() {
    let result = parse_args(&strs(&["--unknown"]));
    assert!(result.is_err());
    assert!(result.unwrap_err().contains("--unknown"));
}

#[test]
fn test_parse_args_missing_value() {
    let result = parse_args(&strs(&["--prompt"]));
    assert!(result.is_err());
}

#[test]
fn test_parse_args_invalid_temperature() {
    let result = parse_args(&strs(&["--temperature", "abc"]));
    assert!(result.is_err());
}

#[test]
fn test_parse_args_invalid_tokens() {
    let result = parse_args(&strs(&["--tokens", "not_a_number"]));
    assert!(result.is_err());
}

#[test]
fn test_resolve_prompt_direct() {
    let mut args = CliArgs::default();
    args.prompt = Some("直接提示词".to_owned());
    let p = resolve_prompt(&args, "").unwrap();
    assert_eq!(p, "直接提示词");
}

#[test]
fn test_resolve_prompt_with_context() {
    let mut args = CliArgs::default();
    args.prompt = Some("请续写".to_owned());
    args.context = Some("人物：李明".to_owned());
    let p = resolve_prompt(&args, "").unwrap();
    assert!(p.contains("人物：李明"));
    assert!(p.contains("请续写"));
}

#[test]
fn test_resolve_prompt_template_continuation() {
    let mut args = CliArgs::default();
    args.template = Some("continuation".to_owned());
    args.input = Some("主角走进了森林。".to_owned());
    let p = resolve_prompt(&args, "").unwrap();
    assert!(p.contains("续写"));
    assert!(p.contains("主角走进了森林。"));
}

#[test]
fn test_resolve_prompt_template_with_context() {
    let mut args = CliArgs::default();
    args.template = Some("expansion".to_owned());
    args.input = Some("夜晚，月光如水。".to_owned());
    args.context = Some("场景：古代江南".to_owned());
    let p = resolve_prompt(&args, "").unwrap();
    assert!(p.contains("扩写"));
    assert!(p.contains("江南"));
    assert!(p.contains("夜晚，月光如水。"));
}

#[test]
fn test_resolve_prompt_template_missing_input() {
    let mut args = CliArgs::default();
    args.template = Some("twist".to_owned());
    let result = resolve_prompt(&args, "");
    assert!(result.is_err());
    assert!(result.unwrap_err().contains("--input"));
}

#[test]
fn test_resolve_prompt_template_uses_prompt_as_input() {
    let mut args = CliArgs::default();
    args.template = Some("outline".to_owned());
    args.prompt = Some("一个少年踏上旅途。".to_owned());
    let p = resolve_prompt(&args, "").unwrap();
    assert!(p.contains("大纲"));
    assert!(p.contains("一个少年踏上旅途。"));
}

#[test]
fn test_parse_template_all_english_names() {
    let names = ["continuation", "expansion", "dialogue", "character", "scene", "twist", "ending", "outline"];
    for name in names {
        assert!(parse_template(name).is_ok(), "template '{}' should be valid", name);
    }
}

#[test]
fn test_parse_template_all_chinese_names() {
    let names = ["续写", "扩写", "对话", "人物", "场景", "转折", "结尾", "大纲"];
    for name in names {
        assert!(parse_template(name).is_ok(), "template '{}' should be valid", name);
    }
}

#[test]
fn test_parse_template_case_insensitive() {
    assert!(parse_template("Continuation").is_ok());
    assert!(parse_template("EXPANSION").is_ok());
}

#[test]
fn test_parse_template_unknown() {
    let result = parse_template("nonexistent");
    assert!(result.is_err());
    assert!(result.unwrap_err().contains("nonexistent"));
}

#[test]
fn test_build_backend_mock() {
    let mut args = CliArgs::default();
    args.backend = "mock".to_owned();
    assert!(build_backend(&args).is_ok());
}

#[test]
fn test_build_backend_api() {
    let mut args = CliArgs::default();
    args.backend = "api".to_owned();
    assert!(build_backend(&args).is_ok());
}

#[test]
fn test_build_backend_local() {
    let mut args = CliArgs::default();
    args.backend = "local".to_owned();
    assert!(build_backend(&args).is_ok());
}

#[test]
fn test_build_backend_unknown() {
    let mut args = CliArgs::default();
    args.backend = "unknownbackend".to_owned();
    let result = build_backend(&args);
    assert!(result.is_err());
}

#[test]
fn test_cli_mock_end_to_end() {
    let args = parse_args(&strs(&["--prompt", "写一段开场白", "--backend", "mock"])).unwrap();
    let prompt = resolve_prompt(&args, "").unwrap();
    assert_eq!(build_backend(&args).unwrap(), BackendKind::Mock);
    let result = MockBackend.complete_with(
        false,
        "",
        "http://localhost:11434/api/generate",
        "0.70",
        512,
        &prompt,
    );
    assert!(result.is_ok());
    assert!(result.unwrap().contains("模拟输出"));
}
