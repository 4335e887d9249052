use qingmo::llm::{ApiBackend, MockBackend, PromptTemplate};
use qingmo::models::{LinkTarget, ObjectKind, ObjectLink, RelationKind, WorldObject};

#[test]
fn test_mock_backend_empty_prompt() {
    let backend = MockBackend;
    let result = backend.complete_with(true, "", "http://localhost:11434/api/generate", "0.70", 512, "");
    assert!(result.is_err());
    assert!(result.unwrap_err().contains("提示词为空"));
}

#[test]
fn test_mock_backend_with_prompt() {
    let backend = MockBackend;
    let result = backend.complete_with(
        true,
        "",
        "http://localhost:11434/api/generate",
        "0.70",
        512,
        "写一段开场白",
    );
    assert!(result.is_ok());
    let text = result.unwrap();
    assert!(text.contains("模拟输出"));
}

#[test]
fn test_mock_backend_name() {
    let backend = MockBackend;
    assert_eq!(backend.name(), "模拟模型");
}

#[test]
fn test_api_backend_name() {
    let backend = ApiBackend;
    assert_eq!(backend.name(), "HTTP API");
}

#[test]
fn test_build_dialogue_optimization_prompt_found() {
    let mut app_objs = vec![WorldObject::new("张三", ObjectKind::Character)];
    app_objs[0].description = "热情开朗".to_owned();
    app_objs[0].links.push(ObjectLink {
        target: LinkTarget::Object("李四".to_owned()),
        kind: RelationKind::Friend,
        note: String::new(),
    });

    let ctx = format!(
        "## 人物：{} ({})\n- 特质：{}\n- 关系：{} → {}\n",
        app_objs[0].name,
        app_objs[0].kind.label(),
        app_objs[0].description,
        app_objs[0].links[0].kind.label(),
        app_objs[0].links[0].target.display_name(),
    );
    let prompt = PromptTemplate::DialogueOptimize.fill(&ctx, "\"你好啊！\"");
    assert!(prompt.contains("张三"));
    assert!(prompt.contains("热情开朗"));
    assert!(prompt.contains("友好"));
    assert!(prompt.contains("你好啊"));
}
