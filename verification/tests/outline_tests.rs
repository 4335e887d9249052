use qingmo::models::{count_nodes, StructKind};
use qingmo::outline::extract_struct_nodes_from_markdown;

#[test]
fn test_extract_struct_nodes_h1_h2_h3() {
    let md = "# 总纲\n## 第一卷\n### 第一章\n### 第二章\n## 第二卷\n";
    let nodes = extract_struct_nodes_from_markdown(md);
    assert_eq!(nodes.len(), 1);
    assert_eq!(nodes[0].title, "总纲");
    assert_eq!(nodes[0].kind, StructKind::Outline);
    assert_eq!(nodes[0].children.len(), 2);
    assert_eq!(nodes[0].children[0].title, "第一卷");
    assert_eq!(nodes[0].children[0].children.len(), 2);
    assert_eq!(nodes[0].children[0].children[0].title, "第一章");
}

#[test]
fn test_extract_struct_nodes_empty() {
    let nodes = extract_struct_nodes_from_markdown("no headings here");
    assert!(nodes.is_empty());
}

#[test]
fn test_extract_struct_nodes_flat_chapters() {
    let md = "### 序章\n### 第一章\n### 第二章\n";
    let nodes = extract_struct_nodes_from_markdown(md);
    assert_eq!(nodes.len(), 3);
    assert!(nodes.iter().all(|n| n.kind == StructKind::Chapter));
}

#[test]
fn test_count_nodes_empty() {
    assert_eq!(count_nodes(&[]), 0);
}

#[test]
fn test_count_nodes_nested() {
    let md = "# 卷一\n## 第一章\n### 第一节\n## 第二章\n";
    let nodes = extract_struct_nodes_from_markdown(md);
    assert_eq!(count_nodes(&nodes), 4);
}
