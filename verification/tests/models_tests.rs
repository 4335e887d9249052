use qingmo::models::{
    all_node_titles, node_at, node_at_mut, ChapterTag, Foreshadow, LinkTarget, LlmHistory,
    Milestone, ObjectKind, ObjectLink, RelationKind, StructKind, StructNode, WorldObject,
};
use qingmo::date::unix_secs_to_iso_date;
use qingmo::context::build_character_context;

#[test]
fn test_object_kind_labels() {
    assert_eq!(ObjectKind::Character.label(), "人物");
    assert_eq!(ObjectKind::Scene.label(), "场景");
    assert_eq!(ObjectKind::Location.label(), "地点");
    assert_eq!(ObjectKind::Item.label(), "道具");
    assert_eq!(ObjectKind::Faction.label(), "势力");
    assert_eq!(ObjectKind::Other.label(), "其他");
}

#[test]
fn test_world_object_new() {
    let obj = WorldObject::new("张三", ObjectKind::Character);
    assert_eq!(obj.name, "张三");
    assert_eq!(obj.kind, ObjectKind::Character);
    assert!(obj.description.is_empty());
    assert!(obj.links.is_empty());
}

#[test]
fn test_world_object_link() {
    let mut obj = WorldObject::new("张三", ObjectKind::Character);
    obj.links.push(ObjectLink {
        target: LinkTarget::Object("李四".to_owned()),
        kind: RelationKind::Friend,
        note: String::new(),
    });
    assert_eq!(obj.links.len(), 1);
    assert_eq!(obj.links[0].target.display_name(), "李四");
    assert_eq!(obj.links[0].target.type_label(), "对象");
}

#[test]
fn test_world_object_link_to_node() {
    let mut obj = WorldObject::new("古剑", ObjectKind::Item);
    obj.links.push(ObjectLink {
        target: LinkTarget::Node("第一章".to_owned()),
        kind: RelationKind::AppearsIn,
        note: "在山洞中被发现".to_owned(),
    });
    assert_eq!(obj.links[0].target.type_label(), "章节");
    assert_eq!(obj.links[0].note, "在山洞中被发现");
}

#[test]
fn test_struct_kind_labels() {
    assert_eq!(StructKind::Outline.label(), "总纲");
    assert_eq!(StructKind::Volume.label(), "卷");
    assert_eq!(StructKind::Chapter.label(), "章");
    assert_eq!(StructKind::Section.label(), "节");
}

#[test]
fn test_struct_kind_default_child() {
    assert_eq!(StructKind::Outline.default_child_kind(), StructKind::Volume);
    assert_eq!(StructKind::Volume.default_child_kind(), StructKind::Chapter);
    assert_eq!(StructKind::Chapter.default_child_kind(), StructKind::Section);
}

#[test]
fn test_struct_node_new() {
    let n = StructNode::new("第一章", StructKind::Chapter);
    assert_eq!(n.title, "第一章");
    assert_eq!(n.kind, StructKind::Chapter);
    assert!(n.children.is_empty());
    assert!(n.linked_objects.is_empty());
    assert!(!n.done);
}

#[test]
fn test_struct_node_leaf_count() {
    let mut vol = StructNode::new("第一卷", StructKind::Volume);
    vol.children.push(StructNode::new("第一章", StructKind::Chapter));
    vol.children.push(StructNode::new("第二章", StructKind::Chapter));
    assert_eq!(vol.leaf_count(), 2);
}

#[test]
fn test_struct_node_done_count() {
    let mut vol = StructNode::new("第一卷", StructKind::Volume);
    let mut ch1 = StructNode::new("第一章", StructKind::Chapter);
    ch1.done = true;
    vol.children.push(ch1);
    vol.children.push(StructNode::new("第二章", StructKind::Chapter));
    assert_eq!(vol.done_count(), 1);
    assert_eq!(vol.leaf_count(), 2);
}

#[test]
fn test_node_at() {
    let mut roots = vec![StructNode::new("第一卷", StructKind::Volume)];
    roots[0].children.push(StructNode::new("第一章", StructKind::Chapter));
    assert_eq!(node_at(&roots, &[0]).expect("node should exist at [0]").title, "第一卷");
    assert_eq!(node_at(&roots, &[0, 0]).expect("node should exist at [0,0]").title, "第一章");
    assert!(node_at(&roots, &[1]).is_none());
}

#[test]
fn test_node_at_mut() {
    let mut roots = vec![StructNode::new("第一卷", StructKind::Volume)];
    roots[0].children.push(StructNode::new("第一章", StructKind::Chapter));
    node_at_mut(&mut roots, &[0, 0]).expect("node should exist at [0,0]").done = true;
    assert!(roots[0].children[0].done);
}

#[test]
fn test_all_node_titles() {
    let mut roots = vec![StructNode::new("第一卷", StructKind::Volume)];
    roots[0].children.push(StructNode::new("第一章", StructKind::Chapter));
    roots[0].children.push(StructNode::new("第二章", StructKind::Chapter));
    let titles = all_node_titles(&roots);
    assert_eq!(titles, vec!["第一卷", "第一章", "第二章"]);
}

#[test]
fn test_relation_kind_labels() {
    assert_eq!(RelationKind::Friend.label(), "友好");
    assert_eq!(RelationKind::Enemy.label(), "敌对");
    assert_eq!(RelationKind::Family.label(), "亲属");
    assert_eq!(RelationKind::AppearsIn.label(), "出场");
    assert_eq!(RelationKind::Foreshadows.label(), "铺垫");
    assert_eq!(RelationKind::Resolves.label(), "回收");
}

#[test]
fn test_chapter_tag_labels() {
    assert_eq!(ChapterTag::Climax.label(), "高潮");
    assert_eq!(ChapterTag::Foreshadow.label(), "伏笔");
    assert_eq!(ChapterTag::Transition.label(), "过渡");
    assert_eq!(ChapterTag::Normal.label(), "普通");
}

#[test]
fn test_foreshadow_new() {
    let fs = Foreshadow::new("神秘礼物");
    assert_eq!(fs.name, "神秘礼物");
    assert!(!fs.resolved);
    assert!(fs.related_chapters.is_empty());
}

#[test]
fn test_milestone_new() {
    let m = Milestone::new("第一阶段完成");
    assert_eq!(m.name, "第一阶段完成");
    assert!(!m.completed);
    assert!(m.description.is_empty());
}

#[test]
fn test_milestone_completion() {
    let mut m = Milestone::new("MVP");
    assert!(!m.completed);
    m.completed = true;
    assert!(m.completed);
}

#[test]
fn test_build_character_context_empty() {
    let objects: Vec<WorldObject> = vec![];
    let ctx: String = build_character_context(&objects);
    assert!(ctx.is_empty());
}

#[test]
fn test_build_character_context_with_objects() {
    let objects = vec![
        WorldObject::new("主角", ObjectKind::Character),
        WorldObject::new("城堡", ObjectKind::Location),
    ];
    let out = build_character_context(&objects);
    assert!(out.contains("主角"));
    assert!(out.contains("城堡"));
    assert!(out.contains("人物"));
    assert!(out.contains("地点"));
}

#[test]
fn test_unix_secs_to_iso_date_known_dates() {
    assert_eq!(unix_secs_to_iso_date(0), "1970-01-01");
    assert_eq!(unix_secs_to_iso_date(86400), "1970-01-02");
    assert_eq!(unix_secs_to_iso_date(20542 * 86400), "2026-03-30");
    assert_eq!(unix_secs_to_iso_date((10957 + 59) * 86400), "2000-02-29");
}

#[test]
fn test_llm_history_alloc_id_is_monotonic() {
    let mut h = LlmHistory::default();
    assert_eq!(h.alloc_id(), 1);
    assert_eq!(h.alloc_id(), 2);
    assert_eq!(h.alloc_id(), 3);
}
