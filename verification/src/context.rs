//! Context blocks that the LLM panel puts into prompts: the world objects,
//! the chapter structure, and a character's profile for dialogue polishing.
use vstd::prelude::*;
use vstd::string::StringExecFns;
use crate::llm::{template_prompt, PromptTemplate};
use crate::models::{
    lemma_list_view, lemma_views_take, list_view, object_kind_label, relation_kind_label,
    struct_kind_label, text_views, LinkTarget, ObjectLink, StructNode, StructNodeView, WorldObject,
};
use crate::text::{chars_of, join_with, opt_text, str_eq_chars};

verus! {

// ── Links ────────────────────────────────────────────────────────────────────

/// The name or title a link points to.
pub open spec fn target_name(t: LinkTarget) -> Seq<char> {
    match t {
        LinkTarget::Object(n) => n@,
        LinkTarget::Node(n) => n@,
    }
}

/// A link as `<relation> → <target>`.
pub open spec fn link_text(l: ObjectLink) -> Seq<char> {
    relation_kind_label(l.kind) + " → "@ + target_name(l.target)
}

/// The links of an object written out and joined with `sep`.
pub open spec fn links_text(links: Seq<ObjectLink>, sep: Seq<char>) -> Seq<char> {
    join_with(links.map_values(|l: ObjectLink| link_text(l)), sep)
}

/// Write the links joined with `sep`.
fn write_links(out: &mut String, links: &Vec<ObjectLink>, sep: &str)
    ensures
        final(out)@ == old(out)@ + links_text(links@, sep@),
{
    let ghost texts = links@.map_values(|l: ObjectLink| link_text(l));
    let mut i: usize = 0;
    assert(texts.take(0) =~= Seq::<Seq<char>>::empty());
    assert(old(out)@ + Seq::<char>::empty() =~= old(out)@);
    while i < links.len()
        invariant
            i <= links.len(),
            texts == links@.map_values(|l: ObjectLink| link_text(l)),
            out@ == old(out)@ + join_with(texts.take(i as int), sep@),
        decreases links.len() - i,
    {
        let l = &links[i];
        let ghost before = out@;
        if i > 0 {
            out.append(sep);
        }
        out.append(l.kind.label());
        out.append(" → ");
        out.append(l.target.display_name());
        proof {
            assert(texts.take(i + 1).drop_last() =~= texts.take(i as int));
            assert(texts.take(i + 1).last() == link_text(*l));
            if i == 0 {
                assert(texts.take(1) =~= seq![link_text(*l)]);
                reveal_strlit("");
            }
            assert(out@ =~= old(out)@ + join_with(texts.take(i + 1), sep@));
        }
        i += 1;
    }
    assert(texts.take(links.len() as int) =~= texts);
}

// ── World objects ────────────────────────────────────────────────────────────

/// The line of one world object: name, kind, description and links.
pub open spec fn object_line(o: WorldObject) -> Seq<char> {
    "- **"@ + o.name@ + "** ("@ + object_kind_label(o.kind) + ")"@ + (if o.description@.len() == 0 {
        Seq::<char>::empty()
    } else {
        ": "@ + o.description@
    }) + (if o.links@.len() == 0 {
        Seq::<char>::empty()
    } else {
        "  [关联: "@ + links_text(o.links@, ", "@) + "]"@
    }) + "\n"@
}

/// The lines of all objects.
pub open spec fn object_lines(objs: Seq<WorldObject>) -> Seq<char>
    decreases objs.len(),
{
    if objs.len() == 0 {
        Seq::<char>::empty()
    } else {
        object_lines(objs.drop_last()) + object_line(objs.last())
    }
}

/// The world-object context block: a heading and one line per object, or
/// nothing when there are no objects.
pub open spec fn character_context(objs: Seq<WorldObject>) -> Seq<char> {
    if objs.len() == 0 {
        Seq::<char>::empty()
    } else {
        "## 世界对象\n\n"@ + object_lines(objs)
    }
}

/// An object with a description shows it in its context line, right after
/// its kind: the line begins `- **name** (kind): description`.
pub proof fn lemma_object_line_shows_description(o: WorldObject)
    requires
        o.description@.len() > 0,
    ensures
        ({
            let head = "- **"@ + o.name@ + "** ("@ + object_kind_label(o.kind) + "): "@
                + o.description@;
            &&& head.len() <= object_line(o).len()
            &&& object_line(o).take(head.len() as int) == head
        }),
{
    reveal_strlit(")");
    reveal_strlit(": ");
    reveal_strlit("): ");
    let front = "- **"@ + o.name@ + "** ("@ + object_kind_label(o.kind);
    let head = front + "): "@ + o.description@;
    let tail = (if o.links@.len() == 0 {
        Seq::<char>::empty()
    } else {
        "  [关联: "@ + links_text(o.links@, ", "@) + "]"@
    }) + "\n"@;
    assert(front + ")"@ + (": "@ + o.description@) =~= head);
    assert(object_line(o) =~= head + tail);
    assert((head + tail).take(head.len() as int) =~= head);
}

/// The lines of two lists of objects, one after the other.
proof fn lemma_object_lines_concat(a: Seq<WorldObject>, b: Seq<WorldObject>)
    ensures
        object_lines(a + b) == object_lines(a) + object_lines(b),
    decreases b.len(),
{
    if b.len() == 0 {
        assert(a + b =~= a);
        assert(object_lines(a) + Seq::<char>::empty() =~= object_lines(a));
    } else {
        lemma_object_lines_concat(a, b.drop_last());
        assert((a + b).drop_last() =~= a + b.drop_last());
        assert((a + b).last() == b.last());
        assert(object_lines(a) + object_lines(b.drop_last()) + object_line(b.last())
            =~= object_lines(a) + (object_lines(b.drop_last()) + object_line(b.last())));
    }
}

/// The world-object context block holds the line of every object.
pub proof fn lemma_context_has_every_object(objs: Seq<WorldObject>, i: int)
    requires
        0 <= i < objs.len(),
    ensures
        exists|p: int|
            0 <= p && p + object_line(objs[i]).len() <= character_context(objs).len()
                && #[trigger] character_context(objs).subrange(p, p + object_line(objs[i]).len())
                == object_line(objs[i]),
{
    let before = objs.take(i);
    let after = objs.skip(i + 1);
    assert(objs =~= before + seq![objs[i]] + after);
    lemma_object_lines_concat(before + seq![objs[i]], after);
    lemma_object_lines_concat(before, seq![objs[i]]);
    assert(seq![objs[i]].drop_last() =~= Seq::<WorldObject>::empty());
    assert(seq![objs[i]].last() == objs[i]);
    assert(object_lines(Seq::<WorldObject>::empty()) =~= Seq::<char>::empty());
    assert(object_lines(seq![objs[i]]) =~= Seq::<char>::empty() + object_line(objs[i]));
    let pre = "## 世界对象\n\n"@ + object_lines(before);
    let l = object_line(objs[i]);
    assert(character_context(objs) =~= pre + l + object_lines(after));
    let p = pre.len() as int;
    assert(character_context(objs).subrange(p, p + l.len()) =~= l);
}

fn write_object_line(out: &mut String, o: &WorldObject)
    ensures
        final(out)@ == old(out)@ + object_line(*o),
{
    out.append("- **");
    out.append(o.name.as_str());
    out.append("** (");
    out.append(o.kind.label());
    out.append(")");
    let ghost a = out@;
    if !o.description.as_str().is_empty() {
        out.append(": ");
        out.append(o.description.as_str());
    }
    let ghost b = out@;
    if o.links.len() > 0 {
        out.append("  [关联: ");
        write_links(out, &o.links, ", ");
        out.append("]");
    }
    let ghost c = out@;
    out.append("\n");
    assert(a =~= old(out)@ + ("- **"@ + o.name@ + "** ("@ + object_kind_label(o.kind) + ")"@));
    assert(out@ =~= old(out)@ + object_line(*o));
}

/// Build the world-object context block.
pub fn build_character_context(objects: &[WorldObject]) -> (r: String)
    ensures
        r@ == character_context(objects@),
{
    if objects.len() == 0 {
        return String::new();
    }
    let mut out = String::from_str("## 世界对象\n\n");
    let mut i: usize = 0;
    assert(objects@.take(0) =~= Seq::<WorldObject>::empty());
    while i < objects.len()
        invariant
            i <= objects.len(),
            out@ == "## 世界对象\n\n"@ + object_lines(objects@.take(i as int)),
        decreases objects.len() - i,
    {
        let o = &objects[i];
        let ghost before = out@;
        write_object_line(&mut out, o);
        proof {
            assert(objects@.take(i + 1).drop_last() =~= objects@.take(i as int));
            assert(objects@.take(i + 1).last() == *o);
            assert(out@ =~= "## 世界对象\n\n"@ + object_lines(objects@.take(i + 1)));
        }
        i += 1;
    }
    assert(objects@.take(objects.len() as int) =~= objects@);
    out
}

// ── Chapter structure ────────────────────────────────────────────────────────

/// The first line of a node indented by `ind`: status, title and kind.
pub open spec fn node_head(n: StructNodeView, ind: Seq<char>) -> Seq<char> {
    ind + "- "@ + (if n.done {
        "✅"@
    } else {
        "⏳"@
    }) + " **"@ + n.title + "** ("@ + struct_kind_label(n.kind) + ")\n"@
}

/// The summary line of a node, when it has a summary.
pub open spec fn node_summary(n: StructNodeView, ind: Seq<char>) -> Seq<char> {
    if n.summary.len() == 0 {
        Seq::<char>::empty()
    } else {
        ind + "  > "@ + n.summary + "\n"@
    }
}

/// The lines of one node indented by `ind`: its head, its summary, then its
/// children one level deeper.
pub open spec fn node_lines(n: StructNodeView, ind: Seq<char>) -> Seq<char>
    decreases n, 1nat,
{
    node_head(n, ind) + node_summary(n, ind) + forest_lines(n.children, ind + "  "@)
}

/// The lines of a forest, each tree indented by `ind`.
pub open spec fn forest_lines(s: Seq<StructNodeView>, ind: Seq<char>) -> Seq<char>
    decreases s, 0nat,
{
    if s.len() == 0 {
        Seq::<char>::empty()
    } else {
        forest_lines(s.drop_last(), ind) + node_lines(s.last(), ind)
    }
}

/// The chapter-structure context block, or nothing when there is no
/// structure.
pub open spec fn structure_context(roots: Seq<StructNodeView>) -> Seq<char> {
    if roots.len() == 0 {
        Seq::<char>::empty()
    } else {
        "## 章节结构\n\n"@ + forest_lines(roots, Seq::<char>::empty())
    }
}

fn write_node_head(out: &mut String, n: &StructNode, ind: &str)
    ensures
        final(out)@ == old(out)@ + node_head(n@, ind@) + node_summary(n@, ind@),
{
    out.append(ind);
    out.append("- ");
    if n.done {
        out.append("✅");
    } else {
        out.append("⏳");
    }
    out.append(" **");
    out.append(n.title.as_str());
    out.append("** (");
    out.append(n.kind.label());
    out.append(")\n");
    let ghost a = out@;
    if !n.summary.as_str().is_empty() {
        out.append(ind);
        out.append("  > ");
        out.append(n.summary.as_str());
        out.append("\n");
    }
    assert(a =~= old(out)@ + node_head(n@, ind@));
    assert(out@ =~= a + node_summary(n@, ind@));
}

fn write_forest(out: &mut String, nodes: &[StructNode], ind: &str)
    ensures
        final(out)@ == old(out)@ + forest_lines(list_view(nodes@), ind@),
    decreases nodes@,
{
    let ghost start = old(out)@;
    let mut i: usize = 0;
    assert(list_view(nodes@.take(0)) =~= Seq::<StructNodeView>::empty());
    assert(start + Seq::<char>::empty() =~= start);
    while i < nodes.len()
        invariant
            i <= nodes.len(),
            start == old(out)@,
            out@ == start + forest_lines(list_view(nodes@.take(i as int)), ind@),
        decreases nodes.len() - i,
    {
        let n = &nodes[i];
        proof {
            lemma_views_take(nodes@, i as int);
        }
        let ghost before = out@;
        write_node_head(out, n, ind);
        let mut child_ind = String::from_str(ind);
        child_ind.append("  ");
        assert(decreases_to!(nodes@ => nodes@[i as int]));
        assert(decreases_to!(nodes@[i as int] => nodes@[i as int].children));
        let ghost mid = out@;
        write_forest(out, n.children.as_slice(), child_ind.as_str());
        proof {
            assert(n@.children == list_view(n.children@));
            assert(out@ =~= before + node_lines(n@, ind@));
            assert(forest_lines(list_view(nodes@.take(i + 1)), ind@) == forest_lines(
                list_view(nodes@.take(i as int)),
                ind@,
            ) + node_lines(n@, ind@));
        }
        i += 1;
    }
    assert(nodes@.take(nodes.len() as int) =~= nodes@);
}

/// Build the chapter-structure context block.
pub fn build_structure_context(roots: &[StructNode]) -> (r: String)
    ensures
        r@ == structure_context(list_view(roots@)),
{
    proof {
        lemma_list_view(roots@);
    }
    if roots.len() == 0 {
        return String::new();
    }
    let mut out = String::from_str("## 章节结构\n\n");
    proof {
        reveal_strlit("");
        assert(""@ =~= Seq::<char>::empty());
    }
    write_forest(&mut out, roots, "");
    out
}


// ── Dialogue polishing ───────────────────────────────────────────────────────

/// The index of the first object named `name`.
pub open spec fn index_named(objs: Seq<WorldObject>, name: Seq<char>) -> Option<int>
    decreases objs.len(),
{
    if objs.len() == 0 {
        None
    } else {
        match index_named(objs.drop_last(), name) {
            Some(i) => Some(i),
            None => if objs.last().name@ == name {
                Some(objs.len() - 1)
            } else {
                None
            },
        }
    }
}

/// A character's profile: name and kind, then traits, background and
/// relations when they are present.
pub open spec fn profile_text(o: WorldObject) -> Seq<char> {
    "## 人物："@ + o.name@ + " ("@ + object_kind_label(o.kind) + ")\n"@ + (if o.description@.len()
        == 0 {
        Seq::<char>::empty()
    } else {
        "- 特质："@ + o.description@ + "\n"@
    }) + (if o.background@.len() == 0 {
        Seq::<char>::empty()
    } else {
        "- 背景："@ + o.background@ + "\n"@
    }) + (if o.links@.len() == 0 {
        Seq::<char>::empty()
    } else {
        "- 关系："@ + links_text(o.links@, "、"@) + "\n"@
    })
}

/// The dialogue-polishing prompt for the first object named `name`: its
/// profile as context for the dialogue template; nothing when no object has
/// that name.
pub open spec fn dialogue_prompt(objs: Seq<WorldObject>, name: Seq<char>, dialogue: Seq<char>) -> Option<
    Seq<char>,
> {
    match index_named(objs, name) {
        Some(i) => Some(
            template_prompt(PromptTemplate::DialogueOptimize, profile_text(objs[i]), dialogue),
        ),
        None => None,
    }
}

/// The index of the first object named `name`, if any.
pub fn find_object(objects: &[WorldObject], name: &str) -> (r: Option<usize>)
    ensures
        r matches Some(i) ==> index_named(objects@, name@) == Some(i as int) && i < objects@.len(),
        r is None ==> index_named(objects@, name@) is None,
{
    let target = chars_of(name);
    let mut i: usize = 0;
    assert(objects@.take(0) =~= Seq::<WorldObject>::empty());
    while i < objects.len()
        invariant
            i <= objects.len(),
            target@ == name@,
            index_named(objects@.take(i as int), name@) is None,
        decreases objects.len() - i,
    {
        assert(objects@.take(i + 1).drop_last() =~= objects@.take(i as int));
        if str_eq_chars(&chars_of(objects[i].name.as_str()), &target) {
            proof {
                lemma_index_named_prefix(objects@, i as int + 1, name@);
            }
            return Some(i);
        }
        i += 1;
    }
    assert(objects@.take(objects.len() as int) =~= objects@);
    None
}

proof fn lemma_index_named_prefix(objs: Seq<WorldObject>, k: int, name: Seq<char>)
    requires
        0 < k <= objs.len(),
        index_named(objs.take(k), name) == Some(k - 1),
    ensures
        index_named(objs, name) == Some(k - 1),
    decreases objs.len(),
{
    if k < objs.len() {
        assert(objs.drop_last().take(k) =~= objs.take(k));
        lemma_index_named_prefix(objs.drop_last(), k, name);
    } else {
        assert(objs.take(k) =~= objs);
    }
}

fn write_profile(o: &WorldObject) -> (r: String)
    ensures
        r@ == profile_text(*o),
{
    let mut out = String::from_str("## 人物：");
    out.append(o.name.as_str());
    out.append(" (");
    out.append(o.kind.label());
    out.append(")\n");
    let ghost a = out@;
    if !o.description.as_str().is_empty() {
        out.append("- 特质：");
        out.append(o.description.as_str());
        out.append("\n");
    }
    let ghost b = out@;
    if !o.background.as_str().is_empty() {
        out.append("- 背景：");
        out.append(o.background.as_str());
        out.append("\n");
    }
    let ghost c = out@;
    if o.links.len() > 0 {
        out.append("- 关系：");
        write_links(&mut out, &o.links, "、");
        out.append("\n");
    }
    assert(out@ =~= profile_text(*o));
    out
}

/// Build the dialogue-polishing prompt for the character named `char_name`.
pub fn build_dialogue_optimization_prompt(
    objects: &[WorldObject],
    char_name: &str,
    dialogue_text: &str,
) -> (r: Option<String>)
    ensures
        opt_text(r) == dialogue_prompt(objects@, char_name@, dialogue_text@),
{
    match find_object(objects, char_name) {
        Some(i) => {
            let ctx = write_profile(&objects[i]);
            Some(PromptTemplate::DialogueOptimize.fill(ctx.as_str(), dialogue_text))
        },
        None => None,
    }
}

// ── Reverse links ────────────────────────────────────────────────────────────

/// Titles of the nodes of a forest, depth first, that list `name` among
/// their linked objects.
pub open spec fn linking_titles(s: Seq<StructNodeView>, name: Seq<char>) -> Seq<Seq<char>>
    decreases s,
{
    if s.len() == 0 {
        Seq::<Seq<char>>::empty()
    } else {
        linking_titles(s.drop_last(), name) + (if s.last().linked_objects.contains(name) {
            seq![s.last().title]
        } else {
            Seq::<Seq<char>>::empty()
        }) + linking_titles(s.last().children, name)
    }
}

fn links_to(n: &StructNode, name: &Vec<char>) -> (r: bool)
    ensures
        r == n@.linked_objects.contains(name@),
{
    let ghost objs = n@.linked_objects;
    let mut i: usize = 0;
    while i < n.linked_objects.len()
        invariant
            i <= n.linked_objects.len(),
            objs == n.linked_objects@.map_values(|s: String| s@),
            forall|k: int| 0 <= k < i ==> objs[k] != name@,
        decreases n.linked_objects.len() - i,
    {
        if str_eq_chars(&chars_of(n.linked_objects[i].as_str()), name) {
            assert(objs[i as int] == name@);
            return true;
        }
        i += 1;
    }
    false
}

fn collect_linking(nodes: &[StructNode], name: &Vec<char>, out: &mut Vec<String>)
    ensures
        text_views(final(out)@) == text_views(old(out)@) + linking_titles(list_view(nodes@), name@),
    decreases nodes@,
{
    let ghost start = text_views(out@);
    let mut i: usize = 0;
    assert(list_view(nodes@.take(0)) =~= Seq::<StructNodeView>::empty());
    assert(start + Seq::<Seq<char>>::empty() =~= start);
    while i < nodes.len()
        invariant
            i <= nodes.len(),
            start == text_views(old(out)@),
            text_views(out@) == start + linking_titles(list_view(nodes@.take(i as int)), name@),
        decreases nodes.len() - i,
    {
        let n = &nodes[i];
        proof {
            lemma_views_take(nodes@, i as int);
        }
        let ghost before = text_views(out@);
        if links_to(n, name) {
            out.push(n.title.clone());
            assert(text_views(out@) =~= before + seq![n.title@]);
        } else {
            assert(before + Seq::<Seq<char>>::empty() =~= before);
        }
        let ghost mid = text_views(out@);
        assert(decreases_to!(nodes@ => nodes@[i as int]));
        assert(decreases_to!(nodes@[i as int] => nodes@[i as int].children));
        collect_linking(n.children.as_slice(), name, out);
        proof {
            assert(n@.children == list_view(n.children@));
            assert(text_views(out@) =~= start + linking_titles(
                list_view(nodes@.take(i + 1)),
                name@,
            ));
        }
        i += 1;
    }
    assert(nodes@.take(nodes.len() as int) =~= nodes@);
}

/// Titles of all nodes, depth first, that link to the object `obj_name`.
pub fn nodes_linking_object(roots: &[StructNode], obj_name: &str) -> (r: Vec<String>)
    ensures
        text_views(r@) == linking_titles(list_view(roots@), obj_name@),
{
    let mut out: Vec<String> = Vec::new();
    assert(text_views(out@) =~= Seq::<Seq<char>>::empty());
    collect_linking(roots, &chars_of(obj_name), &mut out);
    assert(Seq::<Seq<char>>::empty() + linking_titles(list_view(roots@), obj_name@)
        =~= linking_titles(list_view(roots@), obj_name@));
    out
}

} // verus!
