//! Chapter structure extraction: Markdown headings → a `StructNode` tree, and
//! a chapter folder listing → a `StructNode` tree.
use vstd::prelude::*;
use crate::models::{
    child_kind_of, lemma_list_view, list_view, ChapterTag, StructKind, StructNode,
    StructNodeView,
};
use crate::text::{
    chars_of, is_space, lines_of, split_lines, string_of, trim_chars, trim_start_char,
    trim_start_char_exec, trim_start_ws, trim_ws,
};

verus! {

// ── Specifications ───────────────────────────────────────────────────────────

/// Number of leading `#` of a line.
pub open spec fn hash_run(l: Seq<char>) -> nat {
    (l.len() - trim_start_char(l, '#').len()) as nat
}

/// The ATX heading of a line, as (level, title): 1–6 leading `#`, then a
/// space or the end of the line, and a title that is not empty once trimmed.
pub open spec fn heading_of(l: Seq<char>) -> Option<(nat, Seq<char>)> {
    let level = hash_run(l);
    let rest = l.skip(level as int);
    if level == 0 || level > 6 {
        None
    } else if !(rest.len() == 0 || rest[0] == ' ') {
        None
    } else if trim_ws(rest).len() == 0 {
        None
    } else {
        Some((level, trim_ws(rest)))
    }
}

/// `k` hash signs.
pub open spec fn hashes(k: nat) -> Seq<char> {
    Seq::new(k, |j: int| '#')
}

proof fn lemma_trim_hashes(k: nat, r: Seq<char>)
    requires
        r.len() > 0,
        r[0] != '#',
    ensures
        trim_start_char(hashes(k) + r, '#') == r,
    decreases k,
{
    if k == 0 {
        assert(hashes(0) + r =~= r);
    } else {
        assert((hashes(k) + r).drop_first() =~= hashes((k - 1) as nat) + r);
        assert((hashes(k) + r)[0] == '#');
        lemma_trim_hashes((k - 1) as nat, r);
    }
}

/// An ATX heading line — `k` hash signs, a space and a title — is read as a
/// heading of level `k` with the trimmed title whenever `k` is 1 to 6 and the
/// title is not blank, and is no heading otherwise.
pub proof fn lemma_atx_heading(k: nat, t: Seq<char>)
    requires
        k >= 1,
    ensures
        heading_of(hashes(k) + seq![' '] + t) == if k <= 6 && trim_ws(t).len() > 0 {
            Some((k, trim_ws(t)))
        } else {
            None::<(nat, Seq<char>)>
        },
{
    let r = seq![' '] + t;
    let l = hashes(k) + seq![' '] + t;
    assert(l =~= hashes(k) + r);
    assert(r[0] == ' ');
    lemma_trim_hashes(k, r);
    assert(hash_run(l) == k);
    assert(l.skip(k as int) =~= r);
    assert(r.drop_first() =~= t);
    assert(is_space(' '));
    assert(trim_start_ws(r) == trim_start_ws(t));
}

/// The headings of a sequence of lines, in order.
pub open spec fn headings_of_lines(ls: Seq<Seq<char>>) -> Seq<(nat, Seq<char>)>
    decreases ls.len(),
{
    if ls.len() == 0 {
        seq![]
    } else {
        match heading_of(ls.last()) {
            Some(h) => headings_of_lines(ls.drop_last()).push(h),
            None => headings_of_lines(ls.drop_last()),
        }
    }
}

/// The headings of a Markdown text, in order.
pub open spec fn headings_of(md: Seq<char>) -> Seq<(nat, Seq<char>)> {
    headings_of_lines(lines_of(md))
}

/// Structure level of a heading level: `#` Outline, `##` Volume, `###`
/// Chapter, deeper Section.
pub open spec fn kind_for_level(level: nat) -> StructKind {
    if level == 1 {
        StructKind::Outline
    } else if level == 2 {
        StructKind::Volume
    } else if level == 3 {
        StructKind::Chapter
    } else {
        StructKind::Section
    }
}

/// The value of a fresh node with the given title, kind and children.
pub open spec fn fresh_node(title: Seq<char>, kind: StructKind, children: Seq<StructNodeView>) -> StructNodeView {
    StructNodeView {
        title,
        kind,
        tag: ChapterTag::Normal,
        summary: seq![],
        done: false,
        children,
        linked_objects: seq![],
        node_links: seq![],
    }
}

/// The forest nested from the flat heading list, scanning from `i`: a heading
/// at level `min` starts a node whose children are nested from the headings
/// after it at level `min + 1`; deeper headings are passed over; a shallower
/// heading ends the forest.
pub open spec fn nest_from(flat: Seq<(nat, Seq<char>)>, i: int, min: nat) -> Seq<StructNodeView>
    decreases flat.len() - i,
{
    if i < 0 || i >= flat.len() {
        seq![]
    } else if flat[i].0 < min {
        seq![]
    } else if flat[i].0 == min {
        seq![fresh_node(flat[i].1, kind_for_level(min), nest_from(flat, i + 1, min + 1))]
            + nest_from(flat, i + 1, min)
    } else {
        nest_from(flat, i + 1, min)
    }
}

/// The structure tree of a Markdown text.
pub open spec fn outline_of(md: Seq<char>) -> Seq<StructNodeView> {
    let flat = headings_of(md);
    if flat.len() == 0 {
        seq![]
    } else {
        nest_from(flat, 0, flat[0].0)
    }
}

/// Every child's kind is the natural child kind of its parent's kind.
pub open spec fn well_kinded(n: StructNodeView) -> bool
    decreases n, 1nat,
{
    &&& forall|k: int| 0 <= k < n.children.len() ==> (#[trigger] n.children[k]).kind == child_kind_of(n.kind)
    &&& well_kinded_list(n.children)
}

/// Every tree of the forest is well kinded.
pub open spec fn well_kinded_list(s: Seq<StructNodeView>) -> bool
    decreases s, 0nat,
{
    s.len() > 0 ==> well_kinded_list(s.drop_last()) && well_kinded(s.last())
}

// ── Laws ─────────────────────────────────────────────────────────────────────

/// Every tree nested at level `min` has a root of that level's kind and is
/// well kinded.
pub proof fn lemma_nest_from_kinds(flat: Seq<(nat, Seq<char>)>, i: int, min: nat)
    requires
        min >= 1,
    ensures
        forall|k: int| 0 <= k < nest_from(flat, i, min).len() ==> (#[trigger] nest_from(flat, i, min)[k]).kind == kind_for_level(min),
        well_kinded_list(nest_from(flat, i, min)),
    decreases flat.len() - i,
{
    if 0 <= i < flat.len() && flat[i].0 >= min {
        lemma_nest_from_kinds(flat, i + 1, min);
        if flat[i].0 == min {
            lemma_nest_from_kinds(flat, i + 1, min + 1);
            let kids = nest_from(flat, i + 1, min + 1);
            let node = fresh_node(flat[i].1, kind_for_level(min), kids);
            assert(kind_for_level(min + 1) == child_kind_of(kind_for_level(min)));
            assert(well_kinded(node));
            let rest = nest_from(flat, i + 1, min);
            lemma_well_kinded_cons(node, rest);
            let all = seq![node] + rest;
            assert forall|k: int| 0 <= k < all.len() implies (#[trigger] all[k]).kind == kind_for_level(min) by {
                if k > 0 {
                    assert(all[k] == rest[k - 1]);
                }
            }
        }
    }
}

/// Prepending a well-kinded tree to a well-kinded forest keeps it well kinded.
pub proof fn lemma_well_kinded_cons(n: StructNodeView, s: Seq<StructNodeView>)
    requires
        well_kinded(n),
        well_kinded_list(s),
    ensures
        well_kinded_list(seq![n] + s),
    decreases s.len(),
{
    reveal_with_fuel(well_kinded_list, 2);
    if s.len() == 0 {
        assert(seq![n] + s =~= seq![n]);
        assert(seq![n].drop_last() =~= Seq::<StructNodeView>::empty());
        assert(well_kinded_list(Seq::<StructNodeView>::empty()));
    } else {
        lemma_well_kinded_cons(n, s.drop_last());
        assert((seq![n] + s).drop_last() =~= seq![n] + s.drop_last());
        assert((seq![n] + s).last() == s.last());
    }
}

/// In the structure tree extracted from any Markdown text, every child is of
/// the natural child kind of its parent (Outline → Volume → Chapter → Section,
/// Section → Section).
pub proof fn lemma_outline_well_kinded(md: Seq<char>)
    ensures
        well_kinded_list(outline_of(md)),
{
    let flat = headings_of(md);
    if flat.len() > 0 {
        lemma_headings_levels(lines_of(md));
        lemma_nest_from_kinds(flat, 0, flat[0].0);
    }
}

/// Heading levels lie between 1 and 6.
pub proof fn lemma_headings_levels(ls: Seq<Seq<char>>)
    ensures
        forall|k: int| 0 <= k < headings_of_lines(ls).len() ==> 1 <= (#[trigger] headings_of_lines(ls)[k]).0 <= 6,
    decreases ls.len(),
{
    if ls.len() > 0 {
        lemma_headings_levels(ls.drop_last());
        let p = headings_of_lines(ls.drop_last());
        assert forall|k: int| 0 <= k < headings_of_lines(ls).len() implies 1 <= (
        #[trigger] headings_of_lines(ls)[k]).0 <= 6 by {
            if k < p.len() {
                assert(headings_of_lines(ls)[k] == p[k]);
            }
        }
    }
}

// ── Executable code ──────────────────────────────────────────────────────────

/// The flat heading list viewed as values.
pub open spec fn flat_view(flat: Seq<(usize, String)>) -> Seq<(nat, Seq<char>)> {
    flat.map_values(|p: (usize, String)| (p.0 as nat, p.1@))
}

fn heading_exec(l: &Vec<char>) -> (r: Option<(usize, String)>)
    ensures
        match r {
            Some(p) => heading_of(l@) == Some((p.0 as nat, p.1@)),
            None => heading_of(l@) is None,
        },
{
    let after = trim_start_char_exec(l, '#');
    proof {
        lemma_trim_start_char_suffix(l@, '#');
    }
    let level = l.len() - after.len();
    if level == 0 || level > 6 {
        return None;
    }
    assert(l@.skip(level as int) == after@);
    if !(after.len() == 0 || after[0] == ' ') {
        return None;
    }
    let title = trim_chars(&after);
    if title.len() == 0 {
        return None;
    }
    Some((level, string_of(&title)))
}

/// `trim_start_char(s, c)` is a suffix of `s`.
pub proof fn lemma_trim_start_char_suffix(s: Seq<char>, c: char)
    ensures
        trim_start_char(s, c).len() <= s.len(),
        trim_start_char(s, c) == s.skip(s.len() - trim_start_char(s, c).len()),
    decreases s.len(),
{
    if s.len() > 0 && s[0] == c {
        lemma_trim_start_char_suffix(s.drop_first(), c);
        assert(s.drop_first().skip(s.drop_first().len() - trim_start_char(s, c).len()) =~= s.skip(
            s.len() - trim_start_char(s, c).len(),
        ));
    } else {
        assert(s.skip(0) =~= s);
    }
}

/// The ATX headings of a Markdown text as (level, title) pairs, in order.
pub fn extract_headings(content: &str) -> (r: Vec<(usize, String)>)
    ensures
        flat_view(r@) == headings_of(content@),
{
    let cs = chars_of(content);
    let lines = split_lines(&cs);
    let ghost ls = lines_of(content@);
    let mut out: Vec<(usize, String)> = Vec::new();
    assert(flat_view(out@) =~= headings_of_lines(ls.take(0)));
    for i in 0..lines.len()
        invariant
            lines@.len() == ls.len(),
            forall|k: int| 0 <= k < lines@.len() ==> #[trigger] lines@[k]@ == ls[k],
            flat_view(out@) == headings_of_lines(ls.take(i as int)),
    {
        assert(ls.take(i + 1).drop_last() =~= ls.take(i as int));
        assert(ls.take(i + 1).last() == ls[i as int]);
        let h = heading_exec(&lines[i]);
        match h {
            Some(p) => {
                let ghost before = out@;
                out.push(p);
                assert(flat_view(out@) =~= flat_view(before).push((p.0 as nat, p.1@)));
            },
            None => {},
        }
    }
    assert(ls.take(lines.len() as int) =~= ls);
    out
}

fn kind_for_level_exec(level: usize) -> (r: StructKind)
    ensures
        r == kind_for_level(level as nat),
{
    if level == 1 {
        StructKind::Outline
    } else if level == 2 {
        StructKind::Volume
    } else if level == 3 {
        StructKind::Chapter
    } else {
        StructKind::Section
    }
}

/// Headings deeper than `lvl` from `j` on are passed over by the nesting at
/// level `min <= lvl`.
proof fn lemma_nest_skips_deeper(flat: Seq<(nat, Seq<char>)>, i: int, j: int, min: nat)
    requires
        0 <= i <= j <= flat.len(),
        forall|k: int| i <= k < j ==> (#[trigger] flat[k]).0 > min,
    ensures
        nest_from(flat, i, min) == nest_from(flat, j, min),
    decreases j - i,
{
    if i < j {
        lemma_nest_skips_deeper(flat, i + 1, j, min);
    }
}

/// The value of a node that has only a title, a kind and children.
pub proof fn lemma_fresh_view(n: &StructNode)
    requires
        n.tag == ChapterTag::Normal,
        n.summary@ == Seq::<char>::empty(),
        !n.done,
        n.linked_objects@ == Seq::<String>::empty(),
        n.node_links@ == Seq::<crate::models::NodeLink>::empty(),
    ensures
        n@ == fresh_node(n.title@, n.kind, list_view(n.children@)),
{
    assert(n@.linked_objects =~= Seq::<Seq<char>>::empty());
    assert(n@.node_links =~= Seq::<(Seq<char>, crate::models::RelationKind, Seq<char>)>::empty());
    assert(n@.summary =~= Seq::<char>::empty());
}

/// Nest the flat heading list into structure nodes, starting at `start`
/// with headings of level `min_level` as the roots.
pub fn nest_struct_nodes(flat: &Vec<(usize, String)>, start: usize, min_level: usize) -> (r: Vec<StructNode>)
    requires
        forall|k: int| 0 <= k < flat@.len() ==> (#[trigger] flat@[k]).0 < usize::MAX,
    ensures
        list_view(r@) == nest_from(flat_view(flat@), start as int, min_level as nat),
    decreases flat.len() - start,
{
    let ghost fv = flat_view(flat@);
    let mut result: Vec<StructNode> = Vec::new();
    let mut i = start;
    assert(list_view(result@) + nest_from(fv, start as int, min_level as nat) =~= nest_from(fv, start as int, min_level as nat));
    while i < flat.len()
        invariant
            fv == flat_view(flat@),
            forall|k: int| 0 <= k < flat@.len() ==> (#[trigger] flat@[k]).0 < usize::MAX,
            start <= i,
            list_view(result@) + nest_from(fv, i as int, min_level as nat) == nest_from(
                fv,
                start as int,
                min_level as nat,
            ),
        ensures
            list_view(result@) == nest_from(fv, start as int, min_level as nat),
        decreases flat.len() - i,
    {
        let lvl = flat[i].0;
        assert(fv[i as int] == (lvl as nat, flat@[i as int].1@));
        if lvl < min_level {
            assert(list_view(result@) + nest_from(fv, i as int, min_level as nat) =~= list_view(result@));
            break;
        }
        if lvl == min_level {
            let kind = kind_for_level_exec(lvl);
            let mut node = StructNode::new(flat[i].1.as_str(), kind);
            let mut j = i + 1;
            while j < flat.len() && flat[j].0 > lvl
                invariant
                    fv == flat_view(flat@),
                    i < j <= flat.len(),
                    forall|k: int| i + 1 <= k < j ==> (#[trigger] fv[k]).0 > lvl,
                decreases flat.len() - j,
            {
                assert(fv[j as int].0 == flat@[j as int].0);
                j += 1;
            }
            node.children = nest_struct_nodes(flat, i + 1, lvl + 1);
            proof {
                lemma_nest_skips_deeper(fv, i + 1, j as int, min_level as nat);
                lemma_fresh_view(&node);
            }
            let ghost before = result@;
            result.push(node);
            proof {
                lemma_list_view(result@);
                lemma_list_view(before);
                assert(list_view(result@) =~= list_view(before).push(node@));
                assert(list_view(before).push(node@) + nest_from(fv, j as int, min_level as nat) =~= list_view(before) + (seq![node@] + nest_from(fv, (i + 1) as int, min_level as nat)));
            }
            i = j;
        } else {
            i += 1;
        }
    }
    assert(list_view(result@) + nest_from(fv, i as int, min_level as nat) =~= list_view(result@));
    result
}

/// Parse the ATX headings of a Markdown text into a structure tree: `#`
/// Outline, `##` Volume, `###` Chapter, deeper Section; the first heading's
/// level is the root level.
pub fn extract_struct_nodes_from_markdown(content: &str) -> (r: Vec<StructNode>)
    ensures
        list_view(r@) == outline_of(content@),
{
    let flat = extract_headings(content);
    if flat.len() == 0 {
        let r: Vec<StructNode> = Vec::new();
        assert(list_view(r@) =~= Seq::<StructNodeView>::empty());
        return r;
    }
    proof {
        lemma_headings_levels(lines_of(content@));
        assert(flat_view(flat@)[0].0 == flat@[0].0);
        assert forall|k: int| 0 <= k < flat@.len() implies (#[trigger] flat@[k]).0 < usize::MAX by {
            assert(flat_view(flat@)[k].0 == flat@[k].0);
        }
    }
    nest_struct_nodes(&flat, 0, flat[0].0)
}

} // verus!
