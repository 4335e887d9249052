//! Editing the list of world objects: adding, removing and reordering
//! entries while the selection keeps pointing at the same object, adding
//! links, and filtering by kind.
use vstd::prelude::*;
use crate::models::{LinkTarget, ObjectKind, ObjectLink, RelationKind, WorldObject};
use crate::text::{chars_of, string_of, trim_chars, trim_ws};

verus! {

/// `s` with the entry at `from` taken out and put back in at `to`.
pub open spec fn moved<T>(s: Seq<T>, from: int, to: int) -> Seq<T> {
    s.remove(from).insert(to, s[from])
}

/// Where the selected index goes when the entry at `from` moves to `to`.
pub open spec fn selection_after_move(sel: int, from: int, to: int) -> int {
    if sel == from {
        to
    } else if from < to && sel > from && sel <= to {
        sel - 1
    } else if from > to && sel >= to && sel < from {
        sel + 1
    } else {
        sel
    }
}

/// The selection after a move (no change when the move is out of range).
pub open spec fn selection_moved(sel: Option<usize>, from: int, to: int, len: int) -> Option<
    usize,
> {
    if from < len && to < len {
        match sel {
            Some(s) => Some(selection_after_move(s as int, from, to) as usize),
            None => None,
        }
    } else {
        sel
    }
}

/// Move the object at `from` to position `to` (a drag and drop in the list);
/// returns the new selection.  Out-of-range positions change nothing.
pub fn move_object(objects: &mut Vec<WorldObject>, from: usize, to: usize, selected: Option<usize>) -> (r:
    Option<usize>)
    ensures
        from < old(objects)@.len() && to < old(objects)@.len() ==> final(objects)@ == moved(
            old(objects)@,
            from as int,
            to as int,
        ),
        !(from < old(objects)@.len() && to < old(objects)@.len()) ==> final(objects)@ == old(
            objects,
        )@,
        r == selection_moved(selected, from as int, to as int, old(objects)@.len() as int),
{
    if from < objects.len() && to < objects.len() {
        let item = objects.remove(from);
        objects.insert(to, item);
        match selected {
            Some(sel) => {
                if sel == from {
                    Some(to)
                } else if from < to && sel > from && sel <= to {
                    Some(sel - 1)
                } else if from > to && sel >= to && sel < from {
                    Some(sel + 1)
                } else {
                    Some(sel)
                }
            },
            None => None,
        }
    } else {
        selected
    }
}

/// A move keeps the selection on the same object.
pub proof fn lemma_move_keeps_selection<T>(s: Seq<T>, from: int, to: int, sel: int)
    requires
        0 <= from < s.len(),
        0 <= to < s.len(),
        0 <= sel < s.len(),
    ensures
        0 <= selection_after_move(sel, from, to) < s.len(),
        moved(s, from, to)[selection_after_move(sel, from, to)] == s[sel],
        moved(s, from, to).len() == s.len(),
{
}

/// Dragging an entry back to where it came from restores the list.
pub proof fn lemma_move_back_restores<T>(s: Seq<T>, from: int, to: int)
    requires
        0 <= from < s.len(),
        0 <= to < s.len(),
    ensures
        moved(moved(s, from, to), to, from) == s,
{
    let m = moved(s, from, to);
    assert(m[to] == s[from]);
    assert(m.remove(to) =~= s.remove(from));
    assert(s.remove(from).insert(from, s[from]) =~= s);
}

/// The selection after removing entry `i`: cleared when it was that entry,
/// moved up when it came after it.
pub open spec fn selection_after_remove(sel: Option<usize>, i: int) -> Option<usize> {
    match sel {
        Some(s) => if s == i {
            None
        } else if s > i {
            Some((s - 1) as usize)
        } else {
            Some(s)
        },
        None => None,
    }
}

/// Remove the object at `i`; returns the new selection.
pub fn remove_object(objects: &mut Vec<WorldObject>, i: usize, selected: Option<usize>) -> (r:
    Option<usize>)
    requires
        i < old(objects)@.len(),
    ensures
        final(objects)@ == old(objects)@.remove(i as int),
        r == selection_after_remove(selected, i as int),
{
    objects.remove(i);
    match selected {
        Some(s) => if s == i {
            None
        } else if s > i {
            Some(s - 1)
        } else {
            Some(s)
        },
        None => None,
    }
}

/// Removing another object keeps the selection on the same object.
pub proof fn lemma_remove_keeps_selection<T>(s: Seq<T>, i: int, sel: usize)
    requires
        0 <= i < s.len(),
        sel < s.len(),
        sel != i,
    ensures
        selection_after_remove(Some(sel), i) matches Some(t) && t < s.remove(i).len() && s.remove(
            i,
        )[t as int] == s[sel as int],
{
}

/// Add an object with the trimmed name and the kind, unless the name is
/// blank; returns the index of the new object, which becomes selected.
pub fn add_object(objects: &mut Vec<WorldObject>, name: &str, kind: ObjectKind) -> (r: Option<usize>)
    ensures
        trim_ws(name@).len() == 0 ==> r is None && final(objects)@ == old(objects)@,
        trim_ws(name@).len() > 0 ==> {
            &&& r == Some(old(objects)@.len() as usize)
            &&& final(objects)@.len() == old(objects)@.len() + 1
            &&& final(objects)@.drop_last() == old(objects)@
            &&& final(objects)@.last().name@ == trim_ws(name@)
            &&& final(objects)@.last().kind == kind
            &&& final(objects)@.last().description@.len() == 0
            &&& final(objects)@.last().background@.len() == 0
            &&& final(objects)@.last().links@.len() == 0
        },
{
    let t = trim_chars(&chars_of(name));
    if t.len() == 0 {
        return None;
    }
    let idx = objects.len();
    let n = string_of(&t);
    objects.push(WorldObject::new(n.as_str(), kind));
    assert(objects@.drop_last() =~= old(objects)@);
    Some(idx)
}

/// Add a link from `obj` to the object or node with the trimmed name, with
/// the relation and the trimmed note.
pub fn add_link(obj: &mut WorldObject, name: &str, to_node: bool, kind: RelationKind, note: &str)
    ensures
        final(obj).name == old(obj).name,
        final(obj).kind == old(obj).kind,
        final(obj).description == old(obj).description,
        final(obj).background == old(obj).background,
        final(obj).links@.len() == old(obj).links@.len() + 1,
        final(obj).links@.drop_last() == old(obj).links@,
        final(obj).links@.last().kind == kind,
        final(obj).links@.last().note@ == trim_ws(note@),
        to_node ==> (final(obj).links@.last().target matches LinkTarget::Node(t) && t@ == trim_ws(
            name@,
        )),
        !to_node ==> (final(obj).links@.last().target matches LinkTarget::Object(t) && t@
            == trim_ws(name@)),
{
    let n = string_of(&trim_chars(&chars_of(name)));
    let target = if to_node {
        LinkTarget::Node(n)
    } else {
        LinkTarget::Object(n)
    };
    obj.links.push(ObjectLink { target, kind, note: string_of(&trim_chars(&chars_of(note))) });
    assert(obj.links@.drop_last() =~= old(obj).links@);
}

/// The objects the kind filter shows: all of them without a filter.
pub open spec fn shown_by_filter(o: WorldObject, filter: Option<ObjectKind>) -> bool {
    match filter {
        Some(k) => o.kind == k,
        None => true,
    }
}

/// Indices of the objects the kind filter shows, in order.
pub fn visible_objects(objects: &[WorldObject], filter: Option<ObjectKind>) -> (r: Vec<usize>)
    ensures
        forall|k: int| 0 <= k < r@.len() ==> (#[trigger] r@[k]) < objects@.len() && shown_by_filter(
            objects@[r@[k] as int],
            filter,
        ),
        forall|k: int, l: int| 0 <= k < l < r@.len() ==> #[trigger] r@[k] < #[trigger] r@[l],
        forall|i: int|
            0 <= i < objects@.len() && shown_by_filter(#[trigger] objects@[i], filter) ==> r@.contains(
                i as usize,
            ),
{
    let mut out: Vec<usize> = Vec::new();
    let mut i: usize = 0;
    while i < objects.len()
        invariant
            i <= objects.len(),
            forall|k: int| 0 <= k < out@.len() ==> (#[trigger] out@[k]) < i && shown_by_filter(
                objects@[out@[k] as int],
                filter,
            ),
            forall|k: int, l: int| 0 <= k < l < out@.len() ==> #[trigger] out@[k] < #[trigger] out@[l],
            forall|j: int|
                0 <= j < i && shown_by_filter(#[trigger] objects@[j], filter) ==> out@.contains(
                    j as usize,
                ),
        decreases objects.len() - i,
    {
        let shown = match filter {
            Some(k) => objects[i].kind == k,
            None => true,
        };
        if shown {
            let ghost before = out@;
            out.push(i);
            assert forall|j: int|
                0 <= j < i + 1 && shown_by_filter(#[trigger] objects@[j], filter) implies out@.contains(
                j as usize,
            ) by {
                if j < i {
                    let k = choose|k: int| 0 <= k < before.len() && before[k] == j as usize;
                    assert(out@[k] == j as usize);
                } else {
                    assert(out@[before.len() as int] == i);
                }
            }
        } else {
            assert forall|j: int|
                0 <= j < i + 1 && shown_by_filter(#[trigger] objects@[j], filter) implies out@.contains(
                j as usize,
            ) by {
                if j == i {
                    assert(false);
                }
            }
        }
        i += 1;
    }
    out
}

} // verus!
