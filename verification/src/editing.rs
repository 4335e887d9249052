//! Editor operations on the text of the left pane: wrapping a selection in
//! emphasis markers, inserting an indent, replacing find matches, and the
//! bounded undo history.
use std::collections::VecDeque;
use vstd::prelude::*;
use vstd::string::StringExecFns;
use crate::find::{ranges_view, MatchRange};
use crate::text::{chars_of, extend_chars, string_of, sub_chars};

verus! {

/// `s` with the characters from `from` up to `to` replaced by `with`.
pub open spec fn splice(s: Seq<char>, from: int, to: int, with: Seq<char>) -> Seq<char> {
    s.take(from) + with + s.skip(to)
}

/// Replace the characters of `content` from `from` up to `to` by `with`.
pub fn splice_text(content: &str, from: usize, to: usize, with: &str) -> (r: String)
    requires
        from <= to <= content@.len(),
    ensures
        r@ == splice(content@, from as int, to as int, with@),
        r@.len() <= usize::MAX,
{
    let v = chars_of(content);
    let mut out = sub_chars(&v, 0, from);
    extend_chars(&mut out, &chars_of(with));
    extend_chars(&mut out, &sub_chars(&v, to, v.len()));
    assert(v@.subrange(0, from as int) =~= v@.take(from as int));
    assert(v@.subrange(to as int, v@.len() as int) =~= v@.skip(to as int));
    let n = out.len();
    assert(out@.len() == n);
    string_of(&out)
}

/// The emphasis marker: `**` for bold, `*` for italic.
pub open spec fn emphasis_marker(bold: bool) -> Seq<char> {
    if bold {
        "**"@
    } else {
        "*"@
    }
}

/// What wrapping puts in place of the selection: the selection between
/// markers, or a placeholder (`**粗体**` / `*斜体*`) when nothing is selected.
pub open spec fn emphasis_insert(selection: Seq<char>, bold: bool) -> Seq<char> {
    if selection.len() == 0 {
        if bold {
            "**粗体**"@
        } else {
            "*斜体*"@
        }
    } else {
        emphasis_marker(bold) + selection + emphasis_marker(bold)
    }
}

/// The smaller and the larger of two cursor ends.
pub open spec fn sel_start(a: int, b: int) -> int {
    if a <= b {
        a
    } else {
        b
    }
}

pub open spec fn sel_end(a: int, b: int) -> int {
    if a <= b {
        b
    } else {
        a
    }
}

/// Wrap the selection between cursor ends `a` and `b` (character indices)
/// in bold or italic markers; returns the new text and the cursor placed
/// after the inserted text.
pub fn wrap_selection(content: &str, a: usize, b: usize, bold: bool) -> (r: (String, usize))
    requires
        a <= content@.len(),
        b <= content@.len(),
    ensures
        ({
            let from = sel_start(a as int, b as int);
            let to = sel_end(a as int, b as int);
            let ins = emphasis_insert(content@.subrange(from, to), bold);
            &&& r.0@ == splice(content@, from, to, ins)
            &&& r.1 == from + ins.len()
        }),
{
    let from = if a <= b {
        a
    } else {
        b
    };
    let to = if a <= b {
        b
    } else {
        a
    };
    let v = chars_of(content);
    let ins: Vec<char> = if from == to {
        if bold {
            chars_of("**粗体**")
        } else {
            chars_of("*斜体*")
        }
    } else {
        let marker = if bold {
            chars_of("**")
        } else {
            chars_of("*")
        };
        let mut w = marker.clone();
        extend_chars(&mut w, &sub_chars(&v, from, to));
        extend_chars(&mut w, &marker);
        w
    };
    assert(ins@ == emphasis_insert(content@.subrange(from as int, to as int), bold));
    let text = string_of(&ins);
    let out = splice_text(content, from, to, text.as_str());
    assert(from + ins@.len() <= out@.len());
    (out, from + ins.len())
}

/// `n` spaces.
pub open spec fn spaces(n: nat) -> Seq<char> {
    Seq::new(n, |i: int| ' ')
}

/// Replace the selection between cursor ends `a` and `b` by `tab_size`
/// spaces; returns the new text and the cursor after the spaces.
pub fn insert_indent(content: &str, a: usize, b: usize, tab_size: u8) -> (r: (String, usize))
    requires
        a <= content@.len(),
        b <= content@.len(),
    ensures
        ({
            let from = sel_start(a as int, b as int);
            let to = sel_end(a as int, b as int);
            &&& r.0@ == splice(content@, from, to, spaces(tab_size as nat))
            &&& r.1 == from + tab_size
        }),
{
    let from = if a <= b {
        a
    } else {
        b
    };
    let to = if a <= b {
        b
    } else {
        a
    };
    let mut sp: Vec<char> = Vec::new();
    let mut i: u8 = 0;
    while i < tab_size
        invariant
            i <= tab_size,
            sp@ == spaces(i as nat),
        decreases tab_size - i,
    {
        sp.push(' ');
        assert(sp@ =~= spaces((i + 1) as nat));
        i += 1;
    }
    let text = string_of(&sp);
    let out = splice_text(content, from, to, text.as_str());
    assert(from + tab_size <= out@.len());
    (out, from + tab_size as usize)
}


// ── Replacing find matches ───────────────────────────────────────────────────

/// The character spans of the matches.
pub open spec fn char_spans(v: Seq<MatchRange>) -> Seq<(int, int)> {
    v.map_values(|m: MatchRange| (m.char_start as int, m.char_end as int))
}

/// Spans that lie in order, do not overlap, and end within a text of `len`
/// characters.
pub open spec fn spans_ordered(sp: Seq<(int, int)>, len: int) -> bool {
    &&& forall|i: int| 0 <= i < sp.len() ==> 0 <= (#[trigger] sp[i]).0 <= sp[i].1 <= len
    &&& forall|i: int, j: int| 0 <= i < j < sp.len() ==> (#[trigger] sp[i]).1 <= (#[trigger] sp[j]).0
}

/// `s` with every span replaced by `w`, the last span first so that the
/// earlier spans keep their positions.
pub open spec fn replace_spans(s: Seq<char>, sp: Seq<(int, int)>, w: Seq<char>) -> Seq<char>
    decreases sp.len(),
{
    if sp.len() == 0 {
        s
    } else {
        replace_spans(splice(s, sp.last().0, sp.last().1, w), sp.drop_last(), w)
    }
}

/// `v` with the characters from `from` up to `to` replaced by `w`.
fn splice_vec(v: &Vec<char>, from: usize, to: usize, w: &Vec<char>) -> (r: Vec<char>)
    requires
        from <= to <= v.len(),
    ensures
        r@ == splice(v@, from as int, to as int, w@),
{
    let mut out = sub_chars(v, 0, from);
    extend_chars(&mut out, w);
    extend_chars(&mut out, &sub_chars(v, to, v.len()));
    assert(v@.subrange(0, from as int) =~= v@.take(from as int));
    assert(v@.subrange(to as int, v@.len() as int) =~= v@.skip(to as int));
    out
}

/// Replace every match (by its character span) with `with`, working from the
/// last match back so that earlier positions stay valid.
pub fn replace_matches(content: &str, matches: &[MatchRange], with: &str) -> (r: String)
    requires
        spans_ordered(char_spans(matches@), content@.len() as int),
    ensures
        r@ == replace_spans(content@, char_spans(matches@), with@),
{
    let ghost sp = char_spans(matches@);
    let w = chars_of(with);
    let mut cur = chars_of(content);
    let mut i: usize = matches.len();
    assert(sp.take(i as int) =~= sp);
    while i > 0
        invariant
            i <= matches@.len(),
            sp == char_spans(matches@),
            spans_ordered(sp, content@.len() as int),
            w@ == with@,
            replace_spans(content@, sp, with@) == replace_spans(cur@, sp.take(i as int), with@),
            ({
                let b = if i == matches@.len() {
                    content@.len() as int
                } else {
                    sp[i as int].0
                };
                &&& b <= cur@.len()
                &&& cur@.take(b) == content@.take(b)
            }),
        decreases i,
    {
        let m = &matches[i - 1];
        let ghost b = if i == matches@.len() {
            content@.len() as int
        } else {
            sp[i as int].0
        };
        assert(sp[i - 1] == (m.char_start as int, m.char_end as int));
        assert(sp[i - 1].1 <= b) by {
            if i < matches@.len() {
                assert(sp[i - 1].1 <= sp[i as int].0);
            }
        }
        let ghost old_cur = cur@;
        cur = splice_vec(&cur, m.char_start, m.char_end, &w);
        assert(sp.take(i as int).drop_last() =~= sp.take(i - 1));
        assert(sp.take(i as int).last() == sp[i - 1]);
        assert(cur@.take(m.char_start as int) =~= old_cur.take(b).take(m.char_start as int));
        assert(content@.take(m.char_start as int) =~= content@.take(b).take(m.char_start as int));
        i -= 1;
    }
    assert(sp.take(0) =~= Seq::<(int, int)>::empty());
    string_of(&cur)
}

// ── Undo history ─────────────────────────────────────────────────────────────

/// At most this many snapshots are kept for undo.
pub open spec fn undo_limit() -> nat {
    200
}

/// The undo history after saving `snapshot`: it goes last, and the oldest
/// snapshot is dropped when the history would exceed the limit.
pub open spec fn undo_pushed(stack: Seq<String>, snapshot: String) -> Seq<String> {
    let t = stack.push(snapshot);
    if t.len() > undo_limit() {
        t.drop_first()
    } else {
        t
    }
}

/// Save a snapshot of the text before a change.
pub fn push_undo(stack: &mut VecDeque<String>, snapshot: String)
    ensures
        final(stack)@ == undo_pushed(old(stack)@, snapshot),
{
    stack.push_back(snapshot);
    if stack.len() > 200 {
        let _ = stack.pop_front();
        assert(stack@ =~= old(stack)@.push(snapshot).drop_first());
    }
}

/// The undo history never grows past its limit.
pub proof fn lemma_undo_bounded(stack: Seq<String>, snapshot: String)
    requires
        stack.len() <= undo_limit(),
    ensures
        undo_pushed(stack, snapshot).len() <= undo_limit(),
{
}

/// Undoing right after a save gives back the saved text and the history as
/// it was, as long as the history was not full.
pub proof fn lemma_undo_restores(stack: Seq<String>, snapshot: String)
    requires
        stack.len() < undo_limit(),
    ensures
        undo_pushed(stack, snapshot).last() == snapshot,
        undo_pushed(stack, snapshot).drop_last() == stack,
{
    assert(stack.push(snapshot).drop_last() =~= stack);
}

/// Take the latest snapshot back out of the history.
pub fn pop_undo(stack: &mut VecDeque<String>) -> (r: Option<String>)
    ensures
        old(stack)@.len() == 0 ==> r is None && final(stack)@ == old(stack)@,
        old(stack)@.len() > 0 ==> r == Some(old(stack)@.last()) && final(stack)@
            == old(stack)@.drop_last(),
{
    let r = stack.pop_back();
    proof {
        if old(stack)@.len() > 0 {
            assert(old(stack)@.subrange(0, old(stack)@.len() - 1) =~= old(stack)@.drop_last());
        }
    }
    r
}

} // verus!
