//! The Markdown file of foreshadows: how the list is written, and how it is
//! read back from the `## ` headings.
use vstd::prelude::*;
use vstd::string::StringExecFns;
use crate::models::{text_views, Foreshadow};
use crate::text::{
    chars_of, contains_char, contains_seq, index_of_char, is_space, lemma_index_of_char, lemma_lines_of_append,
    lemma_lines_of_cons, lemma_replace_all_absent, lemma_replace_all_match, lemma_replace_all_prefix,
    lemma_trim_ws_trailing_space, occurs_at, strip_cr, has_prefix, join_strings, join_with, lines_of, replace_all,
    replace_chars, split_lines, starts_with_chars, string_of, sub_chars, trim_chars, trim_ws,
};

verus! {

// ── Writing ──────────────────────────────────────────────────────────────────

/// The status written after a foreshadow's name.
pub open spec fn status_text(resolved: bool) -> Seq<char> {
    if resolved {
        "✅ 已解决"@
    } else {
        "⏳ 未解决"@
    }
}

/// The line listing the related chapters.
pub open spec fn related_line(related: Seq<Seq<char>>) -> Seq<char> {
    "**关联章节**: "@ + join_with(related, "、"@)
}

/// The block of one foreshadow: its heading with the status, then the
/// description and the related chapters when there are any, each followed by
/// a blank line.
pub open spec fn entry_md(
    name: Seq<char>,
    description: Seq<char>,
    related: Seq<Seq<char>>,
    resolved: bool,
) -> Seq<char> {
    "## "@ + name + " "@ + status_text(resolved) + "\n\n"@ + (if description.len() == 0 {
        Seq::<char>::empty()
    } else {
        description + "\n\n"@
    }) + (if related.len() == 0 {
        Seq::<char>::empty()
    } else {
        related_line(related) + "\n\n"@
    })
}

/// The block of a foreshadow.
pub open spec fn foreshadow_md(f: Foreshadow) -> Seq<char> {
    entry_md(f.name@, f.description@, text_views(f.related_chapters@), f.resolved)
}

/// The blocks of all foreshadows, in order.
pub open spec fn entries_md(fs: Seq<Foreshadow>) -> Seq<char>
    decreases fs.len(),
{
    if fs.len() == 0 {
        Seq::<char>::empty()
    } else {
        entries_md(fs.drop_last()) + foreshadow_md(fs.last())
    }
}

/// The whole file: a title, then the blocks.
pub open spec fn foreshadows_md(fs: Seq<Foreshadow>) -> Seq<char> {
    "# 伏笔列表\n\n"@ + entries_md(fs)
}

/// Write the foreshadow list as Markdown.
#[verifier::spinoff_prover]
#[verifier::rlimit(40)]
pub fn foreshadows_to_md(fs: &[Foreshadow]) -> (r: String)
    ensures
        r@ == foreshadows_md(fs@),
{
    let mut md = String::from_str("# 伏笔列表\n\n");
    let mut i: usize = 0;
    assert(fs@.take(0) =~= Seq::<Foreshadow>::empty());
    while i < fs.len()
        invariant
            i <= fs.len(),
            md@ == "# 伏笔列表\n\n"@ + entries_md(fs@.take(i as int)),
        decreases fs.len() - i,
    {
        let f = &fs[i];
        assert(fs@.take(i + 1).drop_last() =~= fs@.take(i as int));
        let ghost before = md@;
        md.append("## ");
        md.append(f.name.as_str());
        md.append(" ");
        if f.resolved {
            md.append("✅ 已解决");
        } else {
            md.append("⏳ 未解决");
        }
        md.append("\n\n");
        let ghost head = md@;
        if !f.description.as_str().is_empty() {
            md.append(f.description.as_str());
            md.append("\n\n");
        }
        let ghost mid = md@;
        if f.related_chapters.len() > 0 {
            md.append("**关联章节**: ");
            let joined = join_strings(&f.related_chapters, "、");
            md.append(joined.as_str());
            md.append("\n\n");
        }
        proof {
            let d = if f.description@.len() == 0 {
                Seq::<char>::empty()
            } else {
                f.description@ + "\n\n"@
            };
            let rl = if f.related_chapters@.len() == 0 {
                Seq::<char>::empty()
            } else {
                related_line(text_views(f.related_chapters@)) + "\n\n"@
            };
            assert(head =~= before + ("## "@ + f.name@ + " "@ + status_text(f.resolved)
                + "\n\n"@));
            assert(mid =~= head + d);
            assert(md@ =~= mid + rl);
            assert(md@ =~= before + foreshadow_md(*f));
        }
        i += 1;
    }
    assert(fs@.take(fs.len() as int) =~= fs@);
    md
}

// ── Reading ──────────────────────────────────────────────────────────────────

/// `s` with every status marker removed (`✅`, `已解决`, `⏳`, `未解决`, in
/// that order).
pub open spec fn without_markers(s: Seq<char>) -> Seq<char> {
    replace_all(
        replace_all(
            replace_all(replace_all(s, "✅"@, Seq::<char>::empty()), "已解决"@, Seq::<char>::empty()),
            "⏳"@,
            Seq::<char>::empty(),
        ),
        "未解决"@,
        Seq::<char>::empty(),
    )
}

/// What a line contributes when the file is read: a `## ` heading gives the
/// name (markers removed, trimmed) and whether it carries `✅`; a heading
/// whose name comes out empty, and every other line, give nothing.
pub open spec fn heading_entry(line: Seq<char>) -> Option<(Seq<char>, bool)> {
    if has_prefix(line, "## "@) {
        let rest = line.skip(3);
        let name = trim_ws(without_markers(rest));
        if name.len() > 0 {
            Some((name, rest.contains('✅')))
        } else {
            None
        }
    } else {
        None
    }
}

/// The (name, resolved) pairs the lines give, in order.
pub open spec fn entries_of_lines(lines: Seq<Seq<char>>) -> Seq<(Seq<char>, bool)>
    decreases lines.len(),
{
    if lines.len() == 0 {
        Seq::<(Seq<char>, bool)>::empty()
    } else {
        let prev = entries_of_lines(lines.drop_last());
        match heading_entry(lines.last()) {
            Some(e) => prev.push(e),
            None => prev,
        }
    }
}

/// Name and status of each foreshadow.
pub open spec fn summaries(fs: Seq<Foreshadow>) -> Seq<(Seq<char>, bool)> {
    fs.map_values(|f: Foreshadow| (f.name@, f.resolved))
}

/// What a line gives when the file is read.
fn heading_of_line(line: &Vec<char>) -> (r: Option<(Vec<char>, bool)>)
    ensures
        r matches Some(e) ==> heading_entry(line@) == Some((e.0@, e.1)),
        r is None ==> heading_entry(line@) is None,
{
    let prefix = chars_of("## ");
    proof {
        reveal_strlit("## ");
    }
    if !starts_with_chars(line, &prefix) {
        return None;
    }
    let rest = sub_chars(line, 3, line.len());
    assert(rest@ =~= line@.skip(3));
    let resolved = contains_char(&rest, '✅');
    let none: Vec<char> = Vec::new();
    let a = replace_chars(&rest, &chars_of("✅"), &none);
    let b = replace_chars(&a, &chars_of("已解决"), &none);
    let c = replace_chars(&b, &chars_of("⏳"), &none);
    let d = replace_chars(&c, &chars_of("未解决"), &none);
    let name = trim_chars(&d);
    if name.len() == 0 {
        None
    } else {
        Some((name, resolved))
    }
}

/// Read the foreshadow list back from its Markdown: each `## ` heading with
/// a non-empty name becomes an entry with that name and status; descriptions
/// and related chapters are not read back.
pub fn foreshadows_from_md(text: &str) -> (r: Vec<Foreshadow>)
    ensures
        summaries(r@) == entries_of_lines(lines_of(text@)),
        forall|i: int|
            0 <= i < r@.len() ==> (#[trigger] r@[i]).description@.len() == 0
                && r@[i].related_chapters@.len() == 0,
{
    let lines = split_lines(&chars_of(text));
    let ghost ls = lines_of(text@);
    let mut out: Vec<Foreshadow> = Vec::new();
    let mut i: usize = 0;
    assert(ls.take(0) =~= Seq::<Seq<char>>::empty());
    assert(summaries(out@) =~= Seq::<(Seq<char>, bool)>::empty());
    while i < lines.len()
        invariant
            i <= lines.len(),
            ls == lines_of(text@),
            lines@.len() == ls.len(),
            forall|k: int| 0 <= k < lines@.len() ==> #[trigger] lines@[k]@ == ls[k],
            summaries(out@) == entries_of_lines(ls.take(i as int)),
            forall|k: int|
                0 <= k < out@.len() ==> (#[trigger] out@[k]).description@.len() == 0
                    && out@[k].related_chapters@.len() == 0,
        decreases lines.len() - i,
    {
        assert(ls.take(i + 1).drop_last() =~= ls.take(i as int));
        assert(ls.take(i + 1).last() == lines@[i as int]@);
        match heading_of_line(&lines[i]) {
            Some(e) => {
                let (name, resolved) = e;
                let mut f = Foreshadow::new(string_of(&name).as_str());
                f.resolved = resolved;
                let ghost before = out@;
                out.push(f);
                assert(summaries(out@) =~= summaries(before).push((name@, resolved)));
            },
            None => {},
        }
        i += 1;
    }
    assert(ls.take(lines.len() as int) =~= ls);
    out
}


// ── Round trip ───────────────────────────────────────────────────────────────

/// A name that reads back as itself: not empty, no white space at either
/// end, on one line, and free of the status markers.
pub open spec fn name_reads_back(n: Seq<char>) -> bool {
    &&& n.len() > 0
    &&& !is_space(n[0])
    &&& !is_space(n.last())
    &&& !n.contains('\n')
    &&& !contains_seq(n, "✅"@)
    &&& !contains_seq(n, "已解决"@)
    &&& !contains_seq(n, "⏳"@)
    &&& !contains_seq(n, "未解决"@)
}

/// No line of `t` is a `## ` heading.
pub open spec fn no_heading_line(t: Seq<char>) -> bool {
    forall|i: int| 0 <= i < lines_of(t).len() ==> !has_prefix(#[trigger] lines_of(t)[i], "## "@)
}

/// A foreshadow whose block reads back as its name and status: the name reads
/// back, and neither the description nor the related-chapters line holds a
/// line that looks like a heading.
pub open spec fn reads_back(f: Foreshadow) -> bool {
    &&& name_reads_back(f.name@)
    &&& no_heading_line(f.description@)
    &&& f.related_chapters@.len() > 0 ==> no_heading_line(
        related_line(text_views(f.related_chapters@)),
    )
}

proof fn lemma_entries_append(x: Seq<Seq<char>>, y: Seq<Seq<char>>)
    ensures
        entries_of_lines(x + y) == entries_of_lines(x) + entries_of_lines(y),
    decreases y.len(),
{
    if y.len() == 0 {
        assert(x + y =~= x);
        assert(entries_of_lines(x) + entries_of_lines(y) =~= entries_of_lines(x));
    } else {
        assert((x + y).drop_last() =~= x + y.drop_last());
        assert((x + y).last() == y.last());
        lemma_entries_append(x, y.drop_last());
        match heading_entry(y.last()) {
            Some(e) => {
                assert(entries_of_lines(x) + entries_of_lines(y.drop_last()).push(e) =~= (
                entries_of_lines(x) + entries_of_lines(y.drop_last())).push(e));
            },
            None => {},
        }
    }
}

proof fn lemma_entries_quiet(ls: Seq<Seq<char>>)
    requires
        forall|i: int| 0 <= i < ls.len() ==> !has_prefix(#[trigger] ls[i], "## "@),
    ensures
        entries_of_lines(ls) == Seq::<(Seq<char>, bool)>::empty(),
    decreases ls.len(),
{
    if ls.len() > 0 {
        assert(!has_prefix(ls[ls.len() - 1], "## "@));
        lemma_entries_quiet(ls.drop_last());
    }
}

proof fn lemma_strip_cr_prefix(l: Seq<char>, p: Seq<char>)
    requires
        has_prefix(strip_cr(l), p),
    ensures
        has_prefix(l, p),
{
    if l.len() > 0 && l.last() == '\r' {
        assert(l.drop_last().take(p.len() as int) =~= l.take(p.len() as int));
    }
}

/// A block followed by a blank line still has no heading line.
proof fn lemma_no_heading_extend(t: Seq<char>)
    requires
        no_heading_line(t),
    ensures
        no_heading_line(t + "\n\n"@),
    decreases t.len(),
{
    reveal_strlit("\n\n");
    reveal_strlit("## ");
    let nl: Seq<char> = seq!['\n'];
    assert(Seq::<char>::empty() + nl + Seq::<char>::empty() =~= nl);
    lemma_lines_of_cons(Seq::<char>::empty(), Seq::<char>::empty());
    assert(lines_of(nl) =~= seq![Seq::<char>::empty()]);
    lemma_index_of_char(t, '\n');
    let k = index_of_char(t, '\n') as int;
    if k == t.len() {
        assert(t + "\n\n"@ =~= t + nl + nl);
        lemma_lines_of_cons(t, nl);
        let ls = lines_of(t + "\n\n"@);
        assert(ls =~= seq![strip_cr(t), Seq::<char>::empty()]);
        assert forall|i: int| 0 <= i < ls.len() implies !has_prefix(#[trigger] ls[i], "## "@) by {
            if i == 0 && has_prefix(strip_cr(t), "## "@) {
                lemma_strip_cr_prefix(t, "## "@);
                if t.len() > 0 {
                    lemma_lines_of_cons(t, Seq::<char>::empty());
                    assert(t + nl + Seq::<char>::empty() =~= t + nl);
                    assert(!t.contains('\n'));
                    assert(lines_of(t) =~= seq![t]) by {
                        assert(t.take(k) =~= t);
                    }
                    assert(!has_prefix(lines_of(t)[0], "## "@));
                }
            }
        }
    } else {
        let head = t.take(k);
        let r = t.skip(k + 1);
        assert(!head.contains('\n')) by {
            if head.contains('\n') {
                let j = choose|j: int| 0 <= j < head.len() && head[j] == '\n';
                assert(t[j] == '\n');
            }
        }
        assert(t =~= head + nl + r);
        assert(t + "\n\n"@ =~= head + nl + (r + "\n\n"@));
        lemma_lines_of_cons(head, r);
        lemma_lines_of_cons(head, r + "\n\n"@);
        assert(no_heading_line(r)) by {
            assert forall|i: int| 0 <= i < lines_of(r).len() implies !has_prefix(
                #[trigger] lines_of(r)[i],
                "## "@,
            ) by {
                assert(lines_of(t)[i + 1] == lines_of(r)[i]);
            }
        }
        lemma_no_heading_extend(r);
        let ls = lines_of(t + "\n\n"@);
        assert forall|i: int| 0 <= i < ls.len() implies !has_prefix(#[trigger] ls[i], "## "@) by {
            if i == 0 {
                assert(ls[0] == lines_of(t)[0]);
            } else {
                assert(ls[i] == lines_of(r + "\n\n"@)[i - 1]);
            }
        }
    }
}


/// `seq![c] + y` with `c` not starting `pat`: `c` stays.
proof fn lemma_replace_keep(c: char, y: Seq<char>, pat: Seq<char>)
    requires
        pat.len() > 0,
        pat[0] != c,
    ensures
        replace_all(seq![c] + y, pat, Seq::<char>::empty()) == seq![c] + replace_all(
            y,
            pat,
            Seq::<char>::empty(),
        ),
{
    let s = seq![c] + y;
    if has_prefix(s, pat) {
        assert(s.take(pat.len() as int)[0] == c);
    }
    assert(s.drop_first() =~= y);
}

/// The status text loses every marker, leaving its two spaces.
proof fn lemma_status_markers(resolved: bool)
    ensures
        without_markers(" "@ + status_text(resolved)) == "  "@,
{
    reveal_strlit(" ");
    reveal_strlit("  ");
    reveal_strlit("✅ 已解决");
    reveal_strlit("⏳ 未解决");
    reveal_strlit("✅");
    reveal_strlit("已解决");
    reveal_strlit("⏳");
    reveal_strlit("未解决");
    let e = Seq::<char>::empty();
    let sp: Seq<char> = seq![' '];
    let ok: Seq<char> = seq!['✅'];
    let wait: Seq<char> = seq!['⏳'];
    let done: Seq<char> = seq!['已', '解', '决'];
    let open: Seq<char> = seq!['未', '解', '决'];
    assert("✅"@ =~= ok);
    assert("已解决"@ =~= done);
    assert("⏳"@ =~= wait);
    assert("未解决"@ =~= open);
    assert(!contains_seq(sp, ok)) by {
        if contains_seq(sp, ok) {
            let i = choose|i: int| occurs_at(sp, ok, i);
            assert(sp.subrange(i, i + 1)[0] == sp[i]);
        }
    }
    if resolved {
        let t = " "@ + status_text(resolved);
        assert(t =~= sp + (ok + (sp + done)));
        // ✅
        lemma_replace_keep(' ', ok + (sp + done), ok);
        assert(seq![' '] + (ok + (sp + done)) =~= t);
        lemma_replace_all_match(sp + done, ok, e);
        lemma_replace_keep(' ', done, ok);
        assert(seq![' '] + done =~= sp + done);
        lemma_replace_keep('已', seq!['解', '决'], ok);
        lemma_replace_keep('解', seq!['决'], ok);
        lemma_replace_keep('决', e, ok);
        assert(seq!['决'] + e =~= seq!['决']);
        assert(seq!['解'] + seq!['决'] =~= seq!['解', '决']);
        assert(seq!['已'] + seq!['解', '决'] =~= done);
        let t1 = sp + sp + done;
        assert(replace_all(t, ok, e) =~= t1);
        // 已解决
        assert(t1 =~= seq![' '] + (seq![' '] + (done + e)));
        lemma_replace_keep(' ', seq![' '] + (done + e), done);
        lemma_replace_keep(' ', done + e, done);
        lemma_replace_all_match(e, done, e);
        let t2 = sp + sp;
        assert(replace_all(t1, done, e) =~= t2);
        // ⏳ and 未解决
        assert(t2 =~= seq![' '] + (seq![' '] + e));
        lemma_replace_keep(' ', seq![' '] + e, wait);
        lemma_replace_keep(' ', e, wait);
        assert(replace_all(t2, wait, e) =~= t2);
        lemma_replace_keep(' ', seq![' '] + e, open);
        lemma_replace_keep(' ', e, open);
        assert(replace_all(t2, open, e) =~= t2);
        assert(t2 =~= "  "@);
        assert(without_markers(t) == replace_all(replace_all(replace_all(replace_all(t, ok, e), done, e), wait, e), open, e));
    } else {
        let t = " "@ + status_text(resolved);
        assert(t =~= seq![' '] + (seq!['⏳'] + (seq![' '] + (seq!['未'] + (seq!['解'] + (
        seq!['决'] + e))))));
        // ✅: nothing to remove
        lemma_replace_keep('决', e, ok);
        lemma_replace_keep('解', seq!['决'] + e, ok);
        lemma_replace_keep('未', seq!['解'] + (seq!['决'] + e), ok);
        lemma_replace_keep(' ', seq!['未'] + (seq!['解'] + (seq!['决'] + e)), ok);
        lemma_replace_keep('⏳', seq![' '] + (seq!['未'] + (seq!['解'] + (seq!['决'] + e))), ok);
        lemma_replace_keep(
            ' ',
            seq!['⏳'] + (seq![' '] + (seq!['未'] + (seq!['解'] + (seq!['决'] + e)))),
            ok,
        );
        assert(replace_all(t, ok, e) =~= t);
        // 已解决: nothing to remove
        lemma_replace_keep('决', e, done);
        lemma_replace_keep('解', seq!['决'] + e, done);
        lemma_replace_keep('未', seq!['解'] + (seq!['决'] + e), done);
        lemma_replace_keep(' ', seq!['未'] + (seq!['解'] + (seq!['决'] + e)), done);
        lemma_replace_keep('⏳', seq![' '] + (seq!['未'] + (seq!['解'] + (seq!['决'] + e))), done);
        lemma_replace_keep(
            ' ',
            seq!['⏳'] + (seq![' '] + (seq!['未'] + (seq!['解'] + (seq!['决'] + e)))),
            done,
        );
        assert(replace_all(t, done, e) =~= t);
        // ⏳
        let rest = seq![' '] + (open + e);
        assert(t =~= seq![' '] + (wait + rest));
        lemma_replace_keep(' ', wait + rest, wait);
        lemma_replace_all_match(rest, wait, e);
        lemma_replace_keep(' ', open + e, wait);
        lemma_replace_keep('未', seq!['解'] + (seq!['决'] + e), wait);
        lemma_replace_keep('解', seq!['决'] + e, wait);
        lemma_replace_keep('决', e, wait);
        assert(open + e =~= seq!['未'] + (seq!['解'] + (seq!['决'] + e)));
        let t3 = seq![' '] + (seq![' '] + (open + e));
        assert(replace_all(t, wait, e) =~= t3);
        // 未解决
        lemma_replace_keep(' ', seq![' '] + (open + e), open);
        lemma_replace_keep(' ', open + e, open);
        lemma_replace_all_match(e, open, e);
        assert(replace_all(t3, open, e) =~= "  "@);
        assert(without_markers(t) == replace_all(replace_all(replace_all(replace_all(t, ok, e), done, e), wait, e), open, e));
    }
}


/// Removing `pat` from a text that begins with a space, when `pat` holds no
/// space, leaves the name part in front and the space in front of the rest.
proof fn lemma_strip_after_name(n: Seq<char>, y: Seq<char>, pat: Seq<char>)
    requires
        pat.len() > 0,
        !pat.contains(' '),
        !contains_seq(n, pat),
        y.len() > 0,
        y[0] == ' ',
    ensures
        replace_all(n + y, pat, Seq::<char>::empty()) == n + replace_all(y, pat, Seq::<char>::empty()),
        replace_all(y, pat, Seq::<char>::empty()).len() > 0,
        replace_all(y, pat, Seq::<char>::empty())[0] == ' ',
{
    lemma_replace_all_prefix(n, y, pat, Seq::<char>::empty());
    assert(pat[0] != ' ') by {
        assert(pat.contains(pat[0]));
    }
    assert(y =~= seq![' '] + y.drop_first());
    lemma_replace_keep(' ', y.drop_first(), pat);
}

/// A foreshadow's heading reads back as its name and status.
proof fn lemma_heading_reads_back(n: Seq<char>, resolved: bool)
    requires
        name_reads_back(n),
    ensures
        heading_entry("## "@ + n + " "@ + status_text(resolved)) == Some((n, resolved)),
{
    reveal_strlit("## ");
    reveal_strlit(" ");
    reveal_strlit("  ");
    reveal_strlit("✅ 已解决");
    reveal_strlit("⏳ 未解决");
    reveal_strlit("✅");
    reveal_strlit("已解决");
    reveal_strlit("⏳");
    reveal_strlit("未解决");
    let tail = " "@ + status_text(resolved);
    let line = "## "@ + n + tail;
    assert(line =~= "## "@ + n + " "@ + status_text(resolved));
    assert(line.take(3) =~= "## "@);
    let rest = line.skip(3);
    assert(rest =~= n + tail);
    // The ✅ occurs in the status alone.
    assert(!n.contains('✅')) by {
        if n.contains('✅') {
            let j = choose|j: int| 0 <= j < n.len() && n[j] == '✅';
            assert(n.subrange(j, j + 1) =~= "✅"@);
            assert(occurs_at(n, "✅"@, j));
        }
    }
    if resolved {
        assert(rest[n.len() + 1int] == '✅');
        assert(rest.contains('✅'));
    } else {
        assert(!rest.contains('✅')) by {
            if rest.contains('✅') {
                let j = choose|j: int| 0 <= j < rest.len() && rest[j] == '✅';
                if j < n.len() {
                    assert(n[j] == '✅');
                } else {
                    assert(tail[j - n.len()] == '✅');
                }
            }
        }
    }
    // The markers go, the name stays.
    let e = Seq::<char>::empty();
    let y1 = tail;
    assert(!"✅"@.contains(' ')) by {
        if "✅"@.contains(' ') {
            let j = choose|j: int| 0 <= j < "✅"@.len() && "✅"@[j] == ' ';
        }
    }
    assert(!"已解决"@.contains(' ')) by {
        if "已解决"@.contains(' ') {
            let j = choose|j: int| 0 <= j < "已解决"@.len() && "已解决"@[j] == ' ';
        }
    }
    assert(!"⏳"@.contains(' ')) by {
        if "⏳"@.contains(' ') {
            let j = choose|j: int| 0 <= j < "⏳"@.len() && "⏳"@[j] == ' ';
        }
    }
    assert(!"未解决"@.contains(' ')) by {
        if "未解决"@.contains(' ') {
            let j = choose|j: int| 0 <= j < "未解决"@.len() && "未解决"@[j] == ' ';
        }
    }
    lemma_strip_after_name(n, y1, "✅"@);
    let y2 = replace_all(y1, "✅"@, e);
    lemma_strip_after_name(n, y2, "已解决"@);
    let y3 = replace_all(y2, "已解决"@, e);
    lemma_strip_after_name(n, y3, "⏳"@);
    let y4 = replace_all(y3, "⏳"@, e);
    lemma_strip_after_name(n, y4, "未解决"@);
    let y5 = replace_all(y4, "未解决"@, e);
    lemma_status_markers(resolved);
    assert(y5 == without_markers(tail));
    assert(without_markers(rest) == n + "  "@);
    lemma_trim_ws_trailing_space(n, "  "@);
}


/// A text followed by a blank line, with no heading line in it, gives no
/// entry.
proof fn lemma_quiet_block(t: Seq<char>)
    requires
        no_heading_line(t),
    ensures
        entries_of_lines(lines_of(t + "\n\n"@)) == Seq::<(Seq<char>, bool)>::empty(),
        (t + "\n\n"@).len() > 0,
        (t + "\n\n"@).last() == '\n',
{
    reveal_strlit("\n\n");
    lemma_no_heading_extend(t);
    lemma_entries_quiet(lines_of(t + "\n\n"@));
}

/// The block of a foreshadow that reads back gives exactly its name and
/// status.
proof fn lemma_block_reads_back(f: Foreshadow)
    requires
        reads_back(f),
    ensures
        entries_of_lines(lines_of(foreshadow_md(f))) == seq![(f.name@, f.resolved)],
        foreshadow_md(f).len() > 0,
        foreshadow_md(f).last() == '\n',
{
    reveal_strlit("## ");
    reveal_strlit(" ");
    reveal_strlit("\n\n");
    reveal_strlit("✅ 已解决");
    reveal_strlit("⏳ 未解决");
    let n = f.name@;
    let st = status_text(f.resolved);
    let hl = "## "@ + n + " "@ + st;
    let nl: Seq<char> = seq!['\n'];
    let e = Seq::<char>::empty();
    assert(!hl.contains('\n')) by {
        if hl.contains('\n') {
            let j = choose|j: int| 0 <= j < hl.len() && hl[j] == '\n';
            if 3 <= j < 3 + n.len() {
                assert(n[j - 3] == '\n');
            }
        }
    }
    assert(hl.last() == '决');
    let head = hl + "\n\n"@;
    assert(head =~= hl + nl + nl);
    lemma_lines_of_cons(hl, nl);
    lemma_lines_of_cons(e, e);
    assert(e + nl + e =~= nl);
    assert(strip_cr(e) =~= e);
    let hls = seq![hl, e];
    assert(lines_of(head) =~= hls);
    lemma_heading_reads_back(n, f.resolved);
    assert(hls.drop_last() =~= seq![hl]);
    assert(seq![hl].drop_last() =~= Seq::<Seq<char>>::empty());
    assert(heading_entry(e) is None);
    assert(entries_of_lines(Seq::<Seq<char>>::empty()) =~= Seq::<(Seq<char>, bool)>::empty());
    assert(seq![hl].last() == hl);
    assert(entries_of_lines(seq![hl]) =~= Seq::<(Seq<char>, bool)>::empty().push((n, f.resolved)));
    assert(entries_of_lines(seq![hl]) =~= seq![(n, f.resolved)]);
    assert(entries_of_lines(hls) =~= seq![(n, f.resolved)]);
    let d = if f.description@.len() == 0 {
        e
    } else {
        f.description@ + "\n\n"@
    };
    let rel = text_views(f.related_chapters@);
    let r = if f.related_chapters@.len() == 0 {
        e
    } else {
        related_line(rel) + "\n\n"@
    };
    assert(foreshadow_md(f) =~= head + (d + r));
    assert(head.last() == '\n');
    lemma_lines_of_append(head, d + r);
    lemma_entries_append(lines_of(head), lines_of(d + r));
    if f.related_chapters@.len() > 0 {
        lemma_quiet_block(related_line(rel));
    } else {
        assert(lines_of(r) =~= Seq::<Seq<char>>::empty());
    }
    assert(entries_of_lines(lines_of(r)) =~= Seq::<(Seq<char>, bool)>::empty());
    if f.description@.len() > 0 {
        lemma_quiet_block(f.description@);
        lemma_lines_of_append(d, r);
        lemma_entries_append(lines_of(d), lines_of(r));
        assert(entries_of_lines(lines_of(d + r)) =~= Seq::<(Seq<char>, bool)>::empty());
    } else {
        assert(d + r =~= r);
    }
    assert(seq![(n, f.resolved)] + Seq::<(Seq<char>, bool)>::empty() =~= seq![(n, f.resolved)]);
    if r.len() > 0 {
        assert(foreshadow_md(f).last() == r.last());
    } else if d.len() > 0 {
        assert(foreshadow_md(f).last() == d.last());
    } else {
        assert(foreshadow_md(f).last() == head.last());
    }
}

/// The title block, followed by the blocks of `fs`.
proof fn lemma_blocks_read_back(fs: Seq<Foreshadow>)
    requires
        forall|i: int| 0 <= i < fs.len() ==> reads_back(#[trigger] fs[i]),
    ensures
        entries_of_lines(lines_of(foreshadows_md(fs))) == summaries(fs),
        foreshadows_md(fs).len() > 0,
        foreshadows_md(fs).last() == '\n',
    decreases fs.len(),
{
    reveal_strlit("# 伏笔列表\n\n");
    reveal_strlit("## ");
    if fs.len() == 0 {
        let t0: Seq<char> = seq!['#', ' ', '伏', '笔', '列', '表'];
        let nl: Seq<char> = seq!['\n'];
        let e = Seq::<char>::empty();
        assert(foreshadows_md(fs) =~= t0 + nl + nl);
        assert(!t0.contains('\n')) by {
            if t0.contains('\n') {
                let j = choose|j: int| 0 <= j < t0.len() && t0[j] == '\n';
            }
        }
        lemma_lines_of_cons(t0, nl);
        lemma_lines_of_cons(e, e);
        assert(e + nl + e =~= nl);
        assert(strip_cr(e) =~= e);
        let ls = seq![t0, e];
        assert(lines_of(foreshadows_md(fs)) =~= ls);
        assert(!has_prefix(t0, "## "@)) by {
            if has_prefix(t0, "## "@) {
                assert(t0.take(3)[1] == t0[1]);
            }
        }
        lemma_entries_quiet(ls);
        assert(summaries(fs) =~= Seq::<(Seq<char>, bool)>::empty());
    } else {
        let prev = fs.drop_last();
        let f = fs.last();
        assert forall|i: int| 0 <= i < prev.len() implies reads_back(#[trigger] prev[i]) by {
            assert(prev[i] == fs[i]);
        }
        lemma_blocks_read_back(prev);
        lemma_block_reads_back(f);
        assert(foreshadows_md(fs) =~= foreshadows_md(prev) + foreshadow_md(f));
        lemma_lines_of_append(foreshadows_md(prev), foreshadow_md(f));
        lemma_entries_append(lines_of(foreshadows_md(prev)), lines_of(foreshadow_md(f)));
        assert(summaries(fs) =~= summaries(prev) + seq![(f.name@, f.resolved)]);
    }
}

/// Reading back what was written gives each foreshadow's name and status, in
/// order, provided every foreshadow reads back (its name is non-empty, has no
/// white space at its ends, stays on one line and holds no status marker, and
/// no line of its description or related-chapters line starts with `## `).
pub proof fn lemma_foreshadows_read_back(fs: Seq<Foreshadow>)
    requires
        forall|i: int| 0 <= i < fs.len() ==> reads_back(#[trigger] fs[i]),
    ensures
        entries_of_lines(lines_of(foreshadows_md(fs))) == summaries(fs),
{
    lemma_blocks_read_back(fs);
}

} // verus!
