//! The LLM panel's text handling: appending blocks to the prompt or the
//! editor, and browsing, filtering and deleting the request history.
use vstd::prelude::*;
use vstd::string::StringExecFns;
use crate::files::contains_chars;
use crate::models::{LlmHistory, LlmHistoryEntry};
use crate::text::{chars_of, contains_seq, lowercase, string_of, sub_chars, to_lowercase};

verus! {

/// `text` followed by a blank line and `block`.
pub open spec fn with_block(text: Seq<char>, block: Seq<char>) -> Seq<char> {
    text + "\n\n"@ + block
}

/// Append `block` after a blank line (LLM output into the editor, context
/// into the prompt).
pub fn append_block(text: &mut String, block: &str)
    ensures
        final(text)@ == with_block(old(text)@, block@),
{
    text.append("\n\n");
    text.append(block);
}

/// Append a context block to the prompt unless it is empty; says whether it
/// was appended.
pub fn inject_context(prompt: &mut String, block: &str) -> (r: bool)
    ensures
        r == (block@.len() > 0),
        r ==> final(prompt)@ == with_block(old(prompt)@, block@),
        !r ==> final(prompt)@ == old(prompt)@,
{
    if block.is_empty() {
        false
    } else {
        append_block(prompt, block);
        true
    }
}

/// A history entry is listed when the (lower-case) query is empty or occurs
/// in the lower-cased prompt or response.
pub open spec fn listed(lower_prompt: Seq<char>, lower_response: Seq<char>, query: Seq<char>) -> bool {
    query.len() == 0 || contains_seq(lower_prompt, query) || contains_seq(lower_response, query)
}

/// Whether an entry whose prompt and response were already lower-cased is
/// listed for the lower-case query.
pub fn lowered_entry_listed(lower_prompt: &str, lower_response: &str, query: &str) -> (r: bool)
    ensures
        r == listed(lower_prompt@, lower_response@, query@),
{
    if query.is_empty() {
        return true;
    }
    let q = chars_of(query);
    contains_chars(&chars_of(lower_prompt), &q) || contains_chars(&chars_of(lower_response), &q)
}

/// An entry is listed for a lower-case query when the query is empty or
/// occurs in its lower-cased prompt or response.
pub open spec fn entry_listed(e: LlmHistoryEntry, query: Seq<char>) -> bool {
    listed(lowercase(e.prompt@), lowercase(e.response@), query)
}

/// Whether an entry is listed for the lower-case query.
pub fn entry_is_listed(e: &LlmHistoryEntry, query: &str) -> (r: bool)
    ensures
        r == entry_listed(*e, query@),
{
    if query.is_empty() {
        return true;
    }
    let p = to_lowercase(e.prompt.as_str());
    let s = to_lowercase(e.response.as_str());
    lowered_entry_listed(p.as_str(), s.as_str(), query)
}

/// The indices of the listed entries, newest (last) first.
pub open spec fn listed_newest_first(entries: Seq<LlmHistoryEntry>, query: Seq<char>) -> Seq<usize>
    decreases entries.len(),
{
    if entries.len() == 0 {
        Seq::<usize>::empty()
    } else {
        let rest = listed_newest_first(entries.drop_last(), query);
        if entry_listed(entries.last(), query) {
            seq![(entries.len() - 1) as usize] + rest
        } else {
            rest
        }
    }
}

/// The listed indices are valid and run from the newest entry to the
/// oldest.
pub proof fn lemma_listed_newest_first(entries: Seq<LlmHistoryEntry>, query: Seq<char>)
    requires
        entries.len() <= usize::MAX,
    ensures
        forall|k: int|
            0 <= k < listed_newest_first(entries, query).len() ==> #[trigger] listed_newest_first(
                entries,
                query,
            )[k] < entries.len(),
        forall|k: int, l: int|
            0 <= k < l < listed_newest_first(entries, query).len() ==> #[trigger] listed_newest_first(
                entries,
                query,
            )[k] > #[trigger] listed_newest_first(entries, query)[l],
    decreases entries.len(),
{
    if entries.len() > 0 {
        let p = entries.drop_last();
        lemma_listed_newest_first(p, query);
        let rest = listed_newest_first(p, query);
        let all = listed_newest_first(entries, query);
        if entry_listed(entries.last(), query) {
            assert(all == seq![(entries.len() - 1) as usize] + rest);
            assert forall|k: int| 0 <= k < all.len() implies #[trigger] all[k] < entries.len() by {
                if k > 0 {
                    assert(all[k] == rest[k - 1]);
                }
            }
            assert forall|k: int, l: int| 0 <= k < l < all.len() implies #[trigger] all[k]
                > #[trigger] all[l] by {
                assert(all[l] == rest[l - 1]);
                if k > 0 {
                    assert(all[k] == rest[k - 1]);
                }
            }
        }
    }
}

/// The indices of the entries the history list shows for a search text
/// (matched in lower case), newest first.
pub fn filter_history(entries: &[LlmHistoryEntry], search: &str) -> (r: Vec<usize>)
    ensures
        r@ == listed_newest_first(entries@, lowercase(search@)),
{
    let q = to_lowercase(search);
    let mut out: Vec<usize> = Vec::new();
    let mut i: usize = entries.len();
    assert(entries@.take(i as int) =~= entries@);
    while i > 0
        invariant
            i <= entries.len(),
            q@ == lowercase(search@),
            listed_newest_first(entries@, q@) == out@ + listed_newest_first(
                entries@.take(i as int),
                q@,
            ),
        decreases i,
    {
        let ghost pre = entries@.take(i as int);
        assert(pre.drop_last() =~= entries@.take(i - 1));
        assert(pre.last() == entries@[i - 1]);
        if entry_is_listed(&entries[i - 1], q.as_str()) {
            let ghost before = out@;
            out.push(i - 1);
            assert(before + (seq![(i - 1) as usize] + listed_newest_first(entries@.take(i - 1), q@))
                =~= out@ + listed_newest_first(entries@.take(i - 1), q@));
        }
        i -= 1;
    }
    assert(entries@.take(0) =~= Seq::<LlmHistoryEntry>::empty());
    assert(out@ + Seq::<usize>::empty() =~= out@);
    out
}

/// The label of a history entry: its first 60 characters, with `…` when
/// the prompt is longer.
pub open spec fn preview_text(prompt: Seq<char>) -> Seq<char> {
    if prompt.len() > 60 {
        prompt.take(60) + "…"@
    } else {
        prompt
    }
}

/// The label of a history entry.
pub fn prompt_preview(prompt: &str) -> (r: String)
    ensures
        r@ == preview_text(prompt@),
{
    let v = chars_of(prompt);
    if v.len() > 60 {
        let head = sub_chars(&v, 0, 60);
        assert(head@ =~= prompt@.take(60));
        let mut out = string_of(&head);
        out.append("…");
        out
    } else {
        String::from_str(prompt)
    }
}

/// Delete entry `idx` of the history (nothing when it is out of range);
/// returns which entry stays expanded: none when the deleted one was.
pub fn delete_history_entry(h: &mut LlmHistory, idx: usize, expanded: Option<usize>) -> (r: Option<
    usize,
>)
    ensures
        final(h).next_id == old(h).next_id,
        idx < old(h).entries@.len() ==> final(h).entries@ == old(h).entries@.remove(idx as int),
        idx >= old(h).entries@.len() ==> final(h).entries@ == old(h).entries@,
        r == (if idx < old(h).entries@.len() && expanded == Some(idx) {
            None
        } else {
            expanded
        }),
{
    if idx < h.entries.len() {
        h.entries.remove(idx);
        if expanded == Some(idx) {
            return None;
        }
    }
    expanded
}

} // verus!
