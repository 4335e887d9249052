//! The editor's find / replace bar: match scanning and match navigation.
use vstd::prelude::*;
use vstd::utf8::encode_utf8;
use vstd::string::StrSliceExecFns;
use crate::text::{chars_of, lowercase, occurs_at, occurs_at_exec, to_lowercase};

verus! {

/// UTF-8 length in bytes of a text.
pub open spec fn utf8_len(s: Seq<char>) -> nat {
    encode_utf8(s).len()
}

/// Positions of the occurrences of `n` in `h` from position `i` on, found
/// left to right without overlap.
pub open spec fn occurrences_from(h: Seq<char>, n: Seq<char>, i: int) -> Seq<int>
    decreases h.len() - i,
{
    if n.len() == 0 || i < 0 || i + n.len() > h.len() {
        seq![]
    } else if occurs_at(h, n, i) {
        seq![i] + occurrences_from(h, n, i + n.len())
    } else {
        occurrences_from(h, n, i + 1)
    }
}

/// The char index of `t` at which its first `k` or more chars take exactly
/// `b` bytes, searching from char index `k` on (None when `b` falls inside a
/// character or past the end).
pub open spec fn index_at_byte_from(t: Seq<char>, b: int, k: int) -> Option<int>
    decreases t.len() - k,
{
    if k < 0 || k > t.len() {
        None
    } else if utf8_len(t.take(k)) == b {
        Some(k)
    } else if k == t.len() {
        None
    } else {
        index_at_byte_from(t, b, k + 1)
    }
}

/// The char index of `t` that starts at byte offset `b`, if `b` is a
/// character boundary of `t`.
pub open spec fn index_at_byte(t: Seq<char>, b: int) -> Option<int> {
    index_at_byte_from(t, b, 0)
}

/// A match found at char `p` of the scanned text `h`, placed in the content
/// `t`: byte offsets in `h`, char indices in `t` at those byte offsets (None
/// when an offset is not a character boundary of `t`).
pub open spec fn match_in_text(t: Seq<char>, h: Seq<char>, n: Seq<char>, p: int) -> Option<
    (usize, usize, usize, usize),
> {
    let bs = utf8_len(h.take(p)) as usize;
    let be = utf8_len(h.take(p + n.len())) as usize;
    match index_at_byte(t, bs as int) {
        Some(cs) => match index_at_byte(t, be as int) {
            Some(ce) => Some((bs, be, cs as usize, ce as usize)),
            None => None,
        },
        None => None,
    }
}

/// The matches at the positions `ps`, placed in `t`; None as soon as one of
/// them cannot be placed.
pub open spec fn matches_in_text_at(
    t: Seq<char>,
    h: Seq<char>,
    n: Seq<char>,
    ps: Seq<int>,
) -> Option<Seq<(usize, usize, usize, usize)>>
    decreases ps.len(),
{
    if ps.len() == 0 {
        Some(seq![])
    } else {
        match matches_in_text_at(t, h, n, ps.drop_last()) {
            Some(r) => match match_in_text(t, h, n, ps.last()) {
                Some(x) => Some(r.push(x)),
                None => None,
            },
            None => None,
        }
    }
}

/// The match ranges of `n` in the scanned text `h`, with char positions
/// counted in the content `t` at the byte offsets found in `h`.
pub open spec fn matches_in_text(t: Seq<char>, h: Seq<char>, n: Seq<char>) -> Option<
    Seq<(usize, usize, usize, usize)>,
> {
    matches_in_text_at(t, h, n, occurrences_from(h, n, 0))
}

/// One more character adds its own encoded length.
pub proof fn lemma_utf8_len_push(s: Seq<char>, c: char)
    ensures
        utf8_len(s.push(c)) == utf8_len(s) + vstd::utf8::encode_scalar(c as u32).len(),
    decreases s.len(),
{
    if s.len() == 0 {
        assert(s.push(c).drop_first() =~= Seq::<char>::empty());
        assert(encode_utf8(Seq::<char>::empty()) =~= Seq::<u8>::empty());
    } else {
        lemma_utf8_len_push(s.drop_first(), c);
        assert(s.push(c).drop_first() =~= s.drop_first().push(c));
    }
}

/// Prefix byte lengths grow by the length of the next character.
pub proof fn lemma_utf8_len_take_next(t: Seq<char>, k: int)
    requires
        0 <= k < t.len(),
    ensures
        utf8_len(t.take(k + 1)) == utf8_len(t.take(k)) + vstd::utf8::encode_scalar(
            t[k] as u32,
        ).len(),
        utf8_len(t.take(k + 1)) > utf8_len(t.take(k)),
{
    assert(t.take(k + 1) =~= t.take(k).push(t[k]));
    lemma_utf8_len_push(t.take(k), t[k]);
}

/// Prefix byte lengths strictly grow with the prefix.
pub proof fn lemma_utf8_len_take_increasing(t: Seq<char>, j: int, k: int)
    requires
        0 <= j < k <= t.len(),
    ensures
        utf8_len(t.take(j)) < utf8_len(t.take(k)),
    decreases k - j,
{
    lemma_utf8_len_take_next(t, k - 1);
    if j < k - 1 {
        lemma_utf8_len_take_increasing(t, j, k - 1);
    }
}

/// Searching from `k` finds the same index when no earlier prefix reaches `b`.
proof fn lemma_index_skip(t: Seq<char>, b: int, k: int)
    requires
        0 <= k <= t.len(),
        forall|j: int| 0 <= j < k ==> #[trigger] utf8_len(t.take(j)) < b,
    ensures
        index_at_byte(t, b) == index_at_byte_from(t, b, k),
    decreases k,
{
    if k > 0 {
        assert(utf8_len(t.take(k - 1)) < b);
        lemma_index_skip(t, b, k - 1);
    }
}

/// Nothing is found once the prefixes are past `b`.
proof fn lemma_index_overshoot(t: Seq<char>, b: int, k: int)
    requires
        0 <= k <= t.len(),
        utf8_len(t.take(k)) > b,
    ensures
        index_at_byte_from(t, b, k) is None,
    decreases t.len() - k,
{
    if k < t.len() {
        lemma_utf8_len_take_next(t, k);
        lemma_index_overshoot(t, b, k + 1);
    }
}

/// Once one match cannot be placed, no longer list of matches can.
proof fn lemma_matches_none_extends(
    t: Seq<char>,
    h: Seq<char>,
    n: Seq<char>,
    ps: Seq<int>,
    qs: Seq<int>,
)
    requires
        matches_in_text_at(t, h, n, ps) is None,
    ensures
        matches_in_text_at(t, h, n, ps + qs) is None,
    decreases qs.len(),
{
    if qs.len() == 0 {
        assert(ps + qs =~= ps);
    } else {
        lemma_matches_none_extends(t, h, n, ps, qs.drop_last());
        assert((ps + qs).drop_last() =~= ps + qs.drop_last());
    }
}

/// Byte length of the UTF-8 encoding of one character.
fn utf8_width(c: char) -> (w: usize)
    ensures
        w == vstd::utf8::encode_scalar(c as u32).len(),
{
    proof {
        vstd::utf8::char_is_scalar(c);
    }
    let u: u32 = c as u32;
    if u <= 0x7f {
        1
    } else if u <= 0x7ff {
        2
    } else if u <= 0xffff {
        3
    } else {
        4
    }
}

/// Move the cursor (`tk` chars, `tb` bytes into `t`) to byte offset `b`;
/// true, with the cursor there, when `b` is a character boundary of `t`.
fn seek_byte(t: &Vec<char>, tk: &mut usize, tb: &mut usize, b: usize) -> (r: bool)
    requires
        *old(tk) <= t@.len(),
        *old(tb) == utf8_len(t@.take(*old(tk) as int)),
    ensures
        r == (index_at_byte(t@, b as int) is Some),
        r ==> index_at_byte(t@, b as int) == Some(*final(tk) as int) && *final(tb) == b,
        r ==> *final(tk) <= t@.len() && *final(tb) == utf8_len(t@.take(*final(tk) as int)),
{
    if b < *tb {
        *tk = 0;
        *tb = 0;
        assert(t@.take(0) =~= Seq::<char>::empty());
        assert(encode_utf8(Seq::<char>::empty()) =~= Seq::<u8>::empty());
    }
    proof {
        assert forall|j: int| 0 <= j < *tk implies #[trigger] utf8_len(t@.take(j)) < b by {
            lemma_utf8_len_take_increasing(t@, j, *tk as int);
        }
    }
    while *tb < b && *tk < t.len()
        invariant
            *tk <= t@.len(),
            *tb == utf8_len(t@.take(*tk as int)),
            forall|j: int| 0 <= j < *tk ==> #[trigger] utf8_len(t@.take(j)) < b,
        decreases t@.len() - *tk,
    {
        let w = utf8_width(t[*tk]);
        proof {
            lemma_utf8_len_take_next(t@, *tk as int);
        }
        match tb.checked_add(w) {
            Some(next) => {
                *tb = next;
                *tk = *tk + 1;
            },
            None => {
                proof {
                    lemma_index_skip(t@, b as int, *tk as int);
                    lemma_index_overshoot(t@, b as int, *tk as int + 1);
                }
                return false;
            },
        }
    }
    proof {
        lemma_index_skip(t@, b as int, *tk as int);
        if *tb > b {
            lemma_index_overshoot(t@, b as int, *tk as int);
        }
    }
    *tb == b
}

/// The index after `c` in a cycle of `len` matches.
pub open spec fn next_match(c: nat, len: nat) -> nat {
    if len == 0 {
        c
    } else {
        (c + 1) % len
    }
}

/// The index before `c` in a cycle of `len` matches.
pub open spec fn prev_match(c: nat, len: nat) -> nat {
    if len == 0 {
        c
    } else if c == 0 {
        (len - 1) as nat
    } else {
        (c - 1) as nat
    }
}

/// Stepping forward then back (or back then forward) returns to the same
/// match, and both steps stay within the matches.
pub proof fn lemma_next_prev_inverse(c: nat, len: nat)
    requires
        c < len,
    ensures
        prev_match(next_match(c, len), len) == c,
        next_match(prev_match(c, len), len) == c,
        next_match(c, len) < len,
        prev_match(c, len) < len,
{
    if c + 1 == len {
        assert((c + 1) % len == 0) by (nonlinear_arith)
            requires
                c + 1 == len,
                len > 0,
        ;
    } else {
        assert((c + 1) % len == c + 1) by (nonlinear_arith)
            requires
                c + 1 < len,
        ;
    }
    if c == 0 {
        assert(((len - 1) as nat + 1) % len == 0) by (nonlinear_arith)
            requires
                len > 0,
        ;
    } else {
        assert(((c - 1) as nat + 1) % len == c) by (nonlinear_arith)
            requires
                0 < c < len,
        ;
    }
}

/// A single match within the editor content, with byte offsets (for
/// replacing) and char indices (for the cursor).
#[derive(Clone, Copy, Debug)]
pub struct MatchRange {
    pub byte_start: usize,
    pub byte_end: usize,
    pub char_start: usize,
    pub char_end: usize,
}

/// The values of a list of match ranges.
pub open spec fn ranges_view(v: Seq<MatchRange>) -> Seq<(usize, usize, usize, usize)> {
    v.map_values(|m: MatchRange| (m.byte_start, m.byte_end, m.char_start, m.char_end))
}

/// State of the find / replace bar.
pub struct FindBar {
    pub query: String,
    pub replace: String,
    pub case_sensitive: bool,
    pub replace_mode: bool,
    /// Cached match positions, refreshed whenever the query, the case
    /// sensitivity or the content changes.
    pub match_ranges: Vec<MatchRange>,
    /// Index into `match_ranges` of the selected match.
    pub current_match: usize,
    /// True once the query box has received its initial focus.
    pub focus_requested: bool,
    /// Lowercase copy of the content last searched case-insensitively.
    pub cached_lower: Option<String>,
    /// Byte length of the content when `cached_lower` was built.
    pub cached_lower_len: usize,
}

impl FindBar {
    /// The cached lowercase content, if any.
    pub open spec fn cache(&self) -> Option<Seq<char>> {
        match self.cached_lower {
            Some(s) => Some(s@),
            None => None,
        }
    }

    /// Byte length of the content the cache was built from.
    pub open spec fn cache_len(&self) -> usize {
        self.cached_lower_len
    }

    /// An empty bar, in find or in replace mode.
    pub fn new(replace_mode: bool) -> (r: Self)
        ensures
            r.query@ == Seq::<char>::empty(),
            r.replace@ == Seq::<char>::empty(),
            !r.case_sensitive,
            r.replace_mode == replace_mode,
            r.match_ranges@ == Seq::<MatchRange>::empty(),
            r.current_match == 0,
            !r.focus_requested,
            r.cache() is None,
            r.cache_len() == 0,
    {
        FindBar {
            query: String::new(),
            replace: String::new(),
            case_sensitive: false,
            replace_mode,
            match_ranges: Vec::new(),
            current_match: 0,
            focus_requested: false,
            cached_lower: None,
            cached_lower_len: 0,
        }
    }

    /// Whether a refresh on `text` rebuilds the lowercase cache.
    pub open spec fn rebuilds_cache(&self, text: &str) -> bool {
        self.query@.len() > 0 && !self.case_sensitive && (self.cache() is None || self.cache_len()
            != text.len())
    }

    /// The text scanned and the needle looked for by a refresh on `text`:
    /// the content and the query, or, case-insensitively, the lowercase
    /// content (the cache, or a new one) and the lowercase query.
    pub open spec fn scan_target(&self, text: &str) -> (Seq<char>, Seq<char>) {
        if self.case_sensitive {
            (text@, self.query@)
        } else if self.cache() is None || self.cache_len() != text.len() {
            (lowercase(text@), lowercase(self.query@))
        } else {
            (self.cache().unwrap(), lowercase(self.query@))
        }
    }

    /// The match ranges a refresh on `text` finds (none for an empty query);
    /// None when a match's byte offset in the scanned text is not a character
    /// boundary of `text`.
    pub open spec fn refreshed_ranges(&self, text: &str) -> Option<
        Seq<(usize, usize, usize, usize)>,
    > {
        if self.query@.len() == 0 {
            Some(Seq::empty())
        } else {
            matches_in_text(text@, self.scan_target(text).0, self.scan_target(text).1)
        }
    }

    /// Rebuild `match_ranges` by scanning `text` for the query and select the
    /// first match.  Case-insensitive search scans the lowercase copy of the
    /// content, which is rebuilt only when there is none or the content's
    /// byte length changed.  Byte offsets are those of the scanned text; char
    /// positions count the characters of `text` up to those byte offsets, which
    /// must fall on character boundaries of `text`.
    pub fn refresh_matches(&mut self, text: &str)
        requires
            old(self).refreshed_ranges(text) is Some,
        ensures
            final(self).query == old(self).query,
            final(self).replace == old(self).replace,
            final(self).case_sensitive == old(self).case_sensitive,
            final(self).replace_mode == old(self).replace_mode,
            final(self).focus_requested == old(self).focus_requested,
            final(self).current_match == 0,
            old(self).rebuilds_cache(text) ==> final(self).cache() == Some(lowercase(text@))
                && final(self).cache_len() == text.len(),
            !old(self).rebuilds_cache(text) ==> final(self).cache() == old(self).cache()
                && final(self).cache_len() == old(self).cache_len(),
            ranges_view(final(self).match_ranges@) == old(self).refreshed_ranges(text).unwrap(),
    {
        self.match_ranges.clear();
        self.current_match = 0;
        if self.query.as_str().unicode_len() == 0 {
            assert(ranges_view(self.match_ranges@) =~= Seq::empty());
            return;
        }
        let need_rebuild = !self.case_sensitive && (self.cached_lower.is_none()
            || self.cached_lower_len != text.len());
        if need_rebuild {
            self.cached_lower = Some(to_lowercase(text));
            self.cached_lower_len = text.len();
        }
        let found = if self.case_sensitive {
            scan_matches_in(text, text, self.query.as_str())
        } else {
            let lowered_query = to_lowercase(self.query.as_str());
            match &self.cached_lower {
                Some(c) => scan_matches_in(text, c.as_str(), lowered_query.as_str()),
                None => None,
            }
        };
        match found {
            Some(ranges) => {
                self.match_ranges = ranges;
            },
            None => {},
        }
    }

    /// `refresh_matches` where every match can be placed in `text`: returns
    /// true after refreshing, or false, leaving the bar unchanged, when a
    /// match's byte offset in the scanned text is not a character boundary of
    /// `text`.
    pub fn try_refresh_matches(&mut self, text: &str) -> (ok: bool)
        ensures
            ok == (old(self).refreshed_ranges(text) is Some),
            !ok ==> *final(self) == *old(self),
            ok ==> final(self).query == old(self).query && final(self).replace == old(self).replace
                && final(self).case_sensitive == old(self).case_sensitive
                && final(self).replace_mode == old(self).replace_mode
                && final(self).focus_requested == old(self).focus_requested
                && final(self).current_match == 0,
            ok && old(self).rebuilds_cache(text) ==> final(self).cache() == Some(lowercase(text@))
                && final(self).cache_len() == text.len(),
            ok && !old(self).rebuilds_cache(text) ==> final(self).cache() == old(self).cache()
                && final(self).cache_len() == old(self).cache_len(),
            ok ==> ranges_view(final(self).match_ranges@) == old(self).refreshed_ranges(
                text,
            ).unwrap(),
    {
        if self.query.as_str().unicode_len() == 0 {
            self.refresh_matches(text);
            return true;
        }
        let found = if self.case_sensitive {
            scan_matches_in(text, text, self.query.as_str())
        } else {
            let lowered_query = to_lowercase(self.query.as_str());
            if self.cached_lower.is_none() || self.cached_lower_len != text.len() {
                let lowered = to_lowercase(text);
                scan_matches_in(text, lowered.as_str(), lowered_query.as_str())
            } else {
                match &self.cached_lower {
                    Some(c) => scan_matches_in(text, c.as_str(), lowered_query.as_str()),
                    None => None,
                }
            }
        };
        if found.is_some() {
            self.refresh_matches(text);
            true
        } else {
            false
        }
    }

    /// Drop the cached lowercase content, so that the next refresh rebuilds
    /// it from the current content.
    pub fn invalidate_cache(&mut self)
        ensures
            final(self).cache() is None,
            final(self).cache_len() == 0,
            final(self).query == old(self).query,
            final(self).replace == old(self).replace,
            final(self).case_sensitive == old(self).case_sensitive,
            final(self).replace_mode == old(self).replace_mode,
            final(self).match_ranges == old(self).match_ranges,
            final(self).current_match == old(self).current_match,
            final(self).focus_requested == old(self).focus_requested,
    {
        self.cached_lower = None;
        self.cached_lower_len = 0;
    }

    /// Select the next match, wrapping to the first.
    pub fn go_next(&mut self)
        ensures
            final(self).current_match == next_match(
                old(self).current_match as nat,
                old(self).match_ranges@.len(),
            ),
            final(self).match_ranges == old(self).match_ranges,
            final(self).query == old(self).query,
            final(self).case_sensitive == old(self).case_sensitive,
            final(self).cache() == old(self).cache(),
            final(self).cache_len() == old(self).cache_len(),
            final(self).replace == old(self).replace,
            final(self).replace_mode == old(self).replace_mode,
            final(self).focus_requested == old(self).focus_requested,
    {
        if self.match_ranges.len() == 0 {
            return;
        }
        let len = self.match_ranges.len();
        let c = self.current_match;
        assert(((c as int) % (len as int) + 1) % (len as int) == (c as int + 1) % (len as int))
            by (nonlinear_arith)
            requires
                len > 0,
        ;
        self.current_match = (c % len + 1) % len;
    }

    /// Select the previous match, wrapping to the last.
    pub fn go_prev(&mut self)
        ensures
            final(self).current_match == prev_match(
                old(self).current_match as nat,
                old(self).match_ranges@.len(),
            ),
            final(self).match_ranges == old(self).match_ranges,
            final(self).query == old(self).query,
            final(self).case_sensitive == old(self).case_sensitive,
            final(self).cache() == old(self).cache(),
            final(self).cache_len() == old(self).cache_len(),
            final(self).replace == old(self).replace,
            final(self).replace_mode == old(self).replace_mode,
            final(self).focus_requested == old(self).focus_requested,
    {
        if self.match_ranges.len() == 0 {
            return;
        }
        if self.current_match == 0 {
            self.current_match = self.match_ranges.len() - 1;
        } else {
            self.current_match -= 1;
        }
    }
}

/// The match ranges of `needle` in the scanned text `hay`, with byte offsets
/// in `hay` and char positions counted in `text` at those byte offsets; None
/// when one of those offsets is not a character boundary of `text`.
pub fn scan_matches_in(text: &str, hay: &str, needle: &str) -> (r: Option<Vec<MatchRange>>)
    ensures
        match r {
            Some(v) => matches_in_text(text@, hay@, needle@) == Some(ranges_view(v@)),
            None => matches_in_text(text@, hay@, needle@) is None,
        },
{
    let ts = chars_of(text);
    let h = chars_of(hay);
    let n = chars_of(needle);
    let mut out: Vec<MatchRange> = Vec::new();
    if n.len() == 0 {
        assert(ranges_view(out@) =~= Seq::empty());
        return Some(out);
    }
    let mut i: usize = 0;
    let mut tk: usize = 0;
    let mut tb: usize = 0;
    let ghost mut done: Seq<int> = Seq::empty();
    proof {
        assert(ts@.take(0) =~= Seq::<char>::empty());
        assert(encode_utf8(Seq::<char>::empty()) =~= Seq::<u8>::empty());
        assert(done + occurrences_from(h@, n@, 0) =~= occurrences_from(h@, n@, 0));
        assert(ranges_view(out@) =~= Seq::empty());
    }
    while i < h.len() && n.len() <= h.len() - i
        invariant
            h@ == hay@,
            n@ == needle@,
            ts@ == text@,
            n@.len() > 0,
            i <= h@.len(),
            tk <= ts@.len(),
            tb == utf8_len(ts@.take(tk as int)),
            done + occurrences_from(h@, n@, i as int) == occurrences_from(h@, n@, 0),
            matches_in_text_at(text@, hay@, needle@, done) == Some(ranges_view(out@)),
        decreases h.len() - i,
    {
        if occurs_at_exec(&h, &n, i) {
            let pre = hay.substring_char(0, i);
            let byte_start = pre.len();
            let pre_end = hay.substring_char(0, i + n.len());
            let byte_end = pre_end.len();
            assert(pre@ =~= h@.take(i as int));
            assert(pre_end@ =~= h@.take(i + n@.len()));
            let ghost next = done.push(i as int);
            let ghost rest = occurrences_from(h@, n@, i + n@.len());
            proof {
                assert(next + rest =~= done + occurrences_from(h@, n@, i as int));
                assert(next.drop_last() =~= done);
            }
            if !seek_byte(&ts, &mut tk, &mut tb, byte_start) {
                proof {
                    lemma_matches_none_extends(text@, hay@, needle@, next, rest);
                }
                return None;
            }
            let char_start = tk;
            if !seek_byte(&ts, &mut tk, &mut tb, byte_end) {
                proof {
                    lemma_matches_none_extends(text@, hay@, needle@, next, rest);
                }
                return None;
            }
            let char_end = tk;
            let ghost before = out@;
            out.push(MatchRange { byte_start, byte_end, char_start, char_end });
            proof {
                assert(ranges_view(out@) =~= ranges_view(before).push(
                    (byte_start, byte_end, char_start, char_end),
                ));
                done = next;
            }
            i = i + n.len();
        } else {
            i = i + 1;
        }
    }
    proof {
        assert(occurrences_from(h@, n@, i as int) =~= Seq::<int>::empty());
        assert(done + Seq::<int>::empty() =~= done);
    }
    Some(out)
}

/// Every position listed by `occurrences_from` is an occurrence.
proof fn lemma_occurrences_valid(h: Seq<char>, n: Seq<char>, i: int)
    ensures
        forall|k: int|
            0 <= k < occurrences_from(h, n, i).len() ==> occurs_at(
                h,
                n,
                #[trigger] occurrences_from(h, n, i)[k],
            ),
    decreases h.len() - i,
{
    if n.len() == 0 || i < 0 || i + n.len() > h.len() {
    } else if occurs_at(h, n, i) {
        lemma_occurrences_valid(h, n, i + n.len());
        let rest = occurrences_from(h, n, i + n.len());
        assert(occurrences_from(h, n, i) == seq![i] + rest);
        assert forall|k: int|
            0 <= k < occurrences_from(h, n, i).len() implies occurs_at(
            h,
            n,
            #[trigger] occurrences_from(h, n, i)[k],
        ) by {
            if k > 0 {
                assert(occurrences_from(h, n, i)[k] == rest[k - 1]);
            } else {
                assert(occurrences_from(h, n, i)[k] == i);
            }
        }
    } else {
        lemma_occurrences_valid(h, n, i + 1);
        assert(occurrences_from(h, n, i) == occurrences_from(h, n, i + 1));
    }
}

/// A prefix never takes more bytes than the whole text.
proof fn lemma_utf8_len_take_le(t: Seq<char>, q: int)
    requires
        0 <= q <= t.len(),
    ensures
        utf8_len(t.take(q)) <= utf8_len(t),
{
    assert(t.take(t.len() as int) =~= t);
    if q < t.len() {
        lemma_utf8_len_take_increasing(t, q, t.len() as int);
    }
}

/// The byte offset of a char index of `t` is a character boundary of `t`.
proof fn lemma_index_at_own_byte(t: Seq<char>, p: int)
    requires
        0 <= p <= t.len(),
    ensures
        index_at_byte(t, utf8_len(t.take(p)) as int) == Some(p),
{
    let b = utf8_len(t.take(p)) as int;
    assert forall|j: int| 0 <= j < p implies #[trigger] utf8_len(t.take(j)) < b by {
        lemma_utf8_len_take_increasing(t, j, p);
    }
    lemma_index_skip(t, b, p);
}

/// Matches found in a text itself can all be placed in it.
proof fn lemma_own_matches(t: Seq<char>, n: Seq<char>, ps: Seq<int>)
    requires
        utf8_len(t) <= usize::MAX,
        forall|k: int| 0 <= k < ps.len() ==> occurs_at(t, n, #[trigger] ps[k]),
    ensures
        matches_in_text_at(t, t, n, ps) is Some,
    decreases ps.len(),
{
    if ps.len() > 0 {
        assert forall|k: int| 0 <= k < ps.drop_last().len() implies occurs_at(
            t,
            n,
            #[trigger] ps.drop_last()[k],
        ) by {
            assert(ps.drop_last()[k] == ps[k]);
        }
        lemma_own_matches(t, n, ps.drop_last());
        let p = ps.last();
        assert(occurs_at(t, n, ps[ps.len() - 1]));
        lemma_utf8_len_take_le(t, p);
        lemma_utf8_len_take_le(t, p + n.len());
        lemma_index_at_own_byte(t, p);
        lemma_index_at_own_byte(t, p + n.len());
    }
}

impl FindBar {
    /// A case-sensitive refresh always succeeds: the matches are found in the
    /// content itself, so their byte offsets are character boundaries of it
    /// (given that the content's byte length fits in `usize`, as that of any
    /// `str` does).
    pub proof fn lemma_case_sensitive_refresh_succeeds(bar: FindBar, text: &str)
        requires
            bar.case_sensitive,
            utf8_len(text@) <= usize::MAX,
        ensures
            bar.refreshed_ranges(text) is Some,
    {
        if bar.query@.len() > 0 {
            lemma_occurrences_valid(text@, bar.query@, 0);
            lemma_own_matches(text@, bar.query@, occurrences_from(text@, bar.query@, 0));
        }
    }
}

} // verus!
