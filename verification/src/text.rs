//! Character-level text utilities shared by the Markdown, outline and
//! command-line modules.  Texts are handled as vectors of `char`, whose view
//! is the `Seq<char>` that a `String` views as.
use vstd::prelude::*;

verus! {

// ── Specifications ───────────────────────────────────────────────────────────

/// The Unicode `White_Space` property (the characters for which
/// `char::is_whitespace` holds).
pub open spec fn is_space(c: char) -> bool {
    let u: u32 = c as u32;
    ||| 0x09 <= u <= 0x0d
    ||| u == 0x20
    ||| u == 0x85
    ||| u == 0xa0
    ||| u == 0x1680
    ||| 0x2000 <= u <= 0x200a
    ||| u == 0x2028
    ||| u == 0x2029
    ||| u == 0x202f
    ||| u == 0x205f
    ||| u == 0x3000
}

/// Leading white space removed (`str::trim_start`).
pub open spec fn trim_start_ws(s: Seq<char>) -> Seq<char>
    decreases s.len(),
{
    if s.len() > 0 && is_space(s[0]) {
        trim_start_ws(s.drop_first())
    } else {
        s
    }
}

/// Trailing white space removed (`str::trim_end`).
pub open spec fn trim_end_ws(s: Seq<char>) -> Seq<char>
    decreases s.len(),
{
    if s.len() > 0 && is_space(s.last()) {
        trim_end_ws(s.drop_last())
    } else {
        s
    }
}

/// White space removed at both ends (`str::trim`).
pub open spec fn trim_ws(s: Seq<char>) -> Seq<char> {
    trim_end_ws(trim_start_ws(s))
}

/// Every leading occurrence of `c` removed (`str::trim_start_matches(c)`).
pub open spec fn trim_start_char(s: Seq<char>, c: char) -> Seq<char>
    decreases s.len(),
{
    if s.len() > 0 && s[0] == c {
        trim_start_char(s.drop_first(), c)
    } else {
        s
    }
}

/// Index of the first `c` in `s`, or `s.len()` when there is none.
pub open spec fn index_of_char(s: Seq<char>, c: char) -> nat
    decreases s.len(),
{
    if s.len() == 0 {
        0
    } else if s[0] == c {
        0
    } else {
        1 + index_of_char(s.drop_first(), c)
    }
}

/// `s` begins with `p`.
pub open spec fn has_prefix(s: Seq<char>, p: Seq<char>) -> bool {
    p.len() <= s.len() && s.take(p.len() as int) == p
}

/// `p` occurs in `s` at position `i`.
pub open spec fn occurs_at(s: Seq<char>, p: Seq<char>, i: int) -> bool {
    0 <= i && i + p.len() <= s.len() && s.subrange(i, i + p.len()) == p
}

/// `p` occurs somewhere in `s` (`str::contains`).
pub open spec fn contains_seq(s: Seq<char>, p: Seq<char>) -> bool {
    exists|i: int| occurs_at(s, p, i)
}

/// One trailing carriage return removed.
pub open spec fn strip_cr(l: Seq<char>) -> Seq<char> {
    if l.len() > 0 && l.last() == '\r' {
        l.drop_last()
    } else {
        l
    }
}

/// The lines of a text as `str::lines` yields them: pieces between `'\n'`,
/// the line ending `"\n"` or `"\r\n"` removed, and no empty piece after a
/// final newline.
pub open spec fn lines_of(s: Seq<char>) -> Seq<Seq<char>>
    decreases s.len(),
{
    if s.len() == 0 {
        seq![]
    } else {
        let k = index_of_char(s, '\n') as int;
        if k >= s.len() {
            seq![s]
        } else {
            seq![strip_cr(s.take(k))] + lines_of(s.skip(k + 1))
        }
    }
}

/// Every occurrence of `pat`, scanned left to right without overlap, replaced
/// by `rep` (`str::replace`).
pub open spec fn replace_all(s: Seq<char>, pat: Seq<char>, rep: Seq<char>) -> Seq<char>
    decreases s.len(),
{
    if s.len() == 0 {
        seq![]
    } else if pat.len() > 0 && has_prefix(s, pat) {
        rep + replace_all(s.skip(pat.len() as int), pat, rep)
    } else {
        seq![s[0]] + replace_all(s.drop_first(), pat, rep)
    }
}

/// The pieces of `parts` joined with `sep` between them (`[String]::join`).
pub open spec fn join_with(parts: Seq<Seq<char>>, sep: Seq<char>) -> Seq<char>
    decreases parts.len(),
{
    if parts.len() == 0 {
        seq![]
    } else if parts.len() == 1 {
        parts[0]
    } else {
        join_with(parts.drop_last(), sep) + sep + parts.last()
    }
}

/// The characters of an optional text.
pub open spec fn opt_text(o: Option<String>) -> Option<Seq<char>> {
    match o {
        Some(s) => Some(s@),
        None => None,
    }
}

/// Name for what `str::to_lowercase` returns: the Unicode lowercase form of the
/// whole text (a mapping that may depend on a character's neighbours, as for a
/// final capital sigma).
pub uninterp spec fn lowercase(s: Seq<char>) -> Seq<char>;

/// Name for the Unicode `Alphabetic` property (`char::is_alphabetic`).
pub uninterp spec fn unicode_alphabetic(c: char) -> bool;

/// An ASCII Latin letter.
pub open spec fn is_ascii_letter(c: char) -> bool {
    ('a' <= c && c <= 'z') || ('A' <= c && c <= 'Z')
}

/// Whether `c` is alphabetic: among ASCII characters exactly the Latin
/// letters, beyond ASCII the Unicode `Alphabetic` property.
pub open spec fn alphabetic(c: char) -> bool {
    if (c as u32) < 0x80 {
        is_ascii_letter(c)
    } else {
        unicode_alphabetic(c)
    }
}

// ── Lemmas ───────────────────────────────────────────────────────────────────

/// Trimming at the front is dropping the leading run of white space.
pub proof fn lemma_trim_start_skip(s: Seq<char>, k: int)
    requires
        0 <= k <= s.len(),
        forall|j: int| 0 <= j < k ==> is_space(#[trigger] s[j]),
    ensures
        trim_start_ws(s) == trim_start_ws(s.skip(k)),
    decreases k,
{
    if k > 0 {
        assert(s.skip(1) =~= s.drop_first());
        lemma_trim_start_skip(s.drop_first(), k - 1);
        assert(s.drop_first().skip(k - 1) =~= s.skip(k));
    } else {
        assert(s.skip(0) =~= s);
    }
}

/// Trimming at the end is dropping the trailing run of white space.
pub proof fn lemma_trim_end_take(s: Seq<char>, k: int)
    requires
        0 <= k <= s.len(),
        forall|j: int| k <= j < s.len() ==> is_space(#[trigger] s[j]),
    ensures
        trim_end_ws(s) == trim_end_ws(s.take(k)),
    decreases s.len() - k,
{
    if k < s.len() {
        lemma_trim_end_take(s.drop_last(), k);
        assert(s.drop_last().take(k) =~= s.take(k));
    } else {
        assert(s.take(k) =~= s);
    }
}

/// `trim_start_ws(s)` is a suffix of `s` that does not begin with white space.
pub proof fn lemma_trim_start_shape(s: Seq<char>)
    ensures
        trim_start_ws(s).len() <= s.len(),
        trim_start_ws(s) == s.skip(s.len() - trim_start_ws(s).len()),
        trim_start_ws(s).len() > 0 ==> !is_space(trim_start_ws(s)[0]),
    decreases s.len(),
{
    if s.len() > 0 && is_space(s[0]) {
        lemma_trim_start_shape(s.drop_first());
        assert(s.drop_first().skip(s.drop_first().len() - trim_start_ws(s).len()) =~= s.skip(
            s.len() - trim_start_ws(s).len(),
        ));
    } else {
        assert(s.skip(0) =~= s);
    }
}

/// `trim_end_ws(s)` is a prefix of `s` that does not end with white space.
pub proof fn lemma_trim_end_shape(s: Seq<char>)
    ensures
        trim_end_ws(s).len() <= s.len(),
        trim_end_ws(s) == s.take(trim_end_ws(s).len() as int),
        trim_end_ws(s).len() > 0 ==> !is_space(trim_end_ws(s).last()),
        trim_end_ws(s).len() > 0 ==> trim_end_ws(s)[0] == s[0],
    decreases s.len(),
{
    if s.len() > 0 && is_space(s.last()) {
        lemma_trim_end_shape(s.drop_last());
        assert(s.drop_last().take(trim_end_ws(s).len() as int) =~= s.take(
            trim_end_ws(s).len() as int,
        ));
    } else {
        assert(s.take(s.len() as int) =~= s);
    }
}

/// Trailing white space does not survive a trim.
pub proof fn lemma_trim_ws_trailing_space(s: Seq<char>, t: Seq<char>)
    requires
        s.len() > 0 ==> !is_space(s[0]) && !is_space(s.last()),
        forall|j: int| 0 <= j < t.len() ==> is_space(#[trigger] t[j]),
    ensures
        trim_ws(s + t) == s,
{
    if s.len() > 0 {
        assert((s + t)[0] == s[0]);
        assert(trim_start_ws(s + t) == s + t);
        lemma_trim_end_take(s + t, s.len() as int);
        assert((s + t).take(s.len() as int) =~= s);
    } else {
        assert(s + t =~= t);
        lemma_trim_start_skip(t, t.len() as int);
        assert(t.skip(t.len() as int) =~= Seq::<char>::empty());
    }
}

/// The first `c` of `a + b`, when `a` has none, lies in `b`.
pub proof fn lemma_index_of_char_append(a: Seq<char>, b: Seq<char>, c: char)
    requires
        !a.contains(c),
    ensures
        index_of_char(a + b, c) == a.len() + index_of_char(b, c),
    decreases a.len(),
{
    if a.len() > 0 {
        assert(a[0] != c);
        assert((a + b).drop_first() =~= a.drop_first() + b);
        assert(!a.drop_first().contains(c)) by {
            if a.drop_first().contains(c) {
                let j = choose|j: int| 0 <= j < a.drop_first().len() && a.drop_first()[j] == c;
                assert(a[j + 1] == c);
            }
        }
        lemma_index_of_char_append(a.drop_first(), b, c);
    } else {
        assert(a + b =~= b);
    }
}

/// What `index_of_char` finds.
pub proof fn lemma_index_of_char(s: Seq<char>, c: char)
    ensures
        index_of_char(s, c) <= s.len(),
        index_of_char(s, c) < s.len() ==> s[index_of_char(s, c) as int] == c,
        forall|j: int| 0 <= j < index_of_char(s, c) ==> s[j] != c,
        index_of_char(s, c) == s.len() <==> !s.contains(c),
    decreases s.len(),
{
    if s.len() > 0 && s[0] != c {
        lemma_index_of_char(s.drop_first(), c);
        assert forall|j: int| 0 <= j < index_of_char(s, c) implies s[j] != c by {
            if j > 0 {
                assert(s[j] == s.drop_first()[j - 1]);
            }
        }
        if s.contains(c) {
            let j = choose|j: int| 0 <= j < s.len() && s[j] == c;
            assert(s.drop_first()[j - 1] == c);
        }
        if s.drop_first().contains(c) {
            let j = choose|j: int| 0 <= j < s.drop_first().len() && s.drop_first()[j] == c;
            assert(s[j + 1] == c);
        }
    } else if s.len() > 0 {
        assert(s.contains(c)) by {
            assert(s[0] == c);
        }
    }
}

/// The lines of a text without a line feed and of one with a line feed after
/// a line-feed-free first piece.
pub proof fn lemma_lines_of_cons(a: Seq<char>, rest: Seq<char>)
    requires
        !a.contains('\n'),
    ensures
        lines_of(a + seq!['\n'] + rest) == seq![strip_cr(a)] + lines_of(rest),
{
    let s = a + seq!['\n'] + rest;
    lemma_index_of_char_append(a, seq!['\n'] + rest, '\n');
    assert((seq!['\n'] + rest)[0] == '\n');
    assert(s =~= a + (seq!['\n'] + rest));
    assert(s.take(a.len() as int) =~= a);
    assert(s.skip(a.len() as int + 1) =~= rest);
}

/// A text without line feed is one line, unless it is empty.
pub proof fn lemma_lines_of_last(a: Seq<char>)
    requires
        !a.contains('\n'),
    ensures
        lines_of(a) == (if a.len() == 0 {
            Seq::<Seq<char>>::empty()
        } else {
            seq![a]
        }),
{
    if a.len() > 0 {
        lemma_index_of_char(a, '\n');
    }
}

/// The lines of `a + b`, when `a` ends with a line feed, are those of `a`
/// followed by those of `b`.
pub proof fn lemma_lines_of_append(a: Seq<char>, b: Seq<char>)
    requires
        a.len() > 0,
        a.last() == '\n',
    ensures
        lines_of(a + b) == lines_of(a) + lines_of(b),
    decreases a.len(),
{
    lemma_index_of_char(a, '\n');
    let k = index_of_char(a, '\n') as int;
    let head = a.take(k);
    let r = a.skip(k + 1);
    assert(!head.contains('\n')) by {
        if head.contains('\n') {
            let j = choose|j: int| 0 <= j < head.len() && head[j] == '\n';
            assert(a[j] == '\n');
        }
    }
    assert(a =~= head + seq!['\n'] + r);
    assert(a + b =~= head + seq!['\n'] + (r + b));
    lemma_lines_of_cons(head, r);
    lemma_lines_of_cons(head, r + b);
    if r.len() == 0 {
        assert(r + b =~= b);
        assert(lines_of(r) =~= Seq::<Seq<char>>::empty());
        assert(lines_of(a) + lines_of(b) =~= seq![strip_cr(head)] + lines_of(b));
    } else {
        assert(r.last() == a.last());
        lemma_lines_of_append(r, b);
        assert(seq![strip_cr(head)] + (lines_of(r) + lines_of(b)) =~= (seq![strip_cr(head)]
            + lines_of(r)) + lines_of(b));
    }
}

/// Replacing in `x + y`, where no occurrence of `pat` starts inside `x`
/// because `x` holds none and `y` begins with a character `pat` lacks,
/// leaves `x` as it is.
pub proof fn lemma_replace_all_prefix(x: Seq<char>, y: Seq<char>, pat: Seq<char>, rep: Seq<char>)
    requires
        pat.len() > 0,
        !contains_seq(x, pat),
        y.len() > 0,
        !pat.contains(y[0]),
    ensures
        replace_all(x + y, pat, rep) == x + replace_all(y, pat, rep),
    decreases x.len(),
{
    if x.len() == 0 {
        assert(x + y =~= y);
        assert(x + replace_all(y, pat, rep) =~= replace_all(y, pat, rep));
    } else {
        let s = x + y;
        if has_prefix(s, pat) {
            if pat.len() <= x.len() {
                assert(x.subrange(0, pat.len() as int) =~= s.take(pat.len() as int));
                assert(occurs_at(x, pat, 0));
            } else {
                assert(pat[x.len() as int] == s.take(pat.len() as int)[x.len() as int]);
                assert(pat.contains(y[0]));
            }
        }
        assert(s.drop_first() =~= x.drop_first() + y);
        assert(!contains_seq(x.drop_first(), pat)) by {
            if contains_seq(x.drop_first(), pat) {
                let i = choose|i: int| occurs_at(x.drop_first(), pat, i);
                assert(x.subrange(i + 1, i + 1 + pat.len()) =~= x.drop_first().subrange(
                    i,
                    i + pat.len(),
                ));
                assert(occurs_at(x, pat, i + 1));
            }
        }
        lemma_replace_all_prefix(x.drop_first(), y, pat, rep);
        assert(seq![s[0]] + (x.drop_first() + replace_all(y, pat, rep)) =~= x + replace_all(
            y,
            pat,
            rep,
        ));
    }
}

/// Replacing in a text that holds no occurrence of `pat` changes nothing.
pub proof fn lemma_replace_all_absent(x: Seq<char>, pat: Seq<char>, rep: Seq<char>)
    requires
        pat.len() > 0,
        !contains_seq(x, pat),
    ensures
        replace_all(x, pat, rep) == x,
    decreases x.len(),
{
    if x.len() > 0 {
        if has_prefix(x, pat) {
            assert(x.subrange(0, pat.len() as int) =~= x.take(pat.len() as int));
            assert(occurs_at(x, pat, 0));
        }
        assert(!contains_seq(x.drop_first(), pat)) by {
            if contains_seq(x.drop_first(), pat) {
                let i = choose|i: int| occurs_at(x.drop_first(), pat, i);
                assert(x.subrange(i + 1, i + 1 + pat.len()) =~= x.drop_first().subrange(
                    i,
                    i + pat.len(),
                ));
                assert(occurs_at(x, pat, i + 1));
            }
        }
        lemma_replace_all_absent(x.drop_first(), pat, rep);
        assert(seq![x[0]] + x.drop_first() =~= x);
    }
}

/// Replacing in a text that begins with `pat`.
pub proof fn lemma_replace_all_match(y: Seq<char>, pat: Seq<char>, rep: Seq<char>)
    requires
        pat.len() > 0,
    ensures
        replace_all(pat + y, pat, rep) == rep + replace_all(y, pat, rep),
{
    let s = pat + y;
    assert(s.take(pat.len() as int) =~= pat);
    assert(s.skip(pat.len() as int) =~= y);
}

// ── Executable helpers ───────────────────────────────────────────────────────

/// Whether `c` has the Unicode `White_Space` property.
pub fn is_whitespace(c: char) -> (r: bool)
    ensures
        r == is_space(c),
{
    let u: u32 = c as u32;
    (0x09 <= u && u <= 0x0d) || u == 0x20 || u == 0x85 || u == 0xa0 || u == 0x1680 || (0x2000
        <= u && u <= 0x200a) || u == 0x2028 || u == 0x2029 || u == 0x202f || u == 0x205f || u
        == 0x3000
}

/// `char::is_alphabetic`: whether `c` has the Unicode `Alphabetic` property.
/// Among ASCII characters the Unicode data gives that property to the Latin
/// letters alone (no digit, punctuation, space or control character has it).
#[verifier::external_body]
pub(crate) fn is_alphabetic(c: char) -> (r: bool)
    ensures
        r == unicode_alphabetic(c),
        (c as u32) < 0x80 ==> (r <==> is_ascii_letter(c)),
{
    c.is_alphabetic()
}

/// `str::to_lowercase`: the lowercase form of the text; the contract claims only
/// that the result is a function of the text (named `lowercase`).
#[verifier::external_body]
pub(crate) fn to_lowercase(s: &str) -> (r: String)
    ensures
        r@ == lowercase(s@),
{
    s.to_lowercase()
}

/// `String::push`: the text with one more character at its end.
#[verifier::external_body]
pub(crate) fn push_char(s: &mut String, c: char)
    ensures
        final(s)@ == old(s)@.push(c),
{
    s.push(c);
}

/// The characters of a text.
pub fn chars_of(s: &str) -> (r: Vec<char>)
    ensures
        r@ == s@,
{
    let mut out: Vec<char> = Vec::new();
    for c in it: s.chars()
        invariant
            out@ == it.seq().take(it.index() as int),
            it.seq() == s@,
    {
        out.push(c);
    }
    assert(out@ =~= s@);
    out
}

/// A text made of the given characters.
pub fn string_of(cs: &Vec<char>) -> (r: String)
    ensures
        r@ == cs@,
{
    let mut out = String::new();
    for i in 0..cs.len()
        invariant
            out@ == cs@.take(i as int),
    {
        push_char(&mut out, cs[i]);
        assert(cs@.take(i + 1) =~= cs@.take(i as int).push(cs@[i as int]));
    }
    assert(cs@.take(cs.len() as int) =~= cs@);
    out
}

/// Append the characters of `src` to `dst`.
pub fn extend_chars(dst: &mut Vec<char>, src: &Vec<char>)
    ensures
        final(dst)@ == old(dst)@ + src@,
{
    for i in 0..src.len()
        invariant
            dst@ == old(dst)@ + src@.take(i as int),
    {
        dst.push(src[i]);
        assert(src@.take(i + 1) =~= src@.take(i as int).push(src@[i as int]));
    }
    assert(src@.take(src.len() as int) =~= src@);
}

/// The characters of `v` from `from` up to `to`.
pub fn sub_chars(v: &Vec<char>, from: usize, to: usize) -> (r: Vec<char>)
    requires
        from <= to <= v.len(),
    ensures
        r@ == v@.subrange(from as int, to as int),
{
    let mut out: Vec<char> = Vec::new();
    let mut i = from;
    while i < to
        invariant
            from <= i <= to <= v.len(),
            out@ == v@.subrange(from as int, i as int),
        decreases to - i,
    {
        out.push(v[i]);
        assert(v@.subrange(from as int, i + 1) =~= v@.subrange(from as int, i as int).push(
            v@[i as int],
        ));
        i += 1;
    }
    out
}

/// Index of the first `c` in `v` at or after `from`, or `v.len()`.
pub fn find_char_from(v: &Vec<char>, c: char, from: usize) -> (r: usize)
    requires
        from <= v.len(),
    ensures
        r == from + index_of_char(v@.skip(from as int), c),
        from <= r <= v.len(),
{
    let mut i = from;
    while i < v.len() && v[i] != c
        invariant
            from <= i <= v.len(),
            index_of_char(v@.skip(from as int), c) == (i - from) + index_of_char(
                v@.skip(i as int),
                c,
            ),
        decreases v.len() - i,
    {
        assert(v@.skip(i as int).drop_first() =~= v@.skip(i + 1));
        i += 1;
    }
    proof {
        lemma_index_of_char(v@.skip(i as int), c);
    }
    i
}

/// Whether `v` has `p` at position `at`.
pub fn occurs_at_exec(v: &Vec<char>, p: &Vec<char>, at: usize) -> (r: bool)
    requires
        at <= v.len(),
    ensures
        r == occurs_at(v@, p@, at as int),
{
    if p.len() > v.len() - at {
        return false;
    }
    let mut j: usize = 0;
    while j < p.len()
        invariant
            at + p.len() <= v.len(),
            0 <= j <= p.len(),
            forall|k: int| 0 <= k < j ==> v@[at + k] == p@[k],
        decreases p.len() - j,
    {
        if v[at + j] != p[j] {
            assert(v@.subrange(at as int, at + p.len())[j as int] != p@[j as int]);
            return false;
        }
        j += 1;
    }
    assert(v@.subrange(at as int, at + p.len()) =~= p@);
    true
}

/// Whether `v` begins with `p`.
pub fn starts_with_chars(v: &Vec<char>, p: &Vec<char>) -> (r: bool)
    ensures
        r == has_prefix(v@, p@),
{
    let r = occurs_at_exec(v, p, 0);
    assert(r == has_prefix(v@, p@)) by {
        if p@.len() <= v@.len() {
            assert(v@.subrange(0, p@.len() as int) =~= v@.take(p@.len() as int));
        }
    }
    r
}

/// Whether two character sequences are equal.
pub fn str_eq_chars(a: &Vec<char>, b: &Vec<char>) -> (r: bool)
    ensures
        r == (a@ == b@),
{
    if a.len() != b.len() {
        return false;
    }
    let r = occurs_at_exec(a, b, 0);
    assert(r == (a@ == b@)) by {
        assert(a@.subrange(0, b@.len() as int) =~= a@);
    }
    r
}

/// White space removed at both ends.
pub fn trim_chars(v: &Vec<char>) -> (r: Vec<char>)
    ensures
        r@ == trim_ws(v@),
{
    let mut lo: usize = 0;
    while lo < v.len() && is_whitespace(v[lo])
        invariant
            lo <= v.len(),
            forall|j: int| 0 <= j < lo ==> is_space(#[trigger] v@[j]),
        decreases v.len() - lo,
    {
        lo += 1;
    }
    proof {
        lemma_trim_start_skip(v@, lo as int);
    }
    let mut hi: usize = v.len();
    while hi > lo && is_whitespace(v[hi - 1])
        invariant
            lo <= hi <= v.len(),
            forall|j: int| hi <= j < v.len() ==> is_space(#[trigger] v@[j]),
        decreases hi - lo,
    {
        hi -= 1;
    }
    let r = sub_chars(v, lo, hi);
    proof {
        let t = v@.skip(lo as int);
        assert(trim_start_ws(t) == t);
        lemma_trim_end_take(t, (hi - lo) as int);
        assert(t.take((hi - lo) as int) =~= v@.subrange(lo as int, hi as int));
        let u = t.take((hi - lo) as int);
        assert(u.len() > 0 ==> !is_space(u.last()));
    }
    r
}

/// Leading white space removed.
pub fn trim_start_chars(v: &Vec<char>) -> (r: Vec<char>)
    ensures
        r@ == trim_start_ws(v@),
{
    let mut lo: usize = 0;
    while lo < v.len() && is_whitespace(v[lo])
        invariant
            lo <= v.len(),
            forall|j: int| 0 <= j < lo ==> is_space(#[trigger] v@[j]),
        decreases v.len() - lo,
    {
        lo += 1;
    }
    proof {
        lemma_trim_start_skip(v@, lo as int);
        assert(v@.skip(lo as int) =~= v@.subrange(lo as int, v.len() as int));
    }
    sub_chars(v, lo, v.len())
}

/// Trailing white space removed.
pub fn trim_end_chars(v: &Vec<char>) -> (r: Vec<char>)
    ensures
        r@ == trim_end_ws(v@),
{
    let mut hi: usize = v.len();
    while hi > 0 && is_whitespace(v[hi - 1])
        invariant
            hi <= v.len(),
            forall|j: int| hi <= j < v.len() ==> is_space(#[trigger] v@[j]),
        decreases hi,
    {
        hi -= 1;
    }
    proof {
        lemma_trim_end_take(v@, hi as int);
        assert(v@.take(hi as int) =~= v@.subrange(0, hi as int));
    }
    sub_chars(v, 0, hi)
}

/// Every leading `c` removed.
pub fn trim_start_char_exec(v: &Vec<char>, c: char) -> (r: Vec<char>)
    ensures
        r@ == trim_start_char(v@, c),
{
    let mut lo: usize = 0;
    assert(v@.skip(0) =~= v@);
    while lo < v.len() && v[lo] == c
        invariant
            lo <= v.len(),
            trim_start_char(v@, c) == trim_start_char(v@.skip(lo as int), c),
        decreases v.len() - lo,
    {
        assert(v@.skip(lo as int).drop_first() =~= v@.skip(lo + 1));
        lo += 1;
    }
    assert(v@.skip(lo as int) =~= v@.subrange(lo as int, v.len() as int));
    sub_chars(v, lo, v.len())
}

/// The lines of a text, as `str::lines` yields them.
pub fn split_lines(v: &Vec<char>) -> (r: Vec<Vec<char>>)
    ensures
        r@.len() == lines_of(v@).len(),
        forall|i: int| 0 <= i < r@.len() ==> #[trigger] r@[i]@ == lines_of(v@)[i],
{
    let mut out: Vec<Vec<char>> = Vec::new();
    let mut cur: Vec<char> = Vec::new();
    let ghost mut done: Seq<Seq<char>> = seq![];
    assert(cur@ + v@.skip(0) =~= v@);
    assert(done + lines_of(v@) =~= lines_of(v@));
    for i in 0..v.len()
        invariant
            out@.len() == done.len(),
            forall|k: int| 0 <= k < out@.len() ==> #[trigger] out@[k]@ == done[k],
            !cur@.contains('\n'),
            lines_of(v@) == done + lines_of(cur@ + v@.skip(i as int)),
    {
        let c = v[i];
        let ghost rest = v@.skip(i + 1);
        assert(v@.skip(i as int) =~= seq![c] + rest);
        if c == '\n' {
            proof {
                assert(cur@ + v@.skip(i as int) =~= cur@ + seq!['\n'] + rest);
                lemma_lines_of_cons(cur@, rest);
                assert(seq![strip_cr(cur@)] + lines_of(rest) == lines_of(cur@ + v@.skip(
                    i as int,
                )));
                assert(done + (seq![strip_cr(cur@)] + lines_of(rest)) =~= done.push(
                    strip_cr(cur@),
                ) + lines_of(rest));
                done = done.push(strip_cr(cur@));
                assert(Seq::<char>::empty() + rest =~= rest);
            }
            let mut line = cur;
            if line.len() > 0 && line[line.len() - 1] == '\r' {
                line.pop();
            }
            assert(line@ == strip_cr(cur@)) by {
                if cur@.len() > 0 && cur@.last() == '\r' {
                    assert(line@ =~= cur@.drop_last());
                }
            }
            out.push(line);
            cur = Vec::new();
        } else {
            proof {
                assert(cur@ + v@.skip(i as int) =~= cur@.push(c) + rest);
                assert(!cur@.push(c).contains('\n')) by {
                    if cur@.push(c).contains('\n') {
                        let j = choose|j: int|
                            0 <= j < cur@.push(c).len() && cur@.push(c)[j] == '\n';
                        if j < cur@.len() {
                            assert(cur@[j] == '\n');
                        }
                    }
                }
            }
            cur.push(c);
        }
    }
    proof {
        assert(v@.skip(v.len() as int) =~= Seq::<char>::empty());
        assert(cur@ + v@.skip(v.len() as int) =~= cur@);
        lemma_lines_of_last(cur@);
    }
    if cur.len() > 0 {
        proof {
            done = done.push(cur@);
        }
        out.push(cur);
    } else {
        assert(done + Seq::<Seq<char>>::empty() =~= done);
    }
    out
}


/// Every occurrence of `pat` in `v`, scanned left to right without overlap,
/// replaced by `rep`.
pub fn replace_chars(v: &Vec<char>, pat: &Vec<char>, rep: &Vec<char>) -> (r: Vec<char>)
    ensures
        r@ == replace_all(v@, pat@, rep@),
{
    let mut out: Vec<char> = Vec::new();
    let mut i: usize = 0;
    assert(v@.skip(0) =~= v@);
    while i < v.len()
        invariant
            i <= v.len(),
            out@ + replace_all(v@.skip(i as int), pat@, rep@) == replace_all(v@, pat@, rep@),
        decreases v.len() - i,
    {
        let ghost s = v@.skip(i as int);
        let ghost before = out@;
        if pat.len() > 0 && pat.len() <= v.len() - i && occurs_at_exec(v, pat, i) {
            assert(v@.subrange(i as int, i + pat@.len()) =~= s.take(pat@.len() as int));
            assert(s.skip(pat@.len() as int) =~= v@.skip(i + pat@.len()));
            extend_chars(&mut out, rep);
            assert(out@ + replace_all(v@.skip(i + pat@.len()), pat@, rep@) =~= before + (rep@
                + replace_all(s.skip(pat@.len() as int), pat@, rep@)));
            i = i + pat.len();
        } else {
            assert(!has_prefix(s, pat@) || pat@.len() == 0) by {
                if pat@.len() > 0 && pat@.len() <= s.len() && s.take(pat@.len() as int) == pat@ {
                    assert(v@.subrange(i as int, i + pat@.len()) =~= s.take(pat@.len() as int));
                }
            }
            assert(s.drop_first() =~= v@.skip(i + 1));
            out.push(v[i]);
            assert(out@ + replace_all(v@.skip(i + 1), pat@, rep@) =~= before + (seq![s[0]]
                + replace_all(s.drop_first(), pat@, rep@)));
            i = i + 1;
        }
    }
    assert(v@.skip(v.len() as int) =~= Seq::<char>::empty());
    assert(out@ + Seq::<char>::empty() =~= out@);
    out
}

/// Whether `v` holds the character `c`.
pub fn contains_char(v: &Vec<char>, c: char) -> (r: bool)
    ensures
        r == v@.contains(c),
{
    let k = find_char_from(v, c, 0);
    proof {
        assert(v@.skip(0) =~= v@);
        lemma_index_of_char(v@, c);
    }
    k < v.len()
}

/// The texts of `parts` joined with `sep` between them.
pub fn join_strings(parts: &Vec<String>, sep: &str) -> (r: String)
    ensures
        r@ == join_with(parts@.map_values(|s: String| s@), sep@),
{
    let ghost views = parts@.map_values(|s: String| s@);
    let mut out = String::new();
    if parts.len() == 0 {
        return out;
    }
    out.append(parts[0].as_str());
    let mut i: usize = 1;
    assert(views.take(1).drop_last() =~= Seq::<Seq<char>>::empty());
    while i < parts.len()
        invariant
            1 <= i <= parts.len(),
            views == parts@.map_values(|s: String| s@),
            out@ == join_with(views.take(i as int), sep@),
        decreases parts.len() - i,
    {
        assert(views.take(i + 1).drop_last() =~= views.take(i as int));
        out.append(sep);
        out.append(parts[i].as_str());
        i += 1;
    }
    assert(views.take(parts.len() as int) =~= views);
    out
}

} // verus!
