//! Markdown → plain text conversion and word counting ("字数").
use vstd::prelude::*;
use crate::text::{
    chars_of, extend_chars, find_char_from, index_of_char, is_alphabetic, is_space,
    lemma_index_of_char, lemma_index_of_char_append, lemma_lines_of_append, lemma_lines_of_cons,
    lemma_lines_of_last, lemma_trim_end_shape, lines_of, strip_cr, split_lines, string_of, sub_chars, trim_chars, trim_end_chars, trim_end_ws,
    trim_start_char, trim_start_char_exec, trim_start_chars, trim_start_ws, trim_ws,
    alphabetic,
};

verus! {

// ── Specifications ───────────────────────────────────────────────────────────

/// A Setext underline row: after trimming, at least three characters that are
/// all `=` or all `-`.
pub open spec fn is_rule_line(l: Seq<char>) -> bool {
    let t = trim_ws(l);
    &&& t.len() >= 3
    &&& (forall|i: int| 0 <= i < t.len() ==> t[i] == '=') || (forall|i: int|
        0 <= i < t.len() ==> t[i] == '-')
}

/// An unordered-list bullet (`- `, `* ` or `+ `) removed from the front.
pub open spec fn strip_bullet(l: Seq<char>) -> Seq<char> {
    if l.len() >= 2 && (l[0] == '-' || l[0] == '*' || l[0] == '+') && l[1] == ' ' {
        l.skip(2)
    } else {
        l
    }
}

/// Position of the first `". "` in `s`, or `s.len()` when there is none.
pub open spec fn first_dot_space(s: Seq<char>) -> nat
    decreases s.len(),
{
    if s.len() < 2 {
        s.len()
    } else if s[0] == '.' && s[1] == ' ' {
        0
    } else {
        1 + first_dot_space(s.drop_first())
    }
}

/// An ASCII decimal digit.
pub open spec fn is_digit(c: char) -> bool {
    '0' <= c <= '9'
}

/// An ordered-list number (`1. `, `10. `…) removed from the front: the text
/// before the first `". "` must be a non-empty run of ASCII digits.
pub open spec fn strip_ordered(l: Seq<char>) -> Seq<char> {
    let p = first_dot_space(l) as int;
    if p < l.len() && p > 0 && (forall|i: int| 0 <= i < p ==> is_digit(l[i])) {
        l.skip(p + 2)
    } else {
        l
    }
}

/// Inline links `[text](url)` replaced by `text`, one at a time, always at the
/// first `[` and the first `]` of the line, until that pair is not a link.
pub open spec fn strip_links(l: Seq<char>) -> Seq<char>
    decreases l.len(),
{
    let o = index_of_char(l, '[') as int;
    let c = index_of_char(l, ']') as int;
    if o < l.len() && c < l.len() && c > o {
        let after = l.skip(c + 1);
        if after.len() > 0 && after[0] == '(' {
            let cp = index_of_char(after, ')') as int;
            if cp < after.len() {
                strip_links(l.take(o) + l.subrange(o + 1, c) + l.skip(c + 1 + cp + 1))
            } else {
                l
            }
        } else {
            l
        }
    } else {
        l
    }
}

/// Emphasis and inline-code markers.
pub open spec fn is_mark(c: char) -> bool {
    c == '*' || c == '`'
}

/// Every `*` and `` ` `` removed.
pub open spec fn drop_marks(s: Seq<char>) -> Seq<char>
    decreases s.len(),
{
    if s.len() == 0 {
        s
    } else if is_mark(s.last()) {
        drop_marks(s.drop_last())
    } else {
        drop_marks(s.drop_last()).push(s.last())
    }
}

/// One Markdown line reduced to its text: heading hashes, blockquote markers,
/// list prefixes, link syntax, emphasis and code markers and trailing white
/// space removed.
pub open spec fn clean_line(l: Seq<char>) -> Seq<char> {
    let a = trim_start_ws(trim_start_char(l, '#'));
    let b = trim_start_ws(trim_start_char(a, '>'));
    trim_end_ws(drop_marks(strip_links(strip_ordered(strip_bullet(b)))))
}

/// What one line contributes to the plain text.
pub open spec fn plain_piece(l: Seq<char>) -> Seq<char> {
    if is_rule_line(l) {
        seq![]
    } else {
        clean_line(l).push('\n')
    }
}

/// The plain text of a sequence of lines.
pub open spec fn plain_of_lines(ls: Seq<Seq<char>>) -> Seq<char>
    decreases ls.len(),
{
    if ls.len() == 0 {
        seq![]
    } else {
        plain_of_lines(ls.drop_last()) + plain_piece(ls.last())
    }
}

/// The plain text of a Markdown document: one cleaned line, ended by `'\n'`,
/// for every line that is not a Setext underline.
pub open spec fn plain_text(md: Seq<char>) -> Seq<char> {
    plain_of_lines(lines_of(md))
}

/// A CJK unified ideograph (basic block, Extension A or Extension B).
pub open spec fn is_cjk(c: char) -> bool {
    let u = c as u32;
    ||| 0x4E00 <= u <= 0x9FFF
    ||| 0x3400 <= u <= 0x4DBF
    ||| 0x20000 <= u <= 0x2A6DF
}

/// Words counted so far and whether the last character was alphabetic
/// (inside a Latin word).
pub open spec fn word_scan(s: Seq<char>) -> (nat, bool)
    decreases s.len(),
{
    if s.len() == 0 {
        (0, false)
    } else {
        let (n, latin) = word_scan(s.drop_last());
        let c = s.last();
        if is_cjk(c) {
            ((n + 1) as nat, false)
        } else if alphabetic(c) {
            (if latin {
                n
            } else {
                (n + 1) as nat
            }, true)
        } else {
            (n, false)
        }
    }
}

/// Word count of a text: each CJK ideograph counts one, each maximal run of
/// other alphabetic characters counts one, everything else counts nothing.
pub open spec fn words_in(s: Seq<char>) -> nat {
    word_scan(s).0
}

// ── Laws ─────────────────────────────────────────────────────────────────────

/// A text never holds more words than characters.
pub proof fn lemma_words_bounded(s: Seq<char>)
    ensures
        words_in(s) <= s.len(),
    decreases s.len(),
{
    if s.len() > 0 {
        lemma_words_bounded(s.drop_last());
    }
}

/// `drop_marks` leaves no marker behind.
pub proof fn lemma_drop_marks_clean(s: Seq<char>)
    ensures
        forall|i: int| 0 <= i < drop_marks(s).len() ==> !is_mark(#[trigger] drop_marks(s)[i]),
    decreases s.len(),
{
    if s.len() > 0 {
        lemma_drop_marks_clean(s.drop_last());
        let p = drop_marks(s.drop_last());
        assert forall|i: int| 0 <= i < drop_marks(s).len() implies !is_mark(
            #[trigger] drop_marks(s)[i],
        ) by {
            if i < p.len() {
                assert(drop_marks(s)[i] == p[i]);
            }
        }
    }
}

/// The plain text of a document holds no `*` and no `` ` ``.
pub proof fn lemma_plain_text_has_no_marks(md: Seq<char>)
    ensures
        forall|i: int| 0 <= i < plain_text(md).len() ==> !is_mark(#[trigger] plain_text(md)[i]),
{
    lemma_plain_lines_no_marks(lines_of(md));
}

proof fn lemma_plain_lines_no_marks(ls: Seq<Seq<char>>)
    ensures
        forall|i: int|
            0 <= i < plain_of_lines(ls).len() ==> !is_mark(#[trigger] plain_of_lines(ls)[i]),
    decreases ls.len(),
{
    if ls.len() > 0 {
        lemma_plain_lines_no_marks(ls.drop_last());
        let l = ls.last();
        if !is_rule_line(l) {
            let a = trim_start_ws(trim_start_char(l, '#'));
            let b = trim_start_ws(trim_start_char(a, '>'));
            let d = drop_marks(strip_links(strip_ordered(strip_bullet(b))));
            lemma_drop_marks_clean(strip_links(strip_ordered(strip_bullet(b))));
            lemma_trim_end_shape(d);
            assert forall|i: int| 0 <= i < clean_line(l).len() implies !is_mark(
                #[trigger] clean_line(l)[i],
            ) by {
                assert(clean_line(l)[i] == d[i]);
            }
        }
        let p = plain_of_lines(ls.drop_last());
        let q = plain_piece(l);
        assert forall|i: int| 0 <= i < plain_of_lines(ls).len() implies !is_mark(
            #[trigger] plain_of_lines(ls)[i],
        ) by {
            if i < p.len() {
                assert(plain_of_lines(ls)[i] == p[i]);
            } else {
                assert(plain_of_lines(ls)[i] == q[i - p.len()]);
            }
        }
    }
}

// ── Word counting is line-local ──────────────────────────────────────────────

/// `u` is `v` with a carriage return after it, or both are empty.
pub open spec fn cr_after(u: Seq<char>, v: Seq<char>) -> bool {
    u == v.push('\r') || (u.len() == 0 && v.len() == 0)
}

proof fn lemma_trim_start_char_cr(v: Seq<char>, c: char)
    requires
        c != '\r',
    ensures
        trim_start_char(v.push('\r'), c) == trim_start_char(v, c).push('\r'),
    decreases v.len(),
{
    if v.len() > 0 && v[0] == c {
        assert(v.push('\r').drop_first() =~= v.drop_first().push('\r'));
        lemma_trim_start_char_cr(v.drop_first(), c);
    }
}

proof fn lemma_trim_start_ws_cr(v: Seq<char>)
    ensures
        cr_after(trim_start_ws(v.push('\r')), trim_start_ws(v)),
    decreases v.len(),
{
    assert(is_space('\r'));
    if v.len() > 0 && is_space(v[0]) {
        assert(v.push('\r')[0] == v[0]);
        assert(v.push('\r').drop_first() =~= v.drop_first().push('\r'));
        lemma_trim_start_ws_cr(v.drop_first());
    } else if v.len() == 0 {
        let e = Seq::<char>::empty();
        assert(v.push('\r') =~= seq!['\r']);
        assert(seq!['\r'][0] == '\r');
        assert(seq!['\r'].drop_first() =~= e);
        assert(trim_start_ws(e) == e);
        assert(trim_start_ws(seq!['\r']) == trim_start_ws(e));
    } else {
        assert(v.push('\r')[0] == v[0]);
    }
}

proof fn lemma_strip_bullet_cr(v: Seq<char>)
    ensures
        strip_bullet(v.push('\r')) == strip_bullet(v).push('\r'),
{
    if v.len() >= 2 {
        assert(v.push('\r').skip(2) =~= v.skip(2).push('\r'));
    }
}

proof fn lemma_first_dot_space_cr(v: Seq<char>)
    ensures
        first_dot_space(v) <= v.len(),
        first_dot_space(v) < v.len() ==> first_dot_space(v) + 2 <= v.len(),
        first_dot_space(v.push('\r')) == if first_dot_space(v) < v.len() {
            first_dot_space(v)
        } else {
            v.len() + 1
        },
    decreases v.len(),
{
    let x = v.push('\r');
    if v.len() < 2 {
        if v.len() == 1 {
            assert(x[1] == '\r');
            assert(x.drop_first() =~= seq!['\r']);
            assert(first_dot_space(seq!['\r']) == 1);
        } else {
            assert(x =~= seq!['\r']);
        }
    } else if v[0] == '.' && v[1] == ' ' {
        assert(x[0] == v[0] && x[1] == v[1]);
    } else {
        assert(x[0] == v[0] && x[1] == v[1]);
        assert(v.push('\r').drop_first() =~= v.drop_first().push('\r'));
        lemma_first_dot_space_cr(v.drop_first());
    }
}

proof fn lemma_strip_ordered_cr(v: Seq<char>)
    ensures
        strip_ordered(v.push('\r')) == strip_ordered(v).push('\r'),
{
    lemma_first_dot_space_cr(v);
    let p = first_dot_space(v) as int;
    if p < v.len() {
        assert(v.push('\r').skip(p + 2) =~= v.skip(p + 2).push('\r'));
        assert(forall|i: int| 0 <= i < p ==> v.push('\r')[i] == v[i]);
    }
}

proof fn lemma_index_of_char_found(a: Seq<char>, b: Seq<char>, c: char)
    requires
        a.contains(c),
    ensures
        index_of_char(a + b, c) == index_of_char(a, c),
    decreases a.len(),
{
    if a[0] != c {
        assert((a + b).drop_first() =~= a.drop_first() + b);
        let j = choose|j: int| 0 <= j < a.len() && a[j] == c;
        assert(a.drop_first()[j - 1] == c);
        lemma_index_of_char_found(a.drop_first(), b, c);
    }
}

/// Where a character other than `'\r'` is first found after a carriage
/// return is appended.
proof fn lemma_index_of_char_cr(v: Seq<char>, c: char)
    requires
        c != '\r',
    ensures
        index_of_char(v.push('\r'), c) == if v.contains(c) {
            index_of_char(v, c)
        } else {
            v.len() + 1
        },
        index_of_char(v, c) <= v.len(),
        index_of_char(v, c) < v.len() <==> v.contains(c),
{
    lemma_index_of_char(v, c);
    assert(v.push('\r') =~= v + seq!['\r']);
    if v.contains(c) {
        lemma_index_of_char_found(v, seq!['\r'], c);
    } else {
        lemma_index_of_char_append(v, seq!['\r'], c);
        assert(index_of_char(seq!['\r'], c) == 1 + index_of_char(seq!['\r'].drop_first(), c));
        assert(seq!['\r'].drop_first() =~= Seq::<char>::empty());
    }
}

proof fn lemma_strip_links_cr(v: Seq<char>)
    ensures
        strip_links(v.push('\r')) == strip_links(v).push('\r'),
    decreases v.len(),
{
    let x = v.push('\r');
    lemma_index_of_char_cr(v, '[');
    lemma_index_of_char_cr(v, ']');
    let o = index_of_char(v, '[') as int;
    let c = index_of_char(v, ']') as int;
    if o < v.len() && c < v.len() && c > o {
        let after = v.skip(c + 1);
        assert(x.skip(c + 1) =~= after.push('\r'));
        if after.len() > 0 && after[0] == '(' {
            lemma_index_of_char_cr(after, ')');
            let cp = index_of_char(after, ')') as int;
            if cp < after.len() {
                let inner = v.take(o) + v.subrange(o + 1, c) + v.skip(c + 1 + cp + 1);
                assert(x.take(o) + x.subrange(o + 1, c) + x.skip(c + 1 + cp + 1) =~= inner.push(
                    '\r',
                ));
                lemma_strip_links_cr(inner);
            }
        }
    }
}

proof fn lemma_drop_marks_cr(v: Seq<char>)
    ensures
        drop_marks(v.push('\r')) == drop_marks(v).push('\r'),
{
    assert(v.push('\r').drop_last() =~= v);
}

/// A carriage return at the end of a line changes neither whether it is a
/// Setext underline nor its cleaned text.
proof fn lemma_piece_cr(m: Seq<char>)
    ensures
        plain_piece(m.push('\r')) == plain_piece(m),
{
    let x = m.push('\r');
    assert(x.drop_last() =~= m);
    // Setext test.
    lemma_trim_start_ws_cr(m);
    if trim_start_ws(x).len() > 0 {
        assert(trim_start_ws(x).drop_last() =~= trim_start_ws(m));
    }
    assert(trim_ws(x) == trim_ws(m));
    // Cleaned text.
    lemma_trim_start_char_cr(m, '#');
    let a0 = trim_start_char(m, '#');
    lemma_trim_start_ws_cr(a0);
    let am = trim_start_ws(a0);
    let ax = trim_start_ws(a0.push('\r'));
    let bm = trim_start_ws(trim_start_char(am, '>'));
    let bx = trim_start_ws(trim_start_char(ax, '>'));
    if ax == am.push('\r') {
        lemma_trim_start_char_cr(am, '>');
        lemma_trim_start_ws_cr(trim_start_char(am, '>'));
    }
    assert(cr_after(bx, bm));
    if bx == bm.push('\r') {
        lemma_strip_bullet_cr(bm);
        lemma_strip_ordered_cr(strip_bullet(bm));
        lemma_strip_links_cr(strip_ordered(strip_bullet(bm)));
        lemma_drop_marks_cr(strip_links(strip_ordered(strip_bullet(bm))));
        let y = drop_marks(strip_links(strip_ordered(strip_bullet(bm))));
        assert(y.push('\r').drop_last() =~= y);
    }
    assert(clean_line(x) == clean_line(m));
}

/// Counting a text made of two parts where the first does not end inside a
/// Latin word adds the two counts.
proof fn lemma_scan_concat(x: Seq<char>, y: Seq<char>)
    requires
        !word_scan(x).1,
    ensures
        word_scan(x + y) == ((word_scan(x).0 + word_scan(y).0) as nat, word_scan(y).1),
    decreases y.len(),
{
    if y.len() == 0 {
        assert(x + y =~= x);
    } else {
        lemma_scan_concat(x, y.drop_last());
        assert((x + y).drop_last() =~= x + y.drop_last());
        assert((x + y).last() == y.last());
    }
}

proof fn lemma_plain_concat(l1: Seq<Seq<char>>, l2: Seq<Seq<char>>)
    ensures
        plain_of_lines(l1 + l2) == plain_of_lines(l1) + plain_of_lines(l2),
    decreases l2.len(),
{
    if l2.len() == 0 {
        assert(l1 + l2 =~= l1);
        assert(plain_of_lines(l1) + Seq::<char>::empty() =~= plain_of_lines(l1));
    } else {
        lemma_plain_concat(l1, l2.drop_last());
        assert((l1 + l2).drop_last() =~= l1 + l2.drop_last());
        assert((l1 + l2).last() == l2.last());
        assert(plain_of_lines(l1) + plain_of_lines(l2.drop_last()) + plain_piece(l2.last())
            =~= plain_of_lines(l1) + (plain_of_lines(l2.drop_last()) + plain_piece(l2.last())));
    }
}

/// The plain text of some lines never ends inside a Latin word.
proof fn lemma_plain_ends_clear(ls: Seq<Seq<char>>)
    ensures
        !word_scan(plain_of_lines(ls)).1,
    decreases ls.len(),
{
    if ls.len() > 0 {
        lemma_plain_ends_clear(ls.drop_last());
        let p = plain_of_lines(ls.drop_last());
        let q = plain_piece(ls.last());
        if q.len() == 0 {
            assert(p + q =~= p);
        } else {
            assert((p + q).last() == '\n');
            assert(!is_cjk('\n') && !alphabetic('\n'));
        }
    }
}

/// The words of some lines are the words of each part added up.
proof fn lemma_line_words_add(l1: Seq<Seq<char>>, l2: Seq<Seq<char>>)
    ensures
        words_in(plain_of_lines(l1 + l2)) == words_in(plain_of_lines(l1)) + words_in(
            plain_of_lines(l2),
        ),
{
    lemma_plain_concat(l1, l2);
    lemma_plain_ends_clear(l1);
    lemma_scan_concat(plain_of_lines(l1), plain_of_lines(l2));
}

proof fn lemma_one_line_words(l: Seq<char>)
    ensures
        plain_of_lines(seq![l]) == plain_piece(l),
{
    assert(seq![l].drop_last() =~= Seq::<Seq<char>>::empty());
    assert(seq![l].last() == l);
    assert(plain_of_lines(Seq::<Seq<char>>::empty()) =~= Seq::<char>::empty());
    assert(Seq::<char>::empty() + plain_piece(l) =~= plain_piece(l));
}

/// A final line feed adds no word.
proof fn lemma_final_newline_words(a: Seq<char>)
    ensures
        words_in(plain_of_lines(lines_of(a.push('\n')))) == words_in(plain_of_lines(lines_of(a))),
    decreases a.len(),
{
    lemma_index_of_char(a, '\n');
    let k = index_of_char(a, '\n') as int;
    if k < a.len() {
        let head = a.take(k);
        let r = a.skip(k + 1);
        assert(!head.contains('\n')) by {
            if head.contains('\n') {
                let j = choose|j: int| 0 <= j < head.len() && head[j] == '\n';
                assert(a[j] == '\n');
            }
        }
        assert(a =~= head + seq!['\n'] + r);
        assert(a.push('\n') =~= head + seq!['\n'] + r.push('\n'));
        lemma_lines_of_cons(head, r);
        lemma_lines_of_cons(head, r.push('\n'));
        lemma_final_newline_words(r);
        lemma_line_words_add(seq![strip_cr(head)], lines_of(r));
        lemma_line_words_add(seq![strip_cr(head)], lines_of(r.push('\n')));
    } else {
        assert(a.push('\n') =~= a + seq!['\n'] + Seq::<char>::empty());
        lemma_lines_of_cons(a, Seq::<char>::empty());
        assert(lines_of(Seq::<char>::empty()) =~= Seq::<Seq<char>>::empty());
        assert(seq![strip_cr(a)] + Seq::<Seq<char>>::empty() =~= seq![strip_cr(a)]);
        lemma_lines_of_last(a);
        lemma_one_line_words(strip_cr(a));
        if a.len() == 0 {
            let e = Seq::<char>::empty();
            assert(strip_cr(a) =~= e);
            assert(strip_links(e) =~= e);
            assert(strip_ordered(e) =~= e);
            assert(clean_line(e) =~= e);
            assert(plain_piece(e) =~= seq!['\n']);
            assert(seq!['\n'].drop_last() =~= e);
            assert(!is_cjk('\n') && !alphabetic('\n'));
            assert(plain_of_lines(Seq::<Seq<char>>::empty()) =~= e);
        } else {
            lemma_one_line_words(a);
            if a.last() == '\r' {
                lemma_piece_cr(a.drop_last());
                assert(a.drop_last().push('\r') =~= a);
            }
        }
    }
}

/// Word counting is line-local: no word spans a line break, so the count of
/// two texts joined by a line feed is the sum of their counts.
pub proof fn lemma_count_words_line_local(a: Seq<char>, b: Seq<char>)
    ensures
        words_in(plain_text(a + seq!['\n'] + b)) == words_in(plain_text(a)) + words_in(
            plain_text(b),
        ),
{
    let an = a.push('\n');
    assert(a + seq!['\n'] + b =~= an + b);
    assert(an.last() == '\n');
    lemma_lines_of_append(an, b);
    lemma_line_words_add(lines_of(an), lines_of(b));
    lemma_final_newline_words(a);
}

/// A CJK ideograph is one word of its own and ends any Latin word before it:
/// the count of `x`, an ideograph, then `y` is the count of `x`, plus one,
/// plus the count of `y` (so "ab" + ideograph + "cd" counts three words).
pub proof fn lemma_cjk_is_one_word(x: Seq<char>, c: char, y: Seq<char>)
    requires
        is_cjk(c),
    ensures
        words_in(x + seq![c] + y) == words_in(x) + 1 + words_in(y),
        !word_scan(x.push(c)).1,
{
    let xc = x.push(c);
    assert(xc.drop_last() =~= x);
    assert(xc.last() == c);
    assert(word_scan(xc) == ((word_scan(x).0 + 1) as nat, false));
    lemma_scan_concat(xc, y);
    assert(x + seq![c] + y =~= xc + y);
}

/// A character that is neither a CJK ideograph nor alphabetic (white space,
/// punctuation, a digit) counts nothing and separates words: the count of `x`,
/// that character, then `y` is the count of `x` plus the count of `y`.
pub proof fn lemma_separator_splits_words(x: Seq<char>, c: char, y: Seq<char>)
    requires
        !is_cjk(c),
        !alphabetic(c),
    ensures
        words_in(x + seq![c] + y) == words_in(x) + words_in(y),
{
    let xc = x.push(c);
    assert(xc.drop_last() =~= x);
    assert(xc.last() == c);
    assert(word_scan(xc) == (word_scan(x).0, false));
    lemma_scan_concat(xc, y);
    assert(x + seq![c] + y =~= xc + y);
}

/// Consecutive alphabetic (non-CJK) characters form one word: one more of
/// them right after another adds nothing, while the first one after a
/// non-letter starts a new word.
pub proof fn lemma_latin_run_is_one_word(x: Seq<char>, c: char, d: char)
    requires
        alphabetic(c) && !is_cjk(c),
        alphabetic(d) && !is_cjk(d),
    ensures
        words_in(x.push(c).push(d)) == words_in(x.push(c)),
        !word_scan(x).1 ==> words_in(x.push(c)) == words_in(x) + 1,
{
    let xc = x.push(c);
    assert(xc.drop_last() =~= x);
    assert(xc.last() == c);
    assert(xc.push(d).drop_last() =~= xc);
    assert(xc.push(d).last() == d);
    assert(word_scan(xc).1);
}

// ── Executable code ──────────────────────────────────────────────────────────

fn is_rule_line_exec(l: &Vec<char>) -> (r: bool)
    ensures
        r == is_rule_line(l@),
{
    let t = trim_chars(l);
    if t.len() < 3 {
        return false;
    }
    let mut all_eq = true;
    let mut all_dash = true;
    for i in 0..t.len()
        invariant
            all_eq == (forall|j: int| 0 <= j < i ==> t@[j] == '='),
            all_dash == (forall|j: int| 0 <= j < i ==> t@[j] == '-'),
    {
        if t[i] != '=' {
            all_eq = false;
        }
        if t[i] != '-' {
            all_dash = false;
        }
    }
    all_eq || all_dash
}

fn strip_bullet_exec(l: Vec<char>) -> (r: Vec<char>)
    ensures
        r@ == strip_bullet(l@),
{
    if l.len() >= 2 && (l[0] == '-' || l[0] == '*' || l[0] == '+') && l[1] == ' ' {
        assert(l@.skip(2) =~= l@.subrange(2, l@.len() as int));
        sub_chars(&l, 2, l.len())
    } else {
        l
    }
}

fn first_dot_space_exec(l: &Vec<char>) -> (r: usize)
    ensures
        r == first_dot_space(l@),
{
    let mut i: usize = 0;
    assert(l@.skip(0) =~= l@);
    while i < l.len() && i + 1 < l.len() && !(l[i] == '.' && l[i + 1] == ' ')
        invariant
            i <= l.len(),
            first_dot_space(l@) == i + first_dot_space(l@.skip(i as int)),
        decreases l.len() - i,
    {
        assert(l@.skip(i as int).drop_first() =~= l@.skip(i + 1));
        i += 1;
    }
    if i < l.len() && i + 1 < l.len() {
        i
    } else {
        l.len()
    }
}

fn strip_ordered_exec(l: Vec<char>) -> (r: Vec<char>)
    ensures
        r@ == strip_ordered(l@),
{
    let p = first_dot_space_exec(&l);
    if p < l.len() && p > 0 {
        let mut digits = true;
        for i in 0..p
            invariant
                p <= l.len(),
                digits == (forall|j: int| 0 <= j < i ==> is_digit(l@[j])),
        {
            if !('0' <= l[i] && l[i] <= '9') {
                digits = false;
            }
        }
        if digits {
            proof {
                lemma_first_dot_space(l@);
            }
            assert(l@.skip(p + 2) =~= l@.subrange(p + 2, l@.len() as int));
            return sub_chars(&l, p + 2, l.len());
        }
    }
    l
}

proof fn lemma_first_dot_space(s: Seq<char>)
    ensures
        first_dot_space(s) <= s.len(),
        first_dot_space(s) < s.len() ==> first_dot_space(s) + 1 < s.len(),
    decreases s.len(),
{
    if s.len() >= 2 && !(s[0] == '.' && s[1] == ' ') {
        lemma_first_dot_space(s.drop_first());
    }
}

fn strip_links_exec(l: Vec<char>) -> (r: Vec<char>)
    ensures
        r@ == strip_links(l@),
{
    let mut cur = l;
    loop
        invariant
            strip_links(cur@) == strip_links(l@),
        decreases cur.len(),
    {
        let o = find_char_from(&cur, '[', 0);
        let c = find_char_from(&cur, ']', 0);
        assert(cur@.skip(0) =~= cur@);
        if !(o < cur.len() && c < cur.len() && c > o) {
            return cur;
        }
        if !(c + 1 < cur.len() && cur[c + 1] == '(') {
            assert(cur@.skip(c + 1).len() > 0 ==> cur@.skip(c + 1)[0] == cur@[c + 1]);
            return cur;
        }
        let close = find_char_from(&cur, ')', c + 1);
        if close >= cur.len() {
            return cur;
        }
        let ghost cp = close - (c + 1);
        let mut next = sub_chars(&cur, 0, o);
        let text = sub_chars(&cur, o + 1, c);
        let tail = sub_chars(&cur, close + 1, cur.len());
        extend_chars(&mut next, &text);
        extend_chars(&mut next, &tail);
        proof {
            assert(cur@.take(o as int) =~= cur@.subrange(0, o as int));
            assert(cur@.skip(c + 1 + cp + 1) =~= cur@.subrange(close + 1, cur@.len() as int));
        }
        cur = next;
    }
}

fn drop_marks_exec(v: &Vec<char>) -> (r: Vec<char>)
    ensures
        r@ == drop_marks(v@),
{
    let mut out: Vec<char> = Vec::new();
    for i in 0..v.len()
        invariant
            out@ == drop_marks(v@.take(i as int)),
    {
        assert(v@.take(i + 1).drop_last() =~= v@.take(i as int));
        if v[i] != '*' && v[i] != '`' {
            out.push(v[i]);
        }
    }
    assert(v@.take(v.len() as int) =~= v@);
    out
}

fn clean_line_exec(l: &Vec<char>) -> (r: Vec<char>)
    ensures
        r@ == clean_line(l@),
{
    let a0 = trim_start_char_exec(l, '#');
    let a = trim_start_chars(&a0);
    let b0 = trim_start_char_exec(&a, '>');
    let b = trim_start_chars(&b0);
    let c = strip_bullet_exec(b);
    let d = strip_ordered_exec(c);
    let e = strip_links_exec(d);
    let f = drop_marks_exec(&e);
    trim_end_chars(&f)
}

/// Convert Markdown to plain text, line by line: Setext underlines (`===`,
/// `---`) are skipped; ATX heading hashes, blockquote `>` markers, list
/// prefixes (`- `, `* `, `+ `, `1. `), inline link syntax (`[text](url)` →
/// `text`), `*` and `` ` `` are removed; every kept line ends with `'\n'`.
pub fn markdown_to_plain_text(md: &str) -> (r: String)
    ensures
        r@ == plain_text(md@),
{
    let chars = chars_of(md);
    let lines = split_lines(&chars);
    let mut out: Vec<char> = Vec::new();
    let ghost ls = lines_of(md@);
    for i in 0..lines.len()
        invariant
            lines@.len() == ls.len(),
            forall|k: int| 0 <= k < lines@.len() ==> #[trigger] lines@[k]@ == ls[k],
            out@ == plain_of_lines(ls.take(i as int)),
    {
        assert(ls.take(i + 1).drop_last() =~= ls.take(i as int));
        assert(ls.take(i + 1).last() == ls[i as int]);
        let line = &lines[i];
        if !is_rule_line_exec(line) {
            let cleaned = clean_line_exec(line);
            extend_chars(&mut out, &cleaned);
            out.push('\n');
            assert(out@ =~= plain_of_lines(ls.take(i as int)) + clean_line(ls[i as int]).push(
                '\n',
            ));
        } else {
            assert(out@ =~= plain_of_lines(ls.take(i as int)) + Seq::<char>::empty());
        }
    }
    assert(ls.take(lines.len() as int) =~= ls);
    string_of(&out)
}

fn is_cjk_exec(c: char) -> (r: bool)
    ensures
        r == is_cjk(c),
{
    let u: u32 = c as u32;
    (0x4E00 <= u && u <= 0x9FFF) || (0x3400 <= u && u <= 0x4DBF) || (0x20000 <= u && u <= 0x2A6DF)
}

/// Count the words of a Markdown text after stripping its syntax: each CJK
/// ideograph is one word, each run of other alphabetic characters is one word,
/// punctuation and white space count nothing.
pub fn count_words(md: &str) -> (r: usize)
    ensures
        r == words_in(plain_text(md@)),
{
    let plain = markdown_to_plain_text(md);
    let cs = chars_of(plain.as_str());
    let mut count: usize = 0;
    let mut in_latin = false;
    for i in 0..cs.len()
        invariant
            (count as nat, in_latin) == word_scan(cs@.take(i as int)),
            count <= i,
    {
        assert(cs@.take(i + 1).drop_last() =~= cs@.take(i as int));
        let c = cs[i];
        if is_cjk_exec(c) {
            count += 1;
            in_latin = false;
        } else if is_alphabetic(c) {
            if !in_latin {
                count += 1;
            }
            in_latin = true;
        } else {
            in_latin = false;
        }
    }
    assert(cs@.take(cs.len() as int) =~= cs@);
    count
}

} // verus!
