//! Characters and strings: whitespace, squashing, splitting and searching.
use vstd::prelude::*;

verus! {

/// `char::is_whitespace`: the Unicode `White_Space` property.
pub open spec fn is_ws(c: char) -> bool {
    ||| ('\t' <= c && c <= '\r')
    ||| c == ' '
    ||| c == '\u{85}'
    ||| c == '\u{a0}'
    ||| c == '\u{1680}'
    ||| ('\u{2000}' <= c && c <= '\u{200a}')
    ||| c == '\u{2028}'
    ||| c == '\u{2029}'
    ||| c == '\u{202f}'
    ||| c == '\u{205f}'
    ||| c == '\u{3000}'
}

pub fn is_whitespace(c: char) -> (b: bool)
    ensures
        b == is_ws(c),
{
    ('\t' <= c && c <= '\r') || c == ' ' || c == '\u{85}' || c == '\u{a0}' || c == '\u{1680}'
        || ('\u{2000}' <= c && c <= '\u{200a}') || c == '\u{2028}' || c == '\u{2029}'
        || c == '\u{202f}' || c == '\u{205f}' || c == '\u{3000}'
}

/// The characters of `s`, in order.
pub fn chars_of(s: &str) -> (v: Vec<char>)
    ensures
        v@ == s@,
{
    let mut v: Vec<char> = Vec::new();
    for c in it: s.chars()
        invariant
            v@ == it.seq().take(it.index()),
    {
        v.push(c);
    }
    v
}


/// `String::push`.
#[verifier::external_body]
pub(crate) fn push_char(s: &mut String, c: char)
    ensures
        final(s)@ == old(s)@.push(c),
{
    s.push(c)
}

/// A `String` holding exactly `v`.
pub fn string_of(v: &[char]) -> (s: String)
    ensures
        s@ == v@,
{
    let mut s = String::new();
    let mut i: usize = 0;
    while i < v.len()
        invariant
            i <= v.len(),
            s@ == v@.take(i as int),
        decreases v.len() - i,
    {
        push_char(&mut s, v[i]);
        i += 1;
        assert(s@ =~= v@.take(i as int));
    }
    assert(v@.take(v.len() as int) =~= v@);
    s
}

/// The maximal runs of non-whitespace characters of `s`, in order: what
/// `str::split_whitespace` yields.
pub open spec fn words(s: Seq<char>) -> Seq<Seq<char>>
    decreases s.len(),
{
    if s.len() == 0 {
        Seq::empty()
    } else {
        let prev = words(s.drop_last());
        if is_ws(s.last()) {
            prev
        } else if s.len() >= 2 && !is_ws(s[s.len() - 2]) {
            prev.drop_last().push(prev.last().push(s.last()))
        } else {
            prev.push(seq![s.last()])
        }
    }
}

/// `parts` joined with `sep` between consecutive parts.
pub open spec fn join(parts: Seq<Seq<char>>, sep: Seq<char>) -> Seq<char>
    decreases parts.len(),
{
    if parts.len() == 0 {
        Seq::empty()
    } else if parts.len() == 1 {
        parts[0]
    } else {
        join(parts.drop_last(), sep) + sep + parts.last()
    }
}

/// `s` with every whitespace run collapsed to one space and both ends trimmed.
pub open spec fn squashed(s: Seq<char>) -> Seq<char> {
    join(words(s), seq![' '])
}

pub proof fn lemma_words_nonempty(s: Seq<char>)
    ensures
        forall|k: int| 0 <= k < words(s).len() ==> #[trigger] words(s)[k].len() > 0,
        s.len() > 0 && !is_ws(s.last()) ==> words(s).len() > 0,
    decreases s.len(),
{
    if s.len() > 0 {
        lemma_words_nonempty(s.drop_last());
        if s.len() >= 2 {
            assert(s.drop_last().last() == s[s.len() - 2]);
        }
        let prev = words(s.drop_last());
        if !is_ws(s.last()) && s.len() >= 2 && !is_ws(s[s.len() - 2]) {
            let nw = prev.drop_last().push(prev.last().push(s.last()));
            assert forall|k: int| 0 <= k < nw.len() implies #[trigger] nw[k].len() > 0 by {
                if k < nw.len() - 1 {
                    assert(nw[k] == prev[k]);
                }
            }
        }
    }
}

proof fn lemma_words_clean(s: Seq<char>)
    ensures
        forall|k: int, i: int|
            0 <= k < words(s).len() && 0 <= i < words(s)[k].len() ==> !is_ws(#[trigger] words(s)[k][i]),
    decreases s.len(),
{
    if s.len() > 0 {
        lemma_words_clean(s.drop_last());
        lemma_words_nonempty(s.drop_last());
        let prev = words(s.drop_last());
        let c = s.last();
        if !is_ws(c) {
            if s.len() >= 2 && !is_ws(s[s.len() - 2]) {
                assert(s.drop_last().last() == s[s.len() - 2]);
                let nw = prev.drop_last().push(prev.last().push(c));
                assert forall|k: int, i: int| 0 <= k < nw.len() && 0 <= i < nw[k].len() implies !is_ws(#[trigger] nw[k][i]) by {
                    if k < nw.len() - 1 {
                        assert(nw[k] == prev[k]);
                    } else if i < prev.last().len() {
                        assert(nw[k][i] == prev[prev.len() - 1][i]);
                    }
                }
            } else {
                let nw = prev.push(seq![c]);
                assert forall|k: int, i: int| 0 <= k < nw.len() && 0 <= i < nw[k].len() implies !is_ws(#[trigger] nw[k][i]) by {
                    if k < nw.len() - 1 {
                        assert(nw[k] == prev[k]);
                    }
                }
            }
        }
    }
}

/// Whitespace in `t` is single spaces between other characters.
pub open spec fn tidy(t: Seq<char>) -> bool {
    forall|i: int|
        0 <= i < t.len() && is_ws(#[trigger] t[i]) ==> t[i] == ' ' && 0 < i < t.len() - 1 && !is_ws(t[i - 1])
            && !is_ws(t[i + 1])
}

proof fn lemma_join_tidy(parts: Seq<Seq<char>>)
    requires
        forall|k: int| 0 <= k < parts.len() ==> (#[trigger] parts[k]).len() > 0,
        forall|k: int, i: int| 0 <= k < parts.len() && 0 <= i < parts[k].len() ==> !is_ws(#[trigger] parts[k][i]),
    ensures
        tidy(join(parts, seq![' '])),
        parts.len() > 0 ==> join(parts, seq![' ']).len() > 0,
    decreases parts.len(),
{
    if parts.len() == 1 {
        assert(join(parts, seq![' ']) == parts[0]);
        assert forall|i: int| 0 <= i < parts[0].len() implies !is_ws(#[trigger] parts[0][i]) by {}
    } else if parts.len() > 1 {
        let init = parts.drop_last();
        assert forall|k: int| 0 <= k < init.len() implies (#[trigger] init[k]).len() > 0 by {
            assert(init[k] == parts[k]);
        }
        assert forall|k: int, i: int| 0 <= k < init.len() && 0 <= i < init[k].len() implies !is_ws(#[trigger] init[k][i]) by {
            assert(init[k] == parts[k]);
        }
        lemma_join_tidy(init);
        let a = join(init, seq![' ']);
        let x = parts.last();
        let t = a + seq![' '] + x;
        assert(join(parts, seq![' ']) == t);
        assert(x.len() > 0);
        assert forall|i: int| 0 <= i < x.len() implies !is_ws(#[trigger] x[i]) by {
            assert(parts[parts.len() - 1] == x);
        }
        assert forall|i: int| 0 <= i < t.len() && is_ws(#[trigger] t[i]) implies t[i] == ' ' && 0 < i < t.len() - 1
            && !is_ws(t[i - 1]) && !is_ws(t[i + 1]) by {
            if i < a.len() {
                assert(t[i] == a[i]);
                if i + 1 < a.len() {
                    assert(t[i + 1] == a[i + 1]);
                }
                assert(t[i - 1] == a[i - 1]);
            } else if i == a.len() {
                assert(t[i - 1] == a[a.len() - 1]);
                assert(!is_ws(a[a.len() - 1]));
                assert(t[i + 1] == x[0]);
            } else {
                assert(t[i] == x[i - a.len() - 1]);
            }
        }
    }
}

/// Squashing leaves no whitespace but single spaces between words: none
/// leading, none trailing, no two in a row, and nothing but `' '`.
pub proof fn law_squashed_text_is_tidy(s: Seq<char>)
    ensures
        tidy(squashed(s)),
{
    lemma_words_nonempty(s);
    lemma_words_clean(s);
    lemma_join_tidy(words(s));
}

/// Tidy, except that it may end in one space.
spec fn tidy_but_last(s: Seq<char>) -> bool {
    forall|i: int|
        0 <= i < s.len() && is_ws(#[trigger] s[i]) ==> s[i] == ' ' && 0 < i && !is_ws(s[i - 1]) && (i
            + 1 < s.len() ==> !is_ws(s[i + 1]))
}

proof fn lemma_squash_tidy_but_last(s: Seq<char>)
    requires
        tidy_but_last(s),
    ensures
        squashed(s) == if s.len() > 0 && is_ws(s.last()) {
            s.drop_last()
        } else {
            s
        },
    decreases s.len(),
{
    if s.len() > 0 {
        let p = s.drop_last();
        let c = s.last();
        assert forall|i: int| 0 <= i < p.len() && is_ws(#[trigger] p[i]) implies p[i] == ' ' && 0 < i
            && !is_ws(p[i - 1]) && (i + 1 < p.len() ==> !is_ws(p[i + 1])) by {
            assert(p[i] == s[i]);
            assert(is_ws(s[i]));
            assert(p[i - 1] == s[i - 1]);
            if i + 1 < p.len() {
                assert(p[i + 1] == s[i + 1]);
            }
        }
        lemma_squash_tidy_but_last(p);
        lemma_words_nonempty(p);
        if is_ws(c) {
            assert(is_ws(s[s.len() - 1]));
            assert(p.last() == s[s.len() - 2]);
        } else if s.len() >= 2 && !is_ws(s[s.len() - 2]) {
            assert(p.last() == s[s.len() - 2]);
            lemma_join_extend_last(words(p), c, seq![' ']);
            assert(p.push(c) =~= s);
        } else {
            lemma_join_push(words(p), seq![c], seq![' ']);
            if s.len() >= 2 {
                assert(is_ws(s[s.len() - 2]));
                assert(p.last() == ' ');
                let q = p.drop_last();
                assert(q.last() == s[s.len() - 3]);
                lemma_words_nonempty(q);
                assert(words(p) == words(q));
                assert(q + seq![' '] + seq![c] =~= s);
            } else {
                assert(p.len() == 0);
                assert(seq![c] =~= s);
            }
        }
    }
}

proof fn lemma_squash_tidy(t: Seq<char>)
    requires
        tidy(t),
    ensures
        squashed(t) == t,
{
    assert forall|i: int| 0 <= i < t.len() && is_ws(#[trigger] t[i]) implies t[i] == ' ' && 0 < i
        && !is_ws(t[i - 1]) && (i + 1 < t.len() ==> !is_ws(t[i + 1])) by {}
    lemma_squash_tidy_but_last(t);
    if t.len() > 0 && is_ws(t.last()) {
        assert(is_ws(t[t.len() - 1]));
    }
}

proof fn lemma_words_append_word(p: Seq<char>, w: Seq<char>)
    requires
        p.len() == 0 || is_ws(p.last()),
        w.len() > 0,
        forall|i: int| 0 <= i < w.len() ==> !is_ws(#[trigger] w[i]),
    ensures
        words(p + w) == words(p).push(w),
    decreases w.len(),
{
    let c = w.last();
    let w0 = w.drop_last();
    let s = p + w;
    assert(s.drop_last() =~= p + w0);
    assert(s.last() == c);
    assert(!is_ws(w[w.len() - 1]));
    if w0.len() == 0 {
        assert(p + w0 =~= p);
        if s.len() >= 2 {
            assert(s[s.len() - 2] == p.last());
        }
        assert(w =~= seq![c]);
    } else {
        assert forall|i: int| 0 <= i < w0.len() implies !is_ws(#[trigger] w0[i]) by {
            assert(w0[i] == w[i]);
        }
        lemma_words_append_word(p, w0);
        assert(s[s.len() - 2] == w0.last());
        assert(!is_ws(w[w0.len() - 1]));
        let prev = words(p + w0);
        assert(prev == words(p).push(w0));
        assert(prev.drop_last() =~= words(p));
        assert(prev.last().push(c) =~= w);
    }
}

proof fn lemma_words_of_join(ws: Seq<Seq<char>>)
    requires
        forall|k: int| 0 <= k < ws.len() ==> (#[trigger] ws[k]).len() > 0,
        forall|k: int, i: int| 0 <= k < ws.len() && 0 <= i < ws[k].len() ==> !is_ws(#[trigger] ws[k][i]),
    ensures
        words(join(ws, seq![' '])) == ws,
    decreases ws.len(),
{
    if ws.len() > 0 {
        let init = ws.drop_last();
        let x = ws.last();
        assert forall|i: int| 0 <= i < x.len() implies !is_ws(#[trigger] x[i]) by {
            assert(ws[ws.len() - 1][i] == x[i]);
        }
        assert(ws.len() - 1 >= 0);
        assert(x.len() > 0);
        lemma_join_push(init, x, seq![' ']);
        assert(init.push(x) =~= ws);
        if init.len() == 0 {
            lemma_words_append_word(Seq::empty(), x);
            assert(Seq::<char>::empty() + x =~= x);
            assert(Seq::<Seq<char>>::empty().push(x) =~= ws);
        } else {
            assert forall|k: int| 0 <= k < init.len() implies (#[trigger] init[k]).len() > 0 by {
                assert(init[k] == ws[k]);
            }
            assert forall|k: int, i: int| 0 <= k < init.len() && 0 <= i < init[k].len() implies !is_ws(
                #[trigger] init[k][i],
            ) by {
                assert(init[k] == ws[k]);
            }
            lemma_words_of_join(init);
            let q = join(init, seq![' ']);
            let p = q + seq![' '];
            assert(p.drop_last() =~= q);
            assert(is_ws(p.last()));
            assert(words(p) == words(q));
            lemma_words_append_word(p, x);
            assert(q + seq![' '] + x =~= p + x);
        }
    }
}

/// Squashing keeps the text's words, in order: it changes only the
/// whitespace between them.
pub proof fn law_squash_keeps_the_words(s: Seq<char>)
    ensures
        words(squashed(s)) == words(s),
{
    lemma_words_nonempty(s);
    lemma_words_clean(s);
    lemma_words_of_join(words(s));
}

/// Squashing is idempotent: squashing text that was already squashed
/// changes nothing.
pub proof fn law_squash_is_idempotent(s: Seq<char>)
    ensures
        squashed(squashed(s)) == squashed(s),
{
    law_squashed_text_is_tidy(s);
    lemma_squash_tidy(squashed(s));
}

proof fn lemma_join_push(parts: Seq<Seq<char>>, x: Seq<char>, sep: Seq<char>)
    ensures
        join(parts.push(x), sep) == if parts.len() == 0 { x } else { join(parts, sep) + sep + x },
{
    assert(parts.push(x).drop_last() =~= parts);
}

proof fn lemma_join_extend_last(parts: Seq<Seq<char>>, c: char, sep: Seq<char>)
    requires
        parts.len() > 0,
    ensures
        join(parts.drop_last().push(parts.last().push(c)), sep) == join(parts, sep).push(c),
{
    let init = parts.drop_last();
    lemma_join_push(init, parts.last().push(c), sep);
    if init.len() == 0 {
        assert(parts =~= seq![parts.last()]);
    } else {
        assert(init.push(parts.last()) =~= parts);
        lemma_join_push(init, parts.last(), sep);
        assert((join(init, sep) + sep + parts.last()).push(c) =~= join(init, sep) + sep
            + parts.last().push(c));
    }
}

/// Collapse runs of whitespace and trim, as `split_whitespace` joined by spaces.
pub fn squash(text: &str) -> (out: String)
    ensures
        out@ == squashed(text@),
{
    let v = chars_of(text);
    let w = squash_chars(&v);
    string_of(&w)
}

pub fn squash_chars(v: &[char]) -> (out: Vec<char>)
    ensures
        out@ == squashed(v@),
{
    let mut out: Vec<char> = Vec::new();
    let mut i: usize = 0;
    while i < v.len()
        invariant
            i <= v.len(),
            out@ == join(words(v@.take(i as int)), seq![' ']),
        decreases v.len() - i,
    {
        let c = v[i];
        let ghost pre = v@.take(i as int);
        let ghost post = v@.take(i + 1);
        assert(post.drop_last() =~= pre);
        proof {
            lemma_words_nonempty(pre);
        }
        if is_whitespace(c) {
        } else if i >= 1 && !is_whitespace(v[i - 1]) {
            proof {
                assert(pre.last() == v@[i - 1]);
                lemma_join_extend_last(words(pre), c, seq![' ']);
            }
            out.push(c);
        } else {
            proof {
                lemma_join_push(words(pre), seq![c], seq![' ']);
            }
            if out.len() > 0 {
                out.push(' ');
            }
            out.push(c);
            proof {
                if words(pre).len() == 0 {
                    assert(out@ =~= seq![c]);
                } else {
                    assert(out@ =~= join(words(pre), seq![' ']) + seq![' '] + seq![c]);
                }
            }
        }
        i += 1;
    }
    assert(v@.take(v.len() as int) =~= v@);
    out
}


/// A copy of `v[a..b]`.
pub fn slice_copy(v: &[char], a: usize, b: usize) -> (r: Vec<char>)
    requires
        a <= b <= v.len(),
    ensures
        r@ == v@.subrange(a as int, b as int),
{
    let mut r: Vec<char> = Vec::new();
    let mut i = a;
    while i < b
        invariant
            a <= i <= b <= v.len(),
            r@ == v@.subrange(a as int, i as int),
        decreases b - i,
    {
        r.push(v[i]);
        i += 1;
        assert(r@ =~= v@.subrange(a as int, i as int));
    }
    r
}

/// `a == b`, character by character.
pub fn same(a: &[char], b: &[char]) -> (r: bool)
    ensures
        r == (a@ == b@),
{
    if a.len() != b.len() {
        return false;
    }
    let mut i: usize = 0;
    while i < a.len()
        invariant
            a.len() == b.len(),
            i <= a.len(),
            a@.take(i as int) == b@.take(i as int),
        decreases a.len() - i,
    {
        if a[i] != b[i] {
            assert(a@[i as int] != b@[i as int]);
            return false;
        }
        i += 1;
        assert(a@.take(i as int) =~= a@.take(i - 1).push(a@[i - 1]));
        assert(b@.take(i as int) =~= b@.take(i - 1).push(b@[i - 1]));
    }
    assert(a@ =~= a@.take(a.len() as int));
    assert(b@ =~= b@.take(b.len() as int));
    true
}

pub open spec fn starts_with(s: Seq<char>, p: Seq<char>) -> bool {
    p.len() <= s.len() && s.take(p.len() as int) == p
}

pub open spec fn ends_with(s: Seq<char>, p: Seq<char>) -> bool {
    p.len() <= s.len() && s.skip(s.len() - p.len()) == p
}

/// `p` occurs in `s` starting at index `i`.
pub open spec fn occurs_at(s: Seq<char>, p: Seq<char>, i: int) -> bool {
    0 <= i && i + p.len() <= s.len() && s.subrange(i, i + p.len()) == p
}

pub open spec fn contains(s: Seq<char>, p: Seq<char>) -> bool {
    exists|i: int| occurs_at(s, p, i)
}

/// The first index at which `p` occurs in `s` (what `str::find` gives, counted in chars).
#[verifier::opaque]
pub open spec fn find_first(s: Seq<char>, p: Seq<char>) -> Option<int> {
    if exists|i: int| occurs_at(s, p, i) {
        Some(choose|i: int| occurs_at(s, p, i) && forall|j: int| 0 <= j < i ==> !occurs_at(s, p, j))
    } else {
        None
    }
}

/// The last index at which `p` occurs in `s` (what `str::rfind` gives, counted in chars).
#[verifier::opaque]
pub open spec fn find_last(s: Seq<char>, p: Seq<char>) -> Option<int> {
    if exists|i: int| occurs_at(s, p, i) {
        Some(choose|i: int| occurs_at(s, p, i) && forall|j: int| i < j ==> !occurs_at(s, p, j))
    } else {
        None
    }
}

/// `str::split` with a non-empty separator.
#[verifier::opaque]
pub open spec fn split(s: Seq<char>, sep: Seq<char>) -> Seq<Seq<char>>
    decreases s.len(),
{
    if sep.len() == 0 {
        seq![s]
    } else {
        match find_first(s, sep) {
            Some(i) => if 0 <= i && i + sep.len() <= s.len() {
                seq![s.take(i)] + split(s.skip(i + sep.len()), sep)
            } else {
                seq![s]
            },
            None => seq![s],
        }
    }
}

/// `str::split_once`: the text before and after the first `sep`.
pub open spec fn split_once(s: Seq<char>, sep: Seq<char>) -> Option<(Seq<char>, Seq<char>)> {
    match find_first(s, sep) {
        Some(i) => Some((s.take(i), s.skip(i + sep.len()))),
        None => None,
    }
}

/// `str::rsplit_once`: the text before and after the last `sep`.
pub open spec fn rsplit_once(s: Seq<char>, sep: Seq<char>) -> Option<(Seq<char>, Seq<char>)> {
    match find_last(s, sep) {
        Some(i) => Some((s.take(i), s.skip(i + sep.len()))),
        None => None,
    }
}

pub fn starts_with_at(v: &[char], p: &[char], at: usize) -> (r: bool)
    requires
        at <= v.len(),
    ensures
        r == occurs_at(v@, p@, at as int),
{
    if p.len() > v.len() - at {
        return false;
    }
    let mut i: usize = 0;
    while i < p.len()
        invariant
            at + p.len() <= v.len(),
            i <= p.len(),
            v@.subrange(at as int, at + i) == p@.take(i as int),
        decreases p.len() - i,
    {
        if v[at + i] != p[i] {
            assert(v@.subrange(at as int, at + p.len())[i as int] != p@[i as int]);
            return false;
        }
        i += 1;
        assert(v@.subrange(at as int, at + i) =~= v@.subrange(at as int, at + i - 1).push(v@[at + i - 1]));
        assert(p@.take(i as int) =~= p@.take(i - 1).push(p@[i - 1]));
    }
    assert(p@.take(p.len() as int) =~= p@);
    true
}

pub fn has_prefix(v: &[char], p: &[char]) -> (r: bool)
    ensures
        r == starts_with(v@, p@),
{
    let r = starts_with_at(v, p, 0);
    assert(v@.take(p@.len() as int) =~= v@.subrange(0, p@.len() as int));
    r
}

pub fn has_suffix(v: &[char], p: &[char]) -> (r: bool)
    ensures
        r == ends_with(v@, p@),
{
    if p.len() > v.len() {
        return false;
    }
    let r = starts_with_at(v, p, v.len() - p.len());
    assert(v@.skip(v@.len() - p@.len()) =~= v@.subrange(v@.len() - p@.len(), v@.len() as int));
    r
}

/// The first occurrence of `p` in `v` at or after `from`.
pub fn find_from(v: &[char], p: &[char], from: usize) -> (r: Option<usize>)
    requires
        from <= v.len(),
    ensures
        match r {
            Some(i) => from <= i && occurs_at(v@, p@, i as int) && forall|j: int|
                from <= j < i ==> !occurs_at(v@, p@, j),
            None => forall|j: int| from <= j ==> !occurs_at(v@, p@, j),
        },
{
    if p.len() > v.len() - from {
        return None;
    }
    let last = v.len() - p.len();
    let mut i = from;
    while i <= last
        invariant
            from <= i,
            last == v.len() - p.len(),
            from <= last + 1,
            i <= last + 1,
            forall|j: int| from <= j < i ==> !occurs_at(v@, p@, j),
        decreases last + 1 - i,
    {
        if starts_with_at(v, p, i) {
            return Some(i);
        }
        if i == last {
            return None;
        }
        i += 1;
    }
    None
}

pub proof fn lemma_find_first_is(s: Seq<char>, p: Seq<char>, i: int)
    requires
        occurs_at(s, p, i),
        forall|j: int| 0 <= j < i ==> !occurs_at(s, p, j),
    ensures
        find_first(s, p) == Some(i),
{
    reveal(find_first);
    let k = choose|k: int| occurs_at(s, p, k) && forall|j: int| 0 <= j < k ==> !occurs_at(s, p, j);
    assert(occurs_at(s, p, k) && forall|j: int| 0 <= j < k ==> !occurs_at(s, p, j));
    if k < i {
        assert(!occurs_at(s, p, k));
    }
    if i < k {
        assert(!occurs_at(s, p, i));
    }
}

pub proof fn lemma_find_none(s: Seq<char>, p: Seq<char>)
    requires
        forall|j: int| !occurs_at(s, p, j),
    ensures
        find_first(s, p) is None,
        find_last(s, p) is None,
{
    reveal(find_first);
    reveal(find_last);
}

pub proof fn lemma_find_last_is(s: Seq<char>, p: Seq<char>, i: int)
    requires
        occurs_at(s, p, i),
        forall|j: int| i < j ==> !occurs_at(s, p, j),
    ensures
        find_last(s, p) == Some(i),
{
    reveal(find_last);
    let k = choose|k: int| occurs_at(s, p, k) && forall|j: int| k < j ==> !occurs_at(s, p, j);
    assert(occurs_at(s, p, k) && forall|j: int| k < j ==> !occurs_at(s, p, j));
    if k < i {
        assert(!occurs_at(s, p, i));
    }
    if i < k {
        assert(!occurs_at(s, p, k));
    }
}

/// `str::find`, in chars.
pub fn find(v: &[char], p: &[char]) -> (r: Option<usize>)
    ensures
        match r {
            Some(i) => find_first(v@, p@) == Some(i as int) && occurs_at(v@, p@, i as int) && i
                + p@.len() <= v@.len(),
            None => find_first(v@, p@) is None,
        },
{
    let r = find_from(v, p, 0);
    proof {
        if let Some(i) = r {
            lemma_find_first_is(v@, p@, i as int);
        } else {
            assert forall|j: int| !occurs_at(v@, p@, j) by {
                if j < 0 {
                }
            }
            lemma_find_none(v@, p@);
        }
    }
    r
}

pub fn contains_chars(v: &[char], p: &[char]) -> (r: bool)
    ensures
        r == contains(v@, p@),
{
    find_from(v, p, 0).is_some()
}

/// `str::rfind`, in chars.
pub fn rfind(v: &[char], p: &[char]) -> (r: Option<usize>)
    ensures
        match r {
            Some(i) => find_last(v@, p@) == Some(i as int) && occurs_at(v@, p@, i as int) && i
                + p@.len() <= v@.len(),
            None => find_last(v@, p@) is None,
        },
{
    if p.len() > v.len() {
        proof {
            lemma_find_none(v@, p@);
        }
        return None;
    }
    let mut i: usize = v.len() - p.len();
    loop
        invariant
            i <= v.len() - p.len(),
            p.len() <= v.len(),
            forall|j: int| i < j ==> !occurs_at(v@, p@, j),
        decreases i,
    {
        if starts_with_at(v, p, i) {
            proof {
                lemma_find_last_is(v@, p@, i as int);
            }
            return Some(i);
        }
        if i == 0 {
            proof {
                assert forall|j: int| !occurs_at(v@, p@, j) by {
                    if 0 <= j && j < i {
                    }
                }
                lemma_find_none(v@, p@);
            }
            return None;
        }
        i -= 1;
    }
}

proof fn lemma_split_step(v: Seq<char>, sep: Seq<char>, start: int, i: int)
    requires
        sep.len() > 0,
        0 <= start <= i,
        occurs_at(v, sep, i),
        forall|j: int| start <= j < i ==> !occurs_at(v, sep, j),
    ensures
        split(v.skip(start), sep) == seq![v.subrange(start, i)] + split(v.skip(i + sep.len()), sep),
{
    let rest = v.skip(start);
    assert forall|j: int| 0 <= j < i - start implies !occurs_at(rest, sep, j) by {
        assert(!occurs_at(v, sep, j + start));
        if j + sep.len() <= rest.len() {
            assert(rest.subrange(j, j + sep.len()) =~= v.subrange(j + start, j + start + sep.len()));
        }
    }
    assert(rest.subrange(i - start, i - start + sep.len()) =~= v.subrange(i, i + sep.len()));
    lemma_find_first_is(rest, sep, i - start);
    reveal(split);
    assert(rest.take(i - start) =~= v.subrange(start, i));
    assert(rest.skip(i - start + sep.len()) =~= v.skip(i + sep.len()));
}

proof fn lemma_split_end(v: Seq<char>, sep: Seq<char>, start: int)
    requires
        sep.len() > 0,
        0 <= start <= v.len(),
        forall|j: int| start <= j ==> !occurs_at(v, sep, j),
    ensures
        split(v.skip(start), sep) == seq![v.skip(start)],
{
    let rest = v.skip(start);
    assert forall|j: int| !occurs_at(rest, sep, j) by {
        if occurs_at(rest, sep, j) {
            assert(rest.subrange(j, j + sep.len()) =~= v.subrange(j + start, j + start + sep.len()));
            assert(occurs_at(v, sep, j + start));
        }
    }
    lemma_find_none(rest, sep);
    reveal(split);
}

/// The character sequences a list of vectors holds.
pub open spec fn views(r: Seq<Vec<char>>) -> Seq<Seq<char>> {
    r.map_values(|x: Vec<char>| x@)
}

/// `str::split`, with a non-empty separator.
pub fn split_on(v: &[char], sep: &[char]) -> (r: Vec<Vec<char>>)
    requires
        sep.len() > 0,
    ensures
        views(r@) == split(v@, sep@),
{
    let mut out: Vec<Vec<char>> = Vec::new();
    let mut start: usize = 0;
    assert(v@.skip(0) =~= v@);
    loop
        invariant
            start <= v.len(),
            sep.len() > 0,
            views(out@) + split(v@.skip(start as int), sep@) == split(v@, sep@),
        decreases v.len() - start,
    {
        let ghost before = views(out@);
        match find_from(v, sep, start) {
            Some(i) => {
                proof {
                    lemma_split_step(v@, sep@, start as int, i as int);
                }
                let piece = slice_copy(v, start, i);
                out.push(piece);
                proof {
                    assert(views(out@) =~= before.push(piece@));
                    assert(before.push(piece@) + split(v@.skip(i + sep@.len()), sep@) =~= before
                        + (seq![piece@] + split(v@.skip(i + sep@.len()), sep@)));
                }
                start = i + sep.len();
            },
            None => {
                proof {
                    lemma_split_end(v@, sep@, start as int);
                }
                let piece = slice_copy(v, start, v.len());
                out.push(piece);
                proof {
                    assert(piece@ =~= v@.skip(start as int));
                    assert(views(out@) =~= before.push(piece@));
                    assert(before + seq![piece@] =~= before.push(piece@));
                }
                return out;
            },
        }
    }
}

/// The character classes text is trimmed by.
pub enum Strip {
    /// Whitespace, as `str::trim` strips it.
    Space,
    /// One given character, as `trim_matches(c)` strips it.
    Ch(char),
    /// Either of two characters.
    Two(char, char),
    /// Whitespace and the punctuation `, . ; :` that trails a publisher line.
    SpacePunct,
    /// Anything but a Unicode letter or digit.
    NotAlnum,
}

pub open spec fn strips(k: Strip, c: char) -> bool {
    match k {
        Strip::Space => is_ws(c),
        Strip::Ch(x) => c == x,
        Strip::Two(x, y) => c == x || c == y,
        Strip::SpacePunct => is_ws(c) || c == ',' || c == '.' || c == ';' || c == ':',
        Strip::NotAlnum => !unicode_alnum(c),
    }
}

pub fn strips_char(k: &Strip, c: char) -> (b: bool)
    ensures
        b == strips(*k, c),
{
    match k {
        Strip::Space => is_whitespace(c),
        Strip::Ch(x) => c == *x,
        Strip::Two(x, y) => c == *x || c == *y,
        Strip::SpacePunct => is_whitespace(c) || c == ',' || c == '.' || c == ';' || c == ':',
        Strip::NotAlnum => !is_alphanumeric(c),
    }
}

/// How many leading characters of `s` are in class `k`.
pub open spec fn lead(s: Seq<char>, k: Strip) -> nat
    decreases s.len(),
{
    if s.len() > 0 && strips(k, s[0]) {
        1 + lead(s.drop_first(), k)
    } else {
        0
    }
}

/// How many trailing characters of `s` are in class `k`.
pub open spec fn trail(s: Seq<char>, k: Strip) -> nat
    decreases s.len(),
{
    if s.len() > 0 && strips(k, s.last()) {
        1 + trail(s.drop_last(), k)
    } else {
        0
    }
}

/// `trim_start_matches`.
pub open spec fn trim_start_by(s: Seq<char>, k: Strip) -> Seq<char> {
    s.skip(lead(s, k) as int)
}

/// `trim_end_matches`.
pub open spec fn trim_end_by(s: Seq<char>, k: Strip) -> Seq<char> {
    s.take(s.len() - trail(s, k))
}

/// `trim_matches`.
pub open spec fn trim_by(s: Seq<char>, k: Strip) -> Seq<char> {
    trim_end_by(trim_start_by(s, k), k)
}

/// `str::trim`.
pub open spec fn trim(s: Seq<char>) -> Seq<char> {
    trim_by(s, Strip::Space)
}

pub proof fn lemma_lead_bound(s: Seq<char>, k: Strip)
    ensures
        lead(s, k) <= s.len(),
        forall|j: int| 0 <= j < lead(s, k) ==> strips(k, #[trigger] s[j]),
        lead(s, k) < s.len() ==> !strips(k, s[lead(s, k) as int]),
    decreases s.len(),
{
    if s.len() > 0 && strips(k, s[0]) {
        lemma_lead_bound(s.drop_first(), k);
        assert forall|j: int| 0 <= j < lead(s, k) implies strips(k, #[trigger] s[j]) by {
            if j > 0 {
                assert(s[j] == s.drop_first()[j - 1]);
            }
        }
    }
}

pub proof fn lemma_trail_bound(s: Seq<char>, k: Strip)
    ensures
        trail(s, k) <= s.len(),
        forall|j: int| s.len() - trail(s, k) <= j < s.len() ==> strips(k, #[trigger] s[j]),
        trail(s, k) < s.len() ==> !strips(k, s[s.len() - trail(s, k) - 1]),
    decreases s.len(),
{
    if s.len() > 0 && strips(k, s.last()) {
        lemma_trail_bound(s.drop_last(), k);
        assert forall|j: int| s.len() - trail(s, k) <= j < s.len() implies strips(k, #[trigger] s[j]) by {
            if j < s.len() - 1 {
                assert(s[j] == s.drop_last()[j]);
            }
        }
    }
}

/// `lead` is the length of the maximal prefix in class `k`.
pub proof fn lemma_lead_is(s: Seq<char>, k: Strip, n: int)
    requires
        0 <= n <= s.len(),
        forall|j: int| 0 <= j < n ==> strips(k, #[trigger] s[j]),
        n < s.len() ==> !strips(k, s[n]),
    ensures
        lead(s, k) == n,
    decreases n,
{
    if n > 0 {
        assert forall|j: int| 0 <= j < n - 1 implies strips(k, #[trigger] s.drop_first()[j]) by {
            assert(s.drop_first()[j] == s[j + 1]);
        }
        if n < s.len() {
            assert(s.drop_first()[n - 1] == s[n]);
        }
        lemma_lead_is(s.drop_first(), k, n - 1);
    }
}

/// `trail` is the length of the maximal suffix in class `k`.
pub proof fn lemma_trail_is(s: Seq<char>, k: Strip, n: int)
    requires
        0 <= n <= s.len(),
        forall|j: int| s.len() - n <= j < s.len() ==> strips(k, #[trigger] s[j]),
        n < s.len() ==> !strips(k, s[s.len() - n - 1]),
    ensures
        trail(s, k) == n,
    decreases n,
{
    if n > 0 {
        assert forall|j: int| s.len() - 1 - (n - 1) <= j < s.len() - 1 implies strips(
            k,
            #[trigger] s.drop_last()[j],
        ) by {
            assert(s.drop_last()[j] == s[j]);
        }
        if n < s.len() {
            assert(s.drop_last()[s.len() - 1 - (n - 1) - 1] == s[s.len() - n - 1]);
        }
        lemma_trail_is(s.drop_last(), k, n - 1);
    }
}

pub fn lead_count(v: &[char], k: &Strip) -> (n: usize)
    ensures
        n == lead(v@, *k),
{
    let mut i: usize = 0;
    while i < v.len() && strips_char(k, v[i])
        invariant
            i <= v.len(),
            forall|j: int| 0 <= j < i ==> strips(*k, #[trigger] v@[j]),
        decreases v.len() - i,
    {
        i += 1;
    }
    proof {
        lemma_lead_is(v@, *k, i as int);
    }
    i
}

pub fn trail_count(v: &[char], k: &Strip) -> (n: usize)
    ensures
        n == trail(v@, *k),
{
    let mut n: usize = 0;
    while n < v.len() && strips_char(k, v[v.len() - 1 - n])
        invariant
            n <= v.len(),
            forall|j: int| v.len() - n <= j < v.len() ==> strips(*k, #[trigger] v@[j]),
        decreases v.len() - n,
    {
        n += 1;
    }
    proof {
        lemma_trail_is(v@, *k, n as int);
    }
    n
}

pub fn trim_start_chars(v: &[char], k: &Strip) -> (r: Vec<char>)
    ensures
        r@ == trim_start_by(v@, *k),
{
    let n = lead_count(v, k);
    proof {
        lemma_lead_bound(v@, *k);
    }
    let r = slice_copy(v, n, v.len());
    assert(r@ =~= v@.skip(n as int));
    r
}

pub fn trim_end_chars(v: &[char], k: &Strip) -> (r: Vec<char>)
    ensures
        r@ == trim_end_by(v@, *k),
{
    let n = trail_count(v, k);
    proof {
        lemma_trail_bound(v@, *k);
    }
    let r = slice_copy(v, 0, v.len() - n);
    assert(r@ =~= v@.take(v.len() - n));
    r
}

pub fn trim_chars_by(v: &[char], k: &Strip) -> (r: Vec<char>)
    ensures
        r@ == trim_by(v@, *k),
{
    let a = trim_start_chars(v, k);
    trim_end_chars(&a, k)
}

/// `str::trim`.
pub fn trim_chars(v: &[char]) -> (r: Vec<char>)
    ensures
        r@ == trim(v@),
{
    trim_chars_by(v, &Strip::Space)
}

/// ASCII upper-case letters lowered, every other character kept.
pub open spec fn ascii_lower(c: char) -> char {
    if 'A' <= c && c <= 'Z' {
        ((c as u32) + 32) as char
    } else {
        c
    }
}

/// ASCII lower-case letters raised, every other character kept.
pub open spec fn ascii_upper(c: char) -> char {
    if 'a' <= c && c <= 'z' {
        ((c as u32) - 32) as char
    } else {
        c
    }
}

pub open spec fn lower_seq(s: Seq<char>) -> Seq<char> {
    s.map_values(|c: char| ascii_lower(c))
}

pub open spec fn upper_seq(s: Seq<char>) -> Seq<char> {
    s.map_values(|c: char| ascii_upper(c))
}

pub fn to_ascii_lower(c: char) -> (r: char)
    ensures
        r == ascii_lower(c),
{
    if 'A' <= c && c <= 'Z' {
        let b = c as u8;
        assert(b == c as u32);
        ((b + 32) as char)
    } else {
        c
    }
}

pub fn to_ascii_upper(c: char) -> (r: char)
    ensures
        r == ascii_upper(c),
{
    if 'a' <= c && c <= 'z' {
        let b = c as u8;
        assert(b == c as u32);
        ((b - 32) as char)
    } else {
        c
    }
}

/// `str::to_ascii_lowercase`.
pub fn lower_chars(v: &[char]) -> (r: Vec<char>)
    ensures
        r@ == lower_seq(v@),
{
    let mut r: Vec<char> = Vec::new();
    let mut i: usize = 0;
    while i < v.len()
        invariant
            i <= v.len(),
            r@ == lower_seq(v@.take(i as int)),
        decreases v.len() - i,
    {
        r.push(to_ascii_lower(v[i]));
        i += 1;
        assert(r@ =~= lower_seq(v@.take(i as int)));
    }
    assert(v@.take(v.len() as int) =~= v@);
    r
}

/// `str::to_ascii_uppercase`.
pub fn upper_chars(v: &[char]) -> (r: Vec<char>)
    ensures
        r@ == upper_seq(v@),
{
    let mut r: Vec<char> = Vec::new();
    let mut i: usize = 0;
    while i < v.len()
        invariant
            i <= v.len(),
            r@ == upper_seq(v@.take(i as int)),
        decreases v.len() - i,
    {
        r.push(to_ascii_upper(v[i]));
        i += 1;
        assert(r@ =~= upper_seq(v@.take(i as int)));
    }
    assert(v@.take(v.len() as int) =~= v@);
    r
}

pub open spec fn is_ascii_digit(c: char) -> bool {
    '0' <= c && c <= '9'
}

pub open spec fn is_ascii_alpha(c: char) -> bool {
    ('a' <= c && c <= 'z') || ('A' <= c && c <= 'Z')
}

pub open spec fn is_ascii_alnum(c: char) -> bool {
    is_ascii_digit(c) || is_ascii_alpha(c)
}

/// The number a run of ASCII digits spells.
pub open spec fn digits_value(s: Seq<char>) -> int
    decreases s.len(),
{
    if s.len() == 0 {
        0
    } else {
        digits_value(s.drop_last()) * 10 + (s.last() as int - '0' as int)
    }
}

/// Each of `xs`, trimmed.
pub open spec fn trim_each(xs: Seq<Seq<char>>) -> Seq<Seq<char>>
    decreases xs.len(),
{
    if xs.len() == 0 {
        xs
    } else {
        trim_each(xs.drop_last()).push(trim(xs.last()))
    }
}

pub fn trim_parts(xs: &Vec<Vec<char>>) -> (r: Vec<Vec<char>>)
    ensures
        views(r@) == trim_each(views(xs@)),
{
    let mut r: Vec<Vec<char>> = Vec::new();
    let mut i: usize = 0;
    while i < xs.len()
        invariant
            i <= xs.len(),
            views(r@) == trim_each(views(xs@).take(i as int)),
        decreases xs.len() - i,
    {
        let ghost before = r@;
        let t = trim_chars(&xs[i]);
        r.push(t);
        assert(views(xs@).take(i + 1).drop_last() =~= views(xs@).take(i as int));
        assert(views(r@) =~= views(before).push(t@));
        i += 1;
    }
    assert(views(xs@).take(xs.len() as int) =~= views(xs@));
    r
}

/// Every part of `xs` split on `sep`, the pieces in order.
pub open spec fn split_each(xs: Seq<Seq<char>>, sep: Seq<char>) -> Seq<Seq<char>>
    decreases xs.len(),
{
    if xs.len() == 0 {
        Seq::empty()
    } else {
        split_each(xs.drop_last(), sep) + split(xs.last(), sep)
    }
}

pub fn split_parts(xs: &Vec<Vec<char>>, sep: &[char]) -> (r: Vec<Vec<char>>)
    requires
        sep@.len() > 0,
    ensures
        views(r@) == split_each(views(xs@), sep@),
{
    let mut r: Vec<Vec<char>> = Vec::new();
    let mut i: usize = 0;
    while i < xs.len()
        invariant
            i <= xs.len(),
            sep@.len() > 0,
            views(r@) == split_each(views(xs@).take(i as int), sep@),
        decreases xs.len() - i,
    {
        let ghost before = views(r@);
        let mut pieces = split_on(&xs[i], sep);
        let ghost added = views(pieces@);
        r.append(&mut pieces);
        assert(views(xs@).take(i + 1).drop_last() =~= views(xs@).take(i as int));
        assert(views(r@) =~= before + added);
        i += 1;
    }
    assert(views(xs@).take(xs.len() as int) =~= views(xs@));
    r
}

/// The words of `v`, as `str::split_whitespace` yields them.
pub fn words_of(v: &[char]) -> (r: Vec<Vec<char>>)
    ensures
        views(r@) == words(v@),
{
    let mut r: Vec<Vec<char>> = Vec::new();
    let mut i: usize = 0;
    while i < v.len()
        invariant
            i <= v.len(),
            views(r@) == words(v@.take(i as int)),
        decreases v.len() - i,
    {
        let c = v[i];
        let ghost pre = v@.take(i as int);
        let ghost post = v@.take(i + 1);
        assert(post.drop_last() =~= pre);
        let ghost before = views(r@);
        proof {
            lemma_words_nonempty(pre);
        }
        if is_whitespace(c) {
        } else if i >= 1 && !is_whitespace(v[i - 1]) {
            assert(pre.last() == v@[i - 1]);
            assert(pre.len() > 0 && !is_ws(pre.last()));
            let mut last = r.pop().unwrap();
            let ghost lw = last@;
            last.push(c);
            r.push(last);
            assert(views(r@) =~= before.drop_last().push(lw.push(c)));
        } else {
            let mut w: Vec<char> = Vec::new();
            w.push(c);
            r.push(w);
            assert(views(r@) =~= before.push(seq![c]));
        }
        i += 1;
    }
    assert(v@.take(v.len() as int) =~= v@);
    r
}

/// `s` without one leading `+`.
pub open spec fn unsigned_digits(s: Seq<char>) -> Seq<char> {
    if s.len() > 0 && s[0] == '+' {
        s.drop_first()
    } else {
        s
    }
}

pub open spec fn all_digits(s: Seq<char>) -> bool {
    forall|i: int| 0 <= i < s.len() ==> is_ascii_digit(#[trigger] s[i])
}

/// `str::parse::<u32>`: an optional `+`, then one or more ASCII digits whose
/// value fits in a `u32`.
pub open spec fn parse_u32(s: Seq<char>) -> Option<u32> {
    let d = unsigned_digits(s);
    if d.len() > 0 && all_digits(d) && digits_value(d) <= u32::MAX {
        Some(digits_value(d) as u32)
    } else {
        None
    }
}

proof fn lemma_digits_value_nonneg(s: Seq<char>)
    requires
        forall|i: int| 0 <= i < s.len() ==> is_ascii_digit(#[trigger] s[i]),
    ensures
        digits_value(s) >= 0,
        s.len() > 0 ==> digits_value(s) >= digits_value(s.drop_last()),
    decreases s.len(),
{
    if s.len() > 0 {
        assert(is_ascii_digit(s[s.len() - 1]));
        lemma_digits_value_nonneg(s.drop_last());
    }
}

pub fn parse_u32_chars(v: &[char]) -> (r: Option<u32>)
    ensures
        r == parse_u32(v@),
{
    let start: usize = if v.len() > 0 && v[0] == '+' { 1 } else { 0 };
    let ghost d = unsigned_digits(v@);
    assert(d =~= v@.skip(start as int));
    if start == v.len() {
        return None;
    }
    let mut value: u64 = 0;
    let mut i = start;
    while i < v.len()
        invariant
            start <= i <= v.len(),
            d == v@.skip(start as int),
            d == unsigned_digits(v@),
            forall|j: int| start <= j < i ==> is_ascii_digit(#[trigger] v@[j]),
            value == digits_value(v@.subrange(start as int, i as int)),
            value <= u32::MAX,
        decreases v.len() - i,
    {
        let c = v[i];
        if !('0' <= c && c <= '9') {
            assert(!is_ascii_digit(d[i - start]));
            assert(!all_digits(d));
            return None;
        }
        let digit = (c as u32 - '0' as u32) as u64;
        let ghost pre = v@.subrange(start as int, i as int);
        let ghost post = v@.subrange(start as int, i + 1);
        assert(post.drop_last() =~= pre);
        assert(value * 10 + digit <= 0xffff_ffff * 10 + 9) by (nonlinear_arith)
            requires
                value <= 0xffff_ffff,
                digit <= 9,
        ;
        value = value * 10 + digit;
        assert(post.last() == c);
        assert(value == digits_value(post));
        i += 1;
        if value > 0xffff_ffff {
            proof {
                assert forall|j: int| 0 <= j < post.len() implies is_ascii_digit(#[trigger] post[j]) by {
                    assert(post[j] == v@[start + j]);
                }
                assert(post =~= d.take(post.len() as int));
                lemma_value_grows(d, post);
            }
            return None;
        }
    }
    proof {
        assert(v@.subrange(start as int, v.len() as int) =~= d);
        assert forall|j: int| 0 <= j < d.len() implies is_ascii_digit(#[trigger] d[j]) by {
            assert(d[j] == v@[start + j]);
        }
    }
    Some(value as u32)
}

/// A digit string's value is at least that of each of its prefixes.
proof fn lemma_value_grows(d: Seq<char>, p: Seq<char>)
    requires
        p.len() <= d.len(),
        p == d.take(p.len() as int),
        forall|j: int| 0 <= j < p.len() ==> is_ascii_digit(#[trigger] p[j]),
    ensures
        (forall|j: int| 0 <= j < d.len() ==> is_ascii_digit(#[trigger] d[j])) ==> digits_value(d)
            >= digits_value(p),
    decreases d.len() - p.len(),
{
    if p.len() < d.len() && (forall|j: int| 0 <= j < d.len() ==> is_ascii_digit(#[trigger] d[j])) {
        let q = d.take(p.len() + 1 as int);
        assert(q.drop_last() =~= p);
        assert forall|j: int| 0 <= j < q.len() implies is_ascii_digit(#[trigger] q[j]) by {
            assert(q[j] == d[j]);
        }
        lemma_digits_value_nonneg(q);
        lemma_value_grows(d, q);
    } else if p.len() == d.len() {
        assert(p =~= d);
    }
}

/// `xs` without its empty members.
pub open spec fn drop_empty(xs: Seq<Seq<char>>) -> Seq<Seq<char>>
    decreases xs.len(),
{
    if xs.len() == 0 {
        xs
    } else {
        let r = drop_empty(xs.drop_last());
        if xs.last().len() > 0 {
            r.push(xs.last())
        } else {
            r
        }
    }
}

pub fn drop_empty_parts(xs: Vec<Vec<char>>) -> (r: Vec<Vec<char>>)
    ensures
        views(r@) == drop_empty(views(xs@)),
{
    let mut r: Vec<Vec<char>> = Vec::new();
    let mut xs = xs;
    let ghost all = views(xs@);
    let mut i: usize = 0;
    let n = xs.len();
    // Take items off the front in order by reversing once.
    let mut rev: Vec<Vec<char>> = Vec::new();
    while xs.len() > 0
        invariant
            xs.len() + rev.len() == n,
            all.len() == n,
            forall|k: int| 0 <= k < xs.len() ==> #[trigger] xs@[k]@ == all[k],
            forall|k: int| 0 <= k < rev.len() ==> #[trigger] rev@[k]@ == all[n - 1 - k],
        decreases xs.len(),
    {
        let x = xs.pop().unwrap();
        rev.push(x);
    }
    while i < n
        invariant
            i <= n,
            rev.len() == n - i,
            all.len() == n,
            forall|k: int| 0 <= k < rev.len() ==> #[trigger] rev@[k]@ == all[n - 1 - k],
            views(r@) == drop_empty(all.take(i as int)),
        decreases n - i,
    {
        let x = rev.pop().unwrap();
        assert(x@ == all[i as int]);
        assert(all.take(i + 1).drop_last() =~= all.take(i as int));
        if x.len() > 0 {
            let ghost before = r@;
            r.push(x);
            assert(views(r@) =~= views(before).push(x@));
        }
        i += 1;
    }
    assert(all.take(n as int) =~= all);
    r
}

/// `parts` joined with `sep`.
pub fn join_parts(parts: &Vec<Vec<char>>, sep: &[char]) -> (r: Vec<char>)
    ensures
        r@ == join(views(parts@), sep@),
{
    let mut r: Vec<char> = Vec::new();
    let mut i: usize = 0;
    while i < parts.len()
        invariant
            i <= parts.len(),
            r@ == join(views(parts@).take(i as int), sep@),
        decreases parts.len() - i,
    {
        let ghost pre = views(parts@).take(i as int);
        assert(views(parts@).take(i + 1) =~= pre.push(parts@[i as int]@));
        assert(pre.push(parts@[i as int]@).drop_last() =~= pre);
        if i > 0 {
            r.extend_from_slice(sep);
        }
        r.extend_from_slice(parts[i].as_slice());
        proof {
            if i == 0 {
                assert(r@ =~= parts@[0]@);
            } else {
                assert(r@ =~= join(pre, sep@) + sep@ + parts@[i as int]@);
            }
        }
        i += 1;
    }
    assert(views(parts@).take(parts.len() as int) =~= views(parts@));
    r
}

pub proof fn lemma_split_once_at(s: Seq<char>, p: Seq<char>, i: int)
    requires
        find_first(s, p) == Some(i),
    ensures
        split_once(s, p) == Some((s.take(i), s.skip(i + p.len()))),
{
}

/// The character sequences a list of strings holds.
pub open spec fn strs(v: Seq<String>) -> Seq<Seq<char>> {
    v.map_values(|x: String| x@)
}

/// `v` in reverse order.
pub fn reversed<T>(v: Vec<T>) -> (r: Vec<T>)
    ensures
        r@ == v@.reverse(),
{
    let mut v = v;
    let ghost orig = v@;
    let mut r: Vec<T> = Vec::new();
    while v.len() > 0
        invariant
            v@ == orig.take(v@.len() as int),
            r@ == orig.skip(v@.len() as int).reverse(),
            v@.len() <= orig.len(),
        decreases v.len(),
    {
        let ghost n = v@.len();
        let x = v.pop().unwrap();
        r.push(x);
        assert(v@ =~= orig.take(n - 1));
        assert(r@ =~= orig.skip(n - 1).reverse());
    }
    assert(orig.skip(0) =~= orig);
    r
}

/// The index of the first ASCII digit in `s`.
pub open spec fn first_digit(s: Seq<char>) -> Option<int>
    decreases s.len(),
{
    if s.len() == 0 {
        None
    } else if is_ascii_digit(s[0]) {
        Some(0)
    } else {
        match first_digit(s.drop_first()) {
            Some(i) => Some(i + 1),
            None => None,
        }
    }
}

pub proof fn lemma_first_digit_is(s: Seq<char>, n: int)
    requires
        0 <= n <= s.len(),
        forall|j: int| 0 <= j < n ==> !is_ascii_digit(#[trigger] s[j]),
    ensures
        n < s.len() && is_ascii_digit(s[n]) ==> first_digit(s) == Some(n),
        n == s.len() ==> first_digit(s) is None,
    decreases n,
{
    if n > 0 {
        assert forall|j: int| 0 <= j < n - 1 implies !is_ascii_digit(#[trigger] s.drop_first()[j]) by {
            assert(s.drop_first()[j] == s[j + 1]);
        }
        if n < s.len() {
            assert(s.drop_first()[n - 1] == s[n]);
        }
        lemma_first_digit_is(s.drop_first(), n - 1);
    }
}

/// The index of the first ASCII digit in `v`.
pub fn first_digit_index(v: &[char]) -> (r: Option<usize>)
    ensures
        match r {
            Some(i) => first_digit(v@) == Some(i as int) && i < v@.len(),
            None => first_digit(v@) is None,
        },
{
    let mut i: usize = 0;
    while i < v.len()
        invariant
            i <= v.len(),
            forall|j: int| 0 <= j < i ==> !is_ascii_digit(#[trigger] v@[j]),
        decreases v.len() - i,
    {
        if '0' <= v[i] && v[i] <= '9' {
            proof {
                lemma_first_digit_is(v@, i as int);
            }
            return Some(i);
        }
        i += 1;
    }
    proof {
        lemma_first_digit_is(v@, i as int);
    }
    None
}

/// Every character an ASCII letter.
pub open spec fn all_alpha(s: Seq<char>) -> bool {
    forall|i: int| 0 <= i < s.len() ==> is_ascii_alpha(#[trigger] s[i])
}

pub fn all_alpha_chars(v: &[char]) -> (r: bool)
    ensures
        r == all_alpha(v@),
{
    let mut i: usize = 0;
    while i < v.len()
        invariant
            i <= v.len(),
            forall|j: int| 0 <= j < i ==> is_ascii_alpha(#[trigger] v@[j]),
        decreases v.len() - i,
    {
        let c = v[i];
        if !(('a' <= c && c <= 'z') || ('A' <= c && c <= 'Z')) {
            assert(!is_ascii_alpha(v@[i as int]));
            return false;
        }
        i += 1;
    }
    true
}

pub fn all_digit_chars(v: &[char]) -> (r: bool)
    ensures
        r == all_digits(v@),
{
    let mut i: usize = 0;
    while i < v.len()
        invariant
            i <= v.len(),
            forall|j: int| 0 <= j < i ==> is_ascii_digit(#[trigger] v@[j]),
        decreases v.len() - i,
    {
        if !('0' <= v[i] && v[i] <= '9') {
            assert(!is_ascii_digit(v@[i as int]));
            return false;
        }
        i += 1;
    }
    true
}

/// What `str::to_lowercase` gives: the Unicode lower-case mapping.
pub uninterp spec fn unicode_lower(s: Seq<char>) -> Seq<char>;

/// What `str::to_uppercase` gives: the Unicode upper-case mapping.
pub uninterp spec fn unicode_upper(s: Seq<char>) -> Seq<char>;

/// What `char::is_alphanumeric` says of `c`: whether it is a Unicode letter
/// or number.
pub uninterp spec fn unicode_alnum(c: char) -> bool;

/// `char::is_alphanumeric`, a function of `c` alone.
#[verifier::external_body]
pub(crate) fn is_alphanumeric(c: char) -> (r: bool)
    ensures
        r == unicode_alnum(c),
{
    c.is_alphanumeric()
}

/// `str::to_lowercase`: the Unicode lower-case mapping of `s`, a function of
/// `s` alone.
#[verifier::external_body]
pub(crate) fn to_lowercase(s: &str) -> (r: String)
    ensures
        r@ == unicode_lower(s@),
{
    s.to_lowercase()
}

/// `str::to_uppercase`: the Unicode upper-case mapping of `s`, a function of
/// `s` alone.
#[verifier::external_body]
pub(crate) fn to_uppercase(s: &str) -> (r: String)
    ensures
        r@ == unicode_upper(s@),
{
    s.to_uppercase()
}

/// The decimal digits of `n`.
pub open spec fn decimal(n: nat) -> Seq<char>
    decreases n,
{
    if n < 10 {
        seq![('0' as int + n) as char]
    } else {
        decimal(n / 10).push(('0' as int + n % 10) as char)
    }
}

fn digit_char(d: usize) -> (c: char)
    requires
        d < 10,
    ensures
        c == ('0' as int + d) as char,
{
    let b = d as u8;
    (48u8 + b) as char
}

/// `n` in decimal, as `usize::to_string` writes it.
pub fn decimal_string(n: usize) -> (r: String)
    ensures
        r@ == decimal(n as nat),
    decreases n,
{
    if n < 10 {
        let v = vec![digit_char(n)];
        assert(v@ =~= decimal(n as nat));
        string_of(&v)
    } else {
        let mut s = decimal_string(n / 10);
        push_char(&mut s, digit_char(n % 10));
        s
    }
}

/// What `{:?}` prints for a string: it quoted, with its special characters
/// escaped.
pub uninterp spec fn debug_quoted(s: Seq<char>) -> Seq<char>;

/// `format!("{:?}", s)` on a `&str`, a function of `s` alone.
#[verifier::external_body]
pub(crate) fn quoted(s: &str) -> (r: String)
    ensures
        r@ == debug_quoted(s@),
{
    format!("{:?}", s)
}

} // verus!
