//! Search arguments, and the Child/Laws index filter.
use vstd::prelude::*;

use crate::archive::{RefKey, SongQuery};
use crate::models::SongSummary;
use crate::text::{
    all_alpha, all_alpha_chars, all_digit_chars, all_digits, chars_of, contains, contains_chars,
    first_digit, first_digit_index, has_prefix, is_ascii_alpha, is_ascii_alnum, is_ascii_digit,
    lower_chars, lower_seq, occurs_at, parse_u32, parse_u32_chars, reversed, same, slice_copy, split_once,
    starts_with, strs, trim, trim_chars, upper_chars, upper_seq,
};

verus! {

/// A song query holding exactly the arguments given.
pub fn build_song_query(
    title: Option<&str>,
    author: Option<&str>,
    key: Option<RefKey>,
    keyval: Option<&str>,
) -> (q: SongQuery)
    ensures
        opt_str(q.title) == opt_view(title),
        opt_str(q.author) == opt_view(author),
        q.key == key,
        opt_str(q.keyval) == opt_view(keyval),
{
    SongQuery {
        title: own(title),
        author: own(author),
        key,
        keyval: own(keyval),
    }
}

pub open spec fn opt_str(o: Option<String>) -> Option<Seq<char>> {
    match o {
        Some(s) => Some(s@),
        None => None,
    }
}

pub open spec fn opt_view(o: Option<&str>) -> Option<Seq<char>> {
    match o {
        Some(s) => Some(s@),
        None => None,
    }
}

fn own(o: Option<&str>) -> (r: Option<String>)
    ensures
        opt_str(r) == opt_view(o),
{
    match o {
        Some(s) => Some(String::from_str(s)),
        None => None,
    }
}

/// `lo-hi`, both ends numbers once trimmed.
pub open spec fn range_of(f: Seq<char>) -> Option<(u32, u32)> {
    match split_once(f, "-"@) {
        Some((lo, hi)) => match (parse_u32(trim(lo)), parse_u32(trim(hi))) {
            (Some(a), Some(b)) => Some((a, b)),
            _ => None,
        },
        None => None,
    }
}

/// The digits of a reference code from its first digit on: all of a Child
/// number (`"84"`), the part after the letter of a Laws code (`"P15"` → `"15"`).
pub open spec fn numeric_part_of(code: Seq<char>) -> Option<Seq<char>> {
    match first_digit(code) {
        Some(i) => Some(code.skip(i)),
        None => None,
    }
}

/// Letters and digits only, with at least one of each.
pub open spec fn is_ref_code(f: Seq<char>) -> bool {
    &&& exists|i: int| 0 <= i < f.len() && is_ascii_digit(#[trigger] f[i])
    &&& exists|i: int| 0 <= i < f.len() && is_ascii_alpha(#[trigger] f[i])
    &&& forall|i: int| 0 <= i < f.len() ==> is_ascii_alnum(#[trigger] f[i])
}

/// A code whose numeric part parses into `lo..=hi`.
pub open spec fn code_in_range(code: Seq<char>, lo: u32, hi: u32) -> bool {
    match numeric_part_of(code) {
        Some(np) => match parse_u32(np) {
            Some(n) => lo <= n <= hi,
            None => false,
        },
        None => false,
    }
}

/// A Child/Laws filter, tried in this order: a range against each code's
/// numeric part; a bare number exactly against the numeric part; a full code
/// exactly, ignoring ASCII case; a one- or two-letter prefix of a code; and
/// otherwise free text against every title, ignoring ASCII case.
pub open spec fn filter_matches(codes: Seq<Seq<char>>, titles: Seq<Seq<char>>, f: Seq<char>) -> bool {
    match range_of(f) {
        Some((lo, hi)) => exists|i: int| 0 <= i < codes.len() && code_in_range(#[trigger] codes[i], lo, hi),
        None => if f.len() > 0 && all_digits(f) {
            exists|i: int| 0 <= i < codes.len() && numeric_part_of(#[trigger] codes[i]) == Some(f)
        } else if is_ref_code(f) {
            exists|i: int| 0 <= i < codes.len() && lower_seq(#[trigger] codes[i]) == lower_seq(f)
        } else if 1 <= f.len() <= 2 && all_alpha(f) {
            exists|i: int| 0 <= i < codes.len() && starts_with(upper_seq(#[trigger] codes[i]), upper_seq(f))
        } else {
            exists|i: int| 0 <= i < titles.len() && contains(lower_seq(#[trigger] titles[i]), lower_seq(f))
        },
    }
}

/// Lower-casing a title keeps every match of lower-cased text in it.
proof fn lemma_lowered_contains(t: Seq<char>, f: Seq<char>, lf: Seq<char>)
    requires
        contains(t, f),
        lower_seq(f) == lower_seq(lf),
    ensures
        contains(lower_seq(t), lower_seq(lf)),
{
    let i = choose|i: int| occurs_at(t, f, i);
    assert(lower_seq(t).subrange(i, i + f.len()) =~= lower_seq(f)) by {
        assert forall|k: int| 0 <= k < f.len() implies lower_seq(t).subrange(i, i + f.len())[k]
            == lower_seq(f)[k] by {
            assert(t.subrange(i, i + f.len())[k] == f[k]);
        }
    }
    assert(occurs_at(lower_seq(t), lower_seq(lf), i));
}

pub open spec fn reaches_titles(f: Seq<char>) -> bool {
    &&& range_of(f) is None
    &&& !(f.len() > 0 && all_digits(f))
    &&& !is_ref_code(f)
    &&& !(1 <= f.len() <= 2 && all_alpha(f))
}

/// Free text is looked for in the titles ignoring ASCII case: a filter that
/// is not a range, number, code or letter prefix keeps a song when one of
/// its titles holds the filter as written, or holds it written all in
/// lower or all in upper case.
pub proof fn law_free_text_ignores_case(codes: Seq<Seq<char>>, titles: Seq<Seq<char>>, f: Seq<char>, i: int)
    requires
        reaches_titles(f),
        0 <= i < titles.len(),
        contains(titles[i], f) || contains(titles[i], lower_seq(f)) || contains(titles[i], upper_seq(f)),
    ensures
        filter_matches(codes, titles, f),
{
    if contains(titles[i], f) {
        lemma_lowered_contains(titles[i], f, f);
    } else if contains(titles[i], lower_seq(f)) {
        lemma_lower_lower(f);
        lemma_lowered_contains(titles[i], lower_seq(f), f);
    } else {
        lemma_lower_upper(f);
        lemma_lowered_contains(titles[i], upper_seq(f), f);
    }
}

proof fn lemma_lower_lower(f: Seq<char>)
    ensures
        lower_seq(lower_seq(f)) == lower_seq(f),
{
    assert forall|k: int| 0 <= k < f.len() implies lower_seq(lower_seq(f))[k] == lower_seq(f)[k] by {
        let c = f[k];
        if 'A' <= c && c <= 'Z' {
            assert(((c as u32) + 32) as char >= 'a');
        }
    }
    assert(lower_seq(lower_seq(f)) =~= lower_seq(f));
}

proof fn lemma_lower_upper(f: Seq<char>)
    ensures
        lower_seq(upper_seq(f)) == lower_seq(f),
{
    assert forall|k: int| 0 <= k < f.len() implies lower_seq(upper_seq(f))[k] == lower_seq(f)[k] by {
        let c = f[k];
        if 'a' <= c && c <= 'z' {
            assert('A' <= ((c as u32) - 32) as char <= 'Z');
            assert((((((c as u32) - 32) as char) as u32) + 32) as char == c);
        }
    }
    assert(lower_seq(upper_seq(f)) =~= lower_seq(f));
}

/// `lo-hi`, both ends numbers once trimmed.
pub fn parse_range(filter: &str) -> (r: Option<(u32, u32)>)
    ensures
        r == range_of(filter@),
{
    let v = chars_of(filter);
    let dash = chars_of("-");
    proof {
        reveal_strlit("-");
    }
    assert(dash@.len() == 1);
    let found = crate::text::find(&v, dash.as_slice());
    match found {
        Some(i) => {
            assert(v@.len() == v.len());
            proof {
                crate::text::lemma_split_once_at(v@, "-"@, i as int);
            }
            let lo = slice_copy(&v, 0, i);
            let hi = slice_copy(&v, i + 1, v.len());
            assert(lo@ =~= v@.take(i as int));
            assert(hi@ =~= v@.skip(i + 1));
            let a = parse_u32_chars(&trim_chars(&lo));
            let b = parse_u32_chars(&trim_chars(&hi));
            match (a, b) {
                (Some(a), Some(b)) => Some((a, b)),
                _ => None,
            }
        },
        None => None,
    }
}

/// The digits in a reference code, from its first digit on.
pub fn numeric_part(code: &str) -> (r: Option<&str>)
    ensures
        match r {
            Some(s) => numeric_part_of(code@) == Some(s@),
            None => numeric_part_of(code@) is None,
        },
{
    let v = chars_of(code);
    match first_digit_index(&v) {
        Some(i) => {
            let n = code.unicode_len();
            Some(code.substring_char(i, n))
        },
        None => None,
    }
}

fn numeric_part_chars(code: &[char]) -> (r: Option<Vec<char>>)
    ensures
        match r {
            Some(s) => numeric_part_of(code@) == Some(s@),
            None => numeric_part_of(code@) is None,
        },
{
    match first_digit_index(code) {
        Some(i) => {
            let r = slice_copy(code, i, code.len());
            assert(r@ =~= code@.skip(i as int));
            Some(r)
        },
        None => None,
    }
}

/// A filter shaped like a reference code: letters and digits only, with at
/// least one of each.
pub fn is_reference_code(filter: &str) -> (r: bool)
    ensures
        r == is_ref_code(filter@),
{
    let v = chars_of(filter);
    let mut digit = false;
    let mut alpha = false;
    let mut i: usize = 0;
    while i < v.len()
        invariant
            i <= v.len(),
            v@ == filter@,
            forall|j: int| 0 <= j < i ==> is_ascii_alnum(#[trigger] v@[j]),
            digit == exists|j: int| 0 <= j < i && is_ascii_digit(#[trigger] v@[j]),
            alpha == exists|j: int| 0 <= j < i && is_ascii_alpha(#[trigger] v@[j]),
        decreases v.len() - i,
    {
        let c = v[i];
        let d = '0' <= c && c <= '9';
        let a = ('a' <= c && c <= 'z') || ('A' <= c && c <= 'Z');
        if !d && !a {
            assert(!is_ascii_alnum(v@[i as int]));
            return false;
        }
        proof {
            if d {
                assert(is_ascii_digit(v@[i as int]));
            }
            if a {
                assert(is_ascii_alpha(v@[i as int]));
            }
        }
        digit = digit || d;
        alpha = alpha || a;
        i += 1;
    }
    digit && alpha
}

fn any_in_range(codes: &[String], lo: u32, hi: u32) -> (r: bool)
    ensures
        r == exists|i: int| 0 <= i < codes@.len() && code_in_range(#[trigger] strs(codes@)[i], lo, hi),
{
    let mut i: usize = 0;
    while i < codes.len()
        invariant
            i <= codes.len(),
            forall|j: int| 0 <= j < i ==> !code_in_range(#[trigger] strs(codes@)[j], lo, hi),
        decreases codes.len() - i,
    {
        let c = chars_of(codes[i].as_str());
        assert(strs(codes@)[i as int] == c@);
        match numeric_part_chars(&c) {
            Some(np) => match parse_u32_chars(&np) {
                Some(n) => {
                    if lo <= n && n <= hi {
                        return true;
                    }
                },
                None => {},
            },
            None => {},
        }
        i += 1;
    }
    false
}

fn any_numeric_part(codes: &[String], f: &[char]) -> (r: bool)
    ensures
        r == exists|i: int| 0 <= i < codes@.len() && numeric_part_of(#[trigger] strs(codes@)[i]) == Some(f@),
{
    let mut i: usize = 0;
    while i < codes.len()
        invariant
            i <= codes.len(),
            forall|j: int| 0 <= j < i ==> numeric_part_of(#[trigger] strs(codes@)[j]) != Some(f@),
        decreases codes.len() - i,
    {
        let c = chars_of(codes[i].as_str());
        assert(strs(codes@)[i as int] == c@);
        match numeric_part_chars(&c) {
            Some(np) => {
                if same(&np, f) {
                    return true;
                }
            },
            None => {},
        }
        i += 1;
    }
    false
}

fn any_code_equal_ignoring_case(codes: &[String], lf: &[char]) -> (r: bool)
    ensures
        r == exists|i: int| 0 <= i < codes@.len() && lower_seq(#[trigger] strs(codes@)[i]) == lf@,
{
    let mut i: usize = 0;
    while i < codes.len()
        invariant
            i <= codes.len(),
            forall|j: int| 0 <= j < i ==> lower_seq(#[trigger] strs(codes@)[j]) != lf@,
        decreases codes.len() - i,
    {
        let c = chars_of(codes[i].as_str());
        assert(strs(codes@)[i as int] == c@);
        if same(&lower_chars(&c), lf) {
            return true;
        }
        i += 1;
    }
    false
}

fn any_code_prefixed(codes: &[String], uf: &[char]) -> (r: bool)
    ensures
        r == exists|i: int| 0 <= i < codes@.len() && starts_with(upper_seq(#[trigger] strs(codes@)[i]), uf@),
{
    let mut i: usize = 0;
    while i < codes.len()
        invariant
            i <= codes.len(),
            forall|j: int| 0 <= j < i ==> !starts_with(upper_seq(#[trigger] strs(codes@)[j]), uf@),
        decreases codes.len() - i,
    {
        let c = chars_of(codes[i].as_str());
        assert(strs(codes@)[i as int] == c@);
        if has_prefix(&upper_chars(&c), uf) {
            return true;
        }
        i += 1;
    }
    false
}

fn any_title_containing(titles: &[String], lf: &[char]) -> (r: bool)
    ensures
        r == exists|i: int| 0 <= i < titles@.len() && contains(lower_seq(#[trigger] strs(titles@)[i]), lf@),
{
    let mut i: usize = 0;
    while i < titles.len()
        invariant
            i <= titles.len(),
            forall|j: int| 0 <= j < i ==> !contains(lower_seq(#[trigger] strs(titles@)[j]), lf@),
        decreases titles.len() - i,
    {
        let t = chars_of(titles[i].as_str());
        assert(strs(titles@)[i as int] == t@);
        if contains_chars(&lower_chars(&t), lf) {
            return true;
        }
        i += 1;
    }
    false
}

/// Whether a summary with these codes and titles passes a Child/Laws filter.
pub fn matches_filter(codes: &[String], titles: &[String], filter: &str) -> (r: bool)
    ensures
        r == filter_matches(strs(codes@), strs(titles@), filter@),
{
    let f = chars_of(filter);
    if let Some((lo, hi)) = parse_range(filter) {
        return any_in_range(codes, lo, hi);
    }
    if f.len() > 0 && all_digit_chars(&f) {
        return any_numeric_part(codes, &f);
    }
    if is_reference_code(filter) {
        return any_code_equal_ignoring_case(codes, &lower_chars(&f));
    }
    if 1 <= f.len() && f.len() <= 2 && all_alpha_chars(&f) {
        return any_code_prefixed(codes, &upper_chars(&f));
    }
    any_title_containing(titles, &lower_chars(&f))
}

/// Which reference field a ballad index is filtered on.
#[derive(Debug, Clone, Copy, PartialEq, Eq, Structural)]
pub enum CodeField {
    Child,
    Laws,
}

pub open spec fn codes_of(s: SongSummary, field: CodeField) -> Seq<String> {
    match field {
        CodeField::Child => s.refs.child@,
        CodeField::Laws => s.refs.laws@,
    }
}

/// The summaries a filter keeps, in their original order.
pub open spec fn kept(index: Seq<SongSummary>, field: CodeField, f: Seq<char>) -> Seq<SongSummary>
    decreases index.len(),
{
    if index.len() == 0 {
        index
    } else {
        let prev = kept(index.drop_last(), field, f);
        let s = index.last();
        if filter_matches(strs(codes_of(s, field)), strs(s.titles@), f) {
            prev.push(s)
        } else {
            prev
        }
    }
}

/// No filter keeps the whole index; a filter keeps what it matches.
pub fn filter_index(index: Vec<SongSummary>, filter: Option<&str>, field: CodeField) -> (r: Vec<SongSummary>)
    ensures
        match filter {
            None => r@ == index@,
            Some(f) => r@ == kept(index@, field, f@),
        },
{
    let filter = match filter {
        None => return index,
        Some(f) => f,
    };
    let ghost all = index@;
    let mut rest = reversed(index);
    let mut out: Vec<SongSummary> = Vec::new();
    let n = rest.len();
    let mut i: usize = 0;
    while i < n
        invariant
            i <= n,
            n == all.len(),
            rest@.len() == n - i,
            forall|k: int| 0 <= k < rest@.len() ==> #[trigger] rest@[k] == all[n - 1 - k],
            out@ == kept(all.take(i as int), field, filter@),
        decreases n - i,
    {
        let s = rest.pop().unwrap();
        assert(s == all[i as int]);
        assert(all.take(i + 1).drop_last() =~= all.take(i as int));
        let keep = match field {
            CodeField::Child => matches_filter(s.refs.child.as_slice(), s.titles.as_slice(), filter),
            CodeField::Laws => matches_filter(s.refs.laws.as_slice(), s.titles.as_slice(), filter),
        };
        if keep {
            out.push(s);
        }
        i += 1;
    }
    assert(all.take(n as int) =~= all);
    out
}

} // verus!
