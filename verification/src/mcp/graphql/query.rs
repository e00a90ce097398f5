//! The filters the query root applies to whole lists it already has in hand:
//! the Child/Laws ballad filter, the bibliography's section filter and the
//! canal-song title filter. Each list is one request; filtering it costs
//! nothing beyond that.
use vstd::prelude::*;

use crate::commands::songs::{opt_str, parse_range, range_of};
use crate::mcp::graphql::loaders::IndexKind;
use crate::models::{Book, SongSummary, WaterwaysSong};
use crate::text::{
    all_alpha, all_alpha_chars, chars_of, contains, contains_chars, first_digit,
    first_digit_index, has_prefix, is_ascii_digit, parse_u32, parse_u32_chars, reversed,
    slice_copy, starts_with, string_of, strs, to_lowercase, to_uppercase, trim, trim_chars,
    unicode_lower, unicode_upper, upper_chars, upper_seq,
};

verus! {

/// The root of the graph: every root field is one archive request.
pub struct QueryRoot;

/// A trimmed argument, or nothing where it was blank.
pub open spec fn non_empty_of(value: Option<Seq<char>>) -> Option<Seq<char>> {
    match value {
        Some(v) => if trim(v).len() > 0 {
            Some(trim(v))
        } else {
            None
        },
        None => None,
    }
}

/// A trimmed argument, or `None` where it was blank. A blank string is not a
/// narrowing, and sending it as one turns a search into a request for the
/// whole index.
pub fn non_empty(value: Option<String>) -> (r: Option<String>)
    ensures
        opt_str(r) == non_empty_of(opt_str(value)),
{
    match value {
        Some(v) => {
            let t = trim_chars(&chars_of(v.as_str()));
            if t.len() > 0 {
                Some(string_of(&t))
            } else {
                None
            }
        },
        None => None,
    }
}

/// How a `filter` on the Child or Laws index is read.
#[derive(Debug, PartialEq, Eq)]
pub enum BalladFilter {
    /// A bare number, matched against the numeric part of a code.
    Number(u32),
    /// An inclusive range, low end first.
    Range(u32, u32),
    /// A letter prefix: `P` for the Laws P series.
    Prefix(String),
    /// Anything else, matched case-insensitively against the titles.
    Text(String),
}

/// A [`BalladFilter`] with its text as characters.
pub enum FilterView {
    Number(u32),
    Range(u32, u32),
    Prefix(Seq<char>),
    Text(Seq<char>),
}

impl View for BalladFilter {
    type V = FilterView;

    open spec fn view(&self) -> FilterView {
        match self {
            BalladFilter::Number(n) => FilterView::Number(*n),
            BalladFilter::Range(a, b) => FilterView::Range(*a, *b),
            BalladFilter::Prefix(p) => FilterView::Prefix(p@),
            BalladFilter::Text(t) => FilterView::Text(t@),
        }
    }
}

/// The filter `raw` reads as, once trimmed: a number; else two numbers
/// around a `-`, smaller first; else one or two ASCII letters, upper-cased;
/// else text, lower-cased.
pub open spec fn ballad_filter_of(raw: Seq<char>) -> FilterView {
    let f = trim(raw);
    match parse_u32(f) {
        Some(n) => FilterView::Number(n),
        None => match range_of(f) {
            Some((a, b)) => if a <= b {
                FilterView::Range(a, b)
            } else {
                FilterView::Range(b, a)
            },
            None => if 0 < f.len() <= 2 && all_alpha(f) {
                FilterView::Prefix(upper_seq(f))
            } else {
                FilterView::Text(unicode_lower(f))
            },
        },
    }
}

/// A range filter is always low end first, whichever order it was written
/// in; a blank filter never reaches parsing, and a bare number is never read
/// as text.
pub proof fn law_ranges_are_ordered(raw: Seq<char>)
    ensures
        ballad_filter_of(raw) matches FilterView::Range(a, b) ==> a <= b,
        parse_u32(trim(raw)) matches Some(n) ==> ballad_filter_of(raw) == FilterView::Number(n),
{
}

/// Read a Child/Laws `filter`. Laws codes are one or two letters and a
/// number, so a bare letter or two is a series, not a title.
pub fn parse_ballad_filter(raw: &str) -> (r: BalladFilter)
    ensures
        r@ == ballad_filter_of(raw@),
{
    let f = trim_chars(&chars_of(raw));
    if let Some(n) = parse_u32_chars(&f) {
        return BalladFilter::Number(n);
    }
    let fs = string_of(&f);
    if let Some((a, b)) = parse_range(fs.as_str()) {
        if a <= b {
            return BalladFilter::Range(a, b);
        } else {
            return BalladFilter::Range(b, a);
        }
    }
    if f.len() > 0 && f.len() <= 2 && all_alpha_chars(&f) {
        return BalladFilter::Prefix(string_of(&upper_chars(&f)));
    }
    BalladFilter::Text(to_lowercase(fs.as_str()))
}

/// How many leading characters of `s` are ASCII digits.
pub open spec fn digit_run_len(s: Seq<char>) -> nat
    decreases s.len(),
{
    if s.len() > 0 && is_ascii_digit(s[0]) {
        1 + digit_run_len(s.drop_first())
    } else {
        0
    }
}

/// The first run of ASCII digits in `code`.
pub open spec fn digit_run(code: Seq<char>) -> Seq<char> {
    match first_digit(code) {
        Some(i) => code.skip(i).take(digit_run_len(code.skip(i)) as int),
        None => Seq::empty(),
    }
}

/// The numeric part of a reference code: `"84"` is 84, `"P15"` is 15.
pub open spec fn code_number_of(code: Seq<char>) -> Option<u32> {
    parse_u32(digit_run(code))
}

proof fn lemma_digit_run_len(s: Seq<char>, n: int)
    requires
        0 <= n <= s.len(),
        forall|j: int| 0 <= j < n ==> is_ascii_digit(#[trigger] s[j]),
        n == s.len() || !is_ascii_digit(s[n]),
    ensures
        digit_run_len(s) == n,
    decreases n,
{
    if n > 0 {
        assert forall|j: int| 0 <= j < n - 1 implies is_ascii_digit(#[trigger] s.drop_first()[j]) by {
            assert(s.drop_first()[j] == s[j + 1]);
        }
        if n < s.len() {
            assert(s.drop_first()[n - 1] == s[n]);
        }
        lemma_digit_run_len(s.drop_first(), n - 1);
    }
}

fn code_number_chars(c: &[char]) -> (r: Option<u32>)
    ensures
        r == code_number_of(c@),
{
    match first_digit_index(c) {
        None => {
            assert(digit_run(c@) =~= Seq::<char>::empty());
            parse_u32_chars(&[])
        },
        Some(i) => {
            let mut j = i;
            while j < c.len() && '0' <= c[j] && c[j] <= '9'
                invariant
                    i <= j <= c.len(),
                    forall|k: int| i <= k < j ==> is_ascii_digit(#[trigger] c@[k]),
                decreases c.len() - j,
            {
                j += 1;
            }
            let run = slice_copy(c, i, j);
            proof {
                let s = c@.skip(i as int);
                assert forall|k: int| 0 <= k < j - i implies is_ascii_digit(#[trigger] s[k]) by {
                    assert(s[k] == c@[i + k]);
                }
                if j < c.len() {
                    assert(s[j - i] == c@[j as int]);
                }
                lemma_digit_run_len(s, j - i);
                assert(run@ =~= digit_run(c@));
            }
            parse_u32_chars(&run)
        },
    }
}

/// The numeric part of a reference code: `"84"` is 84, `"P15"` is 15, and
/// `"trad"` has none.
pub fn code_number(code: &str) -> (r: Option<u32>)
    ensures
        r == code_number_of(code@),
{
    code_number_chars(&chars_of(code))
}

/// Whether a filter keeps an entry with these codes and titles.
pub open spec fn ballad_matches_of(
    f: FilterView,
    codes: Seq<Seq<char>>,
    title: Seq<char>,
    titles: Seq<Seq<char>>,
) -> bool {
    match f {
        FilterView::Number(w) => exists|i: int|
            0 <= i < codes.len() && code_number_of(#[trigger] codes[i]) == Some(w),
        FilterView::Range(lo, hi) => exists|i: int|
            0 <= i < codes.len() && match code_number_of(#[trigger] codes[i]) {
                Some(n) => lo <= n <= hi,
                None => false,
            },
        FilterView::Prefix(p) => exists|i: int|
            0 <= i < codes.len() && starts_with(unicode_upper(#[trigger] codes[i]), p),
        FilterView::Text(t) => contains(unicode_lower(title), t) || exists|i: int|
            0 <= i < titles.len() && contains(unicode_lower(#[trigger] titles[i]), t),
    }
}

fn any_number(codes: &[String], w: u32) -> (r: bool)
    ensures
        r == exists|i: int| 0 <= i < codes@.len() && code_number_of(#[trigger] strs(codes@)[i]) == Some(w),
{
    let mut i: usize = 0;
    while i < codes.len()
        invariant
            i <= codes.len(),
            forall|j: int| 0 <= j < i ==> code_number_of(#[trigger] strs(codes@)[j]) != Some(w),
        decreases codes.len() - i,
    {
        assert(strs(codes@)[i as int] == codes@[i as int]@);
        if code_number(codes[i].as_str()) == Some(w) {
            return true;
        }
        i += 1;
    }
    false
}

fn any_between(codes: &[String], lo: u32, hi: u32) -> (r: bool)
    ensures
        r == exists|i: int|
            0 <= i < codes@.len() && match code_number_of(#[trigger] strs(codes@)[i]) {
                Some(n) => lo <= n <= hi,
                None => false,
            },
{
    let mut i: usize = 0;
    while i < codes.len()
        invariant
            i <= codes.len(),
            forall|j: int|
                0 <= j < i ==> !match code_number_of(#[trigger] strs(codes@)[j]) {
                    Some(n) => lo <= n <= hi,
                    None => false,
                },
        decreases codes.len() - i,
    {
        assert(strs(codes@)[i as int] == codes@[i as int]@);
        if let Some(n) = code_number(codes[i].as_str()) {
            if lo <= n && n <= hi {
                return true;
            }
        }
        i += 1;
    }
    false
}

fn any_upper_prefixed(codes: &[String], p: &[char]) -> (r: bool)
    ensures
        r == exists|i: int|
            0 <= i < codes@.len() && starts_with(unicode_upper(#[trigger] strs(codes@)[i]), p@),
{
    let mut i: usize = 0;
    while i < codes.len()
        invariant
            i <= codes.len(),
            forall|j: int| 0 <= j < i ==> !starts_with(unicode_upper(#[trigger] strs(codes@)[j]), p@),
        decreases codes.len() - i,
    {
        assert(strs(codes@)[i as int] == codes@[i as int]@);
        let up = to_uppercase(codes[i].as_str());
        if has_prefix(&chars_of(up.as_str()), p) {
            return true;
        }
        i += 1;
    }
    false
}

fn lower_contains(s: &str, t: &[char]) -> (r: bool)
    ensures
        r == contains(unicode_lower(s@), t@),
{
    let low = to_lowercase(s);
    contains_chars(&chars_of(low.as_str()), t)
}

fn any_title_lower_contains(titles: &[String], t: &[char]) -> (r: bool)
    ensures
        r == exists|i: int|
            0 <= i < titles@.len() && contains(unicode_lower(#[trigger] strs(titles@)[i]), t@),
{
    let mut i: usize = 0;
    while i < titles.len()
        invariant
            i <= titles.len(),
            forall|j: int| 0 <= j < i ==> !contains(unicode_lower(#[trigger] strs(titles@)[j]), t@),
        decreases titles.len() - i,
    {
        assert(strs(titles@)[i as int] == titles@[i as int]@);
        if lower_contains(titles[i].as_str(), t) {
            return true;
        }
        i += 1;
    }
    false
}

/// Whether `summary`, carrying `codes` in the index's scheme, passes `filter`.
pub fn ballad_matches(filter: &BalladFilter, codes: &[String], summary: &SongSummary) -> (r: bool)
    ensures
        r == ballad_matches_of(filter@, strs(codes@), summary.title@, strs(summary.titles@)),
{
    match filter {
        BalladFilter::Number(wanted) => any_number(codes, *wanted),
        BalladFilter::Range(low, high) => any_between(codes, *low, *high),
        BalladFilter::Prefix(prefix) => any_upper_prefixed(codes, &chars_of(prefix.as_str())),
        BalladFilter::Text(text) => {
            let t = chars_of(text.as_str());
            lower_contains(summary.title.as_str(), &t) || any_title_lower_contains(
                summary.titles.as_slice(),
                &t,
            )
        },
    }
}

/// The codes an index is filtered on: Laws codes on the Laws index, Child
/// numbers on every other.
pub open spec fn index_codes(s: SongSummary, kind: IndexKind) -> Seq<String> {
    match kind {
        IndexKind::Laws => s.refs.laws@,
        _ => s.refs.child@,
    }
}

/// The entries of `index` a filter keeps, in order.
pub open spec fn ballads_kept(index: Seq<SongSummary>, kind: IndexKind, f: FilterView) -> Seq<SongSummary>
    decreases index.len(),
{
    if index.len() == 0 {
        index
    } else {
        let prev = ballads_kept(index.drop_last(), kind, f);
        let s = index.last();
        if ballad_matches_of(f, strs(index_codes(s, kind)), s.title@, strs(s.titles@)) {
            prev.push(s)
        } else {
            prev
        }
    }
}

/// A canon index filtered in memory: a blank or absent filter keeps
/// everything, any other keeps what it matches, in index order.
pub fn filter_ballads(index: Vec<SongSummary>, kind: IndexKind, filter: Option<String>) -> (r: Vec<SongSummary>)
    ensures
        match non_empty_of(opt_str(filter)) {
            None => r@ == index@,
            Some(f) => r@ == ballads_kept(index@, kind, ballad_filter_of(f)),
        },
{
    let f = match non_empty(filter) {
        None => return index,
        Some(f) => parse_ballad_filter(f.as_str()),
    };
    let ghost all = index@;
    let mut rest = reversed(index);
    let mut out: Vec<SongSummary> = Vec::new();
    let n = rest.len();
    let mut i: usize = 0;
    while i < n
        invariant
            i <= n,
            n == all.len(),
            rest@.len() == n - i,
            forall|k: int| 0 <= k < rest@.len() ==> #[trigger] rest@[k] == all[n - 1 - k],
            out@ == ballads_kept(all.take(i as int), kind, f@),
        decreases n - i,
    {
        let s = rest.pop().unwrap();
        assert(s == all[i as int]);
        assert(all.take(i + 1).drop_last() =~= all.take(i as int));
        let keep = match kind {
            IndexKind::Laws => ballad_matches(&f, s.refs.laws.as_slice(), &s),
            _ => ballad_matches(&f, s.refs.child.as_slice(), &s),
        };
        if keep {
            out.push(s);
        }
        i += 1;
    }
    assert(all.take(n as int) =~= all);
    out
}

/// Whether a book's section contains `wanted`, ignoring case.
pub open spec fn in_section(b: Book, wanted: Seq<char>) -> bool {
    match b.section {
        Some(s) => contains(unicode_lower(s@), wanted),
        None => false,
    }
}

pub open spec fn books_kept(books: Seq<Book>, wanted: Seq<char>) -> Seq<Book>
    decreases books.len(),
{
    if books.len() == 0 {
        books
    } else {
        let prev = books_kept(books.drop_last(), wanted);
        if in_section(books.last(), wanted) {
            prev.push(books.last())
        } else {
            prev
        }
    }
}

/// The bibliography narrowed to a section, matched case-insensitively; a
/// blank or absent section keeps everything.
pub fn books_in_section(books: Vec<Book>, section: Option<String>) -> (r: Vec<Book>)
    ensures
        match non_empty_of(opt_str(section)) {
            None => r@ == books@,
            Some(s) => r@ == books_kept(books@, unicode_lower(s)),
        },
{
    let wanted = match non_empty(section) {
        None => return books,
        Some(s) => chars_of(to_lowercase(s.as_str()).as_str()),
    };
    let ghost all = books@;
    let mut rest = reversed(books);
    let mut out: Vec<Book> = Vec::new();
    let n = rest.len();
    let mut i: usize = 0;
    while i < n
        invariant
            i <= n,
            n == all.len(),
            rest@.len() == n - i,
            forall|k: int| 0 <= k < rest@.len() ==> #[trigger] rest@[k] == all[n - 1 - k],
            out@ == books_kept(all.take(i as int), wanted@),
        decreases n - i,
    {
        let b = rest.pop().unwrap();
        assert(b == all[i as int]);
        assert(all.take(i + 1).drop_last() =~= all.take(i as int));
        let keep = match &b.section {
            Some(s) => lower_contains(s.as_str(), &wanted),
            None => false,
        };
        if keep {
            out.push(b);
        }
        i += 1;
    }
    assert(all.take(n as int) =~= all);
    out
}

pub open spec fn songs_titled(songs: Seq<WaterwaysSong>, needle: Seq<char>) -> Seq<WaterwaysSong>
    decreases songs.len(),
{
    if songs.len() == 0 {
        songs
    } else {
        let prev = songs_titled(songs.drop_last(), needle);
        if contains(unicode_lower(songs.last().title@), needle) {
            prev.push(songs.last())
        } else {
            prev
        }
    }
}

/// The canal songs whose title contains `query`, ignoring case; a blank or
/// absent query keeps everything.
pub fn waterways_matching(songs: Vec<WaterwaysSong>, query: Option<String>) -> (r: Vec<WaterwaysSong>)
    ensures
        match non_empty_of(opt_str(query)) {
            None => r@ == songs@,
            Some(q) => r@ == songs_titled(songs@, unicode_lower(q)),
        },
{
    let needle = match non_empty(query) {
        None => return songs,
        Some(q) => chars_of(to_lowercase(q.as_str()).as_str()),
    };
    let ghost all = songs@;
    let mut rest = reversed(songs);
    let mut out: Vec<WaterwaysSong> = Vec::new();
    let n = rest.len();
    let mut i: usize = 0;
    while i < n
        invariant
            i <= n,
            n == all.len(),
            rest@.len() == n - i,
            forall|k: int| 0 <= k < rest@.len() ==> #[trigger] rest@[k] == all[n - 1 - k],
            out@ == songs_titled(all.take(i as int), needle@),
        decreases n - i,
    {
        let s = rest.pop().unwrap();
        assert(s == all[i as int]);
        assert(all.take(i + 1).drop_last() =~= all.take(i as int));
        if lower_contains(s.title.as_str(), &needle) {
            out.push(s);
        }
        i += 1;
    }
    assert(all.take(n as int) =~= all);
    out
}

} // verus!
