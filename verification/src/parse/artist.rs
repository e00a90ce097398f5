//! A release's metadata, as discography entries write it after the title:
//! `LP, Topic 12TS340, 1965`. And the site suffix a `<title>` may carry.
use vstd::prelude::*;

use crate::client::{resolve_chars, resolved_path};
use crate::dom::{
    all_matches, ancestor_matches, attr, attr_of, doc_view, end_of, find_match, first_match, has_ancestor,
    has_class, has_class_attr, inner_text, is_elem, is_element, is_named, lemma_end_from, selects,
    lemma_first_match, parent_index, parent_of, parse_html, parsed_document, sel_matches,
    subtree_end, text_between, text_in, text_of, text_under, DomNode, KindView, NodeKind, NodeView, Sel,
};
use crate::error::Error;
use crate::models::{Album, Artist, Source};
use crate::parse::book::{opt_view, present};
use crate::text::{
    all_digits, chars_of, contains, contains_chars, drop_empty, drop_empty_parts, is_ascii_digit,
    join, join_parts, lower_chars, lower_seq, rfind, rsplit_once, same, slice_copy, split,
    split_on, squash_chars, squashed, string_of, strs, to_lowercase, trim, trim_by, trim_chars,
    trim_chars_by, trim_each, trim_end_by, trim_end_chars, trim_parts, unicode_lower, views, words,
    words_of, find_last, occurs_at, Strip,
};

verus! {

/// `title` with its head kept when the part after the last `sep` names the
/// site.
pub open spec fn suffix_cut(title: Seq<char>, sep: Seq<char>) -> Option<Seq<char>> {
    match rsplit_once(title, sep) {
        Some((head, tail)) => if contains(unicode_lower(tail), "mainly norfolk"@) {
            Some(trim(head))
        } else {
            None
        },
        None => None,
    }
}

/// A `<title>` without a trailing ` - Mainly Norfolk`-style suffix, tried
/// with ` - `, then ` | `, then ` :: `.
pub open spec fn without_site_suffix(title: Seq<char>) -> Seq<char> {
    match suffix_cut(title, " - "@) {
        Some(h) => h,
        None => match suffix_cut(title, " | "@) {
            Some(h) => h,
            None => match suffix_cut(title, " :: "@) {
                Some(h) => h,
                None => title,
            },
        },
    }
}

fn cut_suffix(v: &Vec<char>, sep: &str) -> (r: Option<Vec<char>>)
    ensures
        match r {
            Some(h) => suffix_cut(v@, sep@) == Some(h@),
            None => suffix_cut(v@, sep@) is None,
        },
{
    let s = chars_of(sep);
    match rfind(v, &s) {
        Some(i) => {
            assert(v@.len() == v.len());
            let head = slice_copy(v, 0, i);
            let tail = slice_copy(v, i + s.len(), v.len());
            assert(head@ =~= v@.take(i as int));
            assert(tail@ =~= v@.skip(i + s@.len()));
            let low = to_lowercase(string_of(&tail).as_str());
            let needle = chars_of("mainly norfolk");
            if contains_chars(&chars_of(low.as_str()), &needle) {
                Some(trim_chars(&head))
            } else {
                None
            }
        },
        None => None,
    }
}

/// Strips a trailing site suffix from a `<title>`, when there is one.
pub fn strip_site_suffix(title: &str) -> (r: String)
    ensures
        r@ == without_site_suffix(title@),
{
    let v = chars_of(title);
    if let Some(h) = cut_suffix(&v, " - ") {
        return string_of(&h);
    }
    if let Some(h) = cut_suffix(&v, " | ") {
        return string_of(&h);
    }
    if let Some(h) = cut_suffix(&v, " :: ") {
        return string_of(&h);
    }
    string_of(&v)
}

/// A release format the archive writes (`LP`, `CD`, `EP`, `SP`, `cassette`,
/// `MC`, `78`, `DVD`, `download`), compared ignoring ASCII case.
pub open spec fn is_format(w: Seq<char>) -> bool {
    let l = lower_seq(w);
    ||| l == "lp"@
    ||| l == "cd"@
    ||| l == "ep"@
    ||| l == "sp"@
    ||| l == "cassette"@
    ||| l == "mc"@
    ||| l == "78"@
    ||| l == "dvd"@
    ||| l == "download"@
}

/// The first of `ws` that, stripped of non-alphanumerics at either end, is
/// a format; kept as written.
pub open spec fn first_format(ws: Seq<Seq<char>>) -> Option<Seq<char>>
    decreases ws.len(),
{
    if ws.len() == 0 {
        None
    } else {
        let bare = trim_by(ws[0], Strip::NotAlnum);
        if is_format(bare) {
            Some(bare)
        } else {
            first_format(ws.drop_first())
        }
    }
}

/// Each of the archive's format names, written in any ASCII case, is read as
/// a release format: where the first word of a release line, stripped of
/// punctuation, is `LP`, `CD`, `EP`, `SP`, `cassette`, `MC`, `78`, `DVD` or
/// `download` ignoring case, it is the format found, as written.
pub proof fn law_format_names_are_formats(ws: Seq<Seq<char>>)
    requires
        ws.len() > 0,
        ({
            let l = lower_seq(trim_by(ws[0], Strip::NotAlnum));
            ||| l == seq!['l', 'p']
            ||| l == seq!['c', 'd']
            ||| l == seq!['e', 'p']
            ||| l == seq!['s', 'p']
            ||| l == seq!['c', 'a', 's', 's', 'e', 't', 't', 'e']
            ||| l == seq!['m', 'c']
            ||| l == seq!['7', '8']
            ||| l == seq!['d', 'v', 'd']
            ||| l == seq!['d', 'o', 'w', 'n', 'l', 'o', 'a', 'd']
        }),
    ensures
        first_format(ws) == Some(trim_by(ws[0], Strip::NotAlnum)),
{
    reveal_strlit("lp");
    reveal_strlit("cd");
    reveal_strlit("ep");
    reveal_strlit("sp");
    reveal_strlit("cassette");
    reveal_strlit("mc");
    reveal_strlit("78");
    reveal_strlit("dvd");
    reveal_strlit("download");
    let l = lower_seq(trim_by(ws[0], Strip::NotAlnum));
    assert(is_format(trim_by(ws[0], Strip::NotAlnum))) by {
        if l == seq!['l', 'p'] {
            assert(l =~= "lp"@);
        } else if l == seq!['c', 'd'] {
            assert(l =~= "cd"@);
        } else if l == seq!['e', 'p'] {
            assert(l =~= "ep"@);
        } else if l == seq!['s', 'p'] {
            assert(l =~= "sp"@);
        } else if l == seq!['c', 'a', 's', 's', 'e', 't', 't', 'e'] {
            assert(l =~= "cassette"@);
        } else if l == seq!['m', 'c'] {
            assert(l =~= "mc"@);
        } else if l == seq!['7', '8'] {
            assert(l =~= "78"@);
        } else if l == seq!['d', 'v', 'd'] {
            assert(l =~= "dvd"@);
        } else {
            assert(l =~= "download"@);
        }
    }
}

fn is_format_word(w: &[char]) -> (r: bool)
    ensures
        r == is_format(w@),
{
    let l = lower_chars(w);
    same(&l, &chars_of("lp")) || same(&l, &chars_of("cd")) || same(&l, &chars_of("ep")) || same(
        &l,
        &chars_of("sp"),
    ) || same(&l, &chars_of("cassette")) || same(&l, &chars_of("mc")) || same(&l, &chars_of("78"))
        || same(&l, &chars_of("dvd")) || same(&l, &chars_of("download"))
}

/// The first word of `text` naming a release format, kept as written.
pub fn find_format(text: &str) -> (r: Option<String>)
    ensures
        opt_view(r) == first_format(words(text@)),
{
    let ws = words_of(&chars_of(text));
    let ghost all = views(ws@);
    assert(all.skip(0) =~= all);
    let mut i: usize = 0;
    while i < ws.len()
        invariant
            i <= ws.len(),
            all == views(ws@),
            all == words(text@),
            first_format(all) == first_format(all.skip(i as int)),
        decreases ws.len() - i,
    {
        let bare = trim_chars_by(&ws[i], &Strip::NotAlnum);
        assert(all.skip(i as int)[0] == ws@[i as int]@);
        assert(all.skip(i as int).drop_first() =~= all.skip(i + 1));
        if is_format_word(&bare) {
            assert(first_format(all.skip(i as int)) == Some(bare@));
            return Some(string_of(&bare));
        }
        i += 1;
    }
    assert(all.skip(i as int) =~= Seq::<Seq<char>>::empty());
    None
}

/// Four ASCII digits starting 19 or 20, at `i`.
pub open spec fn year4_at(s: Seq<char>, i: int) -> bool {
    &&& 0 <= i && i + 4 <= s.len()
    &&& is_ascii_digit(s[i]) && is_ascii_digit(s[i + 1]) && is_ascii_digit(s[i + 2])
        && is_ascii_digit(s[i + 3])
    &&& s[i] == '1' && s[i + 1] == '9' || s[i] == '2' && s[i + 1] == '0'
}

/// Scanning `s` left to right from `from`, stepping past each year found:
/// the last one found, else `found`.
pub open spec fn year_scan(s: Seq<char>, from: int, found: Option<Seq<char>>) -> Option<Seq<char>>
    decreases s.len() - from,
{
    if from < 0 || from + 4 > s.len() {
        found
    } else if year4_at(s, from) {
        year_scan(s, from + 4, Some(s.subrange(from, from + 4)))
    } else {
        year_scan(s, from + 1, found)
    }
}

/// The last 19xx/20xx year in `text`, scanning left to right.
pub fn find_year(text: &str) -> (r: Option<String>)
    ensures
        opt_view(r) == year_scan(text@, 0, None),
{
    let v = chars_of(text);
    let mut found: Option<Vec<char>> = None;
    let mut i: usize = 0;
    while v.len() >= 4 && i <= v.len() - 4
        invariant
            v@ == text@,
            i <= v.len() + 4,
            year_scan(v@, 0, None) == year_scan(v@, i as int, match found {
                Some(f) => Some(f@),
                None => None,
            }),
        decreases v.len() + 4 - i,
    {
        let d = |c: char| -> (b: bool)
            ensures
                b == is_ascii_digit(c),
            { '0' <= c && c <= '9' };
        if d(v[i]) && d(v[i + 1]) && d(v[i + 2]) && d(v[i + 3]) && ((v[i] == '1' && v[i + 1] == '9')
            || (v[i] == '2' && v[i + 1] == '0')) {
            found = Some(slice_copy(&v, i, i + 4));
            i += 4;
        } else {
            i += 1;
        }
    }
    match found {
        Some(f) => Some(string_of(&f)),
        None => None,
    }
}

/// A word that reads as part of a catalogue number: upper-case ASCII
/// letters, digits and `-/.'` only.
pub open spec fn is_catalogue_word(w: Seq<char>) -> bool {
    w.len() > 0 && forall|i: int|
        0 <= i < w.len() ==> ('A' <= #[trigger] w[i] <= 'Z' || is_ascii_digit(w[i]) || w[i] == '-'
            || w[i] == '/' || w[i] == '.' || w[i] == '\'')
}

/// How many of the last words of `ws` read as catalogue words.
pub open spec fn catalogue_run(ws: Seq<Seq<char>>) -> nat
    decreases ws.len(),
{
    if ws.len() > 0 && is_catalogue_word(ws.last()) {
        1 + catalogue_run(ws.drop_last())
    } else {
        0
    }
}

pub open spec fn has_a_digit(w: Seq<char>) -> bool {
    exists|i: int| 0 <= i < w.len() && is_ascii_digit(#[trigger] w[i])
}

/// Where the label ends and the catalogue number begins: before the trailing
/// run of catalogue words, except that when every word reads as one (an
/// all-caps label, `HMV DLP 1143`) the first word is kept as the label.
pub open spec fn label_split(ws: Seq<Seq<char>>) -> int {
    let split = ws.len() - catalogue_run(ws);
    if split == 0 && ws.len() >= 2 {
        1
    } else {
        split
    }
}

/// Label and catalogue number: the words after [`label_split`] are the
/// catalogue number, provided they hold a digit and a word is left before
/// them for the label; otherwise the whole text, trimmed, is the label.
pub open spec fn label_and_catalogue_of(text: Seq<char>) -> (Option<Seq<char>>, Option<Seq<char>>) {
    let ws = words(text);
    let split = label_split(ws);
    let cat = ws.skip(split);
    if ws.len() == 0 {
        (None, None)
    } else if split == 0 || cat.len() == 0 || !(exists|i: int| 0 <= i < cat.len() && has_a_digit(#[trigger] cat[i])) {
        (present(trim(text)), None)
    } else {
        (Some(join(ws.take(split), " "@)), Some(join(cat, " "@)))
    }
}

fn catalogue_word(w: &[char]) -> (r: bool)
    ensures
        r == is_catalogue_word(w@),
{
    if w.len() == 0 {
        return false;
    }
    let mut i: usize = 0;
    while i < w.len()
        invariant
            i <= w.len(),
            forall|j: int|
                0 <= j < i ==> ('A' <= #[trigger] w@[j] <= 'Z' || is_ascii_digit(w@[j]) || w@[j] == '-'
                    || w@[j] == '/' || w@[j] == '.' || w@[j] == '\''),
        decreases w.len() - i,
    {
        let c = w[i];
        if !(('A' <= c && c <= 'Z') || ('0' <= c && c <= '9') || c == '-' || c == '/' || c == '.'
            || c == '\'') {
            return false;
        }
        i += 1;
    }
    true
}

fn word_has_digit(w: &[char]) -> (r: bool)
    ensures
        r == has_a_digit(w@),
{
    let mut i: usize = 0;
    while i < w.len()
        invariant
            i <= w.len(),
            forall|j: int| 0 <= j < i ==> !is_ascii_digit(#[trigger] w@[j]),
        decreases w.len() - i,
    {
        if '0' <= w[i] && w[i] <= '9' {
            return true;
        }
        i += 1;
    }
    false
}

proof fn lemma_catalogue_run(ws: Seq<Seq<char>>, k: int)
    requires
        0 <= k <= ws.len(),
        forall|j: int| k <= j < ws.len() ==> is_catalogue_word(#[trigger] ws[j]),
        k == 0 || !is_catalogue_word(ws[k - 1]),
    ensures
        catalogue_run(ws) == ws.len() - k,
    decreases ws.len() - k,
{
    if k < ws.len() {
        assert(ws.drop_last().len() == ws.len() - 1);
        assert forall|j: int| k <= j < ws.drop_last().len() implies is_catalogue_word(#[trigger] ws.drop_last()[j]) by {
            assert(ws.drop_last()[j] == ws[j]);
        }
        if k > 0 {
            assert(ws.drop_last()[k - 1] == ws[k - 1]);
        }
        lemma_catalogue_run(ws.drop_last(), k);
    }
}

fn part_range(ws: &Vec<Vec<char>>, a: usize, b: usize) -> (r: Vec<Vec<char>>)
    requires
        a <= b <= ws.len(),
    ensures
        views(r@) == views(ws@).subrange(a as int, b as int),
{
    let mut r: Vec<Vec<char>> = Vec::new();
    let mut i = a;
    while i < b
        invariant
            a <= i <= b <= ws.len(),
            views(r@) == views(ws@).subrange(a as int, i as int),
        decreases b - i,
    {
        let ghost before = views(r@);
        let w = slice_copy(&ws[i], 0, ws[i].len());
        assert(w@ =~= ws@[i as int]@);
        r.push(w);
        assert(views(r@) =~= before.push(ws@[i as int]@));
        assert(views(ws@).subrange(a as int, i + 1) =~= views(ws@).subrange(a as int, i as int).push(
            ws@[i as int]@,
        ));
        i += 1;
    }
    r
}

fn present_chars(v: Vec<char>) -> (r: Option<String>)
    ensures
        opt_view(r) == present(v@),
{
    if v.len() == 0 {
        None
    } else {
        Some(string_of(&v))
    }
}

/// Splits `"Topic Records TSCD340"` into label `"Topic Records"` and
/// catalogue number `"TSCD340"`, and `"HMV DLP 1143"` into `"HMV"` and
/// `"DLP 1143"`: an all-caps label would otherwise read as part of the
/// catalogue number and leave no label at all.
pub fn split_label_and_catalogue(text: &str) -> (r: (Option<String>, Option<String>))
    ensures
        (opt_view(r.0), opt_view(r.1)) == label_and_catalogue_of(text@),
{
    let v = chars_of(text);
    let ws = words_of(&v);
    let ghost all = views(ws@);
    if ws.len() == 0 {
        return (None, None);
    }
    let mut split = ws.len();
    while split > 0 && catalogue_word(&ws[split - 1])
        invariant
            split <= ws.len(),
            all == views(ws@),
            forall|j: int| split <= j < ws.len() ==> is_catalogue_word(#[trigger] all[j]),
        decreases split,
    {
        split -= 1;
    }
    proof {
        if split > 0 {
            assert(all[split - 1] == ws@[split - 1]@);
        }
        lemma_catalogue_run(all, split as int);
    }
    if split == 0 && ws.len() >= 2 {
        split = 1;
    }
    assert(split == label_split(all));
    let cat = part_range(&ws, split, ws.len());
    let ghost catv = views(cat@);
    assert(catv =~= all.skip(split as int));
    let mut has_digit = false;
    let mut k: usize = 0;
    while k < cat.len()
        invariant
            k <= cat.len(),
            catv == views(cat@),
            has_digit == exists|i: int| 0 <= i < k && has_a_digit(#[trigger] catv[i]),
        decreases cat.len() - k,
    {
        assert(catv[k as int] == cat@[k as int]@);
        if word_has_digit(&cat[k]) {
            has_digit = true;
        }
        k += 1;
    }
    if split == 0 || cat.len() == 0 || !has_digit {
        return (present_chars(trim_chars(&v)), None);
    }
    let label = part_range(&ws, 0, split);
    assert(views(label@) =~= all.take(split as int));
    let space = chars_of(" ");
    (Some(string_of(&join_parts(&label, &space))), Some(string_of(&join_parts(&cat, &space))))
}

/// Format, label, catalogue number and year parsed from a release's metadata.
#[derive(Debug, Clone)]
pub struct ReleaseMeta {
    pub year: Option<String>,
    pub format: Option<String>,
    pub label: Option<String>,
    pub catalogue_number: Option<String>,
}

/// The comma-separated tokens of a metadata tail, trimmed, blanks dropped.
pub open spec fn tail_tokens(tail: Seq<char>) -> Seq<Seq<char>> {
    drop_empty(trim_each(split(tail, ","@)))
}

/// What a metadata tail says: a format from its first token, a year from its
/// last (unless the only token gave the format), the fallback year when the
/// tail has none, and label and catalogue number from what lies between.
pub open spec fn release_meta_of(tail: Seq<char>, fallback: Option<Seq<char>>) -> (
    Option<Seq<char>>,
    Option<Seq<char>>,
    Option<Seq<char>>,
    Option<Seq<char>>,
) {
    let tokens = tail_tokens(tail);
    let format = if tokens.len() > 0 {
        first_format(words(tokens[0]))
    } else {
        None
    };
    let consumed_first = format is Some;
    let found_year = if tokens.len() > 0 && !(tokens.len() == 1 && consumed_first) {
        year_scan(tokens.last(), 0, None)
    } else {
        None
    };
    let consumed_last = found_year is Some;
    let year = if consumed_last {
        found_year
    } else {
        fallback
    };
    let start: int = if consumed_first { 1 } else { 0 };
    let end: int = if consumed_last { tokens.len() - 1 } else { tokens.len() as int };
    let (label, catalogue) = if start < end {
        label_and_catalogue_of(join(tokens.subrange(start, end), " "@))
    } else {
        (None, None)
    };
    (year, format, label, catalogue)
}

pub open spec fn opt_str_view(o: Option<&str>) -> Option<Seq<char>> {
    match o {
        Some(s) => Some(s@),
        None => None,
    }
}

/// Parses a comma-separated tail like `"LP, Topic 12TS340, 1965"` into its
/// parts. Only the first and last tokens are read for format and year, so a
/// year-shaped run inside a catalogue number is never taken for the year.
pub fn parse_release_tail(tail: &str, fallback_year: Option<&str>) -> (m: ReleaseMeta)
    ensures
        (opt_view(m.year), opt_view(m.format), opt_view(m.label), opt_view(m.catalogue_number))
            == release_meta_of(tail@, opt_str_view(fallback_year)),
{
    let comma = chars_of(",");
    proof {
        reveal_strlit(",");
    }
    assert(comma@.len() == 1);
    let tokens = drop_empty_parts(trim_parts(&split_on(&chars_of(tail), &comma)));
    let ghost tv = views(tokens@);
    assert(tv == tail_tokens(tail@));
    let format = if tokens.len() > 0 {
        assert(tv[0] == tokens@[0]@);
        find_format(string_of(&tokens[0]).as_str())
    } else {
        None
    };
    let consumed_first = format.is_some();
    let found_year = if tokens.len() > 0 && !(tokens.len() == 1 && consumed_first) {
        assert(tv.last() == tokens@[tokens.len() - 1]@);
        find_year(string_of(&tokens[tokens.len() - 1]).as_str())
    } else {
        None
    };
    let consumed_last = found_year.is_some();
    let year = if consumed_last {
        found_year
    } else {
        match fallback_year {
            Some(y) => Some(String::from_str(y)),
            None => None,
        }
    };
    let start: usize = if consumed_first { 1 } else { 0 };
    let end: usize = if consumed_last { tokens.len() - 1 } else { tokens.len() };
    let (label, catalogue_number) = if start < end {
        let middle = part_range(&tokens, start, end);
        let joined = string_of(&join_parts(&middle, &chars_of(" ")));
        split_label_and_catalogue(joined.as_str())
    } else {
        (None, None)
    };
    ReleaseMeta { year, format, label, catalogue_number }
}

// ============ Artist pages ============

/// The first `h1` at or after `k` inside `article#mainArticle`.
pub open spec fn main_h1_from(doc: Seq<NodeView>, k: int) -> Option<int>
    decreases doc.len() - k,
{
    if k < 0 || k >= doc.len() {
        None
    } else if sel_matches(doc[k], Sel::Tag("h1")) && has_ancestor(doc, k, Sel::Id("article", "mainArticle")) {
        Some(k)
    } else {
        main_h1_from(doc, k + 1)
    }
}

/// The page's own heading: the first `h1` of the main article, else the
/// first `h1` anywhere; the site banner's comes first in the document.
pub open spec fn heading_of(doc: Seq<NodeView>) -> Option<int> {
    match main_h1_from(doc, 0) {
        Some(i) => Some(i),
        None => first_match(doc, 0, doc.len() as int, Sel::Tag("h1")),
    }
}

/// The first `div` at or after `k` directly under `nav#mainNav` that is not
/// the site-wide `#folk` block: the artist's own navigation.
pub open spec fn artist_nav_from(doc: Seq<NodeView>, k: int) -> Option<int>
    decreases doc.len() - k,
{
    if k < 0 || k >= doc.len() {
        None
    } else if sel_matches(doc[k], Sel::Tag("div")) && (parent_index(doc, k) matches Some(p) && 0 <= p
        < doc.len() && sel_matches(doc[p], Sel::Id("nav", "mainNav"))) && attr_of(doc[k], "id"@)
        != Some("folk"@) {
        Some(k)
    } else {
        artist_nav_from(doc, k + 1)
    }
}

/// The first link of `class` in the artist's navigation, resolved: `None`
/// when there is none or it has no `href`.
pub open spec fn nav_path(doc: Seq<NodeView>, nav: Option<int>, s: Sel, base: Seq<char>) -> Option<Seq<char>> {
    match nav {
        Some(d) => match first_match(doc, d + 1, subtree_end(doc, d), s) {
            Some(a) => match attr_of(doc[a], "href"@) {
                Some(h) => Some(resolved_path(h, base)),
                None => None,
            },
            None => None,
        },
        None => None,
    }
}

/// The heading's text up to its first line break: the archive puts an
/// artist's life dates on a second line of the heading, and they are not
/// part of the name.
pub open spec fn first_line_of(doc: Seq<NodeView>, h: int) -> Seq<char> {
    match first_match(doc, h + 1, subtree_end(doc, h), Sel::Tag("br")) {
        Some(b) => text_in(doc, h + 1, b),
        None => inner_text(doc, h),
    }
}

/// What an artist page says: `None` when it has neither an `h1` nor a
/// `title`; otherwise the name (the heading's first line, else the title's
/// text without a site suffix) and the biography, discography and songs
/// paths its navigation links.
pub open spec fn artist_page_of(html: Seq<char>, path: Seq<char>) -> Option<(
    Seq<char>,
    Option<Seq<char>>,
    Option<Seq<char>>,
    Option<Seq<char>>,
)> {
    let doc = parsed_document(html);
    let title = first_match(doc, 0, doc.len() as int, Sel::Tag("title"));
    let nav = artist_nav_from(doc, 0);
    if heading_of(doc) is None && title is None {
        None
    } else {
        let name = match heading_of(doc) {
            Some(h) => squashed(first_line_of(doc, h)),
            None => without_site_suffix(squashed(inner_text(doc, title.unwrap()))),
        };
        Some((
            name,
            nav_path(doc, nav, Sel::Class("a", "biography"), path),
            nav_path(doc, nav, Sel::Class("a", "records"), path),
            nav_path(doc, nav, Sel::Class("a", "songs"), path),
        ))
    }
}

fn main_h1(nodes: &Vec<DomNode>) -> (r: Option<usize>)
    ensures
        match r {
            Some(i) => main_h1_from(doc_view(nodes@), 0) == Some(i as int) && i < nodes.len(),
            None => main_h1_from(doc_view(nodes@), 0) is None,
        },
{
    let ghost doc = doc_view(nodes@);
    let mut k: usize = 0;
    while k < nodes.len()
        invariant
            k <= nodes.len(),
            doc == doc_view(nodes@),
            main_h1_from(doc, 0) == main_h1_from(doc, k as int),
        decreases nodes.len() - k,
    {
        assert(doc[k as int] == nodes@[k as int]@);
        if selects(&nodes[k], &Sel::Tag("h1")) && ancestor_matches(&nodes, k, &Sel::Id("article", "mainArticle")) {
            return Some(k);
        }
        k += 1;
    }
    None
}

fn artist_nav(nodes: &Vec<DomNode>) -> (r: Option<usize>)
    ensures
        match r {
            Some(i) => artist_nav_from(doc_view(nodes@), 0) == Some(i as int) && i < nodes.len(),
            None => artist_nav_from(doc_view(nodes@), 0) is None,
        },
{
    let ghost doc = doc_view(nodes@);
    let mut k: usize = 0;
    while k < nodes.len()
        invariant
            k <= nodes.len(),
            doc == doc_view(nodes@),
            artist_nav_from(doc, 0) == artist_nav_from(doc, k as int),
        decreases nodes.len() - k,
    {
        assert(doc[k as int] == nodes@[k as int]@);
        if selects(&nodes[k], &Sel::Tag("div")) {
            if let Some(p) = parent_of(&nodes, k) {
                assert(doc[p as int] == nodes@[p as int]@);
                let not_folk = match attr(&nodes[k], "id") {
                    Some(id) => !same(&chars_of(id.as_str()), &chars_of("folk")),
                    None => true,
                };
                if selects(&nodes[p], &Sel::Id("nav", "mainNav")) && not_folk {
                    return Some(k);
                }
            }
        }
        k += 1;
    }
    None
}

fn nav_link(nodes: &Vec<DomNode>, nav: Option<usize>, s: &Sel, base: &Vec<char>) -> (r: Option<String>)
    requires
        nav matches Some(d) ==> d < nodes.len(),
    ensures
        opt_view(r) == nav_path(doc_view(nodes@), match nav {
            Some(d) => Some(d as int),
            None => None,
        }, *s, base@),
{
    let ghost doc = doc_view(nodes@);
    match nav {
        Some(d) => {
            let e = end_of(nodes, d);
            match find_match(nodes, d + 1, e, s) {
                Some(a) => {
                    assert(doc[a as int] == nodes@[a as int]@);
                    match attr(&nodes[a], "href") {
                        Some(h) => Some(string_of(&resolve_chars(&chars_of(h.as_str()), base))),
                        None => None,
                    }
                },
                None => None,
            }
        },
        None => None,
    }
}

fn first_line(nodes: &Vec<DomNode>, h: usize) -> (r: Vec<char>)
    requires
        h < nodes.len(),
    ensures
        r@ == first_line_of(doc_view(nodes@), h as int),
{
    let e = end_of(nodes, h);
    match find_match(nodes, h + 1, e, &Sel::Tag("br")) {
        Some(b) => text_between(nodes, h + 1, b),
        None => text_between(nodes, h + 1, e),
    }
}

/// An artist's index page: the name from the main article's heading, and
/// the paths its own navigation entry links. The site-wide `#folk` block's
/// links are the whole archive's, not the artist's, and are passed over.
pub fn parse(html: &str, path: &str) -> (r: Result<Artist, Error>)
    ensures
        match artist_page_of(html@, path@) {
            None => r matches Err(Error::Parse { what, url }) && what@ == "artist"@ && url@ == path@,
            Some((name, bio, disco, songs)) => r matches Ok(a) && a.path@ == path@ && a.name@ == name
                && opt_view(a.biography_path) == bio && opt_view(a.discography_path) == disco
                && opt_view(a.songs_path) == songs && a.source == Source::MainlyNorfolk,
        },
{
    let nodes = parse_html(html);
    let ghost doc = doc_view(nodes@);
    let heading = match main_h1(&nodes) {
        Some(i) => Some(i),
        None => find_match(&nodes, 0, nodes.len(), &Sel::Tag("h1")),
    };
    let title = find_match(&nodes, 0, nodes.len(), &Sel::Tag("title"));
    if heading.is_none() && title.is_none() {
        return Err(Error::Parse { what: "artist", url: String::from_str(path) });
    }
    let name = match heading {
        Some(h) => string_of(&squash_chars(&first_line(&nodes, h))),
        None => {
            let t = title.unwrap();
            let text = string_of(&squash_chars(&text_under(&nodes, t)));
            strip_site_suffix(text.as_str())
        },
    };
    let nav = artist_nav(&nodes);
    let base = chars_of(path);
    let biography_path = nav_link(&nodes, nav, &Sel::Class("a", "biography"), &base);
    let discography_path = nav_link(&nodes, nav, &Sel::Class("a", "records"), &base);
    let songs_path = nav_link(&nodes, nav, &Sel::Class("a", "songs"), &base);
    Ok(Artist {
        path: String::from_str(path),
        name,
        biography_path,
        discography_path,
        songs_path,
        source: Source::MainlyNorfolk,
    })
}

// ============ Discographies ============

/// An album with its text as characters.
#[verifier::ext_equal]
pub struct AlbumView {
    pub path: Seq<char>,
    pub title: Seq<char>,
    pub artist: Option<Seq<char>>,
    pub year: Option<Seq<char>>,
    pub label: Option<Seq<char>>,
    pub catalogue_number: Option<Seq<char>>,
    pub format: Option<Seq<char>>,
    pub cover_url: Option<Seq<char>>,
    pub source: Source,
}

pub open spec fn album_view(a: Album) -> AlbumView {
    AlbumView {
        path: a.path@,
        title: a.title@,
        artist: opt_view(a.artist),
        year: opt_view(a.year),
        label: opt_view(a.label),
        catalogue_number: opt_view(a.catalogue_number),
        format: opt_view(a.format),
        cover_url: opt_view(a.cover_url),
        source: a.source,
    }
}

pub open spec fn albums_view(v: Seq<Album>) -> Seq<AlbumView> {
    v.map_values(|a: Album| album_view(a))
}

/// The children of a node at depth `d` among `[a, b)`, in order.
pub open spec fn children_between(doc: Seq<NodeView>, d: nat, a: int, b: int) -> Seq<int>
    decreases b - a,
{
    if b <= a {
        Seq::empty()
    } else {
        let prev = children_between(doc, d, a, b - 1);
        if 0 <= b - 1 < doc.len() && doc[b - 1].depth == d + 1 {
            prev.push(b - 1)
        } else {
            prev
        }
    }
}

/// The text a child contributes: a text node's text, an element's whole text.
pub open spec fn node_text(doc: Seq<NodeView>, k: int) -> Seq<char> {
    match doc[k].kind {
        KindView::Text(t) => t,
        KindView::Element { .. } => inner_text(doc, k),
        KindView::Other => Seq::empty(),
    }
}

pub open spec fn is_cite(doc: Seq<NodeView>, k: int) -> bool {
    is_named(doc[k], "cite"@)
}

/// The children's text before the first `cite` among them.
pub open spec fn before_first_cite(doc: Seq<NodeView>, cs: Seq<int>) -> Seq<char>
    decreases cs.len(),
{
    if cs.len() == 0 || is_cite(doc, cs[0]) {
        Seq::empty()
    } else {
        node_text(doc, cs[0]) + before_first_cite(doc, cs.drop_first())
    }
}

/// The children's text after the last `cite` among them.
pub open spec fn after_last_cite(doc: Seq<NodeView>, cs: Seq<int>) -> Seq<char>
    decreases cs.len(),
{
    if cs.len() == 0 || is_cite(doc, cs.last()) {
        Seq::empty()
    } else {
        after_last_cite(doc, cs.drop_last()) + node_text(doc, cs.last())
    }
}

pub open spec fn any_cite(doc: Seq<NodeView>, cs: Seq<int>) -> bool {
    exists|m: int| 0 <= m < cs.len() && is_cite(doc, #[trigger] cs[m])
}

/// A `<p>` entry's text before its first `cite` (the credited artist) and
/// after its last (the format, label and year), each squashed; what lies
/// between several cites belongs to neither.
pub open spec fn around_cites(doc: Seq<NodeView>, p: int) -> (Seq<char>, Seq<char>) {
    let cs = children_between(doc, doc[p].depth, p + 1, subtree_end(doc, p));
    (
        squashed(before_first_cite(doc, cs)),
        if any_cite(doc, cs) { squashed(after_last_cite(doc, cs)) } else { Seq::empty() },
    )
}

/// The `cite`s of an entry that link somewhere, as titles and hrefs.
pub open spec fn linked_cites(doc: Seq<NodeView>, cites: Seq<int>) -> Seq<(Seq<char>, Seq<char>)>
    decreases cites.len(),
{
    if cites.len() == 0 {
        Seq::empty()
    } else {
        let prev = linked_cites(doc, cites.drop_last());
        let c = cites.last();
        match first_match(doc, c + 1, subtree_end(doc, c), Sel::Attr("a", "href")) {
            Some(a) => prev.push((squashed(inner_text(doc, c)), attr_of(doc[a], "href"@).unwrap())),
            None => prev,
        }
    }
}

/// The albums a `<p>` entry describes: one per linked `cite`, sharing the
/// entry's artist, metadata tail and cover.
pub open spec fn release_entries_of(doc: Seq<NodeView>, base: Seq<char>, p: int, fallback: Option<Seq<char>>) -> Seq<AlbumView> {
    let e = subtree_end(doc, p);
    let linked = linked_cites(doc, all_matches(doc, p + 1, e, Sel::Tag("cite")));
    let (before, tail) = around_cites(doc, p);
    let artist = present(trim(trim_end_by(before, Strip::Ch(':'))));
    let (year, format, label, catalogue) = release_meta_of(tail, fallback);
    let cover = match first_match(doc, p + 1, e, Sel::Tag("img")) {
        Some(i) => match attr_of(doc[i], "src"@) {
            Some(src) => Some(resolved_path(src, base)),
            None => None,
        },
        None => None,
    };
    linked.map_values(|l: (Seq<char>, Seq<char>)| AlbumView {
        path: resolved_path(l.1, base),
        title: l.0,
        artist: artist,
        year: year,
        label: label,
        catalogue_number: catalogue,
        format: format,
        cover_url: cover,
        source: Source::MainlyNorfolk,
    })
}

/// A year heading: exactly four ASCII digits.
pub open spec fn year_heading(t: Seq<char>) -> bool {
    t.len() == 4 && all_digits(t)
}

/// Walking the `h2` and `p` nodes of `[a, n)` in order: the albums of every
/// `p`, each dated by the last year heading before it where it gives no
/// year itself; and that heading.
pub open spec fn disco_walk(doc: Seq<NodeView>, base: Seq<char>, a: int, n: int) -> (Seq<AlbumView>, Option<Seq<char>>)
    decreases n - a,
{
    if n <= a {
        (Seq::empty(), None)
    } else {
        let (albums, year) = disco_walk(doc, base, a, n - 1);
        let k = n - 1;
        if is_named(doc[k], "h2"@) {
            let t = squashed(inner_text(doc, k));
            (albums, if year_heading(t) { Some(t) } else { year })
        } else if is_named(doc[k], "p"@) {
            (albums + release_entries_of(doc, base, k, year), year)
        } else {
            (albums, year)
        }
    }
}

/// The releases a discography page lists, from its main article.
pub open spec fn discography_of(html: Seq<char>, base: Seq<char>) -> Seq<AlbumView> {
    let doc = parsed_document(html);
    match first_match(doc, 0, doc.len() as int, Sel::Id("article", "mainArticle")) {
        Some(art) => disco_walk(doc, base, art + 1, subtree_end(doc, art)).0,
        None => Seq::empty(),
    }
}

pub(crate) fn children_of(nodes: &Vec<DomNode>, p: usize, e: usize) -> (r: Vec<usize>)
    requires
        p < e <= nodes.len(),
    ensures
        crate::dom::as_ints(r@) == children_between(doc_view(nodes@), nodes@[p as int].depth as nat, p + 1, e as int),
        forall|m: int| 0 <= m < r@.len() ==> p < #[trigger] r@[m] < e,
{
    let ghost doc = doc_view(nodes@);
    let d = nodes[p].depth;
    let mut out: Vec<usize> = Vec::new();
    let mut k = p + 1;
    while k < e
        invariant
            p < k <= e <= nodes.len(),
            doc == doc_view(nodes@),
            d == nodes@[p as int].depth,
            crate::dom::as_ints(out@) == children_between(doc, d as nat, p + 1, k as int),
            forall|m: int| 0 <= m < out@.len() ==> p < #[trigger] out@[m] < k,
        decreases e - k,
    {
        assert(doc[k as int] == nodes@[k as int]@);
        let ghost before = out@;
        if nodes[k].depth > d && nodes[k].depth - 1 == d {
            out.push(k);
            assert(crate::dom::as_ints(out@) =~= crate::dom::as_ints(before).push(k as int));
        }
        k += 1;
    }
    out
}

fn text_of_node(nodes: &Vec<DomNode>, k: usize) -> (r: Vec<char>)
    requires
        k < nodes.len(),
    ensures
        r@ == node_text(doc_view(nodes@), k as int),
{
    let ghost doc = doc_view(nodes@);
    assert(doc[k as int] == nodes@[k as int]@);
    match &nodes[k].kind {
        NodeKind::Text(t) => chars_of(t.as_str()),
        NodeKind::Element { .. } => text_under(nodes, k),
        NodeKind::Other => Vec::new(),
    }
}

proof fn lemma_before_step(doc: Seq<NodeView>, cs: Seq<int>, m: int)
    requires
        0 <= m < cs.len(),
        forall|j: int| 0 <= j < m ==> !is_cite(doc, #[trigger] cs[j]),
    ensures
        !is_cite(doc, cs[m]) ==> before_first_cite(doc, cs.take(m + 1)) == before_first_cite(doc, cs.take(m)) + node_text(doc, cs[m]),
        is_cite(doc, cs[m]) ==> before_first_cite(doc, cs) == before_first_cite(doc, cs.take(m)),
    decreases m,
{
    if m == 0 {
        assert(cs.take(0) =~= Seq::<int>::empty());
        if !is_cite(doc, cs[0]) {
            assert(cs.take(1).drop_first() =~= Seq::<int>::empty());
        }
    } else {
        let t = cs.drop_first();
        assert forall|j: int| 0 <= j < m - 1 implies !is_cite(doc, #[trigger] t[j]) by {
            assert(t[j] == cs[j + 1]);
        }
        assert(!is_cite(doc, cs[0]));
        lemma_before_step(doc, t, m - 1);
        assert(cs.take(m + 1).drop_first() =~= t.take(m));
        assert(cs.take(m).drop_first() =~= t.take(m - 1));
        assert(cs.take(m + 1)[0] == cs[0]);
        assert(cs.take(m)[0] == cs[0]);
        assert(before_first_cite(doc, cs.take(m + 1)) == node_text(doc, cs[0]) + before_first_cite(doc, t.take(m)));
        assert(before_first_cite(doc, cs.take(m)) == node_text(doc, cs[0]) + before_first_cite(doc, t.take(m - 1)));
        assert(t[m - 1] == cs[m]);
    }
}

fn split_around_cites(nodes: &Vec<DomNode>, p: usize) -> (r: (Vec<char>, Vec<char>))
    requires
        p < nodes.len(),
    ensures
        (r.0@, r.1@) == around_cites(doc_view(nodes@), p as int),
{
    let ghost doc = doc_view(nodes@);
    let e = end_of(nodes, p);
    assert(doc[p as int] == nodes@[p as int]@);
    let kids = children_of(nodes, p, e);
    let ghost cs = crate::dom::as_ints(kids@);
    // Text before the first cite.
    let mut before: Vec<char> = Vec::new();
    let mut m: usize = 0;
    let mut stop = false;
    while m < kids.len() && !stop
        invariant
            m <= kids.len(),
            doc == doc_view(nodes@),
            cs == crate::dom::as_ints(kids@),
            forall|q: int| 0 <= q < kids@.len() ==> p < #[trigger] kids@[q] < e,
            e <= nodes.len(),
            forall|j: int| 0 <= j < m ==> !is_cite(doc, #[trigger] cs[j]),
            stop ==> m < kids.len() && is_cite(doc, cs[m as int]),
            before@ == before_first_cite(doc, cs.take(m as int)),
        decreases kids.len() - m + (if stop { 0int } else { 1int }),
    {
        let k = kids[m];
        assert(cs[m as int] == k as int);
        assert(doc[k as int] == nodes@[k as int]@);
        proof {
            lemma_before_step(doc, cs, m as int);
        }
        if is_elem(&nodes[k], "cite") {
            stop = true;
        } else {
            let mut t = text_of_node(nodes, k);
            before.append(&mut t);
            m += 1;
        }
    }
    proof {
        if stop {
            lemma_before_step(doc, cs, m as int);
        } else {
            assert(cs.take(m as int) =~= cs);
        }
    }
    // Text after the last cite, when there is one.
    let mut last: Option<usize> = None;
    let mut q: usize = 0;
    while q < kids.len()
        invariant
            q <= kids.len(),
            doc == doc_view(nodes@),
            cs == crate::dom::as_ints(kids@),
            forall|j: int| 0 <= j < kids@.len() ==> p < #[trigger] kids@[j] < e,
            e <= nodes.len(),
            match last {
                Some(l) => l < q && is_cite(doc, cs[l as int]) && forall|j: int| l < j < q ==> !is_cite(doc, #[trigger] cs[j]),
                None => forall|j: int| 0 <= j < q ==> !is_cite(doc, #[trigger] cs[j]),
            },
        decreases kids.len() - q,
    {
        let k = kids[q];
        assert(cs[q as int] == k as int);
        assert(doc[k as int] == nodes@[k as int]@);
        if is_elem(&nodes[k], "cite") {
            last = Some(q);
        }
        q += 1;
    }
    let mut tail: Vec<char> = Vec::new();
    match last {
        Some(l) => {
            let mut j = l + 1;
            while j < kids.len()
                invariant
                    l < j <= kids.len(),
                    doc == doc_view(nodes@),
                    cs == crate::dom::as_ints(kids@),
                    forall|x: int| 0 <= x < kids@.len() ==> p < #[trigger] kids@[x] < e,
                    e <= nodes.len(),
                    is_cite(doc, cs[l as int]),
                    forall|x: int| l < x < kids@.len() ==> !is_cite(doc, #[trigger] cs[x]),
                    tail@ == after_last_cite(doc, cs.take(j as int)),
                decreases kids.len() - j,
            {
                let k = kids[j];
                assert(cs[j as int] == k as int);
                let mut t = text_of_node(nodes, k);
                tail.append(&mut t);
                assert(cs.take(j + 1).drop_last() =~= cs.take(j as int));
                j += 1;
            }
            proof {
                assert(cs.take(kids.len() as int) =~= cs);
                assert(any_cite(doc, cs)) by {
                    assert(is_cite(doc, cs[l as int]));
                }
            }
        },
        None => {
            assert(!any_cite(doc, cs));
        },
    }
    (squash_chars(&before), squash_chars(&tail))
}

fn copy_opt(o: &Option<String>) -> (r: Option<String>)
    ensures
        r == *o,
{
    match o {
        Some(s) => Some(s.clone()),
        None => None,
    }
}

pub open spec fn pairs_view(v: Seq<(Vec<char>, Vec<char>)>) -> Seq<(Seq<char>, Seq<char>)> {
    v.map_values(|p: (Vec<char>, Vec<char>)| (p.0@, p.1@))
}

fn linked_of(nodes: &Vec<DomNode>, p: usize, e: usize) -> (r: Vec<(Vec<char>, Vec<char>)>)
    requires
        p < e <= nodes.len(),
    ensures
        pairs_view(r@) == linked_cites(doc_view(nodes@), all_matches(doc_view(nodes@), p + 1, e as int, Sel::Tag("cite"))),
{
    let ghost doc = doc_view(nodes@);
    let cites = crate::dom::select_all(nodes, p + 1, e, &Sel::Tag("cite"));
    let ghost cs = crate::dom::as_ints(cites@);
    let mut out: Vec<(Vec<char>, Vec<char>)> = Vec::new();
    let mut m: usize = 0;
    while m < cites.len()
        invariant
            m <= cites.len(),
            doc == doc_view(nodes@),
            cs == crate::dom::as_ints(cites@),
            forall|q: int| 0 <= q < cites@.len() ==> p + 1 <= #[trigger] cites@[q] < e,
            e <= nodes.len(),
            pairs_view(out@) == linked_cites(doc, cs.take(m as int)),
        decreases cites.len() - m,
    {
        let c = cites[m];
        assert(cs[m as int] == c as int);
        assert(cs.take(m + 1).drop_last() =~= cs.take(m as int));
        assert(cs.take(m + 1).last() == c as int);
        let ec = end_of(nodes, c);
        let ghost before = out@;
        match crate::dom::find_match(nodes, c + 1, ec, &Sel::Attr("a", "href")) {
            Some(a) => {
                proof {
                    lemma_first_match(doc, c + 1, ec as int, Sel::Attr("a", "href"));
                }
                assert(doc[a as int] == nodes@[a as int]@);
                let href = attr(&nodes[a], "href").unwrap();
                let title = squash_chars(&text_under(nodes, c));
                out.push((title, chars_of(href.as_str())));
                assert(pairs_view(out@) =~= pairs_view(before).push((title@, href@)));
            },
            None => {},
        }
        m += 1;
    }
    assert(cs.take(cites.len() as int) =~= cs);
    out
}

fn cover_of(nodes: &Vec<DomNode>, p: usize, e: usize, base: &Vec<char>) -> (r: Option<String>)
    requires
        p < e <= nodes.len(),
    ensures
        opt_view(r) == match first_match(doc_view(nodes@), p + 1, e as int, Sel::Tag("img")) {
            Some(i) => match attr_of(doc_view(nodes@)[i], "src"@) {
                Some(src) => Some(resolved_path(src, base@)),
                None => None,
            },
            None => None,
        },
{
    let ghost doc = doc_view(nodes@);
    match crate::dom::find_match(nodes, p + 1, e, &Sel::Tag("img")) {
        Some(i) => {
            assert(doc[i as int] == nodes@[i as int]@);
            match attr(&nodes[i], "src") {
                Some(src) => Some(string_of(&resolve_chars(&chars_of(src.as_str()), base))),
                None => None,
            }
        },
        None => None,
    }
}

/// Every album a `<p>` entry describes: usually one, several when a reissue
/// note cites the albums it drew on. A `cite` with no link contributes none.
pub fn release_entries(nodes: &Vec<DomNode>, base: &Vec<char>, p: usize, fallback_year: Option<&str>) -> (r: Vec<Album>)
    requires
        p < nodes.len(),
    ensures
        albums_view(r@) == release_entries_of(doc_view(nodes@), base@, p as int, opt_str_view(fallback_year)),
{
    let ghost doc = doc_view(nodes@);
    let e = end_of(nodes, p);
    let linked = linked_of(nodes, p, e);
    let (before, tail) = split_around_cites(nodes, p);
    let artist = present_artist(&trim_chars(&trim_end_chars(&before, &Strip::Ch(':'))));
    let meta = parse_release_tail(string_of(&tail).as_str(), fallback_year);
    let cover_url = cover_of(nodes, p, e, base);
    let ghost lv = pairs_view(linked@);
    let mut out: Vec<Album> = Vec::new();
    let mut m: usize = 0;
    while m < linked.len()
        invariant
            m <= linked.len(),
            lv == pairs_view(linked@),
            albums_view(out@) == release_entries_of(doc, base@, p as int, opt_str_view(fallback_year)).take(m as int),
            release_entries_of(doc, base@, p as int, opt_str_view(fallback_year)).len() == lv.len(),
            forall|q: int| 0 <= q < lv.len() ==> #[trigger] release_entries_of(doc, base@, p as int, opt_str_view(fallback_year))[q] == (AlbumView {
                path: resolved_path(lv[q].1, base@),
                title: lv[q].0,
                artist: opt_view(artist),
                year: opt_view(meta.year),
                label: opt_view(meta.label),
                catalogue_number: opt_view(meta.catalogue_number),
                format: opt_view(meta.format),
                cover_url: opt_view(cover_url),
                source: Source::MainlyNorfolk,
            }),
        decreases linked.len() - m,
    {
        let ghost before_out = out@;
        let (title, href) = (&linked[m].0, &linked[m].1);
        assert(lv[m as int] == (title@, href@));
        out.push(Album {
            path: string_of(&resolve_chars(href, base)),
            title: string_of(title),
            artist: copy_opt(&artist),
            year: copy_opt(&meta.year),
            label: copy_opt(&meta.label),
            catalogue_number: copy_opt(&meta.catalogue_number),
            format: copy_opt(&meta.format),
            cover_url: copy_opt(&cover_url),
            source: Source::MainlyNorfolk,
        });
        assert(albums_view(out@) =~= albums_view(before_out).push(album_view(out@[m as int])));
        m += 1;
    }
    assert(release_entries_of(doc, base@, p as int, opt_str_view(fallback_year)).take(linked.len() as int) =~= release_entries_of(doc, base@, p as int, opt_str_view(fallback_year)));
    out
}

fn is_year_heading(t: &Vec<char>) -> (r: bool)
    ensures
        r == year_heading(t@),
{
    t.len() == 4 && crate::text::all_digit_chars(t)
}

/// A discography page's releases: `h2` year headings over `p` entries, in
/// the page's main article. An entry giving no year of its own takes the
/// heading's.
pub fn discography(html: &str, base: &str) -> (r: Vec<Album>)
    ensures
        albums_view(r@) == discography_of(html@, base@),
{
    let nodes = parse_html(html);
    let ghost doc = doc_view(nodes@);
    let b = chars_of(base);
    let art = match crate::dom::find_match(&nodes, 0, nodes.len(), &Sel::Id("article", "mainArticle")) {
        Some(a) => a,
        None => return Vec::new(),
    };
    let e = end_of(&nodes, art);
    let mut albums: Vec<Album> = Vec::new();
    let mut year: Option<String> = None;
    let mut k = art + 1;
    while k < e
        invariant
            art < k <= e <= nodes.len(),
            doc == doc_view(nodes@),
            b@ == base@,
            (albums_view(albums@), opt_view(year)) == disco_walk(doc, base@, art + 1, k as int),
        decreases e - k,
    {
        assert(doc[k as int] == nodes@[k as int]@);
        if is_elem(&nodes[k], "h2") {
            let t = squash_chars(&text_under(&nodes, k));
            if is_year_heading(&t) {
                year = Some(string_of(&t));
            }
        } else if is_elem(&nodes[k], "p") {
            let ghost before = albums@;
            let fallback: Option<&str> = match &year {
                Some(y) => Some(y.as_str()),
                None => None,
            };
            assert(opt_str_view(fallback) == opt_view(year));
            let mut more = release_entries(&nodes, &b, k, fallback);
            let ghost added = more@;
            albums.append(&mut more);
            assert(albums_view(albums@) =~= albums_view(before) + albums_view(added));
        }
        k += 1;
    }
    albums
}

} // verus!

verus! {

// ============ Record search results ============

/// A `ul` of class `plain` holds node `i` in its subtree.
pub open spec fn in_plain_list(doc: Seq<NodeView>, i: int) -> bool {
    exists|j: int|
        0 <= j < i && is_named(doc[j], "ul"@) && has_class(doc[j], "plain"@) && i < #[trigger] subtree_end(doc, j)
}

/// The links with an `href` among nodes `[a, b)`, in order.
pub open spec fn links_between(doc: Seq<NodeView>, a: int, b: int) -> Seq<int>
    decreases b - a,
{
    if b <= a {
        Seq::empty()
    } else {
        let prev = links_between(doc, a, b - 1);
        if is_named(doc[b - 1], "a"@) && attr_of(doc[b - 1], "href"@) is Some {
            prev.push(b - 1)
        } else {
            prev
        }
    }
}

/// The text of the children of a node at depth `d` among `[a, b)` that come
/// before the first element.
pub open spec fn lead_text(doc: Seq<NodeView>, d: nat, a: int, b: int) -> Seq<char>
    decreases b - a,
{
    if b <= a || a < 0 || a >= doc.len() || is_element(doc[a]) {
        Seq::empty()
    } else {
        (if doc[a].depth == d + 1 {
            text_of(doc[a])
        } else {
            Seq::empty()
        }) + lead_text(doc, d, a + 1, b)
    }
}

/// The credited artist an `li` of search results starts with: its text up
/// to its first element, less a trailing `:`, trimmed and squashed.
pub open spec fn credited_artist(doc: Seq<NodeView>, i: int) -> Seq<char> {
    squashed(trim(trim_end_by(lead_text(doc, doc[i].depth, i + 1, subtree_end(doc, i)), Strip::Ch(':'))))
}

/// A search result album as a path and a title.
pub open spec fn linked_album(doc: Seq<NodeView>, base: Seq<char>, k: int) -> (Seq<char>, Seq<char>) {
    (resolved_path(attr_of(doc[k], "href"@).unwrap(), base), squashed(inner_text(doc, k)))
}

/// The groups among the first `n` nodes: each `li` in a plain list that
/// holds a link is one credited artist and the albums it links.
pub open spec fn groups_from(doc: Seq<NodeView>, base: Seq<char>, n: int) -> Seq<(Seq<char>, Seq<(Seq<char>, Seq<char>)>)>
    decreases n,
{
    if n <= 0 {
        Seq::empty()
    } else {
        let prev = groups_from(doc, base, n - 1);
        let i = n - 1;
        let links = links_between(doc, i + 1, subtree_end(doc, i));
        if is_named(doc[i], "li"@) && in_plain_list(doc, i) && links.len() > 0 {
            prev.push((credited_artist(doc, i), links.map_values(|k: int| linked_album(doc, base, k))))
        } else {
            prev
        }
    }
}

pub open spec fn records_search_of(html: Seq<char>, base: Seq<char>) -> Seq<(Seq<char>, Seq<(Seq<char>, Seq<char>)>)> {
    let doc = parsed_document(html);
    groups_from(doc, base, doc.len() as int)
}

/// An album as a search result lists it: a path, a title and the credited
/// artist, nothing more.
pub open spec fn listed_album(a: Album, path: Seq<char>, title: Seq<char>, artist: Seq<char>) -> bool {
    &&& a.path@ == path
    &&& a.title@ == title
    &&& opt_view(a.artist) == present(artist)
    &&& a.year is None && a.label is None && a.catalogue_number is None && a.format is None
    &&& a.cover_url is None
    &&& a.source == Source::MainlyNorfolk
}

/// The groups as found: names, and each group's albums as listed.
pub open spec fn groups_match(r: Seq<(String, Vec<Album>)>, g: Seq<(Seq<char>, Seq<(Seq<char>, Seq<char>)>)>) -> bool {
    &&& r.len() == g.len()
    &&& forall|k: int| 0 <= k < r.len() ==> {
        &&& (#[trigger] r[k]).0@ == g[k].0
        &&& r[k].1@.len() == g[k].1.len()
        &&& forall|m: int| 0 <= m < r[k].1@.len() ==> listed_album(#[trigger] r[k].1@[m], g[k].1[m].0, g[k].1[m].1, g[k].0)
    }
}

fn links_in(nodes: &Vec<DomNode>, a: usize, b: usize) -> (r: Vec<usize>)
    requires
        a <= b <= nodes.len(),
    ensures
        r@.map_values(|k: usize| k as int) == links_between(doc_view(nodes@), a as int, b as int),
        forall|m: int| 0 <= m < r@.len() ==> a <= #[trigger] r@[m] < b,
{
    let ghost doc = doc_view(nodes@);
    let mut out: Vec<usize> = Vec::new();
    let mut k = a;
    while k < b
        invariant
            a <= k <= b <= nodes.len(),
            doc == doc_view(nodes@),
            out@.map_values(|x: usize| x as int) == links_between(doc, a as int, k as int),
            forall|m: int| 0 <= m < out@.len() ==> a <= #[trigger] out@[m] < k,
        decreases b - k,
    {
        assert(doc[k as int] == nodes@[k as int]@);
        let ghost before = out@;
        if is_elem(&nodes[k], "a") && attr(&nodes[k], "href").is_some() {
            out.push(k);
            assert(out@.map_values(|x: usize| x as int) =~= before.map_values(|x: usize| x as int).push(k as int));
        }
        k += 1;
    }
    out
}

fn lead_text_of(nodes: &Vec<DomNode>, i: usize, e: usize) -> (r: Vec<char>)
    requires
        i < e <= nodes.len(),
    ensures
        r@ == lead_text(doc_view(nodes@), nodes@[i as int].depth as nat, i + 1, e as int),
{
    let ghost doc = doc_view(nodes@);
    let d = nodes[i].depth;
    let mut out: Vec<char> = Vec::new();
    let mut k = i + 1;
    while k < e
        invariant
            i < k <= e <= nodes.len(),
            doc == doc_view(nodes@),
            d == nodes@[i as int].depth,
            out@ + lead_text(doc, d as nat, k as int, e as int) == lead_text(doc, d as nat, i + 1, e as int),
        decreases e - k,
    {
        assert(doc[k as int] == nodes@[k as int]@);
        match &nodes[k].kind {
            NodeKind::Element { .. } => {
                assert(lead_text(doc, d as nat, k as int, e as int) =~= Seq::<char>::empty());
                assert(out@ =~= out@ + lead_text(doc, d as nat, k as int, e as int));
                return out;
            },
            NodeKind::Text(t) => {
                if nodes[k].depth > d && nodes[k].depth - 1 == d {
                    let ghost before = out@;
                    let mut more = chars_of(t.as_str());
                    out.append(&mut more);
                    assert(before + lead_text(doc, d as nat, k as int, e as int) =~= out@ + lead_text(doc, d as nat, k + 1, e as int));
                } else {
                    assert(out@ + lead_text(doc, d as nat, k as int, e as int) =~= out@ + lead_text(doc, d as nat, k + 1, e as int));
                }
            },
            NodeKind::Other => {
                assert(out@ + lead_text(doc, d as nat, k as int, e as int) =~= out@ + lead_text(doc, d as nat, k + 1, e as int));
            },
        }
        k += 1;
    }
    assert(out@ =~= out@ + lead_text(doc, d as nat, k as int, e as int));
    out
}

fn present_artist(name: &Vec<char>) -> (r: Option<String>)
    ensures
        opt_view(r) == present(name@),
{
    if name.len() == 0 {
        None
    } else {
        Some(string_of(name))
    }
}

fn group_at(nodes: &Vec<DomNode>, base: &Vec<char>, i: usize, e: usize, links: &Vec<usize>) -> (r: (String, Vec<Album>))
    requires
        i < e <= nodes.len(),
        e == subtree_end(doc_view(nodes@), i as int),
        links@.map_values(|k: usize| k as int) == links_between(doc_view(nodes@), i + 1, e as int),
        forall|m: int| 0 <= m < links@.len() ==> i + 1 <= #[trigger] links@[m] < e,
    ensures
        r.0@ == credited_artist(doc_view(nodes@), i as int),
        r.1@.len() == links@.len(),
        forall|m: int| 0 <= m < r.1@.len() ==> listed_album(#[trigger] r.1@[m], linked_album(doc_view(nodes@), base@, links@[m] as int).0, linked_album(doc_view(nodes@), base@, links@[m] as int).1, r.0@),
{
    let ghost doc = doc_view(nodes@);
    assert(doc[i as int] == nodes@[i as int]@);
    let lead = lead_text_of(nodes, i, e);
    let name = squash_chars(&trim_chars(&trim_end_chars(&lead, &Strip::Ch(':'))));
    let mut albums: Vec<Album> = Vec::new();
    let mut m: usize = 0;
    while m < links.len()
        invariant
            m <= links.len(),
            doc == doc_view(nodes@),
            forall|q: int| 0 <= q < links@.len() ==> i + 1 <= #[trigger] links@[q] < e,
            links@.map_values(|k: usize| k as int) == links_between(doc, i + 1, e as int),
            e <= nodes.len(),
            albums@.len() == m,
            forall|q: int| 0 <= q < m ==> listed_album(#[trigger] albums@[q], linked_album(doc, base@, links@[q] as int).0, linked_album(doc, base@, links@[q] as int).1, name@),
        decreases links.len() - m,
    {
        let k = links[m];
        assert(links@.map_values(|x: usize| x as int)[m as int] == k as int);
        assert(links_between(doc, i + 1, e as int)[m as int] == k as int);
        proof {
            lemma_links_are_links(doc, i + 1, e as int, m as int);
        }
        assert(doc[k as int] == nodes@[k as int]@);
        let href = attr(&nodes[k], "href").unwrap();
        let path = resolve_chars(&chars_of(href.as_str()), base);
        let title = squash_chars(&text_under(nodes, k));
        albums.push(Album {
            path: string_of(&path),
            title: string_of(&title),
            artist: present_artist(&name),
            year: None,
            label: None,
            catalogue_number: None,
            format: None,
            cover_url: None,
            source: Source::MainlyNorfolk,
        });
        m += 1;
    }
    (string_of(&name), albums)
}

proof fn lemma_links_are_links(doc: Seq<NodeView>, a: int, b: int, m: int)
    requires
        0 <= m < links_between(doc, a, b).len(),
    ensures
        is_named(doc[links_between(doc, a, b)[m]], "a"@),
        attr_of(doc[links_between(doc, a, b)[m]], "href"@) is Some,
    decreases b - a,
{
    if b > a {
        let prev = links_between(doc, a, b - 1);
        if m < prev.len() {
            lemma_links_are_links(doc, a, b - 1, m);
        }
    }
}

/// Results of `records/search.php`, grouped as the archive groups them: one
/// credited artist per `li` of a plain list, each of its links an album with
/// nothing but a title, a path and that artist.
pub fn records_search(html: &str, base: &str) -> (r: Vec<(String, Vec<Album>)>)
    ensures
        groups_match(r@, records_search_of(html@, base@)),
{
    let nodes = parse_html(html);
    let b = chars_of(base);
    let ghost doc = doc_view(nodes@);
    let mut out: Vec<(String, Vec<Album>)> = Vec::new();
    let mut plain_end: usize = 0;
    let mut i: usize = 0;
    while i < nodes.len()
        invariant
            i <= nodes.len(),
            doc == doc_view(nodes@),
            b@ == base@,
            plain_end <= nodes.len(),
            forall|j: int| 0 <= j < i && is_named(doc[j], "ul"@) && has_class(doc[j], "plain"@) ==> #[trigger] subtree_end(doc, j) <= plain_end,
            plain_end == 0 || exists|j: int| 0 <= j < i && is_named(doc[j], "ul"@) && has_class(doc[j], "plain"@) && #[trigger] subtree_end(doc, j) == plain_end,
            groups_match(out@, groups_from(doc, base@, i as int)),
        decreases nodes.len() - i,
    {
        assert(doc[i as int] == nodes@[i as int]@);
        let e = end_of(&nodes, i);
        let plain = i < plain_end;
        assert(plain == in_plain_list(doc, i as int)) by {
            if i < plain_end {
                let j = choose|j: int| 0 <= j < i && is_named(doc[j], "ul"@) && has_class(doc[j], "plain"@) && #[trigger] subtree_end(doc, j) == plain_end;
                assert(i < subtree_end(doc, j));
            }
        }
        if is_elem(&nodes[i], "li") && plain {
            let links = links_in(&nodes, i + 1, e);
            if links.len() > 0 {
                let g = group_at(&nodes, &b, i, e, &links);
                let ghost before = out@;
                out.push(g);
                proof {
                    let gs = groups_from(doc, base@, i + 1);
                    let lv = links_between(doc, i + 1, e as int);
                    assert(lv.len() == links@.len());
                    assert forall|m: int| 0 <= m < lv.len() implies #[trigger] lv[m] == links@[m] as int by {
                        assert(links@.map_values(|x: usize| x as int)[m] == links@[m] as int);
                    }
                    assert(gs == groups_from(doc, base@, i as int).push((credited_artist(doc, i as int), lv.map_values(|k: int| linked_album(doc, base@, k)))));
                }
            }
        }
        if is_elem(&nodes[i], "ul") && has_class_attr(&nodes[i], "plain") && e > plain_end {
            plain_end = e;
        }
        i += 1;
    }
    out
}

} // verus!
