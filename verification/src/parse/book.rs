//! The bibliography's text: who wrote a book, who published it, and when.
//!
//! An entry reads `Author, Author and Author: <cite>Title</cite> Publisher,
//! 1898; reprinted 1974`. The marker element is found in the page; what
//! surrounds it is read here.
use vstd::prelude::*;

use crate::client::{is_full_url, resolve_chars, resolved_path};
use crate::dom::{
    all_matches, as_ints, attr, attr_of, doc_view, end_of, find_match, first_match, is_elem,
    lemma_all_matches, lemma_first_match, parent_index, parent_of, parse_html, parsed_document,
    select_all, sel_matches, selects, subtree_end, DomNode, KindView, NodeKind, NodeView, Sel,
};
use crate::models::Book;
use crate::parse::strings_of;
use crate::text::{
    chars_of, drop_empty, drop_empty_parts, ends_with, has_prefix, has_suffix, is_ascii_digit,
    join, join_parts, slice_copy, split, split_each, split_on, split_parts, squash_chars,
    squashed, starts_with, string_of, strs, trim, trim_chars, trim_chars_by, trim_each,
    trim_end_by, trim_end_chars, trim_parts, views, Strip, trim_by,
};

verus! {

/// A full `http://` or `https://` URL, rather than a path on the archive.
pub fn is_absolute(href: &str) -> (r: bool)
    ensures
        r == is_full_url(href@),
{
    let v = chars_of(href);
    let http = chars_of("http://");
    let https = chars_of("https://");
    has_prefix(&v, &http) || has_prefix(&v, &https)
}

/// The authors an author line credits: the `,` or `:` that led into the
/// title trimmed off, then split on commas and on ` and `, each trimmed,
/// blanks dropped.
pub open spec fn authors_of(raw: Seq<char>) -> Seq<Seq<char>> {
    let cleaned = trim(trim_end_by(trim(raw), Strip::Two(',', ':')));
    drop_empty(trim_each(split_each(split(cleaned, ","@), " and "@)))
}

/// Authors as the archive credits them.
pub fn split_authors(raw: &str) -> (r: Vec<String>)
    ensures
        strs(r@) == authors_of(raw@),
{
    let comma = chars_of(",");
    let and = chars_of(" and ");
    proof {
        reveal_strlit(",");
        reveal_strlit(" and ");
    }
    assert(comma@.len() == 1);
    assert(and@.len() == 5);
    let cleaned = trim_chars(&trim_end_chars(&trim_chars(&chars_of(raw)), &Strip::Two(',', ':')));
    let parts = split_parts(&split_on(&cleaned, &comma), &and);
    let kept = drop_empty_parts(trim_parts(&parts));
    let r = strings_of(&kept);
    assert(strs(r@) =~= views(kept@));
    r
}

/// The punctuation and whitespace around a publisher line trimmed, the rest
/// squashed.
pub open spec fn publisher_text_of(text: Seq<char>) -> Seq<char> {
    squashed(trim_by(text, Strip::SpacePunct))
}

/// Trim the `, . ; :` and whitespace a publisher line trails, and squash.
pub fn clean_publisher(text: &str) -> (r: String)
    ensures
        r@ == publisher_text_of(text@),
{
    let t = trim_chars_by(&chars_of(text), &Strip::SpacePunct);
    string_of(&squash_chars(&t))
}

/// Four ASCII digits starting with 18, 19 or 20, at `i`, with no digit
/// directly either side.
pub open spec fn standalone_year_at(s: Seq<char>, i: int) -> bool {
    &&& 0 <= i && i + 4 <= s.len()
    &&& is_ascii_digit(s[i]) && is_ascii_digit(s[i + 1]) && is_ascii_digit(s[i + 2])
        && is_ascii_digit(s[i + 3])
    &&& s[i] == '1' && (s[i + 1] == '8' || s[i + 1] == '9') || s[i] == '2' && s[i + 1] == '0'
    &&& i == 0 || !is_ascii_digit(s[i - 1])
    &&& i + 4 == s.len() || !is_ascii_digit(s[i + 4])
}

/// The last standalone year starting before `n`.
pub open spec fn last_year_before(s: Seq<char>, n: int) -> Option<int>
    decreases n,
{
    if n <= 0 {
        None
    } else if standalone_year_at(s, n - 1) {
        Some(n - 1)
    } else {
        last_year_before(s, n - 1)
    }
}

/// Where the last standalone 18xx/19xx/20xx year in `s` starts.
pub open spec fn last_year_of(s: Seq<char>) -> Option<int> {
    last_year_before(s, s.len() as int)
}

proof fn lemma_last_year_before(s: Seq<char>, n: int)
    requires
        forall|j: int| n <= j < s.len() ==> !standalone_year_at(s, j),
        0 <= n <= s.len(),
    ensures
        last_year_of(s) == last_year_before(s, n),
    decreases s.len() - n,
{
    if n < s.len() {
        lemma_last_year_before(s, n + 1);
    }
}

fn year_at(v: &[char], i: usize) -> (r: bool)
    requires
        i < v.len(),
    ensures
        r == standalone_year_at(v@, i as int),
{
    if v.len() - i < 4 {
        return false;
    }
    let d = |c: char| -> (b: bool)
        ensures
            b == is_ascii_digit(c),
        { '0' <= c && c <= '9' };
    let digits = d(v[i]) && d(v[i + 1]) && d(v[i + 2]) && d(v[i + 3]);
    let prefix = (v[i] == '1' && (v[i + 1] == '8' || v[i + 1] == '9')) || (v[i] == '2' && v[i + 1]
        == '0');
    let before = i == 0 || !d(v[i - 1]);
    let after = i + 4 == v.len() || !d(v[i + 4]);
    digits && prefix && before && after
}

/// The last standalone 18xx/19xx/20xx run in `text`, with the character
/// positions it spans so the caller can cut it back out.
pub fn find_year(text: &str) -> (r: Option<(String, usize, usize)>)
    ensures
        match r {
            Some((y, a, b)) => last_year_of(text@) == Some(a as int) && b == a + 4 && b <= text@.len()
                && y@ == text@.subrange(a as int, b as int),
            None => last_year_of(text@) is None,
        },
{
    let v = chars_of(text);
    let mut n = v.len();
    while n > 0
        invariant
            n <= v.len(),
            v@ == text@,
            forall|j: int| n <= j < v@.len() ==> !standalone_year_at(v@, j),
        decreases n,
    {
        if year_at(&v, n - 1) {
            proof {
                lemma_last_year_before(v@, n as int);
            }
            let a = n - 1;
            return Some((string_of(&slice_copy(&v, a, a + 4)), a, a + 4));
        }
        n -= 1;
    }
    proof {
        lemma_last_year_before(v@, 0);
    }
    None
}

/// `Some(s)` unless `s` is empty.
pub open spec fn present(s: Seq<char>) -> Option<Seq<char>> {
    if s.len() == 0 {
        None
    } else {
        Some(s)
    }
}

/// Publisher and year from the text after a book's title. The year is the
/// last standalone 18xx/19xx/20xx run, since reprints follow the original
/// edition; the publisher is what is left once it is cut out.
pub open spec fn publisher_and_year_of(raw: Seq<char>) -> (Option<Seq<char>>, Option<Seq<char>>) {
    match last_year_of(raw) {
        Some(a) => (
            present(publisher_text_of(raw.take(a) + raw.skip(a + 4))),
            Some(raw.subrange(a, a + 4)),
        ),
        None => (present(publisher_text_of(raw)), None),
    }
}

/// The year of a book is the last four-digit run starting `18`, `19` or
/// `20` that has no digit directly either side, and the publisher is the
/// rest of the line with that run cut out.
pub proof fn law_the_last_standalone_year_is_the_books(t: Seq<char>, i: int)
    requires
        0 <= i && i + 4 <= t.len(),
        is_ascii_digit(t[i + 2]) && is_ascii_digit(t[i + 3]),
        t[i] == '1' && t[i + 1] == '8' || t[i] == '1' && t[i + 1] == '9' || t[i] == '2' && t[i + 1] == '0',
        i == 0 || !is_ascii_digit(t[i - 1]),
        i + 4 == t.len() || !is_ascii_digit(t[i + 4]),
        forall|j: int|
            i < j && j + 4 <= t.len() && (j == 0 || !is_ascii_digit(t[j - 1])) && (j + 4 == t.len()
                || !is_ascii_digit(t[j + 4])) && is_ascii_digit(t[j + 2]) && is_ascii_digit(t[j + 3])
                ==> !((#[trigger] t[j]) == '1' && t[j + 1] == '8' || t[j] == '1' && t[j + 1] == '9' || t[j] == '2'
                && t[j + 1] == '0'),
    ensures
        publisher_and_year_of(t) == (
            present(publisher_text_of(t.take(i) + t.skip(i + 4))),
            Some(t.subrange(i, i + 4)),
        ),
{
    assert forall|j: int| i + 1 <= j < t.len() implies !standalone_year_at(t, j) by {
        if standalone_year_at(t, j) {
            assert(i < j);
        }
    }
    lemma_last_year_before(t, i + 1);
    assert(standalone_year_at(t, i));
    assert(last_year_before(t, i + 1) == Some(i));
}

pub open spec fn opt_view(o: Option<String>) -> Option<Seq<char>> {
    match o {
        Some(s) => Some(s@),
        None => None,
    }
}

fn present_string(s: String) -> (r: Option<String>)
    ensures
        opt_view(r) == present(s@),
{
    if s.unicode_len() == 0 {
        None
    } else {
        Some(s)
    }
}

/// Publisher and year from the text after a book's title.
pub fn split_publisher_and_year(raw: &str) -> (r: (Option<String>, Option<String>))
    ensures
        (opt_view(r.0), opt_view(r.1)) == publisher_and_year_of(raw@),
{
    match find_year(raw) {
        Some((year, start, end)) => {
            let v = chars_of(raw);
            let mut without = slice_copy(&v, 0, start);
            let mut rest = slice_copy(&v, end, v.len());
            without.append(&mut rest);
            assert(without@ =~= raw@.take(start as int) + raw@.skip(end as int));
            let publisher = clean_publisher(string_of(&without).as_str());
            (present_string(publisher), Some(year))
        },
        None => (present_string(clean_publisher(raw)), None),
    }
}

// ============ The bibliography page ============

/// The text nodes among `[a, b)`, each whole, in order.
pub open spec fn pieces_in(doc: Seq<NodeView>, a: int, b: int) -> Seq<Seq<char>>
    decreases b - a,
{
    if b <= a || b - 1 < 0 || b - 1 >= doc.len() {
        Seq::empty()
    } else {
        let prev = pieces_in(doc, a, b - 1);
        match doc[b - 1].kind {
            KindView::Text(t) => prev.push(t),
            _ => prev,
        }
    }
}

/// An element's text pieces joined with spaces: the archive separates a
/// title from its subtitle with a bare `<br>`, so adjacent runs must not run
/// together.
pub open spec fn spaced_text(doc: Seq<NodeView>, k: int) -> Seq<char> {
    join(pieces_in(doc, k + 1, subtree_end(doc, k)), " "@)
}

/// An element's text, spaced and squashed.
pub open spec fn element_text(doc: Seq<NodeView>, k: int) -> Seq<char> {
    squashed(spaced_text(doc, k))
}

/// What a sibling of a title marker contributes to its author or publisher
/// line.
pub open spec fn sibling_text(doc: Seq<NodeView>, j: int) -> Seq<char> {
    match doc[j].kind {
        KindView::Text(t) => t,
        KindView::Element { .. } => spaced_text(doc, j),
        KindView::Other => Seq::empty(),
    }
}

/// The siblings at depth `d` from `j` back to the parent, in document order.
pub open spec fn siblings_before(doc: Seq<NodeView>, d: nat, j: int) -> Seq<int>
    decreases j + 1,
{
    if j < 0 || j >= doc.len() || doc[j].depth < d {
        Seq::empty()
    } else if doc[j].depth == d {
        siblings_before(doc, d, j - 1).push(j)
    } else {
        siblings_before(doc, d, j - 1)
    }
}

/// The siblings at depth `d` from `j` on, up to the end of the parent.
pub open spec fn siblings_after(doc: Seq<NodeView>, d: nat, j: int) -> Seq<int>
    decreases doc.len() - j,
{
    if j < 0 || j >= doc.len() || doc[j].depth < d {
        Seq::empty()
    } else if doc[j].depth == d {
        seq![j] + siblings_after(doc, d, j + 1)
    } else {
        siblings_after(doc, d, j + 1)
    }
}

/// The texts of `sibs` that are not blank, in order.
pub open spec fn sibling_texts(doc: Seq<NodeView>, sibs: Seq<int>) -> Seq<Seq<char>>
    decreases sibs.len(),
{
    if sibs.len() == 0 {
        Seq::empty()
    } else {
        let prev = sibling_texts(doc, sibs.drop_last());
        let t = sibling_text(doc, sibs.last());
        if trim(t).len() > 0 {
            prev.push(t)
        } else {
            prev
        }
    }
}

/// The author line: the marker's earlier siblings' text, squashed.
pub open spec fn text_before(doc: Seq<NodeView>, m: int) -> Seq<char> {
    squashed(join(sibling_texts(doc, siblings_before(doc, doc[m].depth, m - 1)), " "@))
}

/// The publisher line: the marker's later siblings' text, squashed.
pub open spec fn text_after(doc: Seq<NodeView>, m: int) -> Seq<char> {
    squashed(join(sibling_texts(doc, siblings_after(doc, doc[m].depth, m + 1)), " "@))
}

/// A book with its text as characters.
#[verifier::ext_equal]
pub struct BookView {
    pub id: Seq<char>,
    pub path: Seq<char>,
    pub title: Seq<char>,
    pub authors: Seq<Seq<char>>,
    pub publisher: Option<Seq<char>>,
    pub year: Option<Seq<char>>,
    pub section: Option<Seq<char>>,
    pub online_url: Option<Seq<char>>,
    pub cover_url: Option<Seq<char>>,
}

pub open spec fn book_view(b: Book) -> BookView {
    BookView {
        id: b.id@,
        path: b.path@,
        title: b.title@,
        authors: strs(b.authors@),
        publisher: opt_view(b.publisher),
        year: opt_view(b.year),
        section: opt_view(b.section),
        online_url: opt_view(b.online_url),
        cover_url: opt_view(b.cover_url),
    }
}

pub open spec fn books_view(v: Seq<Book>) -> Seq<BookView> {
    v.map_values(|b: Book| book_view(b))
}

/// A title with one trailing `.` removed and trimmed.
pub open spec fn title_text(t: Seq<char>) -> Seq<char> {
    if ends_with(t, "."@) {
        trim(t.drop_last())
    } else {
        t
    }
}

/// The first link of a table whose `href` satisfies `own` (a link onward to
/// the book's own archive page) or else is a full URL.
pub open spec fn first_href(doc: Seq<NodeView>, links: Seq<int>, own: bool) -> Option<Seq<char>>
    decreases links.len(),
{
    if links.len() == 0 {
        None
    } else {
        match attr_of(doc[links[0]], "href"@) {
            Some(h) => if (own && !is_full_url(h) && !starts_with(h, "#"@)) || (!own && is_full_url(h)) {
                Some(h)
            } else {
                first_href(doc, links.drop_first(), own)
            },
            None => first_href(doc, links.drop_first(), own),
        }
    }
}

/// The book a `table.album` entry describes, if it has an id and a title.
pub open spec fn table_book(doc: Seq<NodeView>, base: Seq<char>, t: int, section: Option<Seq<char>>) -> Option<BookView> {
    let e = subtree_end(doc, t);
    let cites = all_matches(doc, t + 1, e, Sel::Tag("cite"));
    let markers = if cites.len() > 0 { cites } else { all_matches(doc, t + 1, e, Sel::Tag("strong")) };
    let links = all_matches(doc, t + 1, e, Sel::Tag("a"));
    match attr_of(doc[t], "id"@) {
        None => None,
        Some(id) => if markers.len() == 0 {
            None
        } else {
            let title = title_text(element_text(doc, markers[0]));
            if title.len() == 0 {
                None
            } else {
                let (publisher, year) = publisher_and_year_of(text_after(doc, markers.last()));
                Some(BookView {
                    id: id,
                    path: match first_href(doc, links, true) {
                        Some(h) => resolved_path(h, base),
                        None => base + "#"@ + id,
                    },
                    title: title,
                    authors: authors_of(text_before(doc, markers[0])),
                    publisher: publisher,
                    year: year,
                    section: section,
                    online_url: first_href(doc, links, false),
                    cover_url: match first_match(doc, t + 1, e, Sel::Tag("img")) {
                        Some(i) => match attr_of(doc[i], "src"@) {
                            Some(src) => Some(resolved_path(src, base)),
                            None => None,
                        },
                        None => None,
                    },
                })
            }
        },
    }
}

/// The books of the tables `ts` of one section, in order.
pub open spec fn tables_books(doc: Seq<NodeView>, base: Seq<char>, ts: Seq<int>, section: Option<Seq<char>>) -> Seq<BookView>
    decreases ts.len(),
{
    if ts.len() == 0 {
        Seq::empty()
    } else {
        let prev = tables_books(doc, base, ts.drop_last(), section);
        match table_book(doc, base, ts.last(), section) {
            Some(b) => prev.push(b),
            None => prev,
        }
    }
}

/// A section's name: its first `strong` directly under a `p.reference`.
pub open spec fn section_title_from(doc: Seq<NodeView>, k: int, e: int) -> Option<int>
    decreases e - k,
{
    if k < 0 || k >= e || k >= doc.len() {
        None
    } else if sel_matches(doc[k], Sel::Tag("strong")) && (parent_index(doc, k) matches Some(p) && 0 <= p
        < doc.len() && sel_matches(doc[p], Sel::Class("p", "reference"))) {
        Some(k)
    } else {
        section_title_from(doc, k + 1, e)
    }
}

/// The books of one section: none for the table of contents, `#intro`.
pub open spec fn section_books(doc: Seq<NodeView>, base: Seq<char>, s: int) -> Seq<BookView> {
    let e = subtree_end(doc, s);
    if attr_of(doc[s], "id"@) == Some("intro"@) {
        Seq::empty()
    } else {
        let name = match section_title_from(doc, s + 1, e) {
            Some(k) => present(element_text(doc, k)),
            None => None,
        };
        tables_books(doc, base, all_matches(doc, s + 1, e, Sel::Class("table", "album")), name)
    }
}

/// The sections among `[a, b)`: each `article` directly under the main article.
pub open spec fn sections_between(doc: Seq<NodeView>, a: int, b: int) -> Seq<int>
    decreases b - a,
{
    if b <= a || b - 1 < 0 || b - 1 >= doc.len() {
        Seq::empty()
    } else {
        let prev = sections_between(doc, a, b - 1);
        if sel_matches(doc[b - 1], Sel::Tag("article")) && (parent_index(doc, b - 1) matches Some(p) && 0
            <= p < doc.len() && sel_matches(doc[p], Sel::Id("article", "mainArticle"))) {
            prev.push(b - 1)
        } else {
            prev
        }
    }
}

pub open spec fn all_books(doc: Seq<NodeView>, base: Seq<char>, ss: Seq<int>) -> Seq<BookView>
    decreases ss.len(),
{
    if ss.len() == 0 {
        Seq::empty()
    } else {
        all_books(doc, base, ss.drop_last()) + section_books(doc, base, ss.last())
    }
}

fn pieces_between(nodes: &Vec<DomNode>, a: usize, b: usize) -> (r: Vec<Vec<char>>)
    requires
        a <= b <= nodes.len(),
    ensures
        views(r@) == pieces_in(doc_view(nodes@), a as int, b as int),
{
    let ghost doc = doc_view(nodes@);
    let mut out: Vec<Vec<char>> = Vec::new();
    let mut k = a;
    while k < b
        invariant
            a <= k <= b <= nodes.len(),
            doc == doc_view(nodes@),
            views(out@) == pieces_in(doc, a as int, k as int),
        decreases b - k,
    {
        assert(doc[k as int] == nodes@[k as int]@);
        let ghost before = views(out@);
        if let NodeKind::Text(t) = &nodes[k].kind {
            out.push(chars_of(t.as_str()));
            assert(views(out@) =~= before.push(t@));
        }
        k += 1;
    }
    out
}

fn spaced_text_of(nodes: &Vec<DomNode>, k: usize) -> (r: Vec<char>)
    requires
        k < nodes.len(),
    ensures
        r@ == spaced_text(doc_view(nodes@), k as int),
{
    let e = end_of(nodes, k);
    let pieces = pieces_between(nodes, k + 1, e);
    join_parts(&pieces, &chars_of(" "))
}

fn element_text_of(nodes: &Vec<DomNode>, k: usize) -> (r: Vec<char>)
    requires
        k < nodes.len(),
    ensures
        r@ == element_text(doc_view(nodes@), k as int),
{
    squash_chars(&spaced_text_of(nodes, k))
}

fn sibling_text_of(nodes: &Vec<DomNode>, j: usize) -> (r: Vec<char>)
    requires
        j < nodes.len(),
    ensures
        r@ == sibling_text(doc_view(nodes@), j as int),
{
    let ghost doc = doc_view(nodes@);
    assert(doc[j as int] == nodes@[j as int]@);
    match &nodes[j].kind {
        NodeKind::Text(t) => chars_of(t.as_str()),
        NodeKind::Element { .. } => spaced_text_of(nodes, j),
        NodeKind::Other => Vec::new(),
    }
}

pub(crate) fn earlier_siblings(nodes: &Vec<DomNode>, m: usize) -> (r: Vec<usize>)
    requires
        m < nodes.len(),
    ensures
        as_ints(r@) == siblings_before(doc_view(nodes@), nodes@[m as int].depth as nat, m - 1),
        forall|q: int| 0 <= q < r@.len() ==> #[trigger] r@[q] < m,
{
    let ghost doc = doc_view(nodes@);
    let d = nodes[m].depth;
    let mut rev: Vec<usize> = Vec::new();
    let mut j = m;
    while j > 0 && nodes[j - 1].depth >= d
        invariant
            j <= m < nodes.len(),
            doc == doc_view(nodes@),
            d == nodes@[m as int].depth,
            siblings_before(doc, d as nat, m - 1) == siblings_before(doc, d as nat, j - 1) + as_ints(rev@).reverse(),
            forall|q: int| 0 <= q < rev@.len() ==> #[trigger] rev@[q] < m,
        decreases j,
    {
        assert(doc[j - 1] == nodes@[j - 1]@);
        let ghost before = rev@;
        if nodes[j - 1].depth == d {
            rev.push(j - 1);
            assert(as_ints(rev@).reverse() =~= seq![(j - 1) as int] + as_ints(before).reverse());
        }
        j -= 1;
    }
    if j > 0 {
        assert(doc[j - 1] == nodes@[j - 1]@);
    }
    let r = crate::text::reversed(rev);
    assert(as_ints(r@) =~= as_ints(rev@).reverse());
    r
}

pub(crate) fn later_siblings(nodes: &Vec<DomNode>, m: usize) -> (r: Vec<usize>)
    requires
        m < nodes.len(),
    ensures
        as_ints(r@) == siblings_after(doc_view(nodes@), nodes@[m as int].depth as nat, m + 1),
        forall|q: int| 0 <= q < r@.len() ==> m < #[trigger] r@[q] < nodes@.len(),
{
    let ghost doc = doc_view(nodes@);
    let d = nodes[m].depth;
    let mut out: Vec<usize> = Vec::new();
    let mut j = m + 1;
    while j < nodes.len() && nodes[j].depth >= d
        invariant
            m < j <= nodes.len(),
            doc == doc_view(nodes@),
            d == nodes@[m as int].depth,
            siblings_after(doc, d as nat, m + 1) == as_ints(out@) + siblings_after(doc, d as nat, j as int),
            forall|q: int| 0 <= q < out@.len() ==> m < #[trigger] out@[q] < j,
        decreases nodes.len() - j,
    {
        assert(doc[j as int] == nodes@[j as int]@);
        let ghost before = out@;
        if nodes[j].depth == d {
            out.push(j);
            assert(as_ints(out@) =~= as_ints(before).push(j as int));
            assert(as_ints(before) + siblings_after(doc, d as nat, j as int) =~= as_ints(out@) + siblings_after(doc, d as nat, j + 1));
        }
        j += 1;
    }
    if j < nodes.len() {
        assert(doc[j as int] == nodes@[j as int]@);
    }
    assert(as_ints(out@) + siblings_after(doc, d as nat, j as int) =~= as_ints(out@));
    out
}

fn line_of(nodes: &Vec<DomNode>, sibs: &Vec<usize>) -> (r: Vec<char>)
    requires
        forall|q: int| 0 <= q < sibs@.len() ==> #[trigger] sibs@[q] < nodes@.len(),
    ensures
        r@ == squashed(join(sibling_texts(doc_view(nodes@), as_ints(sibs@)), " "@)),
{
    let ghost doc = doc_view(nodes@);
    let ghost ss = as_ints(sibs@);
    let mut parts: Vec<Vec<char>> = Vec::new();
    let mut q: usize = 0;
    while q < sibs.len()
        invariant
            q <= sibs.len(),
            doc == doc_view(nodes@),
            ss == as_ints(sibs@),
            forall|x: int| 0 <= x < sibs@.len() ==> #[trigger] sibs@[x] < nodes@.len(),
            views(parts@) == sibling_texts(doc, ss.take(q as int)),
        decreases sibs.len() - q,
    {
        let j = sibs[q];
        assert(ss[q as int] == j as int);
        assert(ss.take(q + 1).drop_last() =~= ss.take(q as int));
        assert(ss.take(q + 1).last() == j as int);
        let t = sibling_text_of(nodes, j);
        let ghost before = views(parts@);
        if trim_chars(&t).len() > 0 {
            parts.push(t);
            assert(views(parts@) =~= before.push(sibling_text(doc, j as int)));
        }
        q += 1;
    }
    assert(ss.take(sibs.len() as int) =~= ss);
    squash_chars(&join_parts(&parts, &chars_of(" ")))
}

fn first_link_href(nodes: &Vec<DomNode>, links: &Vec<usize>, own: bool) -> (r: Option<Vec<char>>)
    requires
        forall|q: int| 0 <= q < links@.len() ==> #[trigger] links@[q] < nodes@.len(),
    ensures
        match r {
            Some(h) => first_href(doc_view(nodes@), as_ints(links@), own) == Some(h@),
            None => first_href(doc_view(nodes@), as_ints(links@), own) is None,
        },
{
    let ghost doc = doc_view(nodes@);
    let ghost ls = as_ints(links@);
    assert(ls.skip(0) =~= ls);
    let mut q: usize = 0;
    while q < links.len()
        invariant
            q <= links.len(),
            doc == doc_view(nodes@),
            ls == as_ints(links@),
            forall|x: int| 0 <= x < links@.len() ==> #[trigger] links@[x] < nodes@.len(),
            first_href(doc, ls, own) == first_href(doc, ls.skip(q as int), own),
        decreases links.len() - q,
    {
        let k = links[q];
        assert(ls.skip(q as int)[0] == k as int);
        assert(ls.skip(q as int).drop_first() =~= ls.skip(q + 1));
        assert(doc[k as int] == nodes@[k as int]@);
        if let Some(h) = attr(&nodes[k], "href") {
            let hv = chars_of(h.as_str());
            let full = is_absolute(h.as_str());
            let fragment = has_prefix(&hv, &chars_of("#"));
            if (own && !full && !fragment) || (!own && full) {
                return Some(hv);
            }
        }
        q += 1;
    }
    assert(ls.skip(q as int) =~= Seq::<int>::empty());
    None
}

fn present_chars(v: Vec<char>) -> (r: Option<String>)
    ensures
        opt_view(r) == present(v@),
{
    if v.len() == 0 {
        None
    } else {
        Some(string_of(&v))
    }
}

fn copy_opt(o: &Option<String>) -> (r: Option<String>)
    ensures
        r == *o,
{
    match o {
        Some(s) => Some(s.clone()),
        None => None,
    }
}

fn title_of(t: Vec<char>) -> (r: Vec<char>)
    ensures
        r@ == title_text(t@),
{
    if has_suffix(&t, &chars_of(".")) {
        proof {
            reveal_strlit(".");
        }
        let n = t.len();
        let cut = slice_copy(&t, 0, n - 1);
        assert(cut@ =~= t@.drop_last());
        trim_chars(&cut)
    } else {
        t
    }
}

fn book_at(nodes: &Vec<DomNode>, base: &Vec<char>, t: usize, section: &Option<String>) -> (r: Option<Book>)
    requires
        t < nodes.len(),
    ensures
        match r {
            Some(b) => table_book(doc_view(nodes@), base@, t as int, opt_view(*section)) == Some(book_view(b)),
            None => table_book(doc_view(nodes@), base@, t as int, opt_view(*section)) is None,
        },
{
    let ghost doc = doc_view(nodes@);
    assert(doc[t as int] == nodes@[t as int]@);
    let e = end_of(nodes, t);
    let id = match attr(&nodes[t], "id") {
        Some(id) => id,
        None => return None,
    };
    let cites = select_all(nodes, t + 1, e, &Sel::Tag("cite"));
    let markers = if cites.len() > 0 { cites } else { select_all(nodes, t + 1, e, &Sel::Tag("strong")) };
    let ghost ms = as_ints(markers@);
    if markers.len() == 0 {
        return None;
    }
    let first = markers[0];
    let last = markers[markers.len() - 1];
    assert(ms[0] == first as int);
    assert(ms.last() == last as int);
    let title = title_of(element_text_of(nodes, first));
    if title.len() == 0 {
        return None;
    }
    let before = line_of(nodes, &earlier_siblings(nodes, first));
    assert(nodes@[first as int]@.depth == nodes@[first as int].depth);
    let after = line_of(nodes, &later_siblings(nodes, last));
    let authors = split_authors(string_of(&before).as_str());
    let (publisher, year) = split_publisher_and_year(string_of(&after).as_str());
    let links = select_all(nodes, t + 1, e, &Sel::Tag("a"));
    let online_url = match first_link_href(nodes, &links, false) {
        Some(h) => Some(string_of(&h)),
        None => None,
    };
    let idv = chars_of(id.as_str());
    let path = match first_link_href(nodes, &links, true) {
        Some(h) => string_of(&resolve_chars(&h, base)),
        None => {
            let mut p = base.clone();
            p.push('#');
            p.extend_from_slice(&idv);
            proof {
                reveal_strlit("#");
            }
            assert(p@ =~= base@ + "#"@ + id@);
            string_of(&p)
        },
    };
    let cover_url = match find_match(nodes, t + 1, e, &Sel::Tag("img")) {
        Some(i) => {
            assert(doc[i as int] == nodes@[i as int]@);
            match attr(&nodes[i], "src") {
                Some(src) => Some(string_of(&resolve_chars(&chars_of(src.as_str()), base))),
                None => None,
            }
        },
        None => None,
    };
    let b = Book {
        id,
        path,
        title: string_of(&title),
        authors,
        publisher,
        year,
        section: copy_opt(section),
        online_url,
        cover_url,
    };
    assert(table_book(doc, base@, t as int, opt_view(*section)) =~= Some(book_view(b)));
    Some(b)
}

fn section_name_of(nodes: &Vec<DomNode>, s: usize, e: usize) -> (r: Option<String>)
    requires
        s < e <= nodes.len(),
    ensures
        opt_view(r) == match section_title_from(doc_view(nodes@), s + 1, e as int) {
            Some(k) => present(element_text(doc_view(nodes@), k)),
            None => None,
        },
{
    let ghost doc = doc_view(nodes@);
    let mut k = s + 1;
    while k < e
        invariant
            s < k <= e <= nodes.len(),
            doc == doc_view(nodes@),
            section_title_from(doc, s + 1, e as int) == section_title_from(doc, k as int, e as int),
        decreases e - k,
    {
        assert(doc[k as int] == nodes@[k as int]@);
        if selects(&nodes[k], &Sel::Tag("strong")) {
            if let Some(p) = parent_of(nodes, k) {
                assert(doc[p as int] == nodes@[p as int]@);
                if selects(&nodes[p], &Sel::Class("p", "reference")) {
                    return present_chars(element_text_of(nodes, k));
                }
            }
        }
        k += 1;
    }
    None
}

fn section_books_of(nodes: &Vec<DomNode>, base: &Vec<char>, s: usize) -> (r: Vec<Book>)
    requires
        s < nodes.len(),
    ensures
        books_view(r@) == section_books(doc_view(nodes@), base@, s as int),
{
    let ghost doc = doc_view(nodes@);
    assert(doc[s as int] == nodes@[s as int]@);
    let e = end_of(nodes, s);
    if let Some(id) = attr(&nodes[s], "id") {
        if crate::text::same(&chars_of(id.as_str()), &chars_of("intro")) {
            return Vec::new();
        }
    }
    let name = section_name_of(nodes, s, e);
    let tables = select_all(nodes, s + 1, e, &Sel::Class("table", "album"));
    let ghost ts = as_ints(tables@);
    let mut out: Vec<Book> = Vec::new();
    let mut q: usize = 0;
    while q < tables.len()
        invariant
            q <= tables.len(),
            doc == doc_view(nodes@),
            ts == as_ints(tables@),
            forall|x: int| 0 <= x < tables@.len() ==> s + 1 <= #[trigger] tables@[x] < e,
            e <= nodes.len(),
            books_view(out@) == tables_books(doc, base@, ts.take(q as int), opt_view(name)),
        decreases tables.len() - q,
    {
        let t = tables[q];
        assert(ts[q as int] == t as int);
        assert(ts.take(q + 1).drop_last() =~= ts.take(q as int));
        assert(ts.take(q + 1).last() == t as int);
        let ghost before = out@;
        if let Some(b) = book_at(nodes, base, t, &name) {
            out.push(b);
            assert(books_view(out@) =~= books_view(before).push(book_view(b)));
        }
        q += 1;
    }
    assert(ts.take(tables.len() as int) =~= ts);
    out
}

fn sections_of(nodes: &Vec<DomNode>) -> (r: Vec<usize>)
    ensures
        as_ints(r@) == sections_between(doc_view(nodes@), 0, nodes@.len() as int),
        forall|q: int| 0 <= q < r@.len() ==> #[trigger] r@[q] < nodes@.len(),
{
    let ghost doc = doc_view(nodes@);
    let mut out: Vec<usize> = Vec::new();
    let mut k: usize = 0;
    while k < nodes.len()
        invariant
            k <= nodes.len(),
            doc == doc_view(nodes@),
            as_ints(out@) == sections_between(doc, 0, k as int),
            forall|q: int| 0 <= q < out@.len() ==> #[trigger] out@[q] < k,
        decreases nodes.len() - k,
    {
        assert(doc[k as int] == nodes@[k as int]@);
        let ghost before = out@;
        if selects(&nodes[k], &Sel::Tag("article")) {
            if let Some(p) = parent_of(nodes, k) {
                assert(doc[p as int] == nodes@[p as int]@);
                if selects(&nodes[p], &Sel::Id("article", "mainArticle")) {
                    out.push(k);
                    assert(as_ints(out@) =~= as_ints(before).push(k as int));
                }
            }
        }
        k += 1;
    }
    out
}

/// The bibliography page: one `article` per section under the main article
/// (the table of contents, `#intro`, skipped), each full of `table.album`
/// entries. An entry titles itself with a `cite`, or a `strong` where it
/// has none; the author line runs before the title, the publisher and year
/// after it. An entry with no id or no title is not carried.
pub fn index(html: &str, base: &str) -> (r: Vec<Book>)
    ensures
        books_view(r@) == books_of(html@, base@),
{
    let nodes = parse_html(html);
    let ghost doc = doc_view(nodes@);
    let b = chars_of(base);
    let sections = sections_of(&nodes);
    let ghost ss = as_ints(sections@);
    let mut out: Vec<Book> = Vec::new();
    let mut q: usize = 0;
    while q < sections.len()
        invariant
            q <= sections.len(),
            doc == doc_view(nodes@),
            b@ == base@,
            ss == as_ints(sections@),
            forall|x: int| 0 <= x < sections@.len() ==> #[trigger] sections@[x] < nodes@.len(),
            books_view(out@) == all_books(doc, base@, ss.take(q as int)),
        decreases sections.len() - q,
    {
        let s = sections[q];
        assert(ss[q as int] == s as int);
        assert(ss.take(q + 1).drop_last() =~= ss.take(q as int));
        assert(ss.take(q + 1).last() == s as int);
        let ghost before = out@;
        let mut more = section_books_of(&nodes, &b, s);
        let ghost added = more@;
        out.append(&mut more);
        assert(books_view(out@) =~= books_view(before) + books_view(added));
        q += 1;
    }
    assert(ss.take(sections.len() as int) =~= ss);
    out
}

proof fn lemma_tables_titled(doc: Seq<NodeView>, base: Seq<char>, ts: Seq<int>, section: Option<Seq<char>>)
    ensures
        forall|i: int| 0 <= i < tables_books(doc, base, ts, section).len() ==> (#[trigger] tables_books(doc, base, ts, section)[i]).title.len() > 0,
    decreases ts.len(),
{
    if ts.len() > 0 {
        lemma_tables_titled(doc, base, ts.drop_last(), section);
        let prev = tables_books(doc, base, ts.drop_last(), section);
        let cur = tables_books(doc, base, ts, section);
        assert forall|i: int| 0 <= i < cur.len() implies (#[trigger] cur[i]).title.len() > 0 by {
            if i < prev.len() {
                assert(cur[i] == prev[i]);
            }
        }
    }
}

/// Every book the bibliography yields has a title; an entry without one is
/// passed over rather than carried empty.
pub proof fn law_every_book_has_a_title(doc: Seq<NodeView>, base: Seq<char>, ss: Seq<int>)
    ensures
        forall|i: int| 0 <= i < all_books(doc, base, ss).len() ==> (#[trigger] all_books(doc, base, ss)[i]).title.len() > 0,
    decreases ss.len(),
{
    if ss.len() > 0 {
        law_every_book_has_a_title(doc, base, ss.drop_last());
        let prev = all_books(doc, base, ss.drop_last());
        let s = ss.last();
        let e = subtree_end(doc, s);
        let name = match section_title_from(doc, s + 1, e) {
            Some(k) => present(element_text(doc, k)),
            None => None,
        };
        lemma_tables_titled(doc, base, all_matches(doc, s + 1, e, Sel::Class("table", "album")), name);
        let more = section_books(doc, base, s);
        let cur = all_books(doc, base, ss);
        assert forall|i: int| 0 <= i < cur.len() implies (#[trigger] cur[i]).title.len() > 0 by {
            if i < prev.len() {
                assert(cur[i] == prev[i]);
            } else {
                assert(cur[i] == more[i - prev.len()]);
            }
        }
    }
}

/// The books the bibliography page lists, section by section.
pub open spec fn books_of(html: Seq<char>, base: Seq<char>) -> Seq<BookView> {
    let doc = parsed_document(html);
    all_books(doc, base, sections_between(doc, 0, doc.len() as int))
}

} // verus!
