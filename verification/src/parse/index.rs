//! Song-list and label parsers.
//!
//! The Child index, the Laws index, the full song index and the `search.php`
//! results are all one markup: `ul.plain > li`, each item a link to the song
//! page followed by a `span.comment` carrying its reference numbers. The
//! record labels come from the site navigation: its links to the label
//! discographies under `/folk/records/`.
use vstd::prelude::*;

use crate::client::{resolve_path, resolved_path};
use crate::dom::{
    all_matches, as_ints, attr, lemma_first_match, attr_of, doc_view, end_of, find_match, first_match, inner_text,
    parent_index, parent_of, parse_html, parsed_document, select_all, sel_matches, selects,
    subtree_end, text_under, DomNode, NodeView, Sel,
};
use crate::models::{Label, SongRefs, SongSummary, Source};
use crate::parse::song::{no_refs, parse_reference_line, reference_line_of, refs_view, RefsView};
use crate::parse::{split_titles, title_parts};
use crate::text::{
    chars_of, contains, contains_chars, ends_with, has_prefix, has_suffix, same, slice_copy,
    squash_chars, squashed, starts_with, string_of, strs,
};

verus! {

/// A song summary with its text as characters.
#[verifier::ext_equal]
pub struct SummaryView {
    pub path: Seq<char>,
    pub title: Seq<char>,
    pub titles: Seq<Seq<char>>,
    pub refs: RefsView,
    pub source: Source,
}

pub open spec fn summary_view(s: SongSummary) -> SummaryView {
    SummaryView {
        path: s.path@,
        title: s.title@,
        titles: strs(s.titles@),
        refs: refs_view(s.refs),
        source: s.source,
    }
}

pub open spec fn summaries_view(v: Seq<SongSummary>) -> Seq<SummaryView> {
    v.map_values(|s: SongSummary| summary_view(s))
}

/// An item of a song list: an `li` whose parent is a `ul.plain`.
pub open spec fn is_list_item(doc: Seq<NodeView>, i: int) -> bool {
    &&& sel_matches(doc[i], Sel::Tag("li"))
    &&& parent_index(doc, i) matches Some(p) && sel_matches(doc[p], Sel::Class("ul", "plain"))
}

/// What the list item at `i` gives: its first link's text as the title
/// (split into alternates on ` / `), the link resolved against `base` as the
/// path, and the reference numbers its `span.comment` reads as; nothing for
/// an item without a link.
pub open spec fn entry_of(doc: Seq<NodeView>, i: int, base: Seq<char>) -> Option<SummaryView> {
    let e = subtree_end(doc, i);
    match first_match(doc, i + 1, e, Sel::Attr("a", "href")) {
        None => None,
        Some(a) => {
            let title = squashed(inner_text(doc, a));
            let refs = match first_match(doc, i + 1, e, Sel::Class("span", "comment")) {
                Some(c) => reference_line_of(inner_text(doc, c)).0,
                None => no_refs(),
            };
            Some(
                SummaryView {
                    path: resolved_path(attr_of(doc[a], "href"@).unwrap(), base),
                    title: title,
                    titles: title_parts(title),
                    refs: refs,
                    source: Source::MainlyNorfolk,
                },
            )
        },
    }
}

/// The entries the items among `items` give, in order.
pub open spec fn entries_of(doc: Seq<NodeView>, items: Seq<int>, base: Seq<char>) -> Seq<SummaryView>
    decreases items.len(),
{
    if items.len() == 0 {
        Seq::empty()
    } else {
        let prev = entries_of(doc, items.drop_last(), base);
        let i = items.last();
        if is_list_item(doc, i) {
            match entry_of(doc, i, base) {
                Some(s) => prev.push(s),
                None => prev,
            }
        } else {
            prev
        }
    }
}

/// The songs a generated song list holds, in document order.
pub open spec fn song_list_of(html: Seq<char>, base: Seq<char>) -> Seq<SummaryView> {
    let doc = parsed_document(html);
    entries_of(doc, all_matches(doc, 0, doc.len() as int, Sel::Tag("li")), base)
}

fn list_item(nodes: &Vec<DomNode>, i: usize) -> (r: bool)
    requires
        i < nodes.len(),
    ensures
        r == is_list_item(doc_view(nodes@), i as int),
{
    if !selects(&nodes[i], &Sel::Tag("li")) {
        return false;
    }
    match parent_of(nodes, i) {
        Some(p) => selects(&nodes[p], &Sel::Class("ul", "plain")),
        None => false,
    }
}

fn entry(nodes: &Vec<DomNode>, i: usize, base: &str) -> (r: Option<SongSummary>)
    requires
        i < nodes.len(),
    ensures
        match r {
            Some(s) => entry_of(doc_view(nodes@), i as int, base@) == Some(summary_view(s)),
            None => entry_of(doc_view(nodes@), i as int, base@) is None,
        },
{
    let ghost doc = doc_view(nodes@);
    let e = end_of(nodes, i);
    let a = match find_match(nodes, i + 1, e, &Sel::Attr("a", "href")) {
        Some(a) => a,
        None => return None,
    };
    assert(doc[a as int] == nodes@[a as int]@);
    proof {
        lemma_first_match(doc, i + 1, e as int, Sel::Attr("a", "href"));
    }
    let href = match attr(&nodes[a], "href") {
        Some(h) => h,
        None => return None,
    };
    let title = string_of(&squash_chars(&text_under(nodes, a)));
    let titles = split_titles(title.as_str());
    assert(strs(titles@) =~= title_parts(title@));
    let refs = match find_match(nodes, i + 1, e, &Sel::Class("span", "comment")) {
        Some(c) => parse_reference_line(string_of(&text_under(nodes, c)).as_str()).0,
        None => {
            let r = SongRefs::new();
            assert(refs_view(r) =~= no_refs());
            r
        },
    };
    let s = SongSummary {
        path: resolve_path(href.as_str(), base),
        title,
        titles,
        refs,
        source: Source::MainlyNorfolk,
    };
    assert(entry_of(doc, i as int, base@) =~= Some(summary_view(s)));
    Some(s)
}

/// The songs a generated song list holds: one per `ul.plain > li` with a
/// link, in document order.
pub fn songs(html: &str, base: &str) -> (r: Vec<SongSummary>)
    ensures
        summaries_view(r@) == song_list_of(html@, base@),
{
    let nodes = parse_html(html);
    let ghost doc = doc_view(nodes@);
    let items = select_all(&nodes, 0, nodes.len(), &Sel::Tag("li"));
    let ghost iv = as_ints(items@);
    let mut out: Vec<SongSummary> = Vec::new();
    let mut k: usize = 0;
    while k < items.len()
        invariant
            k <= items.len(),
            doc == doc_view(nodes@),
            iv == as_ints(items@),
            iv == all_matches(doc, 0, doc.len() as int, Sel::Tag("li")),
            forall|m: int| 0 <= m < items@.len() ==> 0 <= #[trigger] items@[m] < nodes.len(),
            summaries_view(out@) == entries_of(doc, iv.take(k as int), base@),
        decreases items.len() - k,
    {
        let i = items[k];
        assert(iv.take(k + 1).drop_last() =~= iv.take(k as int));
        assert(iv.take(k + 1).last() == i as int);
        if list_item(&nodes, i) {
            match entry(&nodes, i, base) {
                Some(s) => {
                    let ghost before = summaries_view(out@);
                    out.push(s);
                    assert(summaries_view(out@) =~= before.push(summary_view(s)));
                },
                None => {},
            }
        }
        k += 1;
    }
    assert(iv.take(items.len() as int) =~= iv);
    out
}

/// A label with its text as characters.
#[verifier::ext_equal]
pub struct LabelView {
    pub id: Seq<char>,
    pub path: Seq<char>,
    pub name: Seq<char>,
}

pub open spec fn label_view(l: Label) -> LabelView {
    LabelView { id: l.id@, path: l.path@, name: l.name@ }
}

pub open spec fn labels_view(v: Seq<Label>) -> Seq<LabelView> {
    v.map_values(|l: Label| label_view(l))
}

/// Where label discographies live.
pub const RECORDS_DIR: &'static str = "/folk/records/";

/// The label slug of a site-absolute path: `topic` for
/// `/folk/records/topic.html`. None for anything else: another directory, a
/// nested path, or the records index itself.
pub open spec fn label_slug(path: Seq<char>) -> Option<Seq<char>> {
    if starts_with(path, RECORDS_DIR@) && ends_with(path, ".html"@) && path.len() >= RECORDS_DIR@.len()
        + 5 {
        let slug = path.subrange(RECORDS_DIR@.len() as int, path.len() - 5);
        if slug.len() > 0 && !contains(slug, "/"@) && slug != "index"@ {
            Some(slug)
        } else {
            None
        }
    } else {
        None
    }
}

/// The label a navigation link names, if it names one: the link resolved
/// against `/folk/`, the page it names, and its text as the label's name.
pub open spec fn label_at(doc: Seq<NodeView>, k: int) -> Option<LabelView> {
    match attr_of(doc[k], "href"@) {
        Some(href) => {
            let path = resolved_path(href, "/folk/"@);
            match label_slug(path) {
                Some(slug) => Some(LabelView { id: slug, path: path, name: squashed(inner_text(doc, k)) }),
                None => None,
            }
        },
        None => None,
    }
}

pub open spec fn label_listed(v: Seq<LabelView>, path: Seq<char>) -> bool {
    exists|j: int| 0 <= j < v.len() && (#[trigger] v[j]).path == path
}

/// The labels the links among `ks` name, the first link to each page kept.
pub open spec fn labels_from(doc: Seq<NodeView>, ks: Seq<int>) -> Seq<LabelView>
    decreases ks.len(),
{
    if ks.len() == 0 {
        Seq::empty()
    } else {
        let prev = labels_from(doc, ks.drop_last());
        match label_at(doc, ks.last()) {
            Some(l) => if label_listed(prev, l.path) {
                prev
            } else {
                prev.push(l)
            },
            None => prev,
        }
    }
}

/// The labels the site navigation (`nav#mainNav`) links to.
pub open spec fn labels_of(html: Seq<char>) -> Seq<LabelView> {
    let doc = parsed_document(html);
    match first_match(doc, 0, doc.len() as int, Sel::Id("nav", "mainNav")) {
        Some(n) => labels_from(doc, all_matches(doc, n + 1, subtree_end(doc, n), Sel::Attr("a", "href"))),
        None => Seq::empty(),
    }
}

fn slug_of(path: &Vec<char>) -> (r: Option<Vec<char>>)
    ensures
        match r {
            Some(s) => label_slug(path@) == Some(s@),
            None => label_slug(path@) is None,
        },
{
    let dir = chars_of(RECORDS_DIR);
    let html = chars_of(".html");
    proof {
        reveal_strlit(".html");
    }
    proof {
        reveal_strlit("/folk/records/");
    }
    if !(has_prefix(path, &dir) && has_suffix(path, &html) && path.len() >= 14 + 5) {
        return None;
    }
    let slug = slice_copy(path, dir.len(), path.len() - 5);
    if slug.len() > 0 && !contains_chars(&slug, &chars_of("/")) && !same(&slug, &chars_of("index")) {
        Some(slug)
    } else {
        None
    }
}

fn listed(out: &Vec<Label>, p: &Vec<char>) -> (r: bool)
    ensures
        r == label_listed(labels_view(out@), p@),
{
    let ghost lv = labels_view(out@);
    let mut k: usize = 0;
    while k < out.len()
        invariant
            k <= out.len(),
            lv == labels_view(out@),
            forall|j: int| 0 <= j < k ==> (#[trigger] lv[j]).path != p@,
        decreases out.len() - k,
    {
        assert(lv[k as int].path == out@[k as int].path@);
        if same(&chars_of(out[k].path.as_str()), p) {
            return true;
        }
        k += 1;
    }
    false
}

fn label(nodes: &Vec<DomNode>, k: usize) -> (r: Option<Label>)
    requires
        k < nodes.len(),
    ensures
        match r {
            Some(l) => label_at(doc_view(nodes@), k as int) == Some(label_view(l)),
            None => label_at(doc_view(nodes@), k as int) is None,
        },
{
    assert(doc_view(nodes@)[k as int] == nodes@[k as int]@);
    let href = match attr(&nodes[k], "href") {
        Some(h) => h,
        None => return None,
    };
    let path = chars_of(resolve_path(href.as_str(), "/folk/").as_str());
    let slug = match slug_of(&path) {
        Some(s) => s,
        None => return None,
    };
    let l = Label {
        id: string_of(&slug),
        path: string_of(&path),
        name: string_of(&squash_chars(&text_under(nodes, k))),
    };
    Some(l)
}

/// The labels the site navigation links to: every link in `nav#mainNav` to
/// a page directly under `/folk/records/`, the first link to each page
/// kept, its slug as the id and its text as the name.
pub fn labels(html: &str) -> (r: Vec<Label>)
    ensures
        labels_view(r@) == labels_of(html@),
{
    let nodes = parse_html(html);
    let ghost doc = doc_view(nodes@);
    let n = match find_match(&nodes, 0, nodes.len(), &Sel::Id("nav", "mainNav")) {
        Some(n) => n,
        None => {
            let r: Vec<Label> = Vec::new();
            assert(labels_view(r@) =~= Seq::<LabelView>::empty());
            return r;
        },
    };
    let e = end_of(&nodes, n);
    let anchors = select_all(&nodes, n + 1, e, &Sel::Attr("a", "href"));
    let ghost av = as_ints(anchors@);
    let mut out: Vec<Label> = Vec::new();
    let mut k: usize = 0;
    while k < anchors.len()
        invariant
            k <= anchors.len(),
            doc == doc_view(nodes@),
            av == as_ints(anchors@),
            e <= nodes.len(),
            forall|q: int| 0 <= q < anchors@.len() ==> n + 1 <= #[trigger] anchors@[q] < e,
            labels_view(out@) == labels_from(doc, av.take(k as int)),
        decreases anchors.len() - k,
    {
        let a = anchors[k];
        assert(av.take(k + 1).drop_last() =~= av.take(k as int));
        assert(av.take(k + 1).last() == a as int);
        match label(&nodes, a) {
            Some(l) => {
                let p = chars_of(l.path.as_str());
                if !listed(&out, &p) {
                    let ghost before = labels_view(out@);
                    out.push(l);
                    assert(labels_view(out@) =~= before.push(label_view(l)));
                }
            },
            None => {},
        }
        k += 1;
    }
    assert(av.take(anchors.len() as int) =~= av);
    out
}

} // verus!
