//! Any page as title, plain text and links: the escape hatch for pages with
//! no richer type.
use vstd::prelude::*;

use crate::client::{resolve_path, resolved_path};
use crate::dom::{
    all_matches, as_ints, attr, attr_of, doc_view, end_of, find_match, first_match, inner_text,
    lemma_first_match, parse_html, parsed_document, select_all, subtree_end, text_between, text_in,
    text_under, DomNode, NodeView, Sel,
};
use crate::error::Error;
use crate::models::{source_of_url, Link, Page, Source};
use crate::text::{chars_of, contains, contains_chars, has_prefix, squash_chars, squashed, starts_with, string_of};

verus! {

/// The nodes `[lo, hi)` holding a page's main content: inside
/// `article#mainArticle`, else inside `body`, else the whole document.
pub open spec fn main_scope(doc: Seq<NodeView>) -> (int, int) {
    match first_match(doc, 0, doc.len() as int, Sel::Id("article", "mainArticle")) {
        Some(m) => (m + 1, subtree_end(doc, m)),
        None => match first_match(doc, 0, doc.len() as int, Sel::Tag("body")) {
            Some(m) => (m + 1, subtree_end(doc, m)),
            None => (0, doc.len() as int),
        },
    }
}

/// A link that stays on the archives: a full URL on one of them, or a path
/// with no scheme that is more than a bare `#fragment` on the page itself.
pub open spec fn in_archive(href: Seq<char>) -> bool {
    ||| source_of_url(href) is Some
    ||| (href.len() > 0 && !contains(href, ":"@) && !starts_with(href, "#"@))
}

/// The in-archive links among the anchors `ks`, in order: each link's text,
/// squashed, and its target resolved against `path`.
pub open spec fn links_of(doc: Seq<NodeView>, ks: Seq<int>, path: Seq<char>) -> Seq<(Seq<char>, Seq<char>)>
    decreases ks.len(),
{
    if ks.len() == 0 {
        Seq::empty()
    } else {
        let prev = links_of(doc, ks.drop_last(), path);
        let k = ks.last();
        match attr_of(doc[k], "href"@) {
            Some(href) => if in_archive(href) {
                prev.push((squashed(inner_text(doc, k)), resolved_path(href, path)))
            } else {
                prev
            },
            None => prev,
        }
    }
}

/// The page's title: its first `h1` in the main content, else its `title`.
pub open spec fn page_title_of(doc: Seq<NodeView>) -> Option<Seq<char>> {
    let (lo, hi) = main_scope(doc);
    match first_match(doc, lo, hi, Sel::Tag("h1")) {
        Some(h) => Some(squashed(inner_text(doc, h))),
        None => match first_match(doc, 0, doc.len() as int, Sel::Tag("title")) {
            Some(t) => Some(squashed(inner_text(doc, t))),
            None => None,
        },
    }
}

/// What a page reads as: its title, the main content's text squashed, and
/// its in-archive links; `None` for a document with neither an `h1` in its
/// main content nor a `title`, which is no archive page at all.
pub open spec fn page_of(html: Seq<char>, path: Seq<char>) -> Option<(Seq<char>, Seq<char>, Seq<(Seq<char>, Seq<char>)>)> {
    let doc = parsed_document(html);
    let (lo, hi) = main_scope(doc);
    match page_title_of(doc) {
        None => None,
        Some(title) => Some(
            (
                title,
                squashed(text_in(doc, lo, hi)),
                links_of(doc, all_matches(doc, lo, hi, Sel::Attr("a", "href")), path),
            ),
        ),
    }
}

pub open spec fn links_view(v: Seq<Link>) -> Seq<(Seq<char>, Seq<char>)> {
    v.map_values(|l: Link| (l.text@, l.url@))
}

fn scope(nodes: &Vec<DomNode>) -> (r: (usize, usize))
    ensures
        (r.0 as int, r.1 as int) == main_scope(doc_view(nodes@)),
        r.0 <= r.1 <= nodes.len(),
{
    match find_match(nodes, 0, nodes.len(), &Sel::Id("article", "mainArticle")) {
        Some(m) => (m + 1, end_of(nodes, m)),
        None => match find_match(nodes, 0, nodes.len(), &Sel::Tag("body")) {
            Some(m) => (m + 1, end_of(nodes, m)),
            None => (0, nodes.len()),
        },
    }
}

fn in_archive_href(href: &str) -> (r: bool)
    ensures
        r == in_archive(href@),
{
    if Source::of_url(href).is_some() {
        return true;
    }
    let v = chars_of(href);
    v.len() > 0 && !contains_chars(&v, &chars_of(":")) && !has_prefix(&v, &chars_of("#"))
}

fn page_title(nodes: &Vec<DomNode>, lo: usize, hi: usize) -> (r: Option<String>)
    requires
        (lo as int, hi as int) == main_scope(doc_view(nodes@)),
        lo <= hi <= nodes.len(),
    ensures
        match r {
            Some(t) => page_title_of(doc_view(nodes@)) == Some(t@),
            None => page_title_of(doc_view(nodes@)) is None,
        },
{
    match find_match(nodes, lo, hi, &Sel::Tag("h1")) {
        Some(h) => Some(string_of(&squash_chars(&text_under(nodes, h)))),
        None => match find_match(nodes, 0, nodes.len(), &Sel::Tag("title")) {
            Some(t) => Some(string_of(&squash_chars(&text_under(nodes, t)))),
            None => None,
        },
    }
}

/// Any page as title, text and links. Only a document with neither an `h1`
/// in its main content nor a `title` is refused, as no page at all.
pub fn parse(html: &str, path: &str, source: Source) -> (r: Result<Page, Error>)
    ensures
        match page_of(html@, path@) {
            None => r matches Err(Error::Parse { what, url }) && what@ == "page"@ && url@ == path@,
            Some((title, text, links)) => r matches Ok(p) && p.path@ == path@ && p.title@ == title
                && p.text@ == text && links_view(p.links@) == links && p.source == source,
        },
{
    let nodes = parse_html(html);
    let ghost doc = doc_view(nodes@);
    let (lo, hi) = scope(&nodes);
    let title = match page_title(&nodes, lo, hi) {
        Some(t) => t,
        None => return Err(Error::Parse { what: "page", url: String::from_str(path) }),
    };
    let text = string_of(&squash_chars(&text_between(&nodes, lo, hi)));
    let anchors = select_all(&nodes, lo, hi, &Sel::Attr("a", "href"));
    let ghost av = as_ints(anchors@);
    let mut links: Vec<Link> = Vec::new();
    let mut k: usize = 0;
    while k < anchors.len()
        invariant
            k <= anchors.len(),
            doc == doc_view(nodes@),
            av == as_ints(anchors@),
            forall|m: int| 0 <= m < anchors@.len() ==> lo <= #[trigger] anchors@[m] < hi,
            hi <= nodes.len(),
            links_view(links@) == links_of(doc, av.take(k as int), path@),
        decreases anchors.len() - k,
    {
        let a = anchors[k];
        assert(av.take(k + 1).drop_last() =~= av.take(k as int));
        assert(av.take(k + 1).last() == a as int);
        assert(doc[a as int] == nodes@[a as int]@);
        match attr(&nodes[a], "href") {
            Some(href) => {
                if in_archive_href(href.as_str()) {
                    let link = Link {
                        text: string_of(&squash_chars(&text_under(&nodes, a))),
                        url: resolve_path(href.as_str(), path),
                    };
                    let ghost before = links_view(links@);
                    links.push(link);
                    assert(links_view(links@) =~= before.push((link.text@, link.url@)));
                }
            },
            None => {},
        }
        k += 1;
    }
    assert(av.take(anchors.len() as int) =~= av);
    Ok(Page { path: String::from_str(path), title, text, links, source })
}

} // verus!
