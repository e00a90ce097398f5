//! Album page parser.
//!
//! A release page documents one or more releases in the same `<p>` shape a
//! discography uses, so the release is read as a discography entry of its own
//! page: the entry the path's `#fragment` names, or the page's only release.
//! The tracklist is the page's numbered lists.
use vstd::prelude::*;

use crate::client::{resolve_path, resolved_path};
use crate::dom::{
    all_matches, as_ints, attr, attr_of, doc_view, end_of, find_match, first_match, inner_text,
    lemma_first_match, parent_index, parent_of, parse_html, parsed_document, select_all,
    sel_matches, selects, subtree_end, text_under, DomNode, NodeView, Sel,
};
use crate::error::Error;
use crate::models::{Album, Source, Track};
use crate::parse::artist::{album_view, albums_view, discography, discography_of, AlbumView};
use crate::parse::book::opt_view;
use crate::text::{chars_of, contains, contains_chars, same, squash_chars, squashed, string_of};

verus! {

/// A track with its text as characters.
#[verifier::ext_equal]
pub struct TrackView {
    pub position: Option<u32>,
    pub title: Seq<char>,
    pub song_path: Option<Seq<char>>,
    pub duration: Option<Seq<char>>,
}

pub open spec fn track_view(t: Track) -> TrackView {
    TrackView {
        position: t.position,
        title: t.title@,
        song_path: opt_view(t.song_path),
        duration: opt_view(t.duration),
    }
}

pub open spec fn tracks_view(v: Seq<Track>) -> Seq<TrackView> {
    v.map_values(|t: Track| track_view(t))
}

/// The first entry at or after `k` documenting the release at `path`.
pub open spec fn release_from(entries: Seq<AlbumView>, path: Seq<char>, k: int) -> Option<int>
    decreases entries.len() - k,
{
    if k < 0 || k >= entries.len() {
        None
    } else if entries[k].path == path {
        Some(k)
    } else {
        release_from(entries, path, k + 1)
    }
}

/// Which of a page's entries is the release at `path`: the first whose path
/// is `path`, fragment included; failing that, for a path without a
/// fragment, the page's first release.
pub open spec fn chosen_release(entries: Seq<AlbumView>, path: Seq<char>) -> Option<int> {
    match release_from(entries, path, 0) {
        Some(k) => Some(k),
        None => if !contains(path, "#"@) && entries.len() > 0 {
            Some(0)
        } else {
            None
        },
    }
}

/// An item of a tracklist: an `li` whose parent is an `ol`.
pub open spec fn is_track_item(doc: Seq<NodeView>, i: int) -> bool {
    &&& sel_matches(doc[i], Sel::Tag("li"))
    &&& parent_index(doc, i) matches Some(p) && sel_matches(doc[p], Sel::Tag("ol"))
}

/// The track an item gives: its text as the title, and its first link,
/// resolved against `path`, as the song it is.
pub open spec fn track_of(doc: Seq<NodeView>, i: int, path: Seq<char>) -> TrackView {
    TrackView {
        position: None,
        title: squashed(inner_text(doc, i)),
        song_path: match first_match(doc, i + 1, subtree_end(doc, i), Sel::Attr("a", "href")) {
            Some(a) => Some(resolved_path(attr_of(doc[a], "href"@).unwrap(), path)),
            None => None,
        },
        duration: None,
    }
}

pub open spec fn tracks_of(doc: Seq<NodeView>, items: Seq<int>, path: Seq<char>) -> Seq<TrackView>
    decreases items.len(),
{
    if items.len() == 0 {
        Seq::empty()
    } else {
        let prev = tracks_of(doc, items.drop_last(), path);
        if is_track_item(doc, items.last()) {
            prev.push(track_of(doc, items.last(), path))
        } else {
            prev
        }
    }
}

/// The main article's bounds, when the page has one.
pub open spec fn article_of(doc: Seq<NodeView>) -> Option<int> {
    first_match(doc, 0, doc.len() as int, Sel::Id("article", "mainArticle"))
}

/// The tracks of the main article's numbered lists, in order.
pub open spec fn page_tracks(doc: Seq<NodeView>, path: Seq<char>) -> Seq<TrackView> {
    match article_of(doc) {
        Some(m) => tracks_of(doc, all_matches(doc, m + 1, subtree_end(doc, m), Sel::Tag("li")), path),
        None => Seq::empty(),
    }
}

/// The main article's heading.
pub open spec fn article_heading(doc: Seq<NodeView>) -> Option<int> {
    match article_of(doc) {
        Some(m) => first_match(doc, m + 1, subtree_end(doc, m), Sel::Tag("h1")),
        None => None,
    }
}

/// What a release page says of the release at `path`: the chosen entry, or
/// failing one a release named by the main article's heading and nothing
/// more, always with `path` as its path, fragment kept; and the tracklist.
/// `None` for a page with neither, which is no release page.
pub open spec fn album_of(html: Seq<char>, path: Seq<char>) -> Option<(AlbumView, Seq<TrackView>)> {
    let doc = parsed_document(html);
    let entries = discography_of(html, path);
    let tracks = page_tracks(doc, path);
    match chosen_release(entries, path) {
        Some(k) => Some((AlbumView { path: path, ..entries[k] }, tracks)),
        None => match article_heading(doc) {
            Some(h) => Some(
                (
                    AlbumView {
                        path: path,
                        title: squashed(inner_text(doc, h)),
                        artist: None,
                        year: None,
                        label: None,
                        catalogue_number: None,
                        format: None,
                        cover_url: None,
                        source: Source::MainlyNorfolk,
                    },
                    tracks,
                ),
            ),
            None => None,
        },
    }
}

fn release_index(entries: &Vec<Album>, path: &str) -> (r: Option<usize>)
    ensures
        match r {
            Some(k) => chosen_release(albums_view(entries@), path@) == Some(k as int) && k < entries@.len(),
            None => chosen_release(albums_view(entries@), path@) is None,
        },
{
    let ghost ev = albums_view(entries@);
    let want = chars_of(path);
    let mut k: usize = 0;
    while k < entries.len()
        invariant
            k <= entries.len(),
            ev == albums_view(entries@),
            want@ == path@,
            release_from(ev, path@, 0) == release_from(ev, path@, k as int),
        decreases entries.len() - k,
    {
        assert(ev[k as int].path == entries@[k as int].path@);
        if same(&chars_of(entries[k].path.as_str()), &want) {
            return Some(k);
        }
        k += 1;
    }
    if !contains_chars(&want, &chars_of("#")) && entries.len() > 0 {
        Some(0)
    } else {
        None
    }
}

fn track_item(nodes: &Vec<DomNode>, i: usize) -> (r: bool)
    requires
        i < nodes.len(),
    ensures
        r == is_track_item(doc_view(nodes@), i as int),
{
    if !selects(&nodes[i], &Sel::Tag("li")) {
        return false;
    }
    match parent_of(nodes, i) {
        Some(p) => selects(&nodes[p], &Sel::Tag("ol")),
        None => false,
    }
}

fn track(nodes: &Vec<DomNode>, i: usize, path: &str) -> (t: Track)
    requires
        i < nodes.len(),
    ensures
        track_view(t) == track_of(doc_view(nodes@), i as int, path@),
{
    let ghost doc = doc_view(nodes@);
    let e = end_of(nodes, i);
    let song_path = match find_match(nodes, i + 1, e, &Sel::Attr("a", "href")) {
        Some(a) => {
            proof {
                lemma_first_match(doc, i + 1, e as int, Sel::Attr("a", "href"));
            }
            assert(doc[a as int] == nodes@[a as int]@);
            match attr(&nodes[a], "href") {
                Some(h) => Some(resolve_path(h.as_str(), path)),
                None => None,
            }
        },
        None => None,
    };
    let t = Track {
        position: None,
        title: string_of(&squash_chars(&text_under(nodes, i))),
        song_path,
        duration: None,
    };
    assert(track_view(t) =~= track_of(doc, i as int, path@));
    t
}

fn tracks(nodes: &Vec<DomNode>, path: &str) -> (r: Vec<Track>)
    ensures
        tracks_view(r@) == page_tracks(doc_view(nodes@), path@),
{
    let ghost doc = doc_view(nodes@);
    let m = match find_match(nodes, 0, nodes.len(), &Sel::Id("article", "mainArticle")) {
        Some(m) => m,
        None => {
            let r: Vec<Track> = Vec::new();
            assert(tracks_view(r@) =~= Seq::<TrackView>::empty());
            return r;
        },
    };
    let e = end_of(nodes, m);
    let items = select_all(nodes, m + 1, e, &Sel::Tag("li"));
    let ghost iv = as_ints(items@);
    let mut out: Vec<Track> = Vec::new();
    let mut k: usize = 0;
    while k < items.len()
        invariant
            k <= items.len(),
            doc == doc_view(nodes@),
            iv == as_ints(items@),
            e <= nodes.len(),
            forall|q: int| 0 <= q < items@.len() ==> m + 1 <= #[trigger] items@[q] < e,
            tracks_view(out@) == tracks_of(doc, iv.take(k as int), path@),
        decreases items.len() - k,
    {
        let i = items[k];
        assert(iv.take(k + 1).drop_last() =~= iv.take(k as int));
        assert(iv.take(k + 1).last() == i as int);
        if track_item(nodes, i) {
            let t = track(nodes, i, path);
            let ghost before = tracks_view(out@);
            out.push(t);
            assert(tracks_view(out@) =~= before.push(track_view(t)));
        }
        k += 1;
    }
    assert(iv.take(items.len() as int) =~= iv);
    out
}

/// A release page: the release at `path`, fragment kept, and its
/// tracklist. Refused only when the page documents no release and has no
/// heading, which is no release page.
pub fn parse(html: &str, path: &str) -> (r: Result<(Album, Vec<Track>), Error>)
    ensures
        match album_of(html@, path@) {
            None => r matches Err(Error::Parse { what, url }) && what@ == "album"@ && url@ == path@,
            Some((album, ts)) => r matches Ok((a, t)) && album_view(a) == album && tracks_view(t@) == ts,
        },
{
    let mut entries = discography(html, path);
    let nodes = parse_html(html);
    let ghost doc = doc_view(nodes@);
    let ts = tracks(&nodes, path);
    match release_index(&entries, path) {
        Some(k) => {
            let ghost ev = albums_view(entries@);
            let e = entries.remove(k);
            assert(album_view(e) == ev[k as int]);
            let a = Album {
                path: String::from_str(path),
                title: e.title,
                artist: e.artist,
                year: e.year,
                label: e.label,
                catalogue_number: e.catalogue_number,
                format: e.format,
                cover_url: e.cover_url,
                source: e.source,
            };
            assert(album_view(a) =~= AlbumView { path: path@, ..ev[k as int] });
            Ok((a, ts))
        },
        None => {
            let m = match find_match(&nodes, 0, nodes.len(), &Sel::Id("article", "mainArticle")) {
                Some(m) => m,
                None => return Err(Error::Parse { what: "album", url: String::from_str(path) }),
            };
            let e = end_of(&nodes, m);
            let h = match find_match(&nodes, m + 1, e, &Sel::Tag("h1")) {
                Some(h) => h,
                None => return Err(Error::Parse { what: "album", url: String::from_str(path) }),
            };
            let a = Album {
                path: String::from_str(path),
                title: string_of(&squash_chars(&text_under(&nodes, h))),
                artist: None,
                year: None,
                label: None,
                catalogue_number: None,
                format: None,
                cover_url: None,
                source: Source::MainlyNorfolk,
            };
            Ok((a, ts))
        },
    }
}

} // verus!
