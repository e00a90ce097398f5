//! HTML and text → models. Pure functions, no I/O.
//!
//! Absence is not an error: a page missing some block yields an empty
//! collection or `None`. Only a document that is not the kind of page asked
//! for at all is an [`Error::Parse`](crate::error::Error::Parse).
use vstd::prelude::*;

pub mod album;
pub mod artist;
pub mod book;
pub mod index;
pub mod page;
pub mod song;
pub mod waterways;

use crate::error::Error;
use crate::dom::{first_match, parsed_document, subtree_end, Sel};
use crate::models::{Album, Artist, Book, Label, Page, Song, SongSummary, Source, Track, WaterwaysSong};
use crate::text::{
    chars_of, drop_empty, drop_empty_parts, is_ascii_alnum, split, split_on, squash_chars,
    squashed, string_of, views,
};

verus! {

/// Collapse runs of whitespace and trim.
pub fn squash(text: &str) -> (out: String)
    ensures
        out@ == squashed(text@),
{
    crate::text::squash(text)
}

/// A reference value is real when it carries a digit or a letter; the
/// archive writes `Roud -` where it has no number.
pub open spec fn is_real_reference(value: Seq<char>) -> bool {
    exists|i: int| 0 <= i < value.len() && is_ascii_alnum(#[trigger] value[i])
}

/// Whether a reference value is a real one.
pub fn is_reference_value(value: &str) -> (r: bool)
    ensures
        r == is_real_reference(value@),
{
    let v = chars_of(value);
    let mut i: usize = 0;
    while i < v.len()
        invariant
            i <= v.len(),
            v@ == value@,
            forall|j: int| 0 <= j < i ==> !is_ascii_alnum(#[trigger] v@[j]),
        decreases v.len() - i,
    {
        let c = v[i];
        if ('0' <= c && c <= '9') || ('a' <= c && c <= 'z') || ('A' <= c && c <= 'Z') {
            assert(is_ascii_alnum(v@[i as int]));
            return true;
        }
        i += 1;
    }
    false
}

/// Each of `xs`, squashed.
pub open spec fn squash_each(xs: Seq<Seq<char>>) -> Seq<Seq<char>>
    decreases xs.len(),
{
    if xs.len() == 0 {
        xs
    } else {
        squash_each(xs.drop_last()).push(squashed(xs.last()))
    }
}

/// The alternate names in a `/`-joined title line: split on a slash with a
/// space either side, each squashed, empties dropped.
pub open spec fn title_parts(title: Seq<char>) -> Seq<Seq<char>> {
    drop_empty(squash_each(split(title, " / "@)))
}

pub fn squash_parts(xs: &Vec<Vec<char>>) -> (r: Vec<Vec<char>>)
    ensures
        views(r@) == squash_each(views(xs@)),
{
    let mut r: Vec<Vec<char>> = Vec::new();
    let mut i: usize = 0;
    while i < xs.len()
        invariant
            i <= xs.len(),
            views(r@) == squash_each(views(xs@).take(i as int)),
        decreases xs.len() - i,
    {
        let ghost before = r@;
        let s = squash_chars(&xs[i]);
        r.push(s);
        assert(views(xs@).take(i + 1).drop_last() =~= views(xs@).take(i as int));
        assert(views(r@) =~= views(before).push(s@));
        i += 1;
    }
    assert(views(xs@).take(xs.len() as int) =~= views(xs@));
    r
}

/// `String`s holding each of `xs`.
pub fn strings_of(xs: &Vec<Vec<char>>) -> (r: Vec<String>)
    ensures
        r@.len() == xs@.len(),
        forall|k: int| 0 <= k < xs@.len() ==> #[trigger] r@[k]@ == xs@[k]@,
{
    let mut r: Vec<String> = Vec::new();
    let mut i: usize = 0;
    while i < xs.len()
        invariant
            i <= xs.len(),
            r@.len() == i,
            forall|k: int| 0 <= k < i ==> #[trigger] r@[k]@ == xs@[k]@,
        decreases xs.len() - i,
    {
        r.push(string_of(&xs[i]));
        i += 1;
    }
    r
}

/// Split a `/`-joined title line into its alternates.
pub fn split_titles(title: &str) -> (r: Vec<String>)
    ensures
        r@.len() == title_parts(title@).len(),
        forall|k: int| 0 <= k < r@.len() ==> #[trigger] r@[k]@ == title_parts(title@)[k],
{
    let sep = chars_of(" / ");
    proof {
        reveal_strlit(" / ");
    }
    let parts = drop_empty_parts(squash_parts(&split_on(&chars_of(title), &sep)));
    strings_of(&parts)
}

/// A song page: titles, references, lyrics, notes, recordings and
/// bibliography. `path` is the site-absolute path the page came from,
/// against which its relative links resolve.
pub fn song(html: &str, path: &str) -> (r: Result<Song, Error>)
    ensures
        ({
            let doc = parsed_document(html@);
            match first_match(doc, 0, doc.len() as int, Sel::Id("article", "mainArticle")) {
                Some(art) => match first_match(doc, art + 1, subtree_end(doc, art), Sel::Tag("h1")) {
                    Some(h1) => r matches Ok(s) && song::song_parts_ok(s, doc, art, h1, path@),
                    None => r matches Err(Error::Parse { what, url }) && what@ == "song"@ && url@ == path@,
                },
                None => r matches Err(Error::Parse { what, url }) && what@ == "song"@ && url@ == path@,
            }
        }),
{
    song::parse(html, path)
}

/// The archive's bibliography: the books its song pages cite.
pub fn books(html: &str, base: &str) -> (r: Vec<Book>)
    ensures
        book::books_view(r@) == book::books_of(html@, base@),
{
    book::index(html, base)
}

/// An artist's index page.
pub fn artist(html: &str, path: &str) -> (r: Result<Artist, Error>)
    ensures
        match artist::artist_page_of(html@, path@) {
            None => r matches Err(Error::Parse { what, url }) && what@ == "artist"@ && url@ == path@,
            Some((name, bio, disco, songs)) => r matches Ok(a) && a.path@ == path@ && a.name@ == name
                && book::opt_view(a.biography_path) == bio && book::opt_view(a.discography_path) == disco
                && book::opt_view(a.songs_path) == songs && a.source == Source::MainlyNorfolk,
        },
{
    artist::parse(html, path)
}

/// A chronological discography page: year headings over release entries.
pub fn discography(html: &str, base: &str) -> (r: Vec<Album>)
    ensures
        artist::albums_view(r@) == artist::discography_of(html@, base@),
{
    artist::discography(html, base)
}

/// Results of the record search, grouped as the archive groups them: one
/// credited artist, then their matching releases.
pub fn records_search(html: &str, base: &str) -> (r: Vec<(String, Vec<Album>)>)
    ensures
        artist::groups_match(r@, artist::records_search_of(html@, base@)),
{
    artist::records_search(html, base)
}

/// A waterwaysongs.info song page.
pub fn waterways_song(html: &str, path: &str) -> (r: Result<WaterwaysSong, Error>)
    ensures
        ({
            let doc = parsed_document(html@);
            match first_match(doc, 0, doc.len() as int, Sel::Tag("title")) {
                Some(t) => r matches Ok(s) && waterways::waterways_view(s) == waterways::waterways_song_of(
                    doc,
                    t,
                    path@,
                ),
                None => r matches Err(Error::Parse { what, url }) && what@ == "waterways song"@ && url@
                    == path@,
            }
        }),
{
    waterways::song(html, path)
}

/// The waterwaysongs.info song menu: titles and paths only.
pub fn waterways_index(html: &str) -> (r: Vec<WaterwaysSong>)
    ensures
        waterways::paths_and_titles(r@) == waterways::menu_of(html@),
        forall|k: int| 0 <= k < r@.len() ==> waterways::bare(#[trigger] r@[k]),
{
    waterways::index(html)
}

/// A list of songs, from any of the archive's generated song lists: the
/// Child index, the Laws index, the full index and search results share one
/// markup.
pub fn song_list(html: &str, base: &str) -> (r: Vec<SongSummary>)
    ensures
        index::summaries_view(r@) == index::song_list_of(html@, base@),
{
    index::songs(html, base)
}

/// The archive's record-label discographies, from the site navigation.
pub fn labels(html: &str) -> (r: Vec<Label>)
    ensures
        index::labels_view(r@) == index::labels_of(html@),
{
    index::labels(html)
}

/// An album page: the release itself and its tracks.
pub fn album(html: &str, path: &str) -> (r: Result<(Album, Vec<Track>), Error>)
    ensures
        match album::album_of(html@, path@) {
            None => r matches Err(Error::Parse { what, url }) && what@ == "album"@ && url@ == path@,
            Some((al, ts)) => r matches Ok((a, t)) && artist::album_view(a) == al
                && album::tracks_view(t@) == ts,
        },
{
    album::parse(html, path)
}

/// Any archive page, as title, plain text and links.
pub fn page(html: &str, path: &str, source: Source) -> (r: Result<Page, Error>)
    ensures
        match page::page_of(html@, path@) {
            None => r matches Err(Error::Parse { what, url }) && what@ == "page"@ && url@ == path@,
            Some((title, text, links)) => r matches Ok(p) && p.path@ == path@ && p.title@ == title
                && p.text@ == text && page::links_view(p.links@) == links && p.source == source,
        },
{
    page::parse(html, path, source)
}

} // verus!
