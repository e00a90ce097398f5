//! Domain types shared by the parsers and everything built on them.
//!
//! Everything here is what the archive publishes, normalised. Almost every
//! field is optional: a parser that finds nothing returns an empty collection
//! rather than an error.
use vstd::prelude::*;

use crate::text::starts_with;

verus! {

/// Which archive a record came from.
#[derive(Debug, Clone, Copy, PartialEq, Eq, Hash, Structural)]
pub enum Source {
    /// mainlynorfolk.info — Reinhard Zierke's English folk archive.
    MainlyNorfolk,
    /// waterwaysongs.info — canal and inland-waterways songs.
    Waterways,
}

/// The origin of each archive, without a trailing slash.
pub open spec fn base_url_of(s: Source) -> Seq<char> {
    match s {
        Source::MainlyNorfolk => "https://www.mainlynorfolk.info"@,
        Source::Waterways => "https://www.waterwaysongs.info"@,
    }
}

/// `url` is on the host at `origin`: it starts with the origin, and the
/// origin is followed by the end of the url or by `/`, `?` or `#`, so that a
/// longer host that merely begins with the same text is not taken for it.
pub open spec fn on_origin(url: Seq<char>, origin: Seq<char>) -> bool {
    &&& starts_with(url, origin)
    &&& (url.len() == origin.len() || url[origin.len() as int] == '/' || url[origin.len() as int]
        == '?' || url[origin.len() as int] == '#')
}

/// The archive owning `url`: the one whose origin it is on.
pub open spec fn source_of_url(url: Seq<char>) -> Option<Source> {
    if on_origin(url, base_url_of(Source::MainlyNorfolk)) {
        Some(Source::MainlyNorfolk)
    } else if on_origin(url, base_url_of(Source::Waterways)) {
        Some(Source::Waterways)
    } else {
        None
    }
}

/// Each archive recognises its own URLs: an archive's origin followed by a
/// site-absolute path, a query or a fragment (or nothing) belongs to that
/// archive.
pub proof fn law_urls_name_their_archive(s: Source, path: Seq<char>)
    requires
        path.len() == 0 || path[0] == '/' || path[0] == '?' || path[0] == '#',
    ensures
        source_of_url(base_url_of(s) + path) == Some(s),
{
    reveal_strlit("https://www.mainlynorfolk.info");
    reveal_strlit("https://www.waterwaysongs.info");
    let url = base_url_of(s) + path;
    assert(url.take(base_url_of(s).len() as int) =~= base_url_of(s));
    if path.len() > 0 {
        assert(url[base_url_of(s).len() as int] == path[0]);
    }
    if s == Source::Waterways {
        assert(url[12] == 'w');
        assert(!starts_with(url, base_url_of(Source::MainlyNorfolk))) by {
            if starts_with(url, base_url_of(Source::MainlyNorfolk)) {
                assert(url.take(30)[12] == url[12]);
            }
        }
    }
}

/// A host that is not one of the two archives is never taken for one, even
/// when its name begins with an archive's: `www.mainlynorfolk.info.example`
/// belongs to nobody.
pub proof fn law_longer_hosts_are_foreign(s: Source, rest: Seq<char>)
    requires
        rest.len() > 0,
        rest[0] != '/' && rest[0] != '?' && rest[0] != '#',
    ensures
        source_of_url(base_url_of(s) + rest) is None,
{
    reveal_strlit("https://www.mainlynorfolk.info");
    reveal_strlit("https://www.waterwaysongs.info");
    let url = base_url_of(s) + rest;
    assert(url[base_url_of(s).len() as int] == rest[0]);
    let mn = base_url_of(Source::MainlyNorfolk);
    let ww = base_url_of(Source::Waterways);
    if s == Source::MainlyNorfolk {
        assert(url[12] == 'm');
        assert(!starts_with(url, ww)) by {
            if starts_with(url, ww) {
                assert(url.take(30)[12] == url[12]);
            }
        }
    } else {
        assert(url[12] == 'w');
        assert(!starts_with(url, mn)) by {
            if starts_with(url, mn) {
                assert(url.take(30)[12] == url[12]);
            }
        }
    }
}

fn on_origin_chars(v: &Vec<char>, origin: &str) -> (r: bool)
    ensures
        r == on_origin(v@, origin@),
{
    let o = crate::text::chars_of(origin);
    if !crate::text::has_prefix(v, &o) {
        return false;
    }
    if v.len() == o.len() {
        return true;
    }
    let c = v[o.len()];
    c == '/' || c == '?' || c == '#'
}

impl Source {
    /// Origin, without a trailing slash.
    pub fn base_url(self) -> (r: &'static str)
        ensures
            r@ == base_url_of(self),
    {
        match self {
            Source::MainlyNorfolk => "https://www.mainlynorfolk.info",
            Source::Waterways => "https://www.waterwaysongs.info",
        }
    }

    /// The source owning `url`, if it is one of ours.
    pub fn of_url(url: &str) -> (r: Option<Source>)
        ensures
            r == source_of_url(url@),
    {
        let v = crate::text::chars_of(url);
        if on_origin_chars(&v, Source::MainlyNorfolk.base_url()) {
            return Some(Source::MainlyNorfolk);
        }
        if on_origin_chars(&v, Source::Waterways.base_url()) {
            return Some(Source::Waterways);
        }
        None
    }
}

/// A link, as it appeared on the page.
#[derive(Debug, Clone, PartialEq, Eq)]
pub struct Link {
    pub text: String,
    pub url: String,
}

/// The reference numbers a song carries, kept as the archive writes them.
#[derive(Debug, Clone, PartialEq, Eq)]
pub struct SongRefs {
    /// Steve Roud's Folk Song Index, e.g. `"12"`.
    pub roud: Vec<String>,
    /// Francis James Child's number, e.g. `"2"`.
    pub child: Vec<String>,
    /// G. Malcolm Laws' code, e.g. `"P15"`.
    pub laws: Vec<String>,
    /// Greig-Duncan, `"volume:number"`, e.g. `"2:329"`.
    pub greig_duncan: Vec<String>,
    /// Sam Henry's Songs of the People, e.g. `"H163"`.
    pub henry: Vec<String>,
    /// The Ballad Index code, e.g. `"C002"`.
    pub ballad_index: Option<String>,
    /// Vaughan Williams Memorial Library record ids.
    pub vwml: Vec<String>,
    /// The archive's canonical name for a song that circulates under many.
    pub master_title: Option<String>,
}

impl SongRefs {
    /// No reference of any scheme; the master title is naming, not a reference.
    pub open spec fn spec_is_empty(&self) -> bool {
        &&& self.roud@.len() == 0
        &&& self.child@.len() == 0
        &&& self.laws@.len() == 0
        &&& self.greig_duncan@.len() == 0
        &&& self.henry@.len() == 0
        &&& self.ballad_index is None
        &&& self.vwml@.len() == 0
    }

    pub fn new() -> (r: SongRefs)
        ensures
            r.roud@.len() == 0 && r.child@.len() == 0 && r.laws@.len() == 0,
            r.greig_duncan@.len() == 0 && r.henry@.len() == 0 && r.vwml@.len() == 0,
            r.ballad_index is None && r.master_title is None,
    {
        SongRefs {
            roud: Vec::new(),
            child: Vec::new(),
            laws: Vec::new(),
            greig_duncan: Vec::new(),
            henry: Vec::new(),
            ballad_index: None,
            vwml: Vec::new(),
            master_title: None,
        }
    }

    /// Whether any reference at all was found.
    pub fn is_empty(&self) -> (r: bool)
        ensures
            r == self.spec_is_empty(),
    {
        self.roud.len() == 0 && self.child.len() == 0 && self.laws.len() == 0
            && self.greig_duncan.len() == 0 && self.henry.len() == 0
            && self.ballad_index.is_none() && self.vwml.len() == 0
    }
}

impl Default for SongRefs {
    fn default() -> (r: SongRefs)
        ensures
            r.roud@.len() == 0 && r.child@.len() == 0 && r.laws@.len() == 0,
            r.greig_duncan@.len() == 0 && r.henry@.len() == 0 && r.vwml@.len() == 0,
            r.ballad_index is None && r.master_title is None,
    {
        SongRefs::new()
    }
}

/// One artist's claim on a song page, from the breadcrumb.
#[derive(Debug, Clone, PartialEq, Eq)]
pub struct Attribution {
    /// Artist display name.
    pub artist: String,
    /// Path to the artist's index page.
    pub artist_path: String,
    /// What this artist calls the song.
    pub title: String,
}

/// One performer's set of lyrics on a song page.
#[derive(Debug, Clone, PartialEq, Eq)]
pub struct LyricVersion {
    /// Anchor without the `#`.
    pub anchor: String,
    /// Whose version this is, as the heading gives it.
    pub performer: Option<String>,
    /// The lyrics, line breaks preserved.
    pub text: String,
}

/// A quoted note — sleeve notes, a collector's commentary.
#[derive(Debug, Clone, PartialEq, Eq)]
pub struct Note {
    /// Who is being quoted, where the surrounding prose names them.
    pub attribution: Option<String>,
    pub text: String,
}

/// A recording of a song, as cited in a song page's prose.
#[derive(Debug, Clone, PartialEq, Eq)]
pub struct Recording {
    pub performer: Option<String>,
    pub album_title: Option<String>,
    /// Path to the album page, including any `#fragment`.
    pub album_path: Option<String>,
    pub year: Option<String>,
    /// The sentence this was extracted from.
    pub context: String,
}

/// A book cited in a song page's bibliography block.
#[derive(Debug, Clone, PartialEq, Eq)]
pub struct BookRef {
    pub author: Option<String>,
    pub title: String,
    pub path: Option<String>,
}

/// A song or tune page.
#[derive(Debug, Clone)]
pub struct Song {
    /// Site-absolute path; the id.
    pub path: String,
    /// The page's `<h1>`, squashed.
    pub title: String,
    /// `title` split on ` / `.
    pub titles: Vec<String>,
    pub refs: SongRefs,
    pub attributions: Vec<Attribution>,
    pub lyrics: Vec<LyricVersion>,
    pub notes: Vec<Note>,
    pub recordings: Vec<Recording>,
    pub bibliography: Vec<BookRef>,
    pub external_links: Vec<Link>,
    /// True when the reference block says `trad.`.
    pub traditional: bool,
    pub source: Source,
}

/// A song as it appears in one of the generated indexes or a search result.
#[derive(Debug, Clone, PartialEq, Eq)]
pub struct SongSummary {
    pub path: String,
    pub title: String,
    pub titles: Vec<String>,
    pub refs: SongRefs,
    pub source: Source,
}

/// An artist with a section of the archive.
#[derive(Debug, Clone)]
pub struct Artist {
    pub path: String,
    pub name: String,
    pub biography_path: Option<String>,
    pub discography_path: Option<String>,
    pub songs_path: Option<String>,
    pub source: Source,
}

/// One release in a discography.
#[derive(Debug, Clone, PartialEq, Eq)]
pub struct Album {
    /// Path to the album page, `#fragment` included.
    pub path: String,
    pub title: String,
    pub artist: Option<String>,
    pub year: Option<String>,
    pub label: Option<String>,
    pub catalogue_number: Option<String>,
    pub format: Option<String>,
    pub cover_url: Option<String>,
    pub source: Source,
}

/// A track on an album page.
#[derive(Debug, Clone, PartialEq, Eq)]
pub struct Track {
    pub position: Option<u32>,
    pub title: String,
    pub song_path: Option<String>,
    pub duration: Option<String>,
}

/// A book in the archive's bibliography.
#[derive(Debug, Clone, PartialEq, Eq)]
pub struct Book {
    /// The entry's anchor id.
    pub id: String,
    pub path: String,
    pub title: String,
    pub authors: Vec<String>,
    pub publisher: Option<String>,
    pub year: Option<String>,
    pub section: Option<String>,
    pub online_url: Option<String>,
    pub cover_url: Option<String>,
}

/// A record label with a discography page on the archive.
#[derive(Debug, Clone, PartialEq, Eq)]
pub struct Label {
    pub id: String,
    pub path: String,
    pub name: String,
}

/// A canal or inland-waterways song from waterwaysongs.info.
#[derive(Debug, Clone, PartialEq, Eq)]
pub struct WaterwaysSong {
    pub path: String,
    pub title: String,
    pub author: Option<String>,
    pub lyrics: Option<String>,
    pub notes: Vec<String>,
    pub recorded_by: Vec<String>,
    pub audio_url: Option<String>,
}

/// A page with no richer type, as title, text and links.
#[derive(Debug, Clone)]
pub struct Page {
    pub path: String,
    pub title: String,
    pub text: String,
    pub links: Vec<Link>,
    pub source: Source,
}

} // verus!
