//! The schema's types: the domain models as the graph exposes them.
//!
//! Plain data travels as plain structs; songs, albums, artists and the like
//! wrap their model, because what makes them interesting is an edge, and an
//! edge is a page fetch that the program around this library performs.
use vstd::prelude::*;

use crate::archive::RefKey;
use crate::models::{
    Album, Artist, Attribution, Book, BookRef, Label, Link, LyricVersion, Note, Page, Recording, Song,
    SongRefs, SongSummary, Source, Track, WaterwaysSong,
};
use crate::mcp::graphql::loaders::SongSearch;
use crate::text::{chars_of, decimal, decimal_string, reversed, same};

verus! {

/// A reference scheme the archive's own search indexes.
#[derive(Debug, Clone, Copy, PartialEq, Eq, Hash, Structural)]
pub enum RefScheme {
    Roud,
    Child,
    Laws,
    GreigDuncan,
    Henry,
}

pub open spec fn key_of_scheme(s: RefScheme) -> RefKey {
    match s {
        RefScheme::Roud => RefKey::Roud,
        RefScheme::Child => RefKey::Child,
        RefScheme::Laws => RefKey::Laws,
        RefScheme::GreigDuncan => RefKey::GreigDuncan,
        RefScheme::Henry => RefKey::Henry,
    }
}

impl From<RefScheme> for RefKey {
    fn from(s: RefScheme) -> (k: RefKey) {
        match s {
            RefScheme::Roud => RefKey::Roud,
            RefScheme::Child => RefKey::Child,
            RefScheme::Laws => RefKey::Laws,
            RefScheme::GreigDuncan => RefKey::GreigDuncan,
            RefScheme::Henry => RefKey::Henry,
        }
    }
}

impl vstd::std_specs::convert::FromSpecImpl<RefScheme> for RefKey {
    open spec fn obeys_from_spec() -> bool {
        true
    }

    open spec fn from_spec(s: RefScheme) -> RefKey {
        key_of_scheme(s)
    }
}

/// Which archive a record came from.
#[derive(Debug, Clone, Copy, PartialEq, Eq, Structural)]
pub enum GqlSource {
    /// mainlynorfolk.info.
    MainlyNorfolk,
    /// waterwaysongs.info.
    Waterways,
}

pub open spec fn gql_source_of(s: Source) -> GqlSource {
    match s {
        Source::MainlyNorfolk => GqlSource::MainlyNorfolk,
        Source::Waterways => GqlSource::Waterways,
    }
}

pub open spec fn source_of_gql(s: GqlSource) -> Source {
    match s {
        GqlSource::MainlyNorfolk => Source::MainlyNorfolk,
        GqlSource::Waterways => Source::Waterways,
    }
}

/// Converting a source into the schema's enum and back gives the source
/// again, and the other way round.
pub proof fn law_sources_round_trip(s: Source, g: GqlSource)
    ensures
        source_of_gql(gql_source_of(s)) == s,
        gql_source_of(source_of_gql(g)) == g,
{
}

impl From<Source> for GqlSource {
    fn from(s: Source) -> (g: GqlSource) {
        match s {
            Source::MainlyNorfolk => GqlSource::MainlyNorfolk,
            Source::Waterways => GqlSource::Waterways,
        }
    }
}

impl vstd::std_specs::convert::FromSpecImpl<Source> for GqlSource {
    open spec fn obeys_from_spec() -> bool {
        true
    }

    open spec fn from_spec(s: Source) -> GqlSource {
        gql_source_of(s)
    }
}

impl From<GqlSource> for Source {
    fn from(s: GqlSource) -> (r: Source) {
        match s {
            GqlSource::MainlyNorfolk => Source::MainlyNorfolk,
            GqlSource::Waterways => Source::Waterways,
        }
    }
}

impl vstd::std_specs::convert::FromSpecImpl<GqlSource> for Source {
    open spec fn obeys_from_spec() -> bool {
        true
    }

    open spec fn from_spec(s: GqlSource) -> Source {
        source_of_gql(s)
    }
}

/// A link to somewhere off-archive, as it appeared on the page.
pub struct GqlLink {
    pub text: String,
    pub url: String,
}

impl From<Link> for GqlLink {
    fn from(l: Link) -> (g: GqlLink) {
        GqlLink { text: l.text, url: l.url }
    }
}

impl vstd::std_specs::convert::FromSpecImpl<Link> for GqlLink {
    open spec fn obeys_from_spec() -> bool {
        true
    }

    open spec fn from_spec(l: Link) -> GqlLink {
        GqlLink { text: l.text, url: l.url }
    }
}

/// The reference numbers a song carries, as the archive writes them.
pub struct GqlSongRefs {
    pub roud: Vec<String>,
    pub child: Vec<String>,
    pub laws: Vec<String>,
    pub greig_duncan: Vec<String>,
    pub henry: Vec<String>,
    pub ballad_index: Option<String>,
    pub vwml: Vec<String>,
    pub master_title: Option<String>,
}

impl From<SongRefs> for GqlSongRefs {
    fn from(r: SongRefs) -> (g: GqlSongRefs) {
        GqlSongRefs {
            roud: r.roud,
            child: r.child,
            laws: r.laws,
            greig_duncan: r.greig_duncan,
            henry: r.henry,
            ballad_index: r.ballad_index,
            vwml: r.vwml,
            master_title: r.master_title,
        }
    }
}

impl vstd::std_specs::convert::FromSpecImpl<SongRefs> for GqlSongRefs {
    open spec fn obeys_from_spec() -> bool {
        true
    }

    open spec fn from_spec(r: SongRefs) -> GqlSongRefs {
        GqlSongRefs {
            roud: r.roud,
            child: r.child,
            laws: r.laws,
            greig_duncan: r.greig_duncan,
            henry: r.henry,
            ballad_index: r.ballad_index,
            vwml: r.vwml,
            master_title: r.master_title,
        }
    }
}

/// One performer's set of lyrics.
pub struct GqlLyricVersion {
    pub anchor: String,
    pub performer: Option<String>,
    pub text: String,
}

impl From<LyricVersion> for GqlLyricVersion {
    fn from(l: LyricVersion) -> (g: GqlLyricVersion) {
        GqlLyricVersion { anchor: l.anchor, performer: l.performer, text: l.text }
    }
}

impl vstd::std_specs::convert::FromSpecImpl<LyricVersion> for GqlLyricVersion {
    open spec fn obeys_from_spec() -> bool {
        true
    }

    open spec fn from_spec(l: LyricVersion) -> GqlLyricVersion {
        GqlLyricVersion { anchor: l.anchor, performer: l.performer, text: l.text }
    }
}

/// A quoted note, its attribution kept apart from the text.
pub struct GqlNote {
    pub attribution: Option<String>,
    pub text: String,
}

impl From<Note> for GqlNote {
    fn from(n: Note) -> (g: GqlNote) {
        GqlNote { attribution: n.attribution, text: n.text }
    }
}

impl vstd::std_specs::convert::FromSpecImpl<Note> for GqlNote {
    open spec fn obeys_from_spec() -> bool {
        true
    }

    open spec fn from_spec(n: Note) -> GqlNote {
        GqlNote { attribution: n.attribution, text: n.text }
    }
}

/// A book cited in a song page's bibliography.
pub struct GqlBookRef {
    pub author: Option<String>,
    pub title: String,
    pub path: Option<String>,
}

impl From<BookRef> for GqlBookRef {
    fn from(b: BookRef) -> (g: GqlBookRef) {
        GqlBookRef { author: b.author, title: b.title, path: b.path }
    }
}

impl vstd::std_specs::convert::FromSpecImpl<BookRef> for GqlBookRef {
    open spec fn obeys_from_spec() -> bool {
        true
    }

    open spec fn from_spec(b: BookRef) -> GqlBookRef {
        GqlBookRef { author: b.author, title: b.title, path: b.path }
    }
}

/// The position of the bibliography entry a citation names: the first book
/// whose path is the citation's. None for a citation with no path, or one the
/// bibliography does not hold.
pub fn cited_book(books: &Vec<Book>, citation: &BookRef) -> (r: Option<usize>)
    ensures
        match r {
            Some(i) => citation.path matches Some(p) && i < books@.len() && books@[i as int].path@ == p@
                && forall|j: int| 0 <= j < i ==> #[trigger] books@[j].path@ != p@,
            None => citation.path matches Some(p) ==> forall|j: int|
                0 <= j < books@.len() ==> #[trigger] books@[j].path@ != p@,
        },
{
    let wanted = match &citation.path {
        Some(p) => chars_of(p.as_str()),
        None => return None,
    };
    let mut i: usize = 0;
    while i < books.len()
        invariant
            i <= books.len(),
            citation.path matches Some(p) && wanted@ == p@,
            forall|j: int| 0 <= j < i ==> #[trigger] books@[j].path@ != wanted@,
        decreases books.len() - i,
    {
        if same(&chars_of(books[i].path.as_str()), &wanted) {
            return Some(i);
        }
        i += 1;
    }
    None
}

/// Any archive page as title, plain text and links.
pub struct GqlPage {
    pub path: String,
    pub title: String,
    pub text: String,
    pub links: Vec<GqlLink>,
    pub source: GqlSource,
}

impl GqlPage {
    /// The page, its links and source in the schema's types.
    pub fn of(p: Page) -> (g: GqlPage)
        ensures
            g.path == p.path && g.title == p.title && g.text == p.text,
            g.source == gql_source_of(p.source),
            g.links@.len() == p.links@.len(),
            forall|k: int| 0 <= k < g.links@.len() ==> #[trigger] g.links@[k].text == p.links@[k].text
                && g.links@[k].url == p.links@[k].url,
    {
        let Page { path, title, text, links, source } = p;
        let ghost all = links@;
        let mut rest = crate::text::reversed(links);
        let n = rest.len();
        let mut out: Vec<GqlLink> = Vec::new();
        let mut i: usize = 0;
        while i < n
            invariant
                i <= n,
                n == all.len(),
                rest@.len() == n - i,
                forall|k: int| 0 <= k < rest@.len() ==> #[trigger] rest@[k] == all[n - 1 - k],
                out@.len() == i,
                forall|k: int| 0 <= k < i ==> #[trigger] out@[k].text == all[k].text && out@[k].url == all[k].url,
            decreases n - i,
        {
            let l = rest.pop().unwrap();
            assert(l == all[i as int]);
            out.push(GqlLink::from(l));
            i += 1;
        }
        GqlPage { path, title, text, links: out, source: GqlSource::from(source) }
    }
}

/// A canal or inland-waterways song.
pub struct GqlWaterwaysSong {
    pub path: String,
    pub title: String,
    pub author: Option<String>,
    pub lyrics: Option<String>,
    pub notes: Vec<String>,
    pub recorded_by: Vec<String>,
    pub audio_url: Option<String>,
}

impl From<WaterwaysSong> for GqlWaterwaysSong {
    fn from(s: WaterwaysSong) -> (g: GqlWaterwaysSong) {
        GqlWaterwaysSong {
            path: s.path,
            title: s.title,
            author: s.author,
            lyrics: s.lyrics,
            notes: s.notes,
            recorded_by: s.recorded_by,
            audio_url: s.audio_url,
        }
    }
}

impl vstd::std_specs::convert::FromSpecImpl<WaterwaysSong> for GqlWaterwaysSong {
    open spec fn obeys_from_spec() -> bool {
        true
    }

    open spec fn from_spec(s: WaterwaysSong) -> GqlWaterwaysSong {
        GqlWaterwaysSong {
            path: s.path,
            title: s.title,
            author: s.author,
            lyrics: s.lyrics,
            notes: s.notes,
            recorded_by: s.recorded_by,
            audio_url: s.audio_url,
        }
    }
}

/// One credited artist's matching releases, as the record search groups them.
pub struct GqlArtistRecords {
    pub artist: String,
    pub albums: Vec<GqlAlbum>,
}

/// A song page.
pub struct GqlSong(pub Song);

impl GqlSong {
    /// The search behind a song's `sameRoud` edge: the archive's own search
    /// for the song's first Roud number, the archive's "these are the same
    /// song" key. None when the song carries no Roud number.
    pub fn same_roud_search(&self) -> (r: Option<SongSearch>)
        ensures
            match r {
                Some(q) => self.0.refs.roud@.len() > 0 && q.title is None && q.author is None
                    && q.scheme == Some(RefScheme::Roud) && q.number == Some(self.0.refs.roud@[0]),
                None => self.0.refs.roud@.len() == 0,
            },
    {
        if self.0.refs.roud.len() == 0 {
            None
        } else {
            Some(SongSearch {
                title: None,
                author: None,
                scheme: Some(RefScheme::Roud),
                number: Some(self.0.refs.roud[0].clone()),
            })
        }
    }
}

/// The summaries, in order, other than those of the page at `path`.
pub open spec fn other_pages(found: Seq<SongSummary>, path: Seq<char>) -> Seq<SongSummary>
    decreases found.len(),
{
    if found.len() == 0 {
        found
    } else {
        let prev = other_pages(found.drop_last(), path);
        if found.last().path@ == path {
            prev
        } else {
            prev.push(found.last())
        }
    }
}

/// A song's family never lists the song's own page, and keeps every other
/// result of the search.
pub proof fn law_a_family_leaves_out_its_own_page(found: Seq<SongSummary>, path: Seq<char>)
    ensures
        forall|k: int|
            0 <= k < other_pages(found, path).len() ==> #[trigger] other_pages(found, path)[k].path@
                != path,
        forall|k: int|
            0 <= k < found.len() && found[k].path@ != path ==> other_pages(found, path).contains(
                #[trigger] found[k],
            ),
    decreases found.len(),
{
    if found.len() > 0 {
        let init = found.drop_last();
        law_a_family_leaves_out_its_own_page(init, path);
        let prev = other_pages(init, path);
        let last = found.last();
        assert forall|k: int| 0 <= k < found.len() && found[k].path@ != path implies other_pages(
            found,
            path,
        ).contains(#[trigger] found[k]) by {
            if k < found.len() - 1 {
                assert(found[k] == init[k]);
                let j = choose|j: int| 0 <= j < prev.len() && prev[j] == init[k];
                if last.path@ != path {
                    assert(prev.push(last)[j] == init[k]);
                }
            } else {
                assert(prev.push(last)[prev.len() as int] == last);
            }
        }
        if last.path@ != path {
            assert forall|k: int| 0 <= k < prev.push(last).len() implies #[trigger] prev.push(last)[k].path@
                != path by {
                if k < prev.len() {
                    assert(prev.push(last)[k] == prev[k]);
                }
            }
        }
    }
}

/// The search results other than the page they were found for, so that a
/// song's family does not list the song itself.
pub fn others_than(found: Vec<SongSummary>, path: &str) -> (r: Vec<SongSummary>)
    ensures
        r@ == other_pages(found@, path@),
{
    let own = chars_of(path);
    let ghost all = found@;
    let mut rest = reversed(found);
    let mut out: Vec<SongSummary> = Vec::new();
    let n = rest.len();
    let mut i: usize = 0;
    while i < n
        invariant
            i <= n,
            n == all.len(),
            own@ == path@,
            rest@.len() == n - i,
            forall|k: int| 0 <= k < rest@.len() ==> #[trigger] rest@[k] == all[n - 1 - k],
            out@ == other_pages(all.take(i as int), path@),
        decreases n - i,
    {
        let s = rest.pop().unwrap();
        assert(s == all[i as int]);
        assert(all.take(i + 1).drop_last() =~= all.take(i as int));
        if !same(&chars_of(s.path.as_str()), &own) {
            out.push(s);
        }
        i += 1;
    }
    assert(all.take(n as int) =~= all);
    out
}

/// A song as an index or search result lists it.
pub struct GqlSongSummary(pub SongSummary);

/// One artist's claim on a song page.
pub struct GqlAttribution(pub Attribution);

/// An artist with a section of the archive.
pub struct GqlArtist(pub Artist);

/// One release.
pub struct GqlAlbum(pub Album);

/// A track on an album page.
pub struct GqlTrack(pub Track);

/// A record label with a discography page.
pub struct GqlLabel(pub Label);

/// A recording of a song, as cited in a song page's prose. Recordings have
/// no id of their own; their position in the page is the cursor.
pub struct GqlRecording {
    recording: Recording,
    cursor: String,
}

impl GqlRecording {
    pub closed spec fn spec_recording(&self) -> Recording {
        self.recording
    }

    pub closed spec fn spec_cursor(&self) -> Seq<char> {
        self.cursor@
    }

    /// The recording at `index` in its page's prose.
    pub fn at(index: usize, recording: Recording) -> (g: GqlRecording)
        ensures
            g.spec_recording() == recording,
            g.spec_cursor() == decimal(index as nat),
    {
        GqlRecording { recording, cursor: decimal_string(index) }
    }

    pub fn recording(&self) -> (r: &Recording)
        ensures
            *r == self.spec_recording(),
    {
        &self.recording
    }

    pub fn cursor(&self) -> (r: &String)
        ensures
            r@ == self.spec_cursor(),
    {
        &self.cursor
    }
}

} // verus!
