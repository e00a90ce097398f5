//! The keys the per-request loaders are indexed by, and what the index loader
//! hands back.
//!
//! A key decides what counts as "the same page": two keys that compare equal
//! are one fetch and one parse within a request. So a key drops what does not
//! change the GET (a `#fragment`), and an artist key collapses every spelling
//! the archive's own markup uses for one artist's directory.
use std::sync::Arc;

use vstd::prelude::*;

use crate::archive::paths;
use crate::archive::SongQuery;
use crate::client::{opt_chars, split_fragment};
use crate::mcp::graphql::types::{key_of_scheme, RefScheme};
use crate::models::{Book, Label, SongSummary, Source};
use crate::text::{
    chars_of, contains, ends_with, find_first, has_suffix, lemma_find_first_is, lemma_find_none,
    occurs_at, slice_copy, split_once, string_of, strips, trail, trim_end_by, trim_end_chars, Strip,
};

verus! {

/// `s` up to its first `#`, or all of it.
pub open spec fn unfragmented(s: Seq<char>) -> Seq<char> {
    match split_once(s, "#"@) {
        Some((p, _)) => p,
        None => s,
    }
}

/// One page on one archive.
#[derive(Clone, Hash, PartialEq, Eq, Debug)]
pub struct PageKey {
    pub source: Source,
    pub path: String,
}

impl PageKey {
    /// Build a key, dropping any `#fragment`: one album page documents
    /// several releases, told apart by fragment, and it is still one GET.
    pub fn new(source: Source, path: &str) -> (k: Self)
        ensures
            k.source == source,
            k.path@ == unfragmented(path@),
    {
        let v = chars_of(path);
        let (p, _fragment) = split_fragment(&v);
        PageKey { source, path: string_of(&p) }
    }
}

proof fn lemma_no_hash_first(p: Seq<char>, f: Seq<char>)
    requires
        !contains(p, "#"@),
    ensures
        unfragmented(p + "#"@ + f) == p,
        unfragmented(p) == p,
{
    reveal_strlit("#");
    let s = p + "#"@ + f;
    assert(s.subrange(p.len() as int, p.len() + 1 as int) =~= "#"@);
    assert(occurs_at(s, "#"@, p.len() as int));
    assert forall|j: int| 0 <= j < p.len() implies !occurs_at(s, "#"@, j) by {
        if occurs_at(s, "#"@, j) {
            assert(s.subrange(j, j + 1) == "#"@);
            assert(p.subrange(j, j + 1) =~= s.subrange(j, j + 1));
            assert(occurs_at(p, "#"@, j));
        }
    }
    lemma_find_first_is(s, "#"@, p.len() as int);
    assert(s.take(p.len() as int) =~= p);
    assert forall|j: int| !occurs_at(p, "#"@, j) by {}
    lemma_find_none(p, "#"@);
}

/// A fragment does not make a second fetch: a path with a `#fragment` is
/// the same page key as the path alone, whatever the fragment.
pub proof fn law_fragments_share_a_key(path: Seq<char>, fragment: Seq<char>)
    requires
        !contains(path, "#"@),
    ensures
        unfragmented(path + "#"@ + fragment) == unfragmented(path),
{
    lemma_no_hash_first(path, fragment);
}

/// `p` less a trailing `index.html`, or else a trailing `index.htm`.
pub open spec fn without_index(p: Seq<char>) -> Seq<char> {
    if ends_with(p, "index.html"@) {
        p.take(p.len() - 10)
    } else if ends_with(p, "index.htm"@) {
        p.take(p.len() - 9)
    } else {
        p
    }
}

/// The directory form of an artist path: fragment and index file dropped,
/// exactly one trailing `/`.
pub open spec fn artist_key_of(path: Seq<char>) -> Seq<char> {
    trim_end_by(without_index(unfragmented(path)), Strip::Ch('/')) + "/"@
}

/// Every spelling the archive uses for an artist's directory is one key:
/// the directory with or without its trailing `/`, its `index.html` or
/// `index.htm`, or any `#fragment`, all give the directory form with one
/// `/`. Stated for a directory named without a trailing `/` or index file,
/// which the bare spelling would otherwise drop.
pub proof fn law_artist_spellings_agree(dir: Seq<char>, fragment: Seq<char>)
    requires
        !contains(dir, "#"@),
        dir.len() > 0,
        dir.last() != '/',
        !ends_with(dir, "index.html"@),
        !ends_with(dir, "index.htm"@),
    ensures
        artist_key_of(dir) == dir + "/"@,
        artist_key_of(dir + "/"@) == dir + "/"@,
        artist_key_of(dir + "/index.html"@) == dir + "/"@,
        artist_key_of(dir + "/index.htm"@) == dir + "/"@,
        artist_key_of(dir + "/#"@ + fragment) == dir + "/"@,
{
    reveal_strlit("/");
    reveal_strlit("#");
    reveal_strlit("/#");
    reveal_strlit("index.html");
    reveal_strlit("index.htm");
    reveal_strlit("/index.html");
    reveal_strlit("/index.htm");
    let slash = dir + "/"@;
    let html = dir + "/index.html"@;
    let htm = dir + "/index.htm"@;
    // None of the spellings holds a `#` before the fragment.
    assert forall|j: int| !occurs_at(slash, "#"@, j) by {
        if occurs_at(slash, "#"@, j) {
            assert(slash.subrange(j, j + 1)[0] == "#"@[0]);
            assert(slash[j] == '#');
            if j < dir.len() {
                assert(dir.subrange(j, j + 1) =~= "#"@);
                assert(occurs_at(dir, "#"@, j));
            }
        }
    }
    assert(!contains(slash, "#"@));
    assert forall|j: int| !occurs_at(html, "#"@, j) by {
        if occurs_at(html, "#"@, j) {
            assert(html.subrange(j, j + 1)[0] == "#"@[0]);
            assert(html[j] == '#');
            if j < dir.len() {
                assert(dir.subrange(j, j + 1) =~= "#"@);
                assert(occurs_at(dir, "#"@, j));
            }
        }
    }
    assert(!contains(html, "#"@));
    assert forall|j: int| !occurs_at(htm, "#"@, j) by {
        if occurs_at(htm, "#"@, j) {
            assert(htm.subrange(j, j + 1)[0] == "#"@[0]);
            assert(htm[j] == '#');
            if j < dir.len() {
                assert(dir.subrange(j, j + 1) =~= "#"@);
                assert(occurs_at(dir, "#"@, j));
            }
        }
    }
    assert(!contains(htm, "#"@));
    lemma_no_hash_first(dir, fragment);
    lemma_no_hash_first(slash, fragment);
    lemma_no_hash_first(html, fragment);
    lemma_no_hash_first(htm, fragment);
    assert(dir + "/#"@ + fragment =~= slash + "#"@ + fragment);
    // Index files.
    assert(!ends_with(slash, "index.html"@)) by {
        if ends_with(slash, "index.html"@) {
            let t = slash.skip(slash.len() - 10);
            assert(t[9] == slash.last());
            assert("index.html"@[9] == 'l');
        }
    }
    assert(!ends_with(slash, "index.htm"@)) by {
        if ends_with(slash, "index.htm"@) {
            let t = slash.skip(slash.len() - 9);
            assert(t[8] == slash.last());
            assert("index.htm"@[8] == 'm');
        }
    }
    assert(html.skip(html.len() - 10) =~= "index.html"@);
    assert(html.take(html.len() - 10) =~= slash);
    assert(!ends_with(htm, "index.html"@)) by {
        if ends_with(htm, "index.html"@) {
            let t = htm.skip(htm.len() - 10);
            assert(t[9] == htm.last());
            assert(htm.last() == 'm');
            assert("index.html"@[9] == 'l');
        }
    }
    assert(htm.skip(htm.len() - 9) =~= "index.htm"@);
    assert(htm.take(htm.len() - 9) =~= slash);
    // Trailing slashes.
    assert(trail(dir, Strip::Ch('/')) == 0);
    assert(slash.drop_last() =~= dir);
    assert(trail(slash, Strip::Ch('/')) == 1);
    assert(trim_end_by(dir, Strip::Ch('/')) =~= dir);
    assert(trim_end_by(slash, Strip::Ch('/')) =~= dir);
}

proof fn lemma_trail_stops(s: Seq<char>, k: Strip)
    ensures
        trail(s, k) <= s.len(),
        trim_end_by(s, k).len() == 0 || !strips(k, trim_end_by(s, k).last()),
    decreases s.len(),
{
    if s.len() > 0 && strips(k, s.last()) {
        lemma_trail_stops(s.drop_last(), k);
        assert(trim_end_by(s, k) =~= trim_end_by(s.drop_last(), k));
    }
}

proof fn lemma_unfragmented_has_no_hash(s: Seq<char>)
    ensures
        forall|j: int| 0 <= j < unfragmented(s).len() ==> unfragmented(s)[j] != '#',
{
    reveal_strlit("#");
    reveal(find_first);
    if exists|i: int| occurs_at(s, "#"@, i) {
        let w = choose|i: int| occurs_at(s, "#"@, i);
        crate::client::lemma_least_occurrence(s, "#"@, w);
        let i = find_first(s, "#"@).unwrap();
        let p = s.take(i);
        assert(unfragmented(s) == p);
        assert forall|j: int| 0 <= j < p.len() implies p[j] != '#' by {
            if p[j] == '#' {
                assert(s.subrange(j, j + 1) =~= "#"@);
                assert(occurs_at(s, "#"@, j));
            }
        }
    } else {
        assert forall|j: int| 0 <= j < s.len() implies s[j] != '#' by {
            if s[j] == '#' {
                assert(s.subrange(j, j + 1) =~= "#"@);
                assert(occurs_at(s, "#"@, j));
            }
        }
    }
}

/// An artist key is canonical: it ends in `/`, holds no `#`, and is its own
/// key, so a key handed back to [`artist_key`] names the same artist.
pub proof fn law_artist_keys_are_canonical(path: Seq<char>)
    ensures
        ends_with(artist_key_of(path), "/"@),
        !contains(artist_key_of(path), "#"@),
        artist_key_of(artist_key_of(path)) == artist_key_of(path),
{
    reveal_strlit("/");
    reveal_strlit("#");
    reveal_strlit("index.html");
    reveal_strlit("index.htm");
    let u = unfragmented(path);
    lemma_unfragmented_has_no_hash(path);
    let w = without_index(u);
    assert(w.len() <= u.len());
    assert(forall|j: int| 0 <= j < w.len() ==> w[j] == u[j]);
    let d = trim_end_by(w, Strip::Ch('/'));
    lemma_trail_stops(w, Strip::Ch('/'));
    assert(forall|j: int| 0 <= j < d.len() ==> d[j] == w[j]);
    let k = d + "/"@;
    assert(k == artist_key_of(path));
    assert(k.skip(k.len() - 1) =~= "/"@);
    assert forall|j: int| !occurs_at(k, "#"@, j) by {
        if occurs_at(k, "#"@, j) {
            assert(k.subrange(j, j + 1)[0] == k[j]);
            assert(k[j] == '#');
            if j < d.len() {
                assert(k[j] == d[j]);
            }
        }
    }
    lemma_find_none(k, "#"@);
    assert(unfragmented(k) == k);
    assert(!ends_with(k, "index.html"@)) by {
        if ends_with(k, "index.html"@) {
            assert(k.skip(k.len() - 10)[9] == k.last());
        }
    }
    assert(!ends_with(k, "index.htm"@)) by {
        if ends_with(k, "index.htm"@) {
            assert(k.skip(k.len() - 9)[8] == k.last());
        }
    }
    assert(without_index(k) == k);
    assert(k.drop_last() =~= d);
    if d.len() > 0 {
        assert(k[k.len() - 2] == d.last());
    }
    assert(trail(d, Strip::Ch('/')) == 0);
    assert(trail(k, Strip::Ch('/')) == 1);
    assert(trim_end_by(k, Strip::Ch('/')) =~= d);
}

fn strip_index(p: Vec<char>) -> (r: Vec<char>)
    ensures
        r@ == without_index(p@),
{
    let html = chars_of("index.html");
    let htm = chars_of("index.htm");
    proof {
        reveal_strlit("index.html");
        reveal_strlit("index.htm");
    }
    assert(html@.len() == 10);
    assert(htm@.len() == 9);
    if has_suffix(&p, &html) {
        slice_copy(&p, 0, p.len() - 10)
    } else if has_suffix(&p, &htm) {
        slice_copy(&p, 0, p.len() - 9)
    } else {
        p
    }
}

/// The canonical key for an artist: the directory form, `/martin.carthy/`.
/// The archive serves `/martin.carthy/` and `/martin.carthy/index.html` as one
/// page and its markup uses both, so they must be one key. A key ends in
/// `/`, holds no `#`, and is its own key.
pub fn artist_key(path: &str) -> (r: String)
    ensures
        r@ == artist_key_of(path@),
        ends_with(r@, "/"@),
        !contains(r@, "#"@),
        artist_key_of(r@) == r@,
{
    proof {
        law_artist_keys_are_canonical(path@);
    }
    let v = chars_of(path);
    let (p, _fragment) = split_fragment(&v);
    let stem = strip_index(p);
    let mut out = trim_end_chars(&stem, &Strip::Ch('/'));
    out.push('/');
    proof {
        reveal_strlit("/");
    }
    assert(out@ =~= trim_end_by(without_index(unfragmented(path@)), Strip::Ch('/')) + "/"@);
    string_of(&out)
}

/// One of the archive's generated whole-list pages.
#[derive(Clone, Copy, Hash, PartialEq, Eq, Debug, Structural)]
pub enum IndexKind {
    /// The Child ballads the archive covers.
    Child,
    /// The Laws index: American ballads of British origin.
    Laws,
    /// Every song and tune on the archive.
    Songs,
    /// The record labels with a discography, read from the site navigation.
    Labels,
    /// The bibliography.
    Books,
}

pub open spec fn index_path_of(k: IndexKind) -> Seq<char> {
    match k {
        IndexKind::Child => paths::CHILD_INDEX@,
        IndexKind::Laws => paths::LAWS_INDEX@,
        IndexKind::Songs => paths::SONG_INDEX@,
        IndexKind::Labels => paths::FOLK@,
        IndexKind::Books => paths::BOOKS@,
    }
}

impl IndexKind {
    /// The page each index is read from.
    pub fn path(self) -> (r: &'static str)
        ensures
            r@ == index_path_of(self),
    {
        match self {
            IndexKind::Child => paths::CHILD_INDEX,
            IndexKind::Laws => paths::LAWS_INDEX,
            IndexKind::Songs => paths::SONG_INDEX,
            IndexKind::Labels => paths::FOLK,
            IndexKind::Books => paths::BOOKS,
        }
    }
}

/// `Arc::clone`: another handle on the same allocation.
#[verifier::external_body]
fn share<T>(a: &Arc<T>) -> (r: Arc<T>)
    ensures
        r == *a,
{
    a.clone()
}

/// What an index page parses into, held by `Arc` so every resolver asking
/// shares one parse.
#[derive(Clone)]
pub enum Index {
    Songs(Arc<Vec<SongSummary>>),
    Labels(Arc<Vec<Label>>),
    Books(Arc<Vec<Book>>),
}

impl Index {
    pub fn songs(&self) -> (r: Option<Arc<Vec<SongSummary>>>)
        ensures
            match self {
                Index::Songs(s) => r == Some(*s),
                _ => r is None,
            },
    {
        match self {
            Index::Songs(songs) => Some(share(songs)),
            _ => None,
        }
    }

    pub fn labels(&self) -> (r: Option<Arc<Vec<Label>>>)
        ensures
            match self {
                Index::Labels(l) => r == Some(*l),
                _ => r is None,
            },
    {
        match self {
            Index::Labels(labels) => Some(share(labels)),
            _ => None,
        }
    }

    pub fn books(&self) -> (r: Option<Arc<Vec<Book>>>)
        ensures
            match self {
                Index::Books(b) => r == Some(*b),
                _ => r is None,
            },
    {
        match self {
            Index::Books(books) => Some(share(books)),
            _ => None,
        }
    }
}

/// Parse an index page into what its kind holds: the record labels from the
/// site navigation, the bibliography, or a song list. The page is the one
/// [`IndexKind::path`] names, and its links resolve against that path.
pub fn parse_index(kind: IndexKind, html: &str) -> (r: Index)
    ensures
        match kind {
            IndexKind::Labels => r matches Index::Labels(l) && crate::parse::index::labels_view(l@)
                == crate::parse::index::labels_of(html@),
            IndexKind::Books => r matches Index::Books(b) && crate::parse::book::books_view(b@)
                == crate::parse::book::books_of(html@, index_path_of(kind)),
            _ => r matches Index::Songs(s) && crate::parse::index::summaries_view(s@)
                == crate::parse::index::song_list_of(html@, index_path_of(kind)),
        },
{
    match kind {
        IndexKind::Labels => Index::Labels(Arc::new(crate::parse::labels(html))),
        IndexKind::Books => Index::Books(Arc::new(crate::parse::books(html, kind.path()))),
        _ => Index::Songs(Arc::new(crate::parse::song_list(html, kind.path()))),
    }
}

/// A song search, in a form that can be a loader key: [`SongQuery`] with
/// the schema's own scheme enum.
#[derive(Clone, Hash, PartialEq, Eq, Debug)]
pub struct SongSearch {
    pub title: Option<String>,
    pub author: Option<String>,
    pub scheme: Option<RefScheme>,
    pub number: Option<String>,
}

impl Default for SongSearch {
    fn default() -> (s: SongSearch)
        ensures
            s.title is None && s.author is None && s.scheme is None && s.number is None,
    {
        SongSearch { title: None, author: None, scheme: None, number: None }
    }
}

fn copy_opt(o: &Option<String>) -> (r: Option<String>)
    ensures
        r == *o,
{
    match o {
        Some(s) => Some(s.clone()),
        None => None,
    }
}

impl SongSearch {
    /// The `search.php` query this key stands for: every field carried over,
    /// the scheme as the form's key.
    pub fn to_query(&self) -> (q: SongQuery)
        ensures
            q.title == self.title,
            q.author == self.author,
            q.keyval == self.number,
            q.key == match self.scheme {
                Some(s) => Some(key_of_scheme(s)),
                None => None,
            },
    {
        let key = match self.scheme {
            Some(s) => Some(crate::archive::RefKey::from(s)),
            None => None,
        };
        SongQuery {
            title: copy_opt(&self.title),
            author: copy_opt(&self.author),
            key,
            keyval: copy_opt(&self.number),
        }
    }
}

} // verus!
